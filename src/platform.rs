//! The target a function is compiled for, and the page size it is laid out in.
use vstd::prelude::*;

use crate::error::PlatformError;

verus! {

/// A processor architecture.
#[allow(non_camel_case_types)]
#[derive(Debug, Clone, Copy, PartialEq, Eq, Structural)]
pub enum CpuArch {
    Unknown,
    X86,
    X86_64,
    ARMv8,
    Aarch64,
}

/// An operating system.
#[derive(Debug, Clone, Copy, PartialEq, Eq, Structural)]
pub enum OperatingSystem {
    Unknown,
    Unix,
    Linux,
    MacOS,
    Windows,
    BSD,
}

/// One side of a target.
#[derive(Debug, Clone, Copy, PartialEq, Eq, Structural)]
pub enum PlatformKind {
    Arch(CpuArch),
    Os(OperatingSystem),
}

/// The smallest multiple of `ps` at or above `n`.
pub open spec fn round_up(n: int, ps: int) -> int {
    if n % ps == 0 {
        n
    } else {
        n - n % ps + ps
    }
}

/// The rounded size is the smallest multiple of `ps` at or above `n`.
pub proof fn lemma_round_up(n: int, ps: int)
    requires
        0 <= n,
        0 < ps,
    ensures
        round_up(n, ps) >= n,
        round_up(n, ps) < n + ps,
        round_up(n, ps) % ps == 0,
{
    let q = n / ps;
    let r = n % ps;
    assert(n == q * ps + r && 0 <= r < ps) by (nonlinear_arith)
        requires
            q == n / ps,
            r == n % ps,
            ps > 0,
    ;
    assert(q * ps % ps == 0 && (q + 1) * ps % ps == 0) by (nonlinear_arith)
        requires
            ps > 0,
    ;
    assert((q + 1) * ps == q * ps + ps) by (nonlinear_arith);
}

/// The target that code is compiled for, and its page size once known (zero
/// until then).
#[derive(Debug, Clone, Copy, PartialEq, Eq, Structural)]
pub struct Platform {
    page_size: usize,
    arch: CpuArch,
    os: OperatingSystem,
}

impl Platform {
    /// A platform whose page size is not known yet.
    pub fn new(arch: CpuArch, os: OperatingSystem) -> (r: Platform)
        ensures
            r.spec_page_size() == 0,
            r.spec_arch() == arch,
            r.spec_os() == os,
    {
        Platform { page_size: 0, arch, os }
    }

    /// The cached page size; zero until it is known.
    pub closed spec fn spec_page_size(&self) -> usize {
        self.page_size
    }

    /// The architecture.
    pub closed spec fn spec_arch(&self) -> CpuArch {
        self.arch
    }

    /// The operating system.
    pub closed spec fn spec_os(&self) -> OperatingSystem {
        self.os
    }

    /// Caches the page size that the operating system reported; a report that
    /// is not a positive size leaves the platform as it was.
    pub fn cache_page_size(&mut self, reported: i64) -> (r: Result<(), PlatformError>)
        ensures
            final(self).spec_arch() == old(self).spec_arch(),
            final(self).spec_os() == old(self).spec_os(),
            0 < reported <= usize::MAX ==> r is Ok && final(self).spec_page_size() == reported,
            !(0 < reported <= usize::MAX) ==> r == Err::<(), PlatformError>(
                PlatformError::Uninitialized,
            ) && *final(self) == *old(self),
    {
        if reported > 0 && reported as u64 <= usize::MAX as u64 {
            self.page_size = reported as usize;
            Ok(())
        } else {
            Err(PlatformError::Uninitialized)
        }
    }

    /// The cached page size; zero until it is known.
    pub fn page_size(&self) -> (r: usize)
        ensures
            r == self.spec_page_size(),
    {
        self.page_size
    }

    /// The architecture.
    pub fn arch(&self) -> (r: CpuArch)
        ensures
            r == self.spec_arch(),
    {
        self.arch
    }

    /// The operating system.
    pub fn os(&self) -> (r: OperatingSystem)
        ensures
            r == self.spec_os(),
    {
        self.os
    }

    /// The number of bytes to map for `requested` bytes: whole pages,
    /// `ceil(requested / page_size) * page_size`.
    pub fn page_align(&self, requested: usize) -> (r: Result<usize, PlatformError>)
        ensures
            self.spec_page_size() == 0 ==> r == Err::<usize, PlatformError>(
                PlatformError::Uninitialized,
            ),
            self.spec_page_size() > 0 ==> match r {
                Ok(n) => n == round_up(requested as int, self.spec_page_size() as int),
                Err(e) => e == PlatformError::OutOfMemory && round_up(
                    requested as int,
                    self.spec_page_size() as int,
                ) > usize::MAX,
            },
            r matches Ok(n) ==> n % self.spec_page_size() == 0 && n >= requested && n
                < requested + self.spec_page_size(),
    {
        let ps = self.page_size;
        if ps == 0 {
            return Err(PlatformError::Uninitialized);
        }
        let rem = requested % ps;
        if rem == 0 {
            return Ok(requested);
        }
        assert(rem <= requested) by (nonlinear_arith)
            requires
                rem == requested as int % ps as int,
                ps > 0,
        ;
        let base = requested - rem;
        if base > usize::MAX - ps {
            return Err(PlatformError::OutOfMemory);
        }
        let r = base + ps;
        proof {
            let q = requested as int / ps as int;
            assert(requested as int == q * ps + rem) by (nonlinear_arith)
                requires
                    q == requested as int / ps as int,
                    rem == requested as int % ps as int,
                    ps > 0,
            ;
            assert((q + 1) * ps % (ps as int) == 0) by (nonlinear_arith)
                requires
                    ps > 0,
            ;
            assert((q + 1) * ps == r) by (nonlinear_arith)
                requires
                    requested as int == q * ps + rem,
                    r == requested - rem + ps,
            ;
        }
        Ok(r)
    }
}

} // verus!

//! Functions on their way from bytecode to an executable page.
use vstd::prelude::*;

use vstd::utf8::{decode_utf8, valid_utf8};

use crate::decode::copy_bytes;
use crate::error::{ExecutableFormatError, PlatformError, TranspileError, VmError};
use crate::jit::{jit, lemma_jit_ends_with_ret, lemma_nops_then_ret, transpile, CodeBuffer, X86_NOP, X86_RET};
use crate::platform::{lemma_round_up, round_up, CpuArch, Platform, PlatformKind};

verus! {

/// Something with a size in bytes.
pub trait Function: Sized {
    /// The size in bytes.
    spec fn spec_size(&self) -> nat;

    /// The size in bytes.
    fn size(&self) -> (r: usize)
        ensures
            r == self.spec_size(),
    ;
}

/// What a raw function holds: its bytes and its cursor.
pub struct RawFnView {
    pub bytes: Seq<u8>,
    pub head: nat,
    pub tail: nat,
}

/// The bytes of a raw function from its head on.
pub open spec fn bytecode(r: RawFnView) -> Seq<u8> {
    r.bytes.subrange(r.head as int, r.bytes.len() as int)
}

/// A function in bytecode form, with a cursor over its bytes.
#[derive(Debug)]
pub struct RawFn {
    bytes: Vec<u8>,
    head: usize,
    tail: usize,
}

impl View for RawFn {
    type V = RawFnView;

    closed spec fn view(&self) -> RawFnView {
        RawFnView { bytes: self.bytes@, head: self.head as nat, tail: self.tail as nat }
    }
}

impl RawFn {
    #[verifier::type_invariant]
    spec fn inv(&self) -> bool {
        self.tail <= self.head <= self.bytes.len()
    }

    /// A raw function over a copy of `buf`, its cursor at the start.
    pub fn new(buf: &[u8]) -> (r: RawFn)
        ensures
            r@ == (RawFnView { bytes: buf@, head: 0, tail: 0 }),
            r.spec_size() == buf@.len(),
    {
        let bytes = copy_bytes(buf, 0, buf.len());
        assert(buf@.subrange(0, buf@.len() as int) =~= buf@);
        RawFn { bytes, head: 0, tail: 0 }
    }

    /// The bytes from the head on.
    pub fn bytecode(&self) -> (r: &[u8])
        ensures
            r@ == bytecode(self@),
    {
        proof {
            use_type_invariant(self);
        }
        vstd::slice::slice_subrange(self.bytes.as_slice(), self.head, self.bytes.len())
    }
}

impl Function for RawFn {
    closed spec fn spec_size(&self) -> nat {
        self.bytes@.len()
    }

    fn size(&self) -> (r: usize) {
        self.bytes.len()
    }
}

/// The byte that ends a function's name in its header.
pub const NAME_END: u8 = 0x3B;

/// The byte that ends a function's argument types in its header.
pub const ARGS_END: u8 = 0xFF;

/// The first index at or after `k` that holds `b`.
pub open spec fn find_from(s: Seq<u8>, k: int, b: u8) -> Option<int>
    decreases s.len() - k,
{
    if k < 0 || k >= s.len() {
        None
    } else if s[k] == b {
        Some(k)
    } else {
        find_from(s, k + 1, b)
    }
}

/// The header of a raw function: its name, argument types and return type.
pub struct FnHeader {
    pub name: Seq<u8>,
    pub args: Seq<u8>,
    pub ret: u8,
    pub code_start: int,
}

/// The header at `head`: name bytes up to `;`, argument type bytes up to
/// `0xFF`, one return type byte; the bytecode follows it.
pub open spec fn parse_header(s: Seq<u8>, head: int) -> Option<FnHeader> {
    match find_from(s, head, NAME_END) {
        None => None,
        Some(i) => match find_from(s, i + 1, ARGS_END) {
            None => None,
            Some(j) => if j + 1 >= s.len() {
                None
            } else {
                Some(
                    FnHeader {
                        name: s.subrange(head, i),
                        args: s.subrange(i + 1, j),
                        ret: s[j + 1],
                        code_start: j + 2,
                    },
                )
            },
        },
    }
}

/// A found index lies at or after where the search began.
proof fn lemma_find_from(s: Seq<u8>, k: int, b: u8)
    ensures
        find_from(s, k, b) matches Some(i) ==> k <= i < s.len() && s[i] == b,
    decreases s.len() - k,
{
    if 0 <= k < s.len() && s[k] != b {
        lemma_find_from(s, k + 1, b);
    }
}

/// The first index at or after `k` that holds `b`.
fn find(s: &[u8], k: usize, b: u8) -> (r: Option<usize>)
    ensures
        match r {
            Some(i) => find_from(s@, k as int, b) == Some(i as int),
            None => find_from(s@, k as int, b) is None,
        },
{
    let mut i = k;
    while i < s.len()
        invariant
            k <= i,
            find_from(s@, k as int, b) == find_from(s@, i as int, b),
        decreases s.len() - i,
    {
        if s[i] == b {
            return Some(i);
        }
        i = i + 1;
    }
    None
}

/// The text of a name: its bytes read as UTF-8, each malformed sequence
/// replaced by U+FFFD.
pub uninterp spec fn utf8_lossy(b: Seq<u8>) -> Seq<char>;

/// Relies on `String::from_utf8_lossy`: the text depends on the bytes alone,
/// and valid UTF-8 is decoded as it stands.
#[verifier::external_body]
fn name_text(b: &[u8]) -> (r: String)
    ensures
        r@ == utf8_lossy(b@),
        valid_utf8(b@) ==> r@ == decode_utf8(b@),
{
    String::from_utf8_lossy(b).into_owned()
}

/// The protection of a function's page: writable or executable, never both.
#[derive(Debug, Clone, Copy, PartialEq, Eq, Structural)]
pub enum Protection {
    ReadWrite,
    ReadExecute,
}

/// What a native function holds.
pub struct NativeFnView {
    pub prot: Protection,
    pub page_size: nat,
    pub size: nat,
    pub code: Seq<u8>,
    pub name: Seq<char>,
    pub args: Seq<u8>,
    pub ret: u8,
}

/// Whether the page may be written.
pub open spec fn writable(f: NativeFnView) -> bool {
    f.prot == Protection::ReadWrite
}

/// Whether the page may be executed.
pub open spec fn executable(f: NativeFnView) -> bool {
    f.prot == Protection::ReadExecute
}

/// `f` with its page under the protection `p`.
pub open spec fn with_prot(f: NativeFnView, p: Protection) -> NativeFnView {
    NativeFnView {
        prot: p,
        page_size: f.page_size,
        size: f.size,
        code: f.code,
        name: f.name,
        args: f.args,
        ret: f.ret,
    }
}

/// What every native function keeps: its code ends with a return, and its
/// page is the smallest run of whole pages that holds the code.
pub open spec fn wf_native(f: NativeFnView) -> bool {
    &&& f.page_size > 0
    &&& f.code.len() >= 1
    &&& f.code.last() == X86_RET
    &&& f.size == round_up(f.code.len() as int, f.page_size as int)
}

/// Machine code in its own page, with the function's name, argument types
/// and return type. The page is writable until it is made executable, and
/// executable from then on.
#[derive(Debug)]
pub struct NativeFn {
    prot: Protection,
    page_size: usize,
    size: usize,
    code: Vec<u8>,
    name: String,
    args: Vec<u8>,
    ret: u8,
}

impl View for NativeFn {
    type V = NativeFnView;

    closed spec fn view(&self) -> NativeFnView {
        NativeFnView {
            prot: self.prot,
            page_size: self.page_size as nat,
            size: self.size as nat,
            code: self.code@,
            name: self.name@,
            args: self.args@,
            ret: self.ret,
        }
    }
}

impl RawFn {
    /// Compiles the function: reads its header from the head, compiles the
    /// bytecode after it into a buffer of whole pages, and records the result
    /// with the page writable.
    pub fn compile(self, platform: &Platform) -> (r: Result<NativeFn, VmError>)
        ensures
            match parse_header(self@.bytes, self@.head as int) {
                None => r == Err::<NativeFn, VmError>(
                    VmError::Format(ExecutableFormatError::MissingTerminator),
                ),
                Some(h) => {
                    let ps = platform.spec_page_size();
                    let arch = platform.spec_arch();
                    let out = jit(self@.bytes.subrange(h.code_start, self@.bytes.len() as int));
                    &&& ps == 0 ==> r == Err::<NativeFn, VmError>(
                        VmError::Platform(PlatformError::Uninitialized),
                    )
                    &&& ps > 0 && arch != CpuArch::X86_64 ==> r == Err::<NativeFn, VmError>(
                        VmError::Transpile(
                            TranspileError::UnsupportedPlatform(PlatformKind::Arch(arch)),
                        ),
                    )
                    &&& ps > 0 && arch == CpuArch::X86_64 ==> match r {
                        Ok(f) => out.1 is None && (valid_utf8(h.name) ==> f@.name == decode_utf8(
                            h.name,
                        )) && f@ == (NativeFnView {
                            prot: Protection::ReadWrite,
                            page_size: ps as nat,
                            size: round_up(out.0.len() as int, ps as int) as nat,
                            code: out.0,
                            name: utf8_lossy(h.name),
                            args: h.args,
                            ret: h.ret,
                        }),
                        Err(VmError::Transpile(e)) => out.1 == Some(e),
                        Err(VmError::Platform(e)) => e == PlatformError::OutOfMemory && out.0.len()
                            + ps > usize::MAX,
                        Err(VmError::Format(_)) => false,
                    }
                },
            },
    {
        proof {
            use_type_invariant(&self);
        }
        let bytes = self.bytes.as_slice();
        let i = match find(bytes, self.head, NAME_END) {
            Some(i) => i,
            None => return Err(VmError::Format(ExecutableFormatError::MissingTerminator)),
        };
        proof {
            lemma_find_from(bytes@, self.head as int, NAME_END);
        }
        let j = match find(bytes, i + 1, ARGS_END) {
            Some(j) => j,
            None => return Err(VmError::Format(ExecutableFormatError::MissingTerminator)),
        };
        proof {
            lemma_find_from(bytes@, i + 1, ARGS_END);
        }
        if j + 1 >= bytes.len() {
            return Err(VmError::Format(ExecutableFormatError::MissingTerminator));
        }
        let name_bytes = copy_bytes(bytes, self.head, i - self.head);
        let name = name_text(name_bytes.as_slice());
        let args = copy_bytes(bytes, i + 1, j - (i + 1));
        let ret = bytes[j + 1];
        let mut buf = match CodeBuffer::new(platform) {
            Ok(b) => b,
            Err(e) => return Err(VmError::Platform(e)),
        };
        let code_start = j + 2;
        let body = RawFn { bytes: self.bytes, head: code_start, tail: code_start };
        let ghost bc = crate::native::bytecode(body@);
        match transpile(body, &mut buf, platform) {
            Ok(_) => {},
            Err(e) => return Err(e),
        }
        let ps = platform.page_size();
        let code = buf.into_code();
        assert(code@ == jit(bc).0);
        let size = match platform.page_align(code.len()) {
            Ok(n) => n,
            Err(e) => {
                proof {
                    lemma_round_up(code.len() as int, ps as int);
                }
                return Err(VmError::Platform(e));
            },
        };
        proof {
            lemma_jit_ends_with_ret(bc, 0, 0, Seq::empty());
        }
        Ok(NativeFn { prot: Protection::ReadWrite, page_size: ps, size, code, name, args, ret })
    }
}

impl NativeFn {
    #[verifier::type_invariant]
    spec fn inv(&self) -> bool {
        wf_native(self@)
    }

    /// The function's name.
    pub fn name(&self) -> (r: &str)
        ensures
            r@ == self@.name,
    {
        self.name.as_str()
    }

    /// The type bytes of the arguments.
    pub fn args(&self) -> (r: &[u8])
        ensures
            r@ == self@.args,
    {
        self.args.as_slice()
    }

    /// The machine code; its last byte is a return.
    pub fn code(&self) -> (r: &[u8])
        ensures
            r@ == self@.code,
            r@.len() >= 1,
            r@.last() == X86_RET,
            wf_native(self@),
    {
        proof {
            use_type_invariant(self);
        }
        self.code.as_slice()
    }

    /// The size of the machine code in bytes.
    pub fn code_size(&self) -> (r: usize)
        ensures
            r == self@.code.len(),
    {
        self.code.len()
    }

    /// The type byte of the return value.
    pub fn ret(&self) -> (r: u8)
        ensures
            r == self@.ret,
    {
        self.ret
    }

    /// The page size the function was laid out in.
    pub fn page_size(&self) -> (r: usize)
        ensures
            r == self@.page_size,
            wf_native(self@),
    {
        proof {
            use_type_invariant(self);
        }
        self.page_size
    }

    /// Whether the page is executable (and so no longer writable).
    pub fn is_executable(&self) -> (r: bool)
        ensures
            r == executable(self@),
            r != writable(self@),
    {
        self.prot == Protection::ReadExecute
    }

    /// Records the outcome of turning the page read+execute. Where it already
    /// is, nothing was asked of the system and nothing changes.
    pub fn make_executable(&mut self, outcome: Result<(), i32>) -> (r: Result<(), PlatformError>)
        ensures
            executable(old(self)@) ==> r is Ok && final(self)@ == old(self)@,
            writable(old(self)@) ==> match outcome {
                Ok(()) => r is Ok && final(self)@ == with_prot(old(self)@, Protection::ReadExecute),
                Err(errno) => r == Err::<(), PlatformError>(PlatformError::ProtectFailed(errno))
                    && final(self)@ == old(self)@,
            },
    {
        proof {
            use_type_invariant(&*self);
        }
        if self.prot == Protection::ReadExecute {
            return Ok(());
        }
        match outcome {
            Ok(()) => {
                self.prot = Protection::ReadExecute;
                Ok(())
            },
            Err(errno) => Err(PlatformError::ProtectFailed(errno)),
        }
    }

    /// Records the outcome of unmapping the page; the function is gone either
    /// way.
    pub fn release(self, outcome: Result<(), i32>) -> (r: Result<(), PlatformError>)
        ensures
            match outcome {
                Ok(()) => r is Ok,
                Err(errno) => r == Err::<(), PlatformError>(PlatformError::UnmapFailed(errno)),
            },
    {
        match outcome {
            Ok(()) => Ok(()),
            Err(errno) => Err(PlatformError::UnmapFailed(errno)),
        }
    }
}

impl Function for NativeFn {
    closed spec fn spec_size(&self) -> nat {
        self.size as nat
    }

    fn size(&self) -> (r: usize) {
        self.size
    }
}

impl NativeFn {
    /// The size of the page in bytes: whole pages that hold the code.
    pub fn page_bytes(&self) -> (r: usize)
        ensures
            r == self@.size,
            r == self.spec_size(),
            wf_native(self@),
    {
        proof {
            use_type_invariant(self);
        }
        self.size
    }
}

/// A native function's page is whole pages that hold its code, and is either
/// writable or executable, never both.
pub proof fn lemma_native_page(f: NativeFnView)
    requires
        wf_native(f),
    ensures
        f.size % f.page_size == 0,
        f.size >= f.code.len(),
        writable(f) != executable(f),
        f.code.last() == X86_RET,
{
    lemma_round_up(f.code.len() as int, f.page_size as int);
}

/// A header built from a name without `;` and argument types without `0xFF`
/// reads back as that name, those argument types and that return type, and
/// the bytecode after it is exactly `code`.
pub proof fn lemma_header(name: Seq<u8>, args: Seq<u8>, ret: u8, code: Seq<u8>)
    requires
        forall|i: int| 0 <= i < name.len() ==> name[i] != NAME_END,
        forall|i: int| 0 <= i < args.len() ==> args[i] != ARGS_END,
    ensures
        ({
            let bytes = name + seq![NAME_END] + args + seq![ARGS_END, ret] + code;
            let start = name.len() + args.len() + 3int;
            &&& parse_header(bytes, 0) == Some(
                FnHeader { name, args, ret, code_start: start },
            )
            &&& bytes.subrange(start, bytes.len() as int) == code
        }),
{
    let bytes = name + seq![NAME_END] + args + seq![ARGS_END, ret] + code;
    let n = name.len() as int;
    let j = n + 1 + args.len();
    assert(bytes.subrange(0, n) =~= name);
    lemma_find_name_end(bytes, name, 0);
    assert(bytes.subrange(n + 1, j) =~= args);
    lemma_find_args_end(bytes, n + 1, j, n + 1);
    assert(bytes.subrange(j + 2, bytes.len() as int) =~= code);
}

/// The first `0xFF` at or after `k` in a run without one is the one after it.
proof fn lemma_find_args_end(bytes: Seq<u8>, from: int, j: int, k: int)
    requires
        0 <= from <= k <= j < bytes.len(),
        bytes[j] == ARGS_END,
        forall|i: int| 0 <= i < j - from ==> bytes.subrange(from, j)[i] != ARGS_END,
    ensures
        find_from(bytes, k, ARGS_END) == Some(j),
    decreases j - k,
{
    if k < j {
        assert(bytes.subrange(from, j)[k - from] == bytes[k]);
        lemma_find_args_end(bytes, from, j, k + 1);
    }
}

/// A function with no arguments whose bytecode is a lone return compiles to
/// a lone `ret`: its header is read whole and the code after it is `0x1A`.
pub proof fn lemma_return_only(name: Seq<u8>, ret: u8)
    requires
        forall|i: int| 0 <= i < name.len() ==> name[i] != NAME_END,
    ensures
        ({
            let bytes = name + seq![NAME_END, ARGS_END, ret, 0x1Au8];
            &&& parse_header(bytes, 0) == Some(
                FnHeader { name, args: Seq::empty(), ret, code_start: name.len() + 3int },
            )
            &&& bytes.subrange(name.len() + 3int, bytes.len() as int) == seq![0x1Au8]
            &&& jit(seq![0x1Au8]) == (seq![X86_RET], None::<TranspileError>)
        }),
{
    let bytes = name + seq![NAME_END, ARGS_END, ret, 0x1Au8];
    lemma_header(name, Seq::empty(), ret, seq![0x1Au8]);
    assert(name + seq![NAME_END] + Seq::<u8>::empty() + seq![ARGS_END, ret] + seq![0x1Au8]
        =~= bytes);
    assert(Seq::<u8>::empty().push(X86_RET) =~= seq![X86_RET]);
}

/// A function whose bytecode is `n` no-ops and a return compiles to `n`
/// no-ops and a return: `n + 1` bytes of code.
pub proof fn lemma_compiled_nops(name: Seq<u8>, args: Seq<u8>, ret: u8, n: nat)
    requires
        forall|i: int| 0 <= i < name.len() ==> name[i] != NAME_END,
        forall|i: int| 0 <= i < args.len() ==> args[i] != ARGS_END,
    ensures
        ({
            let code = Seq::new(n, |k: int| 0x00u8).push(0x1Au8);
            let bytes = name + seq![NAME_END] + args + seq![ARGS_END, ret] + code;
            let h = parse_header(bytes, 0)->Some_0;
            &&& parse_header(bytes, 0) is Some
            &&& jit(bytes.subrange(h.code_start, bytes.len() as int)) == (
                Seq::new(n, |k: int| X86_NOP).push(X86_RET),
                None::<TranspileError>,
            )
            &&& jit(bytes.subrange(h.code_start, bytes.len() as int)).0.len() == n + 1
        }),
{
    let code = Seq::new(n, |k: int| 0x00u8).push(0x1Au8);
    lemma_header(name, args, ret, code);
    lemma_nops_then_ret(n);
}

/// The first `;` of a name followed by `;` is the one after the name.
proof fn lemma_find_name_end(bytes: Seq<u8>, name: Seq<u8>, k: int)
    requires
        0 <= k <= name.len(),
        bytes.len() > name.len(),
        bytes.subrange(0, name.len() as int) == name,
        bytes[name.len() as int] == NAME_END,
        forall|i: int| 0 <= i < name.len() ==> name[i] != NAME_END,
    ensures
        find_from(bytes, k, NAME_END) == Some(name.len() as int),
    decreases name.len() - k,
{
    if k < name.len() {
        assert(bytes[k] == bytes.subrange(0, name.len() as int)[k]);
        lemma_find_name_end(bytes, name, k + 1);
    }
}

} // verus!

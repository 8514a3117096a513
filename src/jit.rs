//! The x86-64 back end: bytecode in, machine code out, into a buffer that
//! grows a page at a time.
use vstd::prelude::*;

use crate::error::{PlatformError, TranspileError, VmError};
use crate::native::{bytecode, RawFn};
use crate::platform::{CpuArch, Platform, PlatformKind};

verus! {

broadcast use vstd::seq_lib::group_seq_properties;

/// The machine code for a no-op.
pub const X86_NOP: u8 = 0x90;

/// The machine code for a return.
pub const X86_RET: u8 = 0xC3;

/// The bytecode no-op.
pub const OP_NOP: u8 = 0x00;

/// The bytecode integer add.
pub const OP_ADD: u8 = 0x01;

/// The bytecode return.
pub const OP_RET: u8 = 0x1A;

/// The number of general-purpose registers.
pub const REGISTERS: u16 = 16;

/// Whether register `i` is live in the bitmap `regs` (bit `i` is register
/// `Ri`; `R0`..`R15` are `RAX`..`R15` in x86-64 numbering).
pub open spec fn reg_live(regs: u16, i: u16) -> bool {
    (regs >> i) & 1u16 == 1u16
}

/// The lowest-numbered register at or above `i` that is free.
pub open spec fn lowest_free_from(regs: u16, i: int) -> Option<u16>
    decreases 16 - i,
{
    if i < 0 || i >= 16 {
        None
    } else if !reg_live(regs, i as u16) {
        Some(i as u16)
    } else {
        lowest_free_from(regs, i + 1)
    }
}

/// The lowest-numbered register at or above `i` that is live.
pub open spec fn lowest_live_from(regs: u16, i: int) -> Option<u16>
    decreases 16 - i,
{
    if i < 0 || i >= 16 {
        None
    } else if reg_live(regs, i as u16) {
        Some(i as u16)
    } else {
        lowest_live_from(regs, i + 1)
    }
}

/// `add dst, src` on 64-bit registers: REX.W prefix (with the high bits of
/// both registers), opcode `0x01`, register-form ModRM.
pub open spec fn add_bytes(src: u16, dst: u16) -> Seq<u8> {
    seq![
        (0x48 + (if src >= 8 { 4int } else { 0int }) + (if dst >= 8 { 1int } else { 0int })) as u8,
        0x01u8,
        (0xC0 + (src % 8) * 8 + dst % 8) as u8,
    ]
}

/// The source and destination of an add with live registers `regs`: the
/// source is the lowest live register (the destination itself where none is
/// live); the destination is the lowest free register, or the source where
/// every register is live.
pub open spec fn add_operands(regs: u16) -> (u16, u16) {
    match lowest_free_from(regs, 0) {
        Some(d) => (
            match lowest_live_from(regs, 0) {
                Some(l) => l,
                None => d,
            },
            d,
        ),
        None => match lowest_live_from(regs, 0) {
            Some(l) => (l, l),
            None => (0, 0),
        },
    }
}

/// The registers live after `add dst, src`: the add consumes its source, so
/// the source's register is freed (a dead store from then on), and the
/// destination holds the sum.
pub open spec fn regs_after_add(regs: u16, src: u16, dst: u16) -> u16 {
    if src == dst {
        regs | (1u16 << dst)
    } else {
        (regs & !(1u16 << src)) | (1u16 << dst)
    }
}

/// The machine code for the non-final opcode `op` with live registers `regs`,
/// and the registers live after it; `None` for an opcode the back end does
/// not know.
pub open spec fn emit_insn(op: u8, regs: u16) -> Option<(Seq<u8>, u16)> {
    if op == OP_NOP {
        Some((seq![X86_NOP], regs))
    } else if op == OP_ADD {
        let (src, dst) = add_operands(regs);
        Some((add_bytes(src, dst), regs_after_add(regs, src, dst)))
    } else {
        None
    }
}

/// Compiling `code` from offset `i` with live registers `regs`, after `out`
/// was emitted: what is emitted in all, and the error that stopped it, if any.
pub open spec fn jit_from(code: Seq<u8>, i: int, regs: u16, out: Seq<u8>) -> (
    Seq<u8>,
    Option<TranspileError>,
)
    decreases code.len() - i,
{
    if i < 0 || i >= code.len() {
        (out, Some(TranspileError::UnterminatedFunction))
    } else if code[i] == OP_RET {
        (out.push(X86_RET), None)
    } else {
        match emit_insn(code[i], regs) {
            None => (out, Some(TranspileError::IllegalInsn(i as usize))),
            Some((b, r)) => jit_from(code, i + 1, r, out + b),
        }
    }
}

/// The machine code for the bytecode `code`, and the error that stopped the
/// compiler, if any (the code emitted before it is then discarded).
pub open spec fn jit(code: Seq<u8>) -> (Seq<u8>, Option<TranspileError>) {
    jit_from(code, 0, 0, Seq::empty())
}

/// Where the machine code of one function lies in its buffer.
#[derive(Debug, Clone, Copy, PartialEq, Eq, Structural)]
pub struct CodeData {
    pub addr: usize,
    pub size: usize,
}

/// What a code buffer holds: the bytes written and the capacity mapped.
pub struct CodeBufferView {
    pub code: Seq<u8>,
    pub alloc_size: nat,
    pub page_size: nat,
}

/// A writable code buffer of whole pages that grows a page at a time.
#[derive(Debug)]
pub struct CodeBuffer {
    code: Vec<u8>,
    alloc_size: usize,
    page_size: usize,
}

impl View for CodeBuffer {
    type V = CodeBufferView;

    closed spec fn view(&self) -> CodeBufferView {
        CodeBufferView {
            code: self.code@,
            alloc_size: self.alloc_size as nat,
            page_size: self.page_size as nat,
        }
    }
}

/// The shape every code buffer keeps: whole pages, enough of them.
pub open spec fn wf_buffer(b: CodeBufferView) -> bool {
    &&& b.page_size > 0
    &&& b.alloc_size % b.page_size == 0
    &&& b.page_size <= b.alloc_size
    &&& b.code.len() <= b.alloc_size
}

impl CodeBuffer {
    /// An empty buffer of one page.
    pub fn new(platform: &Platform) -> (r: Result<CodeBuffer, PlatformError>)
        ensures
            platform.spec_page_size() == 0 ==> r == Err::<CodeBuffer, PlatformError>(
                PlatformError::Uninitialized,
            ),
            r matches Ok(b) ==> wf_buffer(b@),
            platform.spec_page_size() > 0 ==> r is Ok && r->Ok_0@ == (CodeBufferView {
                code: Seq::empty(),
                alloc_size: platform.spec_page_size() as nat,
                page_size: platform.spec_page_size() as nat,
            }),
    {
        let ps = platform.page_size();
        if ps == 0 {
            return Err(PlatformError::Uninitialized);
        }
        proof {
            assert(ps as int % ps as int == 0) by (nonlinear_arith)
                requires
                    ps > 0,
            ;
        }
        Ok(CodeBuffer { code: Vec::new(), alloc_size: ps, page_size: ps })
    }

    /// The bytes written so far.
    pub fn code(&self) -> (r: &[u8])
        ensures
            r@ == self@.code,
    {
        self.code.as_slice()
    }

    /// The number of bytes written so far.
    pub fn code_size(&self) -> (r: usize)
        ensures
            r == self@.code.len(),
    {
        self.code.len()
    }

    /// The capacity mapped, in bytes.
    pub fn alloc_size(&self) -> (r: usize)
        ensures
            r == self@.alloc_size,
    {
        self.alloc_size
    }

    /// Grows the buffer by one page, keeping what was written.
    pub fn grow(&mut self) -> (r: Result<(), PlatformError>)
        requires
            wf_buffer(old(self)@),
        ensures
            wf_buffer(final(self)@),
            final(self)@.code == old(self)@.code,
            final(self)@.page_size == old(self)@.page_size,
            old(self)@.alloc_size + old(self)@.page_size <= usize::MAX ==> r is Ok && final(self)@.alloc_size == old(self)@.alloc_size + old(self)@.page_size,
            old(self)@.alloc_size + old(self)@.page_size > usize::MAX ==> r == Err::<
                (),
                PlatformError,
            >(PlatformError::OutOfMemory) && final(self)@ == old(self)@,
    {
        if self.alloc_size > usize::MAX - self.page_size {
            return Err(PlatformError::OutOfMemory);
        }
        let ghost (a, p) = (self.alloc_size as int, self.page_size as int);
        proof {
            assert((a + p) % p == 0) by (nonlinear_arith)
                requires
                    a % p == 0,
                    p > 0,
            ;
        }
        self.alloc_size = self.alloc_size + self.page_size;
        Ok(())
    }

    /// Writes one byte, growing the buffer by a page first where it is full.
    pub fn emit(&mut self, b: u8) -> (r: Result<(), PlatformError>)
        requires
            wf_buffer(old(self)@),
        ensures
            wf_buffer(final(self)@),
            final(self)@.page_size == old(self)@.page_size,
            r is Ok ==> final(self)@.code == old(self)@.code.push(b),
            r is Err ==> r == Err::<(), PlatformError>(PlatformError::OutOfMemory) && final(self)@.code == old(self)@.code && old(self)@.code.len() + old(self)@.page_size
                > usize::MAX,
            old(self)@.code.len() + old(self)@.page_size <= usize::MAX ==> r is Ok,
    {
        if self.code.len() == self.alloc_size {
            match self.grow() {
                Ok(()) => {},
                Err(e) => return Err(e),
            }
        }
        self.code.push(b);
        Ok(())
    }

    /// Writes `bytes`, growing the buffer as it fills. Where it cannot grow,
    /// what was written is a part of `bytes` shorter than `bytes`.
    pub fn emit_all(&mut self, bytes: &[u8]) -> (r: Result<(), PlatformError>)
        requires
            wf_buffer(old(self)@),
        ensures
            wf_buffer(final(self)@),
            final(self)@.page_size == old(self)@.page_size,
            r is Ok ==> final(self)@.code == old(self)@.code + bytes@,
            r is Err ==> r == Err::<(), PlatformError>(PlatformError::OutOfMemory) && old(self)@.code.len() + bytes@.len() + old(self)@.page_size > usize::MAX + 1,
    {
        let mut i: usize = 0;
        while i < bytes.len()
            invariant
                i <= bytes.len(),
                wf_buffer(self@),
                self@.page_size == old(self)@.page_size,
                self@.code == old(self)@.code + bytes@.subrange(0, i as int),
            decreases bytes.len() - i,
        {
            match self.emit(bytes[i]) {
                Ok(()) => {},
                Err(e) => return Err(e),
            }
            i = i + 1;
            assert(self@.code =~= old(self)@.code + bytes@.subrange(0, i as int));
        }
        assert(bytes@.subrange(0, i as int) =~= bytes@);
        Ok(())
    }

    /// The bytes written, giving up the buffer.
    pub fn into_code(self) -> (r: Vec<u8>)
        ensures
            r@ == self@.code,
    {
        self.code
    }
}

/// The lowest-numbered free register of `regs`.
fn lowest_free(regs: u16) -> (r: Option<u16>)
    ensures
        r == lowest_free_from(regs, 0),
{
    let mut i: u16 = 0;
    while i < REGISTERS
        invariant
            i <= 16,
            lowest_free_from(regs, 0) == lowest_free_from(regs, i as int),
        decreases 16 - i,
    {
        if (regs >> i) & 1u16 != 1u16 {
            return Some(i);
        }
        i = i + 1;
    }
    None
}

/// The lowest-numbered live register of `regs`.
fn lowest_live(regs: u16) -> (r: Option<u16>)
    ensures
        r == lowest_live_from(regs, 0),
{
    let mut i: u16 = 0;
    while i < REGISTERS
        invariant
            i <= 16,
            lowest_live_from(regs, 0) == lowest_live_from(regs, i as int),
        decreases 16 - i,
    {
        if (regs >> i) & 1u16 == 1u16 {
            return Some(i);
        }
        i = i + 1;
    }
    None
}

/// A register found by a scan is one of the sixteen.
proof fn lemma_scan_in_range(regs: u16, i: int)
    ensures
        lowest_free_from(regs, i) matches Some(d) ==> d < 16,
        lowest_live_from(regs, i) matches Some(d) ==> d < 16,
    decreases 16 - i,
{
    if 0 <= i < 16 {
        lemma_scan_in_range(regs, i + 1);
    }
}

/// The machine code for the non-final opcode `op`, and the registers live
/// after it.
fn encode_insn(op: u8, regs: u16) -> (r: Option<(Vec<u8>, u16)>)
    ensures
        match r {
            Some((b, n)) => emit_insn(op, regs) == Some((b@, n)),
            None => emit_insn(op, regs) is None,
        },
{
    if op == OP_NOP {
        let b = vec![X86_NOP];
        assert(b@ =~= seq![X86_NOP]);
        Some((b, regs))
    } else if op == OP_ADD {
        proof {
            lemma_scan_in_range(regs, 0);
        }
        let live = lowest_live(regs);
        let (src, dst) = match lowest_free(regs) {
            Some(d) => (
                match live {
                    Some(l) => l,
                    None => d,
                },
                d,
            ),
            None => match live {
                Some(l) => (l, l),
                None => (0, 0),
            },
        };
        let rex: u8 = 0x48 + (if src >= 8 {
            4u8
        } else {
            0u8
        }) + (if dst >= 8 {
            1u8
        } else {
            0u8
        });
        let modrm: u8 = 0xC0 + ((src % 8) as u8) * 8 + (dst % 8) as u8;
        let b = vec![rex, 0x01u8, modrm];
        assert(b@ =~= add_bytes(src, dst));
        let next = if src == dst {
            regs | (1u16 << dst)
        } else {
            (regs & !(1u16 << src)) | (1u16 << dst)
        };
        Some((b, next))
    } else {
        None
    }
}

/// Compiles the bytecode of `raw` into `buf`, one page more each time the
/// buffer is full. On a target other than x86-64 nothing is written.
pub fn transpile(raw: RawFn, buf: &mut CodeBuffer, platform: &Platform) -> (r: Result<
    CodeData,
    VmError,
>)
    requires
        wf_buffer(old(buf)@),
    ensures
        wf_buffer(final(buf)@),
        final(buf)@.page_size == old(buf)@.page_size,
        platform.spec_arch() != CpuArch::X86_64 ==> r == Err::<CodeData, VmError>(
            VmError::Transpile(
                TranspileError::UnsupportedPlatform(PlatformKind::Arch(platform.spec_arch())),
            ),
        ) && final(buf)@ == old(buf)@,
        platform.spec_arch() == CpuArch::X86_64 ==> match r {
            Ok(d) => jit(bytecode(raw@)).1 is None && final(buf)@.code == old(buf)@.code + jit(
                bytecode(raw@),
            ).0 && d.addr == old(buf)@.code.len() && d.size == jit(bytecode(raw@)).0.len(),
            Err(VmError::Transpile(e)) => jit(bytecode(raw@)).1 == Some(e),
            Err(VmError::Platform(e)) => e == PlatformError::OutOfMemory && old(buf)@.code.len()
                + jit(bytecode(raw@)).0.len() + old(buf)@.page_size > usize::MAX,
            Err(VmError::Format(_)) => false,
        },
{
    let arch = platform.arch();
    if arch != CpuArch::X86_64 {
        return Err(VmError::Transpile(TranspileError::UnsupportedPlatform(PlatformKind::Arch(arch))));
    }
    let start = buf.code_size();
    let code = raw.bytecode();
    let ghost bc = code@;
    let ghost c0 = buf@.code;
    let mut i: usize = 0;
    let mut regs: u16 = 0;
    let ghost mut out: Seq<u8> = Seq::empty();
    loop
        invariant
            bc == code@,
            bc == bytecode(raw@),
            jit(bc) == jit_from(bc, i as int, regs, out),
            buf@.code == c0 + out,
            c0 == old(buf)@.code,
            buf@.page_size == old(buf)@.page_size,
            wf_buffer(buf@),
            platform.spec_arch() == CpuArch::X86_64,
            start == c0.len(),
            i <= code.len(),
        decreases code.len() - i,
    {
        if i >= code.len() {
            return Err(VmError::Transpile(TranspileError::UnterminatedFunction));
        }
        let op = code[i];
        if op == OP_RET {
            assert(jit(bc) == (out.push(X86_RET), None::<TranspileError>));
            match buf.emit(X86_RET) {
                Ok(()) => {},
                Err(e) => {
                    assert(c0.len() + out.len() + buf@.page_size > usize::MAX);
                    return Err(VmError::Platform(e));
                },
            }
            proof {
                out = out.push(X86_RET);
            }
            let size = buf.code_size() - start;
            return Ok(CodeData { addr: start, size });
        }
        match encode_insn(op, regs) {
            None => return Err(VmError::Transpile(TranspileError::IllegalInsn(i))),
            Some((b, next)) => {
                proof {
                    lemma_jit_grows(bc, i as int + 1, next, out + b@);
                    assert(jit(bc) == jit_from(bc, i as int + 1, next, out + b@));
                }
                match buf.emit_all(b.as_slice()) {
                    Ok(()) => {},
                    Err(e) => {
                        assert(c0.len() + (out + b@).len() + buf@.page_size > usize::MAX);
                        return Err(VmError::Platform(e));
                    },
                }
                proof {
                    out = out + b@;
                }
                regs = next;
            },
        }
        i = i + 1;
    }
}

/// What is emitted in all extends what was emitted before.
pub proof fn lemma_jit_grows(code: Seq<u8>, i: int, regs: u16, out: Seq<u8>)
    ensures
        jit_from(code, i, regs, out).0.len() >= out.len(),
        jit_from(code, i, regs, out).0.subrange(0, out.len() as int) == out,
        jit_from(code, i, regs, out).1 is None ==> jit_from(code, i, regs, out).0.len() > out.len(),
    decreases code.len() - i,
{
    if 0 <= i < code.len() && code[i] != OP_RET {
        if let Some((b, r)) = emit_insn(code[i], regs) {
            lemma_jit_grows(code, i + 1, r, out + b);
            let all = jit_from(code, i, regs, out).0;
            assert(all.subrange(0, out.len() as int) =~= all.subrange(
                0,
                (out + b).len() as int,
            ).subrange(0, out.len() as int));
            assert((out + b).subrange(0, out.len() as int) =~= out);
        }
    } else if 0 <= i < code.len() {
        assert(out.push(X86_RET).subrange(0, out.len() as int) =~= out);
    } else {
        assert(out.subrange(0, out.len() as int) =~= out);
    }
}

/// Compiled code that succeeds ends with a return.
pub proof fn lemma_jit_ends_with_ret(code: Seq<u8>, i: int, regs: u16, out: Seq<u8>)
    requires
        jit_from(code, i, regs, out).1 is None,
    ensures
        jit_from(code, i, regs, out).0.len() >= 1,
        jit_from(code, i, regs, out).0.last() == X86_RET,
    decreases code.len() - i,
{
    if 0 <= i < code.len() && code[i] != OP_RET {
        if let Some((b, r)) = emit_insn(code[i], regs) {
            lemma_jit_ends_with_ret(code, i + 1, r, out + b);
        }
    }
}

/// A run of `n` no-ops followed by a return compiles to `n` no-ops followed by
/// a return, `n + 1` bytes in all.
pub proof fn lemma_nops_then_ret(n: nat)
    ensures
        jit(Seq::new(n, |k: int| OP_NOP).push(OP_RET)) == (
            Seq::new(n, |k: int| X86_NOP).push(X86_RET),
            None::<TranspileError>,
        ),
        jit(Seq::new(n, |k: int| OP_NOP).push(OP_RET)).0.len() == n + 1,
{
    let code = Seq::new(n, |k: int| OP_NOP).push(OP_RET);
    lemma_nops_from(code, n, 0);
    assert(Seq::new(0, |k: int| X86_NOP) =~= Seq::<u8>::empty());
}

/// From offset `i` of `n` no-ops and a return, after `i` no-ops were emitted.
proof fn lemma_nops_from(code: Seq<u8>, n: nat, i: nat)
    requires
        code == Seq::new(n, |k: int| OP_NOP).push(OP_RET),
        i <= n,
    ensures
        jit_from(code, i as int, 0, Seq::new(i, |k: int| X86_NOP)) == (
            Seq::new(n, |k: int| X86_NOP).push(X86_RET),
            None::<TranspileError>,
        ),
    decreases n - i,
{
    if i < n {
        lemma_nops_from(code, n, i + 1);
        assert(Seq::new(i, |k: int| X86_NOP) + seq![X86_NOP] =~= Seq::new(
            i + 1,
            |k: int| X86_NOP,
        ));
    } else {
        assert(Seq::new(i, |k: int| X86_NOP) =~= Seq::new(n, |k: int| X86_NOP));
    }
}

/// Only an opcode the back end does not know stops it: an add always
/// compiles, and the offset an illegal instruction is reported at holds an
/// opcode other than no-op, add and return.
pub proof fn lemma_only_unknown_opcodes_fail(code: Seq<u8>, i: int, regs: u16, out: Seq<u8>)
    requires
        code.len() <= usize::MAX,
    ensures
        emit_insn(OP_ADD, regs) is Some,
        jit_from(code, i, regs, out).1 matches Some(TranspileError::IllegalInsn(k)) ==> 0 <= k
            < code.len() && code[k as int] != OP_NOP && code[k as int] != OP_ADD && code[k as int]
            != OP_RET,
    decreases code.len() - i,
{
    if 0 <= i < code.len() && code[i] != OP_RET {
        if let Some((b, r)) = emit_insn(code[i], regs) {
            lemma_only_unknown_opcodes_fail(code, i + 1, r, out + b);
        }
    }
}

} // verus!

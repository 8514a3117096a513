use esharp::error::{ExecutableFormatError, PlatformError, TranspileError, VmError};
use esharp::function::FunctionTable;
use esharp::jit::{transpile, CodeBuffer};
use esharp::native::{Function, RawFn};
use esharp::opcode::{InsnFlag, Opcode};
use esharp::platform::{CpuArch, OperatingSystem, Platform, PlatformKind};

fn platform(page_size: i64) -> Platform {
    let mut p = Platform::new(CpuArch::X86_64, OperatingSystem::Linux);
    p.cache_page_size(page_size).unwrap();
    p
}

fn compile_code(code: &[u8], page_size: i64) -> Result<Vec<u8>, VmError> {
    let p = platform(page_size);
    let mut buf = CodeBuffer::new(&p).unwrap();
    transpile(RawFn::new(code), &mut buf, &p)?;
    Ok(buf.code().to_vec())
}

#[test]
fn nop_nop_ret() {
    let p = platform(4096);
    let mut buf = CodeBuffer::new(&p).unwrap();
    let d = transpile(RawFn::new(&[0x00, 0x00, 0x1A]), &mut buf, &p).unwrap();
    assert_eq!(buf.code(), &[0x90, 0x90, 0xC3]);
    assert_eq!(d.size, 3);
    assert_eq!(d.addr, 0);
}

#[test]
fn illegal_opcode() {
    assert!(matches!(
        compile_code(&[0x00, 0xFE, 0x1A], 4096),
        Err(VmError::Transpile(TranspileError::IllegalInsn(1)))
    ));
}

#[test]
fn unterminated_function() {
    assert!(matches!(
        compile_code(&[0x00, 0x00], 4096),
        Err(VmError::Transpile(TranspileError::UnterminatedFunction))
    ));
    assert!(matches!(
        compile_code(&[], 4096),
        Err(VmError::Transpile(TranspileError::UnterminatedFunction))
    ));
}

#[test]
fn unsupported_architecture() {
    let mut p = Platform::new(CpuArch::Aarch64, OperatingSystem::Linux);
    p.cache_page_size(4096).unwrap();
    let mut buf = CodeBuffer::new(&p).unwrap();
    let r = transpile(RawFn::new(&[0x1A]), &mut buf, &p);
    assert!(matches!(
        r,
        Err(VmError::Transpile(TranspileError::UnsupportedPlatform(PlatformKind::Arch(CpuArch::Aarch64))))
    ));
    assert!(buf.code().is_empty());
}

#[test]
fn add_picks_lowest_free_register() {
    assert_eq!(compile_code(&[0x01, 0x1A], 4096).unwrap(), vec![0x48, 0x01, 0xC0, 0xC3]);
    assert_eq!(
        compile_code(&[0x01, 0x01, 0x1A], 4096).unwrap(),
        vec![0x48, 0x01, 0xC0, 0x48, 0x01, 0xC1, 0xC3]
    );
    assert_eq!(
        compile_code(&[0x01, 0x01, 0x01, 0x1A], 4096).unwrap(),
        vec![0x48, 0x01, 0xC0, 0x48, 0x01, 0xC1, 0x48, 0x01, 0xC8, 0xC3]
    );
}

#[test]
fn add_always_compiles() {
    let mut code = vec![0x01; 17];
    code.push(0x1A);
    let out = compile_code(&code, 4096).unwrap();
    assert_eq!(out.len(), 17 * 3 + 1);
    assert_eq!(&out[45..52], &[0x48, 0x01, 0xC1, 0x48, 0x01, 0xC8, 0xC3]);
    let mut code = vec![0x01; 17];
    code.push(0xFE);
    assert!(matches!(
        compile_code(&code, 4096),
        Err(VmError::Transpile(TranspileError::IllegalInsn(17)))
    ));
    let code = vec![0x01; 17];
    assert!(matches!(
        compile_code(&code, 4096),
        Err(VmError::Transpile(TranspileError::UnterminatedFunction))
    ));
}

#[test]
fn nops_then_ret() {
    for n in [0usize, 1, 5, 100] {
        let mut code = vec![0x00; n];
        code.push(0x1A);
        let out = compile_code(&code, 4096).unwrap();
        let mut expected = vec![0x90; n];
        expected.push(0xC3);
        assert_eq!(out, expected);
        assert_eq!(out.len(), n + 1);
    }
}

#[test]
fn growth_keeps_emitted_bytes() {
    let p = platform(4);
    let mut buf = CodeBuffer::new(&p).unwrap();
    assert_eq!(buf.alloc_size(), 4);
    let mut code = vec![0x00; 9];
    code.push(0x1A);
    let d = transpile(RawFn::new(&code), &mut buf, &p).unwrap();
    assert_eq!(d.size, 10);
    assert_eq!(buf.alloc_size(), 12);
    assert_eq!(&buf.code()[..9], &[0x90; 9]);
    assert_eq!(buf.code()[9], 0xC3);

    let mut b = CodeBuffer::new(&p).unwrap();
    b.emit_all(&[1, 2, 3, 4]).unwrap();
    b.grow().unwrap();
    assert_eq!(b.code(), &[1, 2, 3, 4]);
    assert_eq!(b.alloc_size(), 8);
}

#[test]
fn page_alignment() {
    let p = platform(4096);
    assert_eq!(p.page_align(1), Ok(4096));
    assert_eq!(p.page_align(4096), Ok(4096));
    assert_eq!(p.page_align(4097), Ok(8192));
    assert_eq!(p.page_align(0), Ok(0));
    assert_eq!(p.page_align(usize::MAX), Err(PlatformError::OutOfMemory));
    let q = Platform::new(CpuArch::X86_64, OperatingSystem::Linux);
    assert_eq!(q.page_size(), 0);
    assert_eq!(q.page_align(1), Err(PlatformError::Uninitialized));
    assert!(matches!(CodeBuffer::new(&q), Err(PlatformError::Uninitialized)));
}

#[test]
fn page_size_report() {
    let mut p = Platform::new(CpuArch::X86_64, OperatingSystem::Linux);
    assert_eq!(p.cache_page_size(-1), Err(PlatformError::Uninitialized));
    assert_eq!(p.page_size(), 0);
    assert_eq!(p.cache_page_size(16384), Ok(()));
    assert_eq!(p.page_size(), 16384);
    assert_eq!(p.arch(), CpuArch::X86_64);
    assert_eq!(p.os(), OperatingSystem::Linux);
}

#[test]
fn compile_reads_header() {
    let mut bytes = b"main;".to_vec();
    bytes.extend_from_slice(&[0x00, 0x03, 0xFF, 0x02, 0x00, 0x1A]);
    let raw = RawFn::new(&bytes);
    assert_eq!(raw.size(), bytes.len());
    let f = raw.compile(&platform(4096)).unwrap();
    assert_eq!(f.name(), "main");
    assert_eq!(f.args(), &[0x00, 0x03]);
    assert_eq!(f.ret(), 0x02);
    assert_eq!(f.code(), &[0x90, 0xC3]);
    assert_eq!(f.code_size(), 2);
    assert_eq!(f.size(), 4096);
    assert_eq!(f.page_bytes(), 4096);
    assert_eq!(f.page_size(), 4096);
    assert!(!f.is_executable());
}

#[test]
fn compile_rounds_page_up() {
    let mut bytes = b"f;".to_vec();
    bytes.extend_from_slice(&[0xFF, 0x00]);
    bytes.extend_from_slice(&[0x00; 6]);
    bytes.push(0x1A);
    let f = RawFn::new(&bytes).compile(&platform(4)).unwrap();
    assert_eq!(f.code_size(), 7);
    assert_eq!(f.size(), 8);
}

#[test]
fn name_bytes_that_are_not_utf8() {
    let mut bytes = vec![0x66, 0xC3, 0x28, b';'];
    bytes.extend_from_slice(&[0xFF, 0x00, 0x1A]);
    let f = RawFn::new(&bytes).compile(&platform(4096)).unwrap();
    assert_eq!(f.name(), "f\u{FFFD}(");
}

#[test]
fn compile_needs_header() {
    let r = RawFn::new(&[0x00, 0x1A]).compile(&platform(4096));
    assert!(matches!(r, Err(VmError::Format(ExecutableFormatError::MissingTerminator))));
    let r = RawFn::new(b"f;\x00\x1A").compile(&platform(4096));
    assert!(matches!(r, Err(VmError::Format(ExecutableFormatError::MissingTerminator))));
    let r = RawFn::new(b"f;\xFF").compile(&platform(4096));
    assert!(matches!(r, Err(VmError::Format(ExecutableFormatError::MissingTerminator))));
    let q = Platform::new(CpuArch::X86_64, OperatingSystem::Linux);
    let r = RawFn::new(b"f;\xFF\x00\x1A").compile(&q);
    assert!(matches!(r, Err(VmError::Platform(PlatformError::Uninitialized))));
}

#[test]
fn return_only_function() {
    let mut t = vec![0x00, 0x07, 0x00, 0x00, 0x00];
    t.extend_from_slice(&1u64.to_be_bytes());
    t.push(0x1A);
    t.extend_from_slice(&[0xFA, 0xDE]);
    let table = FunctionTable::parse(&t, 0).unwrap();
    let def = &table.functions()[0];
    assert_eq!(def.args_len(), 0);
    assert_eq!(def.code_len(), 1);
    let mut raw = b"run;".to_vec();
    raw.extend_from_slice(def.args());
    raw.push(0xFF);
    raw.push(def.return_type());
    raw.extend_from_slice(def.code());
    let f = RawFn::new(&raw).compile(&platform(4096)).unwrap();
    assert_eq!(f.code(), &[0xC3]);
    assert_eq!(f.code_size(), 1);
    assert!(f.args().is_empty());
}

#[test]
fn protection_transitions() {
    let mut f = RawFn::new(b"f;\xFF\x00\x1A").compile(&platform(4096)).unwrap();
    assert!(!f.is_executable());
    assert_eq!(f.make_executable(Err(13)), Err(PlatformError::ProtectFailed(13)));
    assert!(!f.is_executable());
    assert_eq!(f.make_executable(Ok(())), Ok(()));
    assert!(f.is_executable());
    assert_eq!(f.make_executable(Err(1)), Ok(()));
    assert!(f.is_executable());
    assert_eq!(f.code()[f.code_size() - 1], 0xC3);
    assert_eq!(f.release(Err(22)), Err(PlatformError::UnmapFailed(22)));
    let g = RawFn::new(b"g;\xFF\x00\x1A").compile(&platform(4096)).unwrap();
    assert_eq!(g.release(Ok(())), Ok(()));
}

#[test]
fn opcodes_and_flags() {
    assert_eq!(Opcode::from_byte(0x1A), Some(Opcode::RET));
    assert_eq!(Opcode::from_byte(0x05), Some(Opcode::GOTO));
    assert_eq!(Opcode::from_byte(0xFE), None);
    assert_eq!(Opcode::ADD.to_byte(), 0x01);
    assert_eq!(InsnFlag::default(), InsnFlag::SIGNED);
    assert_eq!(InsnFlag::SIGNED.bits(), 0x80);
    assert_eq!(InsnFlag::UNSIGNED.bits(), 0x00);
    assert_eq!(InsnFlag::of_byte(0x81), InsnFlag::SIGNED);
    assert_eq!(InsnFlag::of_byte(0x01), InsnFlag::UNSIGNED);
}

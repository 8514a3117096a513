use esharp::bin::{BinaryFile, Executable, MAGIC};
use esharp::class::{ClassDef, ClassTable};
use esharp::constant::{ConstantDef, ConstantTable, ConstantValue};
use esharp::decode::{read_u16, read_u32, read_u64};
use esharp::error::ExecutableFormatError;
use esharp::field::{FieldDef, FieldTable};
use esharp::function::{FunctionDef, FunctionTable};
use esharp::types::Type;

fn header(constant: u32, class: u32, function: u32, field: u32) -> Vec<u8> {
    let mut h = Vec::new();
    h.extend_from_slice(&MAGIC.to_be_bytes());
    for off in [constant, class, function, field] {
        h.extend_from_slice(&off.to_be_bytes());
    }
    h.extend_from_slice(&[0xA0, 0xA1, 0xA2, 0xA3, 0xA4, 0xA5, 0xA6, 0xA7]);
    h.extend_from_slice(&[0xA8, 0xA9, 0xAA, 0xAB, 0xAC, 0xAD, 0xAE, 0xAF]);
    h
}

// constants: an i32 (7), an array of two u8 elements, an object naming constant 0
fn constant_table_bytes() -> Vec<u8> {
    let mut t = vec![0x02, 0, 0, 0, 4, 0, 0, 0, 7];
    t.extend_from_slice(&[0x08, 0x00, 0, 0, 0, 2, 0xAB, 0xCD]);
    t.extend_from_slice(&[0x06, 0x00, 0x00, 0, 0, 0, 1, b'x']);
    t.extend_from_slice(&[0xF0, 0x0F]);
    t
}

// fields: name 1 type i8, name 2 type array of i16
fn field_table_bytes() -> Vec<u8> {
    vec![0x00, 0x01, 0x00, 0x00, 0x02, 0x08, 0x01, 0xBA, 0xBA]
}

// functions: name 3, returns i32, args [i8, i64], code [nop, ret]
fn function_table_bytes() -> Vec<u8> {
    let mut t = vec![0x00, 0x03, 0x02, 0x00, 0x02, 0x00, 0x03];
    t.extend_from_slice(&2u64.to_be_bytes());
    t.extend_from_slice(&[0x00, 0x1A]);
    t.extend_from_slice(&[0xFA, 0xDE]);
    t
}

// one class with a field table and no function table
fn class_table_bytes() -> Vec<u8> {
    let mut t = vec![0x00, 0x04, 0x00, 0x05];
    t.extend_from_slice(&field_table_bytes());
    t.extend_from_slice(&0xDEADCAFEBABEFADEu64.to_be_bytes());
    t.extend_from_slice(&[0xF1, 0x0F]);
    t.extend_from_slice(&[0xFA, 0xDE]);
    t
}

fn image() -> Vec<u8> {
    let ct = constant_table_bytes();
    let cl = class_table_bytes();
    let ft = field_table_bytes();
    let class_off = 36 + ct.len() as u32;
    let field_off = class_off + cl.len() as u32;
    let function_off = field_off + ft.len() as u32;
    let mut b = header(36, class_off, function_off, field_off);
    b.extend_from_slice(&ct);
    b.extend_from_slice(&cl);
    b.extend_from_slice(&ft);
    b.extend_from_slice(&function_table_bytes());
    b
}

#[test]
fn magic_rejection() {
    let bytes = vec![0u8; 36];
    assert!(matches!(Executable::parse(&bytes), Err(ExecutableFormatError::InvalidMagic(0))));
}

#[test]
fn minimal_image_lacks_class_terminator() {
    let mut bytes = header(36, 36, 36, 36);
    bytes.extend_from_slice(&[0xF0, 0x0F]);
    assert!(matches!(Executable::parse(&bytes), Err(ExecutableFormatError::MissingTerminator)));
    let constants = ConstantTable::parse(&bytes, 36).unwrap();
    assert_eq!(constants.constants().len(), 0);
    assert_eq!(constants.len(), 2);
}

#[test]
fn short_header_is_truncated() {
    let bytes = header(36, 36, 36, 36);
    assert!(matches!(Executable::parse(&bytes[..35]), Err(ExecutableFormatError::Truncated)));
}

#[test]
fn empty_constant_table() {
    let mut bytes = header(36, 38, 38, 38);
    bytes.extend_from_slice(&[0xF0, 0x0F]);
    let t = ConstantTable::parse(&bytes, 36).unwrap();
    assert!(t.constants().is_empty());
    assert_eq!(t.len(), 2);
    assert_eq!(t.emit(), vec![0xF0, 0x0F]);
}

#[test]
fn full_image_parses() {
    let bytes = image();
    let exec = Executable::parse(&bytes).unwrap();
    assert_eq!(exec.size(), bytes.len());
    assert_eq!(exec.buf(), &bytes[..]);
    assert_eq!(read_u32(exec.buf(), 0), Some(0xE500C0DE));
    assert_eq!(&exec.buf()[20..36], &bytes[20..36]);
    assert_eq!(exec.offsets().constant_table(), 36);
    assert_eq!(exec.offsets().class_table(), 36 + 27);

    let constants = exec.constant_table().constants();
    assert_eq!(constants.len(), 3);
    assert_eq!(constants[0].val(), ConstantValue::I32(7));
    assert_eq!(constants[0].len(), 9);
    assert_eq!(constants[1].val(), ConstantValue::ArrayPayload(0, vec![0xAB, 0xCD]));
    assert_eq!(constants[1].type_operand(), Some(0));
    assert_eq!(constants[2].val(), ConstantValue::ObjectRef(0));
    assert_eq!(constants[2].val_raw(), b"x");
    assert_eq!(constants[2].data_len(), 1);
    assert_eq!(constants[2].type_flags(), 0x06);

    let classes = exec.class_table().classes();
    assert_eq!(classes.len(), 1);
    assert_eq!(classes[0].name(), 4);
    assert_eq!(classes[0].super_name(), 5);
    assert!(classes[0].function_table().is_none());
    let fields = classes[0].field_table().unwrap();
    assert_eq!(fields.fields().len(), 2);
    assert_eq!(classes[0].len(), 4 + 9 + 8 + 2);

    let fields = exec.field_table().fields();
    assert_eq!(fields[0].name(), 1);
    assert_eq!(fields[0].type_flags(), 0);
    assert_eq!(fields[0].type_operand(), None);
    assert_eq!(fields[0].len(), 3);
    assert_eq!(fields[1].type_operand_flags(), Some(1));
    assert_eq!(fields[1].len(), 4);

    let functions = exec.function_table().functions();
    assert_eq!(functions.len(), 1);
    assert_eq!(functions[0].name(), 3);
    assert_eq!(functions[0].return_type(), 2);
    assert_eq!(functions[0].return_type_operand(), None);
    assert_eq!(functions[0].args_len(), 2);
    assert_eq!(functions[0].args(), &vec![0x00, 0x03]);
    assert_eq!(functions[0].code_len(), 2);
    assert_eq!(functions[0].code(), &vec![0x00, 0x1A]);
    assert_eq!(functions[0].len(), 17);
}

#[test]
fn table_lengths_reach_their_terminators() {
    let bytes = image();
    let exec = Executable::parse(&bytes).unwrap();
    let ct = exec.constant_table().len();
    assert_eq!(ct, constant_table_bytes().len());
    assert_eq!(read_u16(&bytes, 36 + ct - 2), Some(0xF00F));
    let cl = exec.class_table().len();
    let class_off = exec.offsets().class_table() as usize;
    assert_eq!(cl, class_table_bytes().len());
    assert_eq!(read_u16(&bytes, class_off + cl - 2), Some(0xFADE));
    assert_eq!(exec.field_table().len(), 9);
    assert_eq!(exec.function_table().len(), 19);
}

#[test]
fn tables_round_trip() {
    let bytes = image();
    let exec = Executable::parse(&bytes).unwrap();

    let ct = exec.constant_table().emit();
    assert_eq!(ct, constant_table_bytes());
    let again = ConstantTable::parse(&ct, 0).unwrap();
    assert_eq!(format!("{:?}", again), format!("{:?}", exec.constant_table()));

    let cl = exec.class_table().emit();
    assert_eq!(cl, class_table_bytes());
    let again = ClassTable::parse(&cl, 0).unwrap();
    assert_eq!(format!("{:?}", again), format!("{:?}", exec.class_table()));

    let ft = exec.field_table().emit();
    assert_eq!(ft, field_table_bytes());
    let again = FieldTable::parse(&ft, 0).unwrap();
    assert_eq!(format!("{:?}", again), format!("{:?}", exec.field_table()));

    let fnt = exec.function_table().emit();
    assert_eq!(fnt, function_table_bytes());
    let again = FunctionTable::parse(&fnt, 0).unwrap();
    assert_eq!(format!("{:?}", again), format!("{:?}", exec.function_table()));
}

#[test]
fn class_with_both_tables_round_trips() {
    let mut b = vec![0x00, 0x01, 0x00, 0x02];
    b.extend_from_slice(&[0xBA, 0xBA]);
    b.extend_from_slice(&[0xFA, 0xDE]);
    b.extend_from_slice(&[0xF1, 0x0F]);
    b.extend_from_slice(&[0xFA, 0xDE]);
    let t = ClassTable::parse(&b, 0).unwrap();
    let c = &t.classes()[0];
    assert_eq!(c.field_table().unwrap().fields().len(), 0);
    assert_eq!(c.function_table().unwrap().functions().len(), 0);
    assert_eq!(c.len(), 10);
    assert_eq!(t.len(), 12);
    assert_eq!(t.emit(), b);
}

#[test]
fn illegal_type_id() {
    let b = vec![0x07, 0, 0, 0, 0, 0xF0, 0x0F];
    assert!(matches!(ConstantDef::parse(&b, 0), Err(ExecutableFormatError::IllegalTypeId(7))));
    assert!(matches!(ConstantTable::parse(&b, 0), Err(ExecutableFormatError::IllegalTypeId(7))));
    let f = vec![0x00, 0x01, 0x1F];
    assert!(matches!(FieldDef::parse(&f, 0), Err(ExecutableFormatError::IllegalTypeId(0x0F))));
}

#[test]
fn numeric_payload_must_match_width() {
    let b = vec![0x02, 0, 0, 0, 3, 1, 2, 3, 0xF0, 0x0F];
    assert!(matches!(ConstantDef::parse(&b, 0), Err(ExecutableFormatError::BadPayloadLen)));
}

#[test]
fn class_with_wrong_terminator() {
    let mut b = vec![0x00, 0x01, 0x00, 0x02];
    b.extend_from_slice(&0xDEADCAFEBABEFADEu64.to_be_bytes());
    b.extend_from_slice(&0xDEADCAFEBABEFADEu64.to_be_bytes());
    b.extend_from_slice(&[0x12, 0x34]);
    assert!(matches!(ClassDef::parse(&b, 0), Err(ExecutableFormatError::InvalidTerminator(0x1234))));
    b.truncate(b.len() - 1);
    assert!(matches!(ClassDef::parse(&b, 0), Err(ExecutableFormatError::MissingTerminator)));
}

#[test]
fn record_reads_past_the_end() {
    let f = vec![0x00, 0x01];
    assert!(matches!(FieldDef::parse(&f, 0), Err(ExecutableFormatError::Truncated)));
    assert!(matches!(FieldTable::parse(&f, 0), Err(ExecutableFormatError::MissingTerminator)));
    let g = vec![0x00, 0x01, 0x02, 0x00, 0x00];
    assert!(matches!(FunctionDef::parse(&g, 0), Err(ExecutableFormatError::Truncated)));
}

#[test]
fn constant_values_by_type() {
    let b = vec![0x00, 0, 0, 0, 1, 0xFE];
    assert_eq!(ConstantDef::parse(&b, 0).unwrap().val(), ConstantValue::I8(0xFE));
    let b = vec![0x01, 0, 0, 0, 2, 0x12, 0x34];
    assert_eq!(ConstantDef::parse(&b, 0).unwrap().val(), ConstantValue::I16(0x1234));
    let mut b = vec![0x03, 0, 0, 0, 8];
    b.extend_from_slice(&0x0102030405060708u64.to_be_bytes());
    assert_eq!(ConstantDef::parse(&b, 0).unwrap().val(), ConstantValue::I64(0x0102030405060708));
    let mut b = vec![0x04, 0, 0, 0, 4];
    b.extend_from_slice(&1.5f32.to_bits().to_be_bytes());
    assert_eq!(ConstantDef::parse(&b, 0).unwrap().val(), ConstantValue::F32(1.5f32.to_bits()));
    let mut b = vec![0x05, 0, 0, 0, 8];
    b.extend_from_slice(&(-2.25f64).to_bits().to_be_bytes());
    assert_eq!(ConstantDef::parse(&b, 0).unwrap().val(), ConstantValue::F64((-2.25f64).to_bits()));
}

#[test]
fn big_endian_reads() {
    let b = [0x01, 0x02, 0x03, 0x04, 0x05, 0x06, 0x07, 0x08];
    assert_eq!(read_u16(&b, 0), Some(0x0102));
    assert_eq!(read_u16(&b, 7), None);
    assert_eq!(read_u32(&b, 4), Some(0x05060708));
    assert_eq!(read_u32(&b, 5), None);
    assert_eq!(read_u64(&b, 0), Some(0x0102030405060708));
    assert_eq!(read_u64(&b, 1), None);
}

#[test]
fn type_ids() {
    assert_eq!(Type::from_flags(0x42), Some(Type::I32));
    assert_eq!(Type::from_flags(0x08), Some(Type::Array));
    assert_eq!(Type::from_flags(0x07), None);
    assert_eq!(Type::from_flags(0x8F), None);
}

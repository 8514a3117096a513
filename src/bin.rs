//! E# binaries: the executable image and its parts.
use vstd::prelude::*;

use crate::class::{parse_class_table, ClassTable, ClassTableView};
use crate::constant::{parse_constant_table, ConstantTable, ConstantTableView};
use crate::decode::{be32, copy_bytes, read_u32};
use crate::error::{viewed, ExecutableFormatError};
use crate::field::{parse_field_table, FieldTable, FieldTableView};
use crate::function::{parse_function_table, FunctionTable, FunctionTableView};
use crate::offset::{parse_offsets, Offsets, OffsetsView};

verus! {

/// The first four bytes of every executable image.
pub const MAGIC: u32 = 0xE500C0DE;

/// The length of an image header: magic, offsets block and reserved bytes.
pub const HEADER_LEN: usize = 36;

/// An E# binary (executable, library, ...).
pub trait BinaryFile {
    /// The bytes of the file.
    spec fn contents(&self) -> Seq<u8>;

    /// The bytes of the file.
    fn buf(&self) -> (r: &[u8])
        ensures
            r@ == self.contents(),
    ;

    /// The length of the file in bytes.
    fn size(&self) -> (r: usize)
        ensures
            r == self.contents().len(),
    ;
}

/// What an executable image holds.
pub struct ExecutableView {
    pub bytes: Seq<u8>,
    pub offsets: OffsetsView,
    pub constant_table: ConstantTableView,
    pub class_table: ClassTableView,
    pub field_table: FieldTableView,
    pub function_table: FunctionTableView,
}

/// The image in `s`: a 36-byte header (magic, offsets, reserved bytes), the
/// constant table right after it, and the class, field and function tables
/// at their offsets.
pub open spec fn parse_executable(s: Seq<u8>) -> Result<ExecutableView, ExecutableFormatError> {
    let offsets = parse_offsets(s);
    if s.len() < HEADER_LEN {
        Err(ExecutableFormatError::Truncated)
    } else if be32(s, 0) != MAGIC {
        Err(ExecutableFormatError::InvalidMagic(be32(s, 0)))
    } else {
        match parse_constant_table(s, HEADER_LEN as int) {
            Err(e) => Err(e),
            Ok(constant_table) => match parse_class_table(s, offsets.class_table as int) {
                Err(e) => Err(e),
                Ok(class_table) => match parse_field_table(s, offsets.field_table as int) {
                    Err(e) => Err(e),
                    Ok(field_table) => match parse_function_table(
                        s,
                        offsets.function_table as int,
                    ) {
                        Err(e) => Err(e),
                        Ok(function_table) => Ok(
                            ExecutableView {
                                bytes: s,
                                offsets,
                                constant_table,
                                class_table,
                                field_table,
                                function_table,
                            },
                        ),
                    },
                },
            },
        }
    }
}

/// An E# executable: its bytes and the tables parsed from them.
#[derive(Debug)]
pub struct Executable {
    buf: Vec<u8>,
    offsets: Offsets,
    constant_table: ConstantTable,
    class_table: ClassTable,
    field_table: FieldTable,
    function_table: FunctionTable,
}

impl View for Executable {
    type V = ExecutableView;

    closed spec fn view(&self) -> ExecutableView {
        ExecutableView {
            bytes: self.buf@,
            offsets: self.offsets@,
            constant_table: self.constant_table@,
            class_table: self.class_table@,
            field_table: self.field_table@,
            function_table: self.function_table@,
        }
    }
}

impl Executable {
    /// Parses an executable image. The image keeps a copy of the bytes, the
    /// reserved header bytes among them.
    pub fn parse(bytes: &[u8]) -> (r: Result<Executable, ExecutableFormatError>)
        ensures
            viewed(r) == parse_executable(bytes@),
            r is Ok ==> bytes@.len() >= HEADER_LEN && be32(bytes@, 0) == MAGIC,
            r matches Ok(e) ==> e.contents() == bytes@ && e@.bytes == bytes@,
    {
        if bytes.len() < HEADER_LEN {
            return Err(ExecutableFormatError::Truncated);
        }
        let magic = read_u32(bytes, 0).unwrap();
        if magic != MAGIC {
            return Err(ExecutableFormatError::InvalidMagic(magic));
        }
        let offsets = Offsets::parse(bytes);
        let constant_table = match ConstantTable::parse(bytes, HEADER_LEN) {
            Ok(t) => t,
            Err(e) => return Err(e),
        };
        let class_table = match ClassTable::parse(bytes, offsets.class_table() as usize) {
            Ok(t) => t,
            Err(e) => return Err(e),
        };
        let field_table = match FieldTable::parse(bytes, offsets.field_table() as usize) {
            Ok(t) => t,
            Err(e) => return Err(e),
        };
        let function_table = match FunctionTable::parse(bytes, offsets.function_table() as usize) {
            Ok(t) => t,
            Err(e) => return Err(e),
        };
        let buf = copy_bytes(bytes, 0, bytes.len());
        assert(bytes@.subrange(0, bytes@.len() as int) =~= bytes@);
        Ok(
            Executable {
                buf,
                offsets,
                constant_table,
                class_table,
                field_table,
                function_table,
            },
        )
    }

    /// The offsets block of the header.
    pub fn offsets(&self) -> (r: Offsets)
        ensures
            r@ == self@.offsets,
    {
        self.offsets
    }

    /// The constant table.
    pub fn constant_table(&self) -> (r: &ConstantTable)
        ensures
            r@ == self@.constant_table,
    {
        &self.constant_table
    }

    /// The class table.
    pub fn class_table(&self) -> (r: &ClassTable)
        ensures
            r@ == self@.class_table,
    {
        &self.class_table
    }

    /// The top-level field table.
    pub fn field_table(&self) -> (r: &FieldTable)
        ensures
            r@ == self@.field_table,
    {
        &self.field_table
    }

    /// The top-level function table.
    pub fn function_table(&self) -> (r: &FunctionTable)
        ensures
            r@ == self@.function_table,
    {
        &self.function_table
    }
}

impl BinaryFile for Executable {
    closed spec fn contents(&self) -> Seq<u8> {
        self.buf@
    }

    fn buf(&self) -> (r: &[u8]) {
        self.buf.as_slice()
    }

    fn size(&self) -> (r: usize) {
        self.buf.len()
    }
}

/// An E# dynamic library: its bytes.
#[derive(Debug)]
pub struct DynamicLibrary {
    buf: Vec<u8>,
}

impl DynamicLibrary {
    /// A library holding `buf`.
    pub fn new(buf: Vec<u8>) -> (r: DynamicLibrary)
        ensures
            r.contents() == buf@,
    {
        DynamicLibrary { buf }
    }
}

impl BinaryFile for DynamicLibrary {
    closed spec fn contents(&self) -> Seq<u8> {
        self.buf@
    }

    fn buf(&self) -> (r: &[u8]) {
        self.buf.as_slice()
    }

    fn size(&self) -> (r: usize) {
        self.buf.len()
    }
}

/// An image that parses begins with the magic.
pub proof fn lemma_image_magic(s: Seq<u8>)
    requires
        parse_executable(s) is Ok,
    ensures
        s.len() >= 4,
        be32(s, 0) == MAGIC,
        parse_executable(s)->Ok_0.bytes == s,
{
}

} // verus!

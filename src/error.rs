//! The errors of the loader, the compiler and the page allocator.
use vstd::prelude::*;

use crate::platform::PlatformKind;

verus! {

/// A malformed image.
#[derive(Debug, Clone, Copy, PartialEq, Eq, Structural)]
pub enum ExecutableFormatError {
    /// The first four bytes are not the image magic; holds what was read.
    InvalidMagic(u32),
    /// A type id (low nibble of a type byte) that no type has.
    IllegalTypeId(u8),
    /// The bytes ran out before the terminator of a table or a class.
    MissingTerminator,
    /// A class ended with this value instead of its terminator.
    InvalidTerminator(u16),
    /// A numeric constant whose payload is not as wide as its type.
    BadPayloadLen,
    /// A fixed-width read past the end of the bytes.
    Truncated,
}

/// What a table makes of a failure inside one of its records: running out of
/// bytes there means that the table's terminator was never reached.
pub open spec fn in_table(e: ExecutableFormatError) -> ExecutableFormatError {
    if e == ExecutableFormatError::Truncated {
        ExecutableFormatError::MissingTerminator
    } else {
        e
    }
}

/// The same as `in_table`.
pub fn in_table_err(e: ExecutableFormatError) -> (r: ExecutableFormatError)
    ensures
        r == in_table(e),
{
    match e {
        ExecutableFormatError::Truncated => ExecutableFormatError::MissingTerminator,
        _ => e,
    }
}

/// A parse result seen through the views of what it holds.
pub open spec fn viewed<T: View>(r: Result<T, ExecutableFormatError>) -> Result<
    T::V,
    ExecutableFormatError,
> {
    match r {
        Ok(t) => Ok(t@),
        Err(e) => Err(e),
    }
}

/// A function that cannot be compiled.
#[derive(Debug, Clone, Copy, PartialEq, Eq, Structural)]
pub enum TranspileError {
    /// An opcode the compiler does not know, at this offset of the bytecode.
    IllegalInsn(usize),
    /// A target that has no back end.
    UnsupportedPlatform(PlatformKind),
    /// The bytecode ended without a return.
    UnterminatedFunction,
}

/// A failure of the page allocator.
#[derive(Debug, Clone, Copy, PartialEq, Eq, Structural)]
pub enum PlatformError {
    /// The page size is not known yet.
    Uninitialized,
    /// A size that cannot be mapped.
    OutOfMemory,
    /// The page could not be made read+execute; holds the OS error number.
    ProtectFailed(i32),
    /// The page could not be unmapped; holds the OS error number.
    UnmapFailed(i32),
}

/// Any failure on the way from bytes to an executable function.
#[derive(Debug, Clone, Copy, PartialEq, Eq, Structural)]
pub enum VmError {
    /// The bytes are not well formed.
    Format(ExecutableFormatError),
    /// The bytecode cannot be compiled.
    Transpile(TranspileError),
    /// The page allocator failed.
    Platform(PlatformError),
}

} // verus!

//! The offsets block of an image header.
use vstd::prelude::*;

use crate::decode::{be32, read_u32};

verus! {

/// Where the tables of an image begin, as byte offsets from its start.
#[derive(Debug, Clone, Copy, PartialEq, Eq, Structural)]
pub struct Offsets {
    constant_table: u32,
    class_table: u32,
    function_table: u32,
    field_table: u32,
}

/// What an offsets block holds.
pub struct OffsetsView {
    pub constant_table: u32,
    pub class_table: u32,
    pub function_table: u32,
    pub field_table: u32,
}

impl View for Offsets {
    type V = OffsetsView;

    closed spec fn view(&self) -> OffsetsView {
        OffsetsView {
            constant_table: self.constant_table,
            class_table: self.class_table,
            function_table: self.function_table,
            field_table: self.field_table,
        }
    }
}

/// The offsets block of a header: four big-endian `u32` at bytes 4 to 20.
pub open spec fn parse_offsets(s: Seq<u8>) -> OffsetsView {
    OffsetsView {
        constant_table: be32(s, 4),
        class_table: be32(s, 8),
        function_table: be32(s, 12),
        field_table: be32(s, 16),
    }
}

impl Offsets {
    /// Reads the offsets block of the header `bytes`.
    pub fn parse(bytes: &[u8]) -> (r: Offsets)
        requires
            bytes@.len() >= 20,
        ensures
            r@ == parse_offsets(bytes@),
    {
        Offsets {
            constant_table: read_u32(bytes, 4).unwrap(),
            class_table: read_u32(bytes, 8).unwrap(),
            function_table: read_u32(bytes, 12).unwrap(),
            field_table: read_u32(bytes, 16).unwrap(),
        }
    }

    /// The offset of the constant table.
    pub fn constant_table(&self) -> (r: u32)
        ensures
            r == self@.constant_table,
    {
        self.constant_table
    }

    /// The offset of the class table.
    pub fn class_table(&self) -> (r: u32)
        ensures
            r == self@.class_table,
    {
        self.class_table
    }

    /// The offset of the top-level function table.
    pub fn function_table(&self) -> (r: u32)
        ensures
            r == self@.function_table,
    {
        self.function_table
    }

    /// The offset of the top-level field table.
    pub fn field_table(&self) -> (r: u32)
        ensures
            r == self@.field_table,
    {
        self.field_table
    }
}

} // verus!

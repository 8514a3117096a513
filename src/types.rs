//! Type bytes: a type id in the low nibble, modifier bits in the high nibble.
use vstd::prelude::*;

use crate::decode::{be16, enc16, fits, read_u16, write_u16};

verus! {

/// A type byte.
pub type TypeFlags = u8;

/// An index into the constant table.
pub type ConstantIndex = u16;

/// The types that a type id names.
#[derive(Debug, Clone, Copy, PartialEq, Eq, Structural)]
pub enum Type {
    I8,
    I16,
    I32,
    I64,
    F32,
    F64,
    Object,
    Array,
}

/// The type id of a type byte.
pub open spec fn type_id(flags: u8) -> u8 {
    flags % 16
}

/// The type that a type id names.
pub open spec fn spec_type_of(id: u8) -> Option<Type> {
    if id == 0 {
        Some(Type::I8)
    } else if id == 1 {
        Some(Type::I16)
    } else if id == 2 {
        Some(Type::I32)
    } else if id == 3 {
        Some(Type::I64)
    } else if id == 4 {
        Some(Type::F32)
    } else if id == 5 {
        Some(Type::F64)
    } else if id == 6 {
        Some(Type::Object)
    } else if id == 8 {
        Some(Type::Array)
    } else {
        None
    }
}

/// Whether a type id names a type.
pub open spec fn valid_type_id(id: u8) -> bool {
    spec_type_of(id) is Some
}

/// The width of the operand that follows a type byte with this id: one byte
/// (the element type) for an array, two (a constant index) for an object.
pub open spec fn operand_width(id: u8) -> nat {
    if id == 8 {
        1
    } else if id == 6 {
        2
    } else {
        0
    }
}

/// The payload width that a numeric type id demands.
pub open spec fn natural_width(id: u8) -> Option<nat> {
    if id == 0 {
        Some(1)
    } else if id == 1 {
        Some(2)
    } else if id == 2 || id == 4 {
        Some(4)
    } else if id == 3 || id == 5 {
        Some(8)
    } else {
        None
    }
}

impl Type {
    /// The type that the type byte `flags` names, if any.
    pub fn from_flags(flags: TypeFlags) -> (r: Option<Type>)
        ensures
            r == spec_type_of(type_id(flags)),
    {
        match flags % 16 {
            0 => Some(Type::I8),
            1 => Some(Type::I16),
            2 => Some(Type::I32),
            3 => Some(Type::I64),
            4 => Some(Type::F32),
            5 => Some(Type::F64),
            6 => Some(Type::Object),
            8 => Some(Type::Array),
            _ => None,
        }
    }
}

/// The operand width of a type id.
pub fn operand_width_of(id: u8) -> (r: usize)
    ensures
        r == operand_width(id),
{
    if id == 8 {
        1
    } else if id == 6 {
        2
    } else {
        0
    }
}

/// The operand that follows a type byte with id `id`, read at `p`.
pub open spec fn operand_at(s: Seq<u8>, p: int, id: u8) -> Option<u16> {
    if operand_width(id) == 1 {
        Some(s[p] as u16)
    } else if operand_width(id) == 2 {
        Some(be16(s, p))
    } else {
        None
    }
}

/// The bytes of the operand `op` of a type byte with id `id`.
pub open spec fn encode_operand(id: u8, op: Option<u16>) -> Seq<u8> {
    match op {
        Some(v) => if operand_width(id) == 1 {
            seq![v as u8]
        } else if operand_width(id) == 2 {
            enc16(v)
        } else {
            Seq::empty()
        },
        None => Seq::empty(),
    }
}

/// Reads the operand of a type byte with id `id` at `p`; `None` where the
/// bytes run out.
pub fn read_operand(s: &[u8], p: usize, id: u8) -> (r: Option<Option<u16>>)
    ensures
        match r {
            Some(op) => fits(s@, p as int, operand_width(id) as int) && op == operand_at(
                s@,
                p as int,
                id,
            ),
            None => !fits(s@, p as int, operand_width(id) as int),
        },
{
    let w = operand_width_of(id);
    if w == 1 {
        if p < s.len() {
            Some(Some(s[p] as u16))
        } else {
            None
        }
    } else if w == 2 {
        match read_u16(s, p) {
            Some(v) => Some(Some(v)),
            None => None,
        }
    } else {
        if p <= s.len() {
            Some(None)
        } else {
            None
        }
    }
}

/// Appends the bytes of the operand `op` of a type byte with id `id`.
pub fn write_operand(out: &mut Vec<u8>, id: u8, op: Option<u16>)
    ensures
        final(out)@ == old(out)@ + encode_operand(id, op),
{
    match op {
        Some(v) => {
            let w = operand_width_of(id);
            if w == 1 {
                out.push(v as u8);
                assert(out@ =~= old(out)@ + encode_operand(id, op));
            } else if w == 2 {
                write_u16(out, v);
            } else {
                assert(out@ =~= old(out)@ + encode_operand(id, op));
            }
        },
        None => {
            assert(out@ =~= old(out)@ + encode_operand(id, op));
        },
    }
}

/// The payload width that a numeric type id demands.
pub fn natural_width_of(id: u8) -> (r: Option<u32>)
    ensures
        match r {
            Some(w) => natural_width(id) == Some(w as nat),
            None => natural_width(id) is None,
        },
{
    if id == 0 {
        Some(1)
    } else if id == 1 {
        Some(2)
    } else if id == 2 || id == 4 {
        Some(4)
    } else if id == 3 || id == 5 {
        Some(8)
    } else {
        None
    }
}

} // verus!

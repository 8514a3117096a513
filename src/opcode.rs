//! The bytecode instruction set.
use vstd::prelude::*;

verus! {

/// A bytecode opcode.
#[allow(non_camel_case_types, clippy::upper_case_acronyms)]
#[derive(Debug, Clone, Copy, PartialEq, Eq, Structural)]
pub enum Opcode {
    NOP,
    ADD,
    SUB,
    MUL,
    DIV,
    GOTO,
    RET,
}

/// The byte of each opcode.
pub open spec fn opcode_byte(op: Opcode) -> u8 {
    match op {
        Opcode::NOP => 0x00,
        Opcode::ADD => 0x01,
        Opcode::SUB => 0x02,
        Opcode::MUL => 0x03,
        Opcode::DIV => 0x04,
        Opcode::GOTO => 0x05,
        Opcode::RET => 0x1A,
    }
}

impl Opcode {
    /// The opcode a byte stands for, if any.
    pub fn from_byte(b: u8) -> (r: Option<Opcode>)
        ensures
            match r {
                Some(op) => opcode_byte(op) == b,
                None => forall|op: Opcode| opcode_byte(op) != b,
            },
    {
        match b {
            0x00 => Some(Opcode::NOP),
            0x01 => Some(Opcode::ADD),
            0x02 => Some(Opcode::SUB),
            0x03 => Some(Opcode::MUL),
            0x04 => Some(Opcode::DIV),
            0x05 => Some(Opcode::GOTO),
            0x1A => Some(Opcode::RET),
            _ => None,
        }
    }

    /// The byte of this opcode.
    pub fn to_byte(self) -> (r: u8)
        ensures
            r == opcode_byte(self),
    {
        match self {
            Opcode::NOP => 0x00,
            Opcode::ADD => 0x01,
            Opcode::SUB => 0x02,
            Opcode::MUL => 0x03,
            Opcode::DIV => 0x04,
            Opcode::GOTO => 0x05,
            Opcode::RET => 0x1A,
        }
    }
}

/// The signedness flag carried in the high bit of an instruction.
#[allow(non_camel_case_types, clippy::upper_case_acronyms)]
#[derive(Debug, Clone, Copy, PartialEq, Eq, Structural)]
pub enum InsnFlag {
    SIGNED,
    UNSIGNED,
}

impl InsnFlag {
    /// The flag an instruction has unless it says otherwise.
    #[allow(clippy::should_implement_trait)]
    pub fn default() -> (r: InsnFlag)
        ensures
            r == InsnFlag::SIGNED,
    {
        InsnFlag::SIGNED
    }

    /// The bit pattern of the flag: `0x80` signed, `0x00` unsigned.
    pub fn bits(self) -> (r: u8)
        ensures
            r == (if self == InsnFlag::SIGNED {
                0x80u8
            } else {
                0x00u8
            }),
    {
        match self {
            InsnFlag::SIGNED => 0x80,
            InsnFlag::UNSIGNED => 0x00,
        }
    }

    /// The flag of an instruction byte: its high bit.
    pub fn of_byte(b: u8) -> (r: InsnFlag)
        ensures
            r == (if b >= 0x80 {
                InsnFlag::SIGNED
            } else {
                InsnFlag::UNSIGNED
            }),
    {
        if b >= 0x80 {
            InsnFlag::SIGNED
        } else {
            InsnFlag::UNSIGNED
        }
    }
}

} // verus!

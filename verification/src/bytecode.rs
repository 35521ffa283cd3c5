//! The fixed one-byte opcode assignments of the wire format.
//!
//! The `Inc`, `Dec` and `Alias` codes have no assignment inherited from the
//! opcode table; this implementation pins them at `0x1C`, `0x1D` and `0x1E`.

use vstd::prelude::*;

verus! {

/// One wire opcode.
#[derive(Debug, Copy, Clone, PartialEq, Eq, Structural)]
pub enum ByteCode {
    Nop,
    Version,
    Dump,
    Hi,
    Func,
    Call,
    PushConstString,
    PushConstInteger,
    PushConstFloat,
    PushConstBoolean,
    GetLocal,
    SetLocal,
    ReserveLocal,
    Allocate,
    GetField,
    SetField,
    Pop,
    Dup,
    Add,
    Sub,
    Mul,
    Div,
    Inc,
    Dec,
    Eq,
    Ne,
    Lt,
    Le,
    Gt,
    Ge,
    Module,
    LoadModule,
    GetFunction,
    Alias,
    Return,
    Then,
    Else,
    Loop,
    Break,
    Continue,
}

/// The byte assigned to each opcode.
pub open spec fn code_of(c: ByteCode) -> u8 {
    match c {
        ByteCode::Nop => 0x00,
        ByteCode::Dump => 0x01,
        ByteCode::Hi => 0x02,
        ByteCode::Func => 0x03,
        ByteCode::Call => 0x04,
        ByteCode::Allocate => 0x05,
        ByteCode::GetField => 0x06,
        ByteCode::SetField => 0x07,
        ByteCode::GetLocal => 0x09,
        ByteCode::SetLocal => 0x0A,
        ByteCode::Pop => 0x0B,
        ByteCode::Dup => 0x0C,
        ByteCode::Add => 0x0D,
        ByteCode::Sub => 0x0E,
        ByteCode::Mul => 0x0F,
        ByteCode::Div => 0x10,
        ByteCode::Eq => 0x11,
        ByteCode::Ne => 0x12,
        ByteCode::Lt => 0x13,
        ByteCode::Le => 0x14,
        ByteCode::Gt => 0x15,
        ByteCode::Ge => 0x16,
        ByteCode::Version => 0x17,
        ByteCode::ReserveLocal => 0x18,
        ByteCode::LoadModule => 0x19,
        ByteCode::GetFunction => 0x1A,
        ByteCode::Module => 0x1B,
        ByteCode::Inc => 0x1C,
        ByteCode::Dec => 0x1D,
        ByteCode::Alias => 0x1E,
        ByteCode::PushConstString => 0x40,
        ByteCode::PushConstInteger => 0x41,
        ByteCode::PushConstFloat => 0x42,
        ByteCode::PushConstBoolean => 0x43,
        ByteCode::Continue => 0xF9,
        ByteCode::Break => 0xFA,
        ByteCode::Loop => 0xFB,
        ByteCode::Else => 0xFC,
        ByteCode::Then => 0xFD,
        ByteCode::Return => 0xFE,
    }
}

/// The opcode assigned to a byte, if any.
pub open spec fn code_from(value: u8) -> Option<ByteCode> {
    match value {
        0x00u8 => Some(ByteCode::Nop),
        0x01u8 => Some(ByteCode::Dump),
        0x02u8 => Some(ByteCode::Hi),
        0x03u8 => Some(ByteCode::Func),
        0x04u8 => Some(ByteCode::Call),
        0x05u8 => Some(ByteCode::Allocate),
        0x06u8 => Some(ByteCode::GetField),
        0x07u8 => Some(ByteCode::SetField),
        0x09u8 => Some(ByteCode::GetLocal),
        0x0Au8 => Some(ByteCode::SetLocal),
        0x0Bu8 => Some(ByteCode::Pop),
        0x0Cu8 => Some(ByteCode::Dup),
        0x0Du8 => Some(ByteCode::Add),
        0x0Eu8 => Some(ByteCode::Sub),
        0x0Fu8 => Some(ByteCode::Mul),
        0x10u8 => Some(ByteCode::Div),
        0x11u8 => Some(ByteCode::Eq),
        0x12u8 => Some(ByteCode::Ne),
        0x13u8 => Some(ByteCode::Lt),
        0x14u8 => Some(ByteCode::Le),
        0x15u8 => Some(ByteCode::Gt),
        0x16u8 => Some(ByteCode::Ge),
        0x17u8 => Some(ByteCode::Version),
        0x18u8 => Some(ByteCode::ReserveLocal),
        0x19u8 => Some(ByteCode::LoadModule),
        0x1Au8 => Some(ByteCode::GetFunction),
        0x1Bu8 => Some(ByteCode::Module),
        0x1Cu8 => Some(ByteCode::Inc),
        0x1Du8 => Some(ByteCode::Dec),
        0x1Eu8 => Some(ByteCode::Alias),
        0x40u8 => Some(ByteCode::PushConstString),
        0x41u8 => Some(ByteCode::PushConstInteger),
        0x42u8 => Some(ByteCode::PushConstFloat),
        0x43u8 => Some(ByteCode::PushConstBoolean),
        0xF9u8 => Some(ByteCode::Continue),
        0xFAu8 => Some(ByteCode::Break),
        0xFBu8 => Some(ByteCode::Loop),
        0xFCu8 => Some(ByteCode::Else),
        0xFDu8 => Some(ByteCode::Then),
        0xFEu8 => Some(ByteCode::Return),
        _ => None,
    }
}

/// The two tables invert each other.
pub proof fn lemma_code_inverse(c: ByteCode)
    ensures
        code_from(code_of(c)) == Some(c),
{
}

impl ByteCode {
    pub fn from_u8(value: u8) -> (r: Option<ByteCode>)
        ensures
            r == code_from(value),
    {
        match value {
            0x00 => Some(ByteCode::Nop),
            0x01 => Some(ByteCode::Dump),
            0x02 => Some(ByteCode::Hi),
            0x03 => Some(ByteCode::Func),
            0x04 => Some(ByteCode::Call),
            0x05 => Some(ByteCode::Allocate),
            0x06 => Some(ByteCode::GetField),
            0x07 => Some(ByteCode::SetField),
            0x09 => Some(ByteCode::GetLocal),
            0x0A => Some(ByteCode::SetLocal),
            0x0B => Some(ByteCode::Pop),
            0x0C => Some(ByteCode::Dup),
            0x0D => Some(ByteCode::Add),
            0x0E => Some(ByteCode::Sub),
            0x0F => Some(ByteCode::Mul),
            0x10 => Some(ByteCode::Div),
            0x11 => Some(ByteCode::Eq),
            0x12 => Some(ByteCode::Ne),
            0x13 => Some(ByteCode::Lt),
            0x14 => Some(ByteCode::Le),
            0x15 => Some(ByteCode::Gt),
            0x16 => Some(ByteCode::Ge),
            0x17 => Some(ByteCode::Version),
            0x18 => Some(ByteCode::ReserveLocal),
            0x19 => Some(ByteCode::LoadModule),
            0x1A => Some(ByteCode::GetFunction),
            0x1B => Some(ByteCode::Module),
            0x1C => Some(ByteCode::Inc),
            0x1D => Some(ByteCode::Dec),
            0x1E => Some(ByteCode::Alias),
            0x40 => Some(ByteCode::PushConstString),
            0x41 => Some(ByteCode::PushConstInteger),
            0x42 => Some(ByteCode::PushConstFloat),
            0x43 => Some(ByteCode::PushConstBoolean),
            0xF9 => Some(ByteCode::Continue),
            0xFA => Some(ByteCode::Break),
            0xFB => Some(ByteCode::Loop),
            0xFC => Some(ByteCode::Else),
            0xFD => Some(ByteCode::Then),
            0xFE => Some(ByteCode::Return),
            _ => None,
        }
    }

    pub fn to_u8(&self) -> (r: u8)
        ensures
            r == code_of(*self),
    {
        match self {
            ByteCode::Nop => 0x00,
            ByteCode::Dump => 0x01,
            ByteCode::Hi => 0x02,
            ByteCode::Func => 0x03,
            ByteCode::Call => 0x04,
            ByteCode::Allocate => 0x05,
            ByteCode::GetField => 0x06,
            ByteCode::SetField => 0x07,
            ByteCode::GetLocal => 0x09,
            ByteCode::SetLocal => 0x0A,
            ByteCode::Pop => 0x0B,
            ByteCode::Dup => 0x0C,
            ByteCode::Add => 0x0D,
            ByteCode::Sub => 0x0E,
            ByteCode::Mul => 0x0F,
            ByteCode::Div => 0x10,
            ByteCode::Eq => 0x11,
            ByteCode::Ne => 0x12,
            ByteCode::Lt => 0x13,
            ByteCode::Le => 0x14,
            ByteCode::Gt => 0x15,
            ByteCode::Ge => 0x16,
            ByteCode::Version => 0x17,
            ByteCode::ReserveLocal => 0x18,
            ByteCode::LoadModule => 0x19,
            ByteCode::GetFunction => 0x1A,
            ByteCode::Module => 0x1B,
            ByteCode::Inc => 0x1C,
            ByteCode::Dec => 0x1D,
            ByteCode::Alias => 0x1E,
            ByteCode::PushConstString => 0x40,
            ByteCode::PushConstInteger => 0x41,
            ByteCode::PushConstFloat => 0x42,
            ByteCode::PushConstBoolean => 0x43,
            ByteCode::Continue => 0xF9,
            ByteCode::Break => 0xFA,
            ByteCode::Loop => 0xFB,
            ByteCode::Else => 0xFC,
            ByteCode::Then => 0xFD,
            ByteCode::Return => 0xFE,
        }
    }
}

} // verus!

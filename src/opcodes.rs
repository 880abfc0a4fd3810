//! The instruction set: one-byte opcodes, some followed by a 24-bit operand.
use vstd::prelude::*;

verus! {

/// One instruction tag. The byte of each opcode is its position in this list
/// (`Push` is 0, `Print` is 20).
#[derive(Debug, Clone, Copy, PartialEq, Eq, Structural)]
pub enum OpCode {
    Push,
    Pop,
    IAdd,
    ISub,
    IMul,
    IDiv,
    IRem,
    FAdd,
    FSub,
    FMul,
    FDiv,
    FRem,
    StoreGlob,
    LoadGlob,
    Jmp,
    JmpIf,
    Call,
    Ret,
    StoreLoc,
    LoadLoc,
    Print,
}

/// The byte that encodes an opcode.
pub open spec fn opcode_byte(op: OpCode) -> u8 {
    match op {
        OpCode::Push => 0,
        OpCode::Pop => 1,
        OpCode::IAdd => 2,
        OpCode::ISub => 3,
        OpCode::IMul => 4,
        OpCode::IDiv => 5,
        OpCode::IRem => 6,
        OpCode::FAdd => 7,
        OpCode::FSub => 8,
        OpCode::FMul => 9,
        OpCode::FDiv => 10,
        OpCode::FRem => 11,
        OpCode::StoreGlob => 12,
        OpCode::LoadGlob => 13,
        OpCode::Jmp => 14,
        OpCode::JmpIf => 15,
        OpCode::Call => 16,
        OpCode::Ret => 17,
        OpCode::StoreLoc => 18,
        OpCode::LoadLoc => 19,
        OpCode::Print => 20,
    }
}

/// The opcode that a byte encodes, if any.
pub open spec fn decode_opcode(b: u8) -> Option<OpCode> {
    if b <= 20 {
        Some(choose|op: OpCode| opcode_byte(op) == b)
    } else {
        None
    }
}

/// Whether an opcode is followed by a 24-bit operand.
pub open spec fn has_operand(op: OpCode) -> bool {
    match op {
        OpCode::Push | OpCode::StoreGlob | OpCode::LoadGlob | OpCode::Jmp | OpCode::JmpIf
        | OpCode::Call | OpCode::StoreLoc | OpCode::LoadLoc => true,
        _ => false,
    }
}

/// The width in bytes of an instruction with this opcode.
pub open spec fn instr_width(op: OpCode) -> nat {
    if has_operand(op) {
        4
    } else {
        1
    }
}

impl OpCode {
    /// The byte that encodes this opcode.
    pub fn to_u8(self) -> (r: u8)
        ensures
            r == opcode_byte(self),
    {
        match self {
            OpCode::Push => 0,
            OpCode::Pop => 1,
            OpCode::IAdd => 2,
            OpCode::ISub => 3,
            OpCode::IMul => 4,
            OpCode::IDiv => 5,
            OpCode::IRem => 6,
            OpCode::FAdd => 7,
            OpCode::FSub => 8,
            OpCode::FMul => 9,
            OpCode::FDiv => 10,
            OpCode::FRem => 11,
            OpCode::StoreGlob => 12,
            OpCode::LoadGlob => 13,
            OpCode::Jmp => 14,
            OpCode::JmpIf => 15,
            OpCode::Call => 16,
            OpCode::Ret => 17,
            OpCode::StoreLoc => 18,
            OpCode::LoadLoc => 19,
            OpCode::Print => 20,
        }
    }

    /// Whether this opcode is followed by a 24-bit operand.
    pub fn takes_operand(self) -> (r: bool)
        ensures
            r == has_operand(self),
    {
        match self {
            OpCode::Push | OpCode::StoreGlob | OpCode::LoadGlob | OpCode::Jmp | OpCode::JmpIf
            | OpCode::Call | OpCode::StoreLoc | OpCode::LoadLoc => true,
            _ => false,
        }
    }

    /// Decodes an opcode byte; bytes above 20 encode no opcode.
    pub fn from_u8(val: u8) -> (r: Option<OpCode>)
        ensures
            r == decode_opcode(val),
            r matches Some(op) ==> opcode_byte(op) == val,
    {
        let r = match val {
            0 => Some(OpCode::Push),
            1 => Some(OpCode::Pop),
            2 => Some(OpCode::IAdd),
            3 => Some(OpCode::ISub),
            4 => Some(OpCode::IMul),
            5 => Some(OpCode::IDiv),
            6 => Some(OpCode::IRem),
            7 => Some(OpCode::FAdd),
            8 => Some(OpCode::FSub),
            9 => Some(OpCode::FMul),
            10 => Some(OpCode::FDiv),
            11 => Some(OpCode::FRem),
            12 => Some(OpCode::StoreGlob),
            13 => Some(OpCode::LoadGlob),
            14 => Some(OpCode::Jmp),
            15 => Some(OpCode::JmpIf),
            16 => Some(OpCode::Call),
            17 => Some(OpCode::Ret),
            18 => Some(OpCode::StoreLoc),
            19 => Some(OpCode::LoadLoc),
            20 => Some(OpCode::Print),
            _ => None,
        };
        proof {
            if let Some(op) = r {
                lemma_opcode_byte_injective(op);
            }
        }
        r
    }
}

/// Distinct opcodes have distinct bytes.
pub proof fn lemma_opcode_byte_injective(op: OpCode)
    ensures
        forall|o: OpCode| #[trigger] opcode_byte(o) == opcode_byte(op) ==> o == op,
        decode_opcode(opcode_byte(op)) == Some(op),
{
    assert forall|o: OpCode| #[trigger] opcode_byte(o) == opcode_byte(op) implies o == op by {}
    let b = opcode_byte(op);
    assert(opcode_byte(op) == b);
    let c = choose|o: OpCode| opcode_byte(o) == b;
    assert(opcode_byte(c) == b);
}

} // verus!

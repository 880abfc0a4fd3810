//! A chunk: one compiled unit with its instruction stream, constant pool and
//! local-variable slots, and the fixed-width encoding of its instructions.
use vstd::prelude::*;
use crate::opcodes::{OpCode, opcode_byte, has_operand};
use crate::value::StackSlot;

verus! {

/// The largest value a 24-bit operand can hold.
pub const MAX_OPERAND: usize = 16777215;

/// The three big-endian bytes of a 24-bit operand.
pub open spec fn operand_bytes(n: nat) -> Seq<u8> {
    seq![(n / 65536) as u8, ((n / 256) % 256) as u8, (n % 256) as u8]
}

/// The 24-bit big-endian operand that starts at byte `i` of `code`.
pub open spec fn operand_at(code: Seq<u8>, i: int) -> nat {
    (code[i] as nat) * 65536 + (code[i + 1] as nat) * 256 + (code[i + 2] as nat)
}

/// The four bytes of an instruction that carries an operand.
pub open spec fn encode_instr(op: OpCode, n: nat) -> Seq<u8> {
    seq![opcode_byte(op)] + operand_bytes(n)
}

/// Decoding the bytes of an operand gives back the operand, for every value
/// that fits in 24 bits.
pub proof fn lemma_operand_round_trip(n: nat)
    requires
        n <= MAX_OPERAND,
    ensures
        operand_at(operand_bytes(n), 0) == n,
        operand_at(encode_instr(OpCode::Push, n), 1) == n,
{
    let hi = n / 65536;
    let r = n % 65536;
    let mid = r / 256;
    let lo = r % 256;
    assert(n == hi * 65536 + r) by (nonlinear_arith)
        requires hi == n / 65536, r == n % 65536;
    assert(hi < 256) by (nonlinear_arith)
        requires hi == n / 65536, n <= 16777215;
    assert(r == mid * 256 + lo) by (nonlinear_arith)
        requires mid == r / 256, lo == r % 256;
    assert((n / 256) % 256 == mid) by (nonlinear_arith)
        requires n == hi * 65536 + r, r == mid * 256 + lo, 0 <= lo < 256, 0 <= r < 65536, mid == r / 256, lo == r % 256;
    assert(n % 256 == lo) by (nonlinear_arith)
        requires n == hi * 65536 + r, r == mid * 256 + lo, 0 <= lo < 256, lo == r % 256;
    let b = operand_bytes(n);
    assert(b[0] as nat == hi);
    assert(b[1] as nat == mid);
    assert(b[2] as nat == lo);
    let e = encode_instr(OpCode::Push, n);
    assert(e[1] == b[0] && e[2] == b[1] && e[3] == b[2]);
}

/// An operand was too large for the 24-bit encoding.
#[derive(Debug, Clone, Copy, PartialEq, Eq, Structural)]
pub struct OperandTooLarge {
    pub operand: usize,
}

/// One compiled function or top-level unit.
pub struct Chunk {
    pub constants: Vec<StackSlot>,
    pub bytecode: Vec<u8>,
    pub locals: Vec<Option<StackSlot>>,
}

impl Chunk {
    /// An empty chunk.
    pub fn new() -> (r: Chunk)
        ensures
            r.constants@ == Seq::<StackSlot>::empty(),
            r.bytecode@ == Seq::<u8>::empty(),
            r.locals@ == Seq::<Option<StackSlot>>::empty(),
    {
        Chunk { constants: Vec::new(), bytecode: Vec::new(), locals: Vec::new() }
    }

    /// Appends one byte to the instruction stream and returns its offset.
    pub fn emit_byte(&mut self, byte: u8) -> (r: usize)
        ensures
            r == old(self).bytecode@.len(),
            final(self).bytecode@ == old(self).bytecode@.push(byte),
            final(self).constants@ == old(self).constants@,
            final(self).locals@ == old(self).locals@,
    {
        let r = self.bytecode.len();
        self.bytecode.push(byte);
        r
    }

    /// Appends an instruction with a 24-bit operand and returns its offset; an
    /// operand above `MAX_OPERAND` is refused and nothing is emitted.
    pub fn emit_op(&mut self, op: OpCode, operand: usize) -> (r: Result<usize, OperandTooLarge>)
        requires
            has_operand(op),
        ensures
            operand <= MAX_OPERAND ==> r == Ok::<usize, OperandTooLarge>(old(self).bytecode@.len() as usize)
                && final(self).bytecode@ == old(self).bytecode@ + encode_instr(op, operand as nat),
            operand > MAX_OPERAND ==> r == Err::<usize, OperandTooLarge>(OperandTooLarge { operand })
                && final(self).bytecode@ == old(self).bytecode@,
            final(self).constants@ == old(self).constants@,
            final(self).locals@ == old(self).locals@,
    {
        if operand > MAX_OPERAND {
            return Err(OperandTooLarge { operand });
        }
        let first = self.emit_byte(op.to_u8());
        self.emit_byte((operand / 65536) as u8);
        self.emit_byte(((operand / 256) % 256) as u8);
        self.emit_byte((operand % 256) as u8);
        assert(self.bytecode@ =~= old(self).bytecode@ + encode_instr(op, operand as nat));
        Ok(first)
    }

    /// Adds a constant to the pool and emits a `Push` of it; returns the
    /// offset of the instruction.
    pub fn emit_const(&mut self, slot: StackSlot) -> (r: Result<usize, OperandTooLarge>)
        ensures
            old(self).constants@.len() <= MAX_OPERAND ==> r == Ok::<usize, OperandTooLarge>(
                old(self).bytecode@.len() as usize)
                && final(self).constants@ == old(self).constants@.push(slot)
                && final(self).bytecode@ == old(self).bytecode@ + encode_instr(
                OpCode::Push,
                old(self).constants@.len(),
            ),
            old(self).constants@.len() > MAX_OPERAND ==> r == Err::<usize, OperandTooLarge>(
                OperandTooLarge { operand: old(self).constants@.len() as usize },
            ) && *final(self) == *old(self),
            final(self).locals@ == old(self).locals@,
    {
        let index = self.constants.len();
        if index > MAX_OPERAND {
            return Err(OperandTooLarge { operand: index });
        }
        self.constants.push(slot);
        self.emit_op(OpCode::Push, index)
    }

    /// Emits a jump to an absolute offset.
    pub fn emit_jmp(&mut self, index: u32) -> (r: Result<usize, OperandTooLarge>)
        ensures
            index <= MAX_OPERAND ==> r == Ok::<usize, OperandTooLarge>(old(self).bytecode@.len() as usize)
                && final(self).bytecode@ == old(self).bytecode@ + encode_instr(OpCode::Jmp, index as nat),
            index > MAX_OPERAND ==> r == Err::<usize, OperandTooLarge>(OperandTooLarge { operand: index as usize })
                && final(self).bytecode@ == old(self).bytecode@,
            final(self).constants@ == old(self).constants@,
            final(self).locals@ == old(self).locals@,
    {
        self.emit_op(OpCode::Jmp, index as usize)
    }

    /// Emits a conditional jump to an absolute offset.
    pub fn emit_jmp_if(&mut self, index: u32) -> (r: Result<usize, OperandTooLarge>)
        ensures
            index <= MAX_OPERAND ==> r == Ok::<usize, OperandTooLarge>(old(self).bytecode@.len() as usize)
                && final(self).bytecode@ == old(self).bytecode@ + encode_instr(OpCode::JmpIf, index as nat),
            index > MAX_OPERAND ==> r == Err::<usize, OperandTooLarge>(OperandTooLarge { operand: index as usize })
                && final(self).bytecode@ == old(self).bytecode@,
            final(self).constants@ == old(self).constants@,
            final(self).locals@ == old(self).locals@,
    {
        self.emit_op(OpCode::JmpIf, index as usize)
    }

    /// Emits a call of the chunk with the given index.
    pub fn emit_call(&mut self, index: usize) -> (r: Result<usize, OperandTooLarge>)
        ensures
            index <= MAX_OPERAND ==> r == Ok::<usize, OperandTooLarge>(old(self).bytecode@.len() as usize)
                && final(self).bytecode@ == old(self).bytecode@ + encode_instr(OpCode::Call, index as nat),
            index > MAX_OPERAND ==> r == Err::<usize, OperandTooLarge>(OperandTooLarge { operand: index as usize })
                && final(self).bytecode@ == old(self).bytecode@,
            final(self).constants@ == old(self).constants@,
            final(self).locals@ == old(self).locals@,
    {
        self.emit_op(OpCode::Call, index)
    }

    /// Adds an unbound local slot and returns its index.
    pub fn create_local(&mut self) -> (r: usize)
        ensures
            r == old(self).locals@.len(),
            final(self).locals@ == old(self).locals@.push(None),
            final(self).constants@ == old(self).constants@,
            final(self).bytecode@ == old(self).bytecode@,
    {
        let r = self.locals.len();
        self.locals.push(None);
        r
    }

    /// Emits a store into a local slot.
    pub fn store_local(&mut self, index: usize) -> (r: Result<usize, OperandTooLarge>)
        ensures
            index <= MAX_OPERAND ==> r == Ok::<usize, OperandTooLarge>(old(self).bytecode@.len() as usize)
                && final(self).bytecode@ == old(self).bytecode@ + encode_instr(OpCode::StoreLoc, index as nat),
            index > MAX_OPERAND ==> r == Err::<usize, OperandTooLarge>(OperandTooLarge { operand: index as usize })
                && final(self).bytecode@ == old(self).bytecode@,
            final(self).constants@ == old(self).constants@,
            final(self).locals@ == old(self).locals@,
    {
        self.emit_op(OpCode::StoreLoc, index)
    }

    /// Emits a load from a local slot.
    pub fn load_local(&mut self, index: usize) -> (r: Result<usize, OperandTooLarge>)
        ensures
            index <= MAX_OPERAND ==> r == Ok::<usize, OperandTooLarge>(old(self).bytecode@.len() as usize)
                && final(self).bytecode@ == old(self).bytecode@ + encode_instr(OpCode::LoadLoc, index as nat),
            index > MAX_OPERAND ==> r == Err::<usize, OperandTooLarge>(OperandTooLarge { operand: index as usize })
                && final(self).bytecode@ == old(self).bytecode@,
            final(self).constants@ == old(self).constants@,
            final(self).locals@ == old(self).locals@,
    {
        self.emit_op(OpCode::LoadLoc, index)
    }

    /// The value held in a local slot, if the slot exists and is bound.
    pub fn get_local(&self, index: usize) -> (r: Option<StackSlot>)
        ensures
            r == (if index < self.locals@.len() { self.locals@[index as int] } else { None }),
    {
        if index < self.locals.len() {
            self.locals[index]
        } else {
            None
        }
    }
}

} // verus!

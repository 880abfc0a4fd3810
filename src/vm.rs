//! The virtual machine: chunk table, evaluation stack, call frames and
//! globals, with a fetch-decode-execute step and a bounded run loop.
use vstd::prelude::*;
use crate::chunk::{Chunk, OperandTooLarge, MAX_OPERAND, encode_instr, operand_at, lemma_operand_round_trip, operand_bytes};
use crate::opcodes::{OpCode, decode_opcode, has_operand, instr_width, opcode_byte, lemma_opcode_byte_injective};
use crate::value::StackSlot;

verus! {

/// A saved return point: where the caller resumes after a `Ret`.
#[derive(Debug, Clone, Copy, PartialEq, Eq, Structural)]
pub struct CallFrame {
    pub return_pos: usize,
    pub chunk_index: usize,
}

/// A fatal condition met while executing bytecode.
#[derive(Debug, Clone, Copy, PartialEq, Eq, Structural)]
pub enum RuntimeError {
    /// An instruction needed more values than the stack held.
    StackUnderflow,
    /// An arithmetic operand was not of the instruction's numeric kind.
    TypeMismatch,
    /// Integer division or remainder by zero.
    DivisionByZero,
    /// An integer result does not fit in 64 bits.
    IntegerOverflow,
    /// A global slot was read before any store.
    UnboundGlobal(usize),
    /// A local slot was read before any store.
    UnboundLocal(usize),
    /// A `Push` named a constant that the chunk does not have.
    NoSuchConstant(usize),
    /// A global instruction named a slot that does not exist.
    NoSuchGlobal(usize),
    /// A local instruction named a slot that the chunk does not have.
    NoSuchLocal(usize),
    /// A `Call` named a chunk that does not exist.
    NoSuchChunk(usize),
    /// A jump target lies beyond the end of the chunk.
    JumpOutOfBounds(usize),
    /// A `Ret` with no active call.
    EmptyCallStack,
    /// An operand-bearing instruction runs past the end of the chunk.
    TruncatedInstruction,
}

/// A float operation that the host carries out.
#[derive(Debug, Clone, Copy, PartialEq, Eq, Structural)]
pub enum FloatOp {
    Add,
    Sub,
    Mul,
    Div,
    Rem,
}

/// What one executed instruction produced.
#[derive(Debug, Clone, Copy, PartialEq, Eq, Structural)]
pub enum Step {
    /// The instruction completed; execution goes on.
    Continue,
    /// A `Print` popped this value for output.
    Printed(StackSlot),
    /// A float instruction popped its operands (left, then right, as bit
    /// patterns); the host pushes the result before execution goes on.
    Float(FloatOp, u64, u64),
    /// The instruction pointer reached the end of the chunk, or the byte there
    /// is no opcode.
    Halted,
    /// A fatal error; the machine state is left as it was before the instruction.
    Failed(RuntimeError),
}

/// How a bounded run ended.
#[derive(Debug, Clone, Copy, PartialEq, Eq, Structural)]
pub enum Exit {
    Halted,
    Float(FloatOp, u64, u64),
    Failed(RuntimeError),
    /// The step budget ran out first.
    OutOfFuel,
}

/// The contents of a chunk.
pub ghost struct ChunkState {
    pub code: Seq<u8>,
    pub constants: Seq<StackSlot>,
    pub locals: Seq<Option<StackSlot>>,
}

impl View for Chunk {
    type V = ChunkState;

    open spec fn view(&self) -> ChunkState {
        ChunkState { code: self.bytecode@, constants: self.constants@, locals: self.locals@ }
    }
}

/// The state of a machine.
pub ghost struct Machine {
    pub chunks: Seq<ChunkState>,
    pub chunk_index: int,
    pub pos: int,
    pub stack: Seq<StackSlot>,
    pub frames: Seq<CallFrame>,
    pub globals: Seq<Option<StackSlot>>,
}

/// The virtual machine.
pub struct VM {
    pub chunks: Vec<Chunk>,
    pub chunk_index: usize,
    pub bc_pos: usize,
    pub stack: Vec<StackSlot>,
    pub frames: Vec<CallFrame>,
    pub globals: Vec<Option<StackSlot>>,
}

impl View for VM {
    type V = Machine;

    open spec fn view(&self) -> Machine {
        Machine {
            chunks: self.chunks@.map_values(|c: Chunk| c@),
            chunk_index: self.chunk_index as int,
            pos: self.bc_pos as int,
            stack: self.stack@,
            frames: self.frames@,
            globals: self.globals@,
        }
    }
}

/// The float operation of a float opcode.
pub open spec fn float_op_of(op: OpCode) -> FloatOp {
    match op {
        OpCode::FAdd => FloatOp::Add,
        OpCode::FSub => FloatOp::Sub,
        OpCode::FMul => FloatOp::Mul,
        OpCode::FDiv => FloatOp::Div,
        _ => FloatOp::Rem,
    }
}

pub open spec fn is_int_arith(op: OpCode) -> bool {
    op is IAdd || op is ISub || op is IMul || op is IDiv || op is IRem
}

/// The result of integer instruction `op` on `a` and `b`: Rust's native
/// `i64` arithmetic, with overflow and a zero divisor as errors.
pub open spec fn int_result(op: OpCode, a: i64, b: i64) -> Result<i64, RuntimeError> {
    let r = match op {
        OpCode::IAdd => a.checked_add(b),
        OpCode::ISub => a.checked_sub(b),
        OpCode::IMul => a.checked_mul(b),
        OpCode::IDiv => a.checked_div(b),
        _ => a.checked_rem(b),
    };
    if (op is IDiv || op is IRem) && b == 0 {
        Err(RuntimeError::DivisionByZero)
    } else {
        match r {
            Some(v) => Ok(v),
            None => Err(RuntimeError::IntegerOverflow),
        }
    }
}

/// The machine with `v` on top of the stack.
pub open spec fn pushed(m: Machine, v: StackSlot) -> Machine {
    Machine { stack: m.stack.push(v), ..m }
}

/// The machine with the top `k` values popped.
pub open spec fn popped(m: Machine, k: int) -> Machine {
    Machine { stack: m.stack.subrange(0, m.stack.len() - k), ..m }
}

/// The machine moved to offset `p` of the current chunk.
pub open spec fn at(m: Machine, p: int) -> Machine {
    Machine { pos: p, ..m }
}

/// The effect of executing opcode `op` (with operand `n`) at the current
/// position; `next` is the offset of the following instruction.
pub open spec fn exec_op(m: Machine, op: OpCode, n: nat, next: int) -> (Machine, Step) {
    let c = m.chunks[m.chunk_index];
    let len = m.stack.len();
    let fail = Step::Failed(RuntimeError::StackUnderflow);
    match op {
        OpCode::Push => if n < c.constants.len() {
            (at(pushed(m, c.constants[n as int]), next), Step::Continue)
        } else {
            (m, Step::Failed(RuntimeError::NoSuchConstant(n as usize)))
        },
        OpCode::Pop => if len >= 1 {
            (at(popped(m, 1), next), Step::Continue)
        } else {
            (m, fail)
        },
        OpCode::IAdd | OpCode::ISub | OpCode::IMul | OpCode::IDiv | OpCode::IRem => if len < 2 {
            (m, fail)
        } else {
            match (m.stack[len - 2], m.stack[len - 1]) {
                (StackSlot::Int(a), StackSlot::Int(b)) => match int_result(op, a, b) {
                    Ok(v) => (at(pushed(popped(m, 2), StackSlot::Int(v)), next), Step::Continue),
                    Err(e) => (m, Step::Failed(e)),
                },
                _ => (m, Step::Failed(RuntimeError::TypeMismatch)),
            }
        },
        OpCode::FAdd | OpCode::FSub | OpCode::FMul | OpCode::FDiv | OpCode::FRem => if len < 2 {
            (m, fail)
        } else {
            match (m.stack[len - 2], m.stack[len - 1]) {
                (StackSlot::Float(a), StackSlot::Float(b)) => (
                    at(popped(m, 2), next),
                    Step::Float(float_op_of(op), a, b),
                ),
                _ => (m, Step::Failed(RuntimeError::TypeMismatch)),
            }
        },
        OpCode::StoreGlob => if len < 1 {
            (m, fail)
        } else if n < m.globals.len() {
            let m2 = popped(m, 1);
            (
                Machine { globals: m.globals.update(n as int, Some(m.stack[len - 1])), pos: next, ..m2 },
                Step::Continue,
            )
        } else {
            (m, Step::Failed(RuntimeError::NoSuchGlobal(n as usize)))
        },
        OpCode::LoadGlob => if n < m.globals.len() {
            match m.globals[n as int] {
                Some(v) => (at(pushed(m, v), next), Step::Continue),
                None => (m, Step::Failed(RuntimeError::UnboundGlobal(n as usize))),
            }
        } else {
            (m, Step::Failed(RuntimeError::NoSuchGlobal(n as usize)))
        },
        OpCode::Jmp => if n <= c.code.len() {
            (at(m, n as int), Step::Continue)
        } else {
            (m, Step::Failed(RuntimeError::JumpOutOfBounds(n as usize)))
        },
        OpCode::JmpIf => if len < 1 {
            (m, fail)
        } else if m.stack[len - 1] == StackSlot::Int(1) {
            if n <= c.code.len() {
                (at(popped(m, 1), n as int), Step::Continue)
            } else {
                (m, Step::Failed(RuntimeError::JumpOutOfBounds(n as usize)))
            }
        } else {
            (at(popped(m, 1), next), Step::Continue)
        },
        OpCode::Call => if n < m.chunks.len() {
            (
                Machine {
                    frames: m.frames.push(
                        CallFrame { return_pos: next as usize, chunk_index: m.chunk_index as usize },
                    ),
                    chunk_index: n as int,
                    pos: 0,
                    ..m
                },
                Step::Continue,
            )
        } else {
            (m, Step::Failed(RuntimeError::NoSuchChunk(n as usize)))
        },
        OpCode::Ret => if m.frames.len() == 0 {
            (m, Step::Failed(RuntimeError::EmptyCallStack))
        } else {
            let f = m.frames.last();
            (
                Machine {
                    frames: m.frames.drop_last(),
                    chunk_index: f.chunk_index as int,
                    pos: f.return_pos as int,
                    ..m
                },
                Step::Continue,
            )
        },
        OpCode::StoreLoc => if len < 1 {
            (m, fail)
        } else if n < c.locals.len() {
            let c2 = ChunkState { locals: c.locals.update(n as int, Some(m.stack[len - 1])), ..c };
            let m2 = popped(m, 1);
            (
                Machine { chunks: m.chunks.update(m.chunk_index, c2), pos: next, ..m2 },
                Step::Continue,
            )
        } else {
            (m, Step::Failed(RuntimeError::NoSuchLocal(n as usize)))
        },
        OpCode::LoadLoc => if n < c.locals.len() {
            match c.locals[n as int] {
                Some(v) => (at(pushed(m, v), next), Step::Continue),
                None => (m, Step::Failed(RuntimeError::UnboundLocal(n as usize))),
            }
        } else {
            (m, Step::Failed(RuntimeError::NoSuchLocal(n as usize)))
        },
        OpCode::Print => if len < 1 {
            (m, fail)
        } else {
            (at(popped(m, 1), next), Step::Printed(m.stack[len - 1]))
        },
    }
}

/// One fetch-decode-execute step.
pub open spec fn step_spec(m: Machine) -> (Machine, Step) {
    if !(0 <= m.chunk_index < m.chunks.len()) || !(0 <= m.pos < m.chunks[m.chunk_index].code.len()) {
        (m, Step::Halted)
    } else {
        let code = m.chunks[m.chunk_index].code;
        match decode_opcode(code[m.pos]) {
            None => (m, Step::Halted),
            Some(op) => if has_operand(op) && m.pos + 4 > code.len() {
                (m, Step::Failed(RuntimeError::TruncatedInstruction))
            } else {
                let n = if has_operand(op) { operand_at(code, m.pos + 1) } else { 0 };
                exec_op(m, op, n, m.pos + instr_width(op))
            },
        }
    }
}

/// Runs at most `fuel` steps, collecting printed values, and stops at the
/// first step that halts, fails or hands a float operation to the host.
pub open spec fn run_spec(m: Machine, fuel: nat) -> (Machine, Seq<StackSlot>, Exit)
    decreases fuel,
{
    if fuel == 0 {
        (m, Seq::empty(), Exit::OutOfFuel)
    } else {
        let (m2, s) = step_spec(m);
        match s {
            Step::Continue => run_spec(m2, (fuel - 1) as nat),
            Step::Printed(v) => {
                let (m3, p, e) = run_spec(m2, (fuel - 1) as nat);
                (m3, seq![v] + p, e)
            },
            Step::Float(o, a, b) => (m2, Seq::empty(), Exit::Float(o, a, b)),
            Step::Halted => (m2, Seq::empty(), Exit::Halted),
            Step::Failed(e) => (m2, Seq::empty(), Exit::Failed(e)),
        }
    }
}

/// Integer instruction `op` on `a` and `b`.
fn int_op(op: OpCode, a: i64, b: i64) -> (r: Result<i64, RuntimeError>)
    requires
        is_int_arith(op),
    ensures
        r == int_result(op, a, b),
{
    if (op == OpCode::IDiv || op == OpCode::IRem) && b == 0 {
        return Err(RuntimeError::DivisionByZero);
    }
    let r = match op {
        OpCode::IAdd => a.checked_add(b),
        OpCode::ISub => a.checked_sub(b),
        OpCode::IMul => a.checked_mul(b),
        OpCode::IDiv => a.checked_div(b),
        _ => a.checked_rem(b),
    };
    match r {
        Some(v) => Ok(v),
        None => Err(RuntimeError::IntegerOverflow),
    }
}

/// The float operation of a float opcode.
fn float_op(op: OpCode) -> (r: FloatOp)
    ensures
        r == float_op_of(op),
{
    match op {
        OpCode::FAdd => FloatOp::Add,
        OpCode::FSub => FloatOp::Sub,
        OpCode::FMul => FloatOp::Mul,
        OpCode::FDiv => FloatOp::Div,
        _ => FloatOp::Rem,
    }
}

/// Reads the 24-bit big-endian operand that starts at byte `i`.
pub fn read_operand(code: &Vec<u8>, i: usize) -> (r: usize)
    requires
        i + 3 <= code@.len(),
    ensures
        r as nat == operand_at(code@, i as int),
        r <= MAX_OPERAND,
{
    let _len = code.len();
    let b0 = code[i] as usize;
    let b1 = code[i + 1] as usize;
    let b2 = code[i + 2] as usize;
    b0 * 65536 + b1 * 256 + b2
}

impl VM {
    /// A machine over the given chunks, positioned at the start of chunk 0,
    /// with empty stacks and no globals.
    pub fn new(chunks: Vec<Chunk>) -> (r: VM)
        ensures
            r.chunks@ == chunks@,
            r@.chunk_index == 0,
            r@.pos == 0,
            r@.stack == Seq::<StackSlot>::empty(),
            r@.frames == Seq::<CallFrame>::empty(),
            r@.globals == Seq::<Option<StackSlot>>::empty(),
    {
        VM {
            chunks,
            chunk_index: 0,
            bc_pos: 0,
            stack: Vec::new(),
            frames: Vec::new(),
            globals: Vec::new(),
        }
    }

    /// Pushes a value onto the evaluation stack.
    pub fn push(&mut self, slot: StackSlot)
        ensures
            final(self)@ == pushed(old(self)@, slot),
            final(self).chunks@ == old(self).chunks@,
    {
        self.stack.push(slot);
    }

    /// Pops the top of the evaluation stack.
    pub fn pop(&mut self) -> (r: StackSlot)
        requires
            old(self).stack@.len() > 0,
        ensures
            r == old(self)@.stack.last(),
            final(self)@ == popped(old(self)@, 1),
            final(self).chunks@ == old(self).chunks@,
    {
        let r = self.stack.pop().unwrap();
        assert(self@.stack =~= popped(old(self)@, 1).stack);
        r
    }

    /// Adds an unbound global slot and returns its index.
    pub fn create_global(&mut self) -> (r: usize)
        ensures
            r == old(self)@.globals.len(),
            final(self)@ == (Machine { globals: old(self)@.globals.push(None), ..old(self)@ }),
            final(self).chunks@ == old(self).chunks@,
    {
        let r = self.globals.len();
        self.globals.push(None);
        r
    }

    /// Emits an instruction with an operand into the current chunk.
    fn emit_current(&mut self, op: OpCode, index: usize) -> (r: Result<usize, OperandTooLarge>)
        requires
            old(self).chunk_index < old(self).chunks@.len(),
            has_operand(op),
        ensures
            emitted(*old(self), *final(self), r, op, index),
    {
        let ci = self.chunk_index;
        let r = self.chunks[ci].emit_op(op, index);
        proof {
            lemma_chunks_view_update(*old(self), *self);
            let c = old(self)@.chunks[ci as int];
            if index <= MAX_OPERAND {
                assert(self.chunks@[ci as int]@ == ChunkState {
                    code: c.code + encode_instr(op, index as nat),
                    ..c
                });
                assert(self@.chunks == old(self)@.chunks.update(
                    ci as int,
                    ChunkState { code: c.code + encode_instr(op, index as nat), ..c },
                ));
            } else {
                assert(self@.chunks == old(self)@.chunks);
            }
            assert(self.stack@ == old(self).stack@);
            assert(self.globals@ == old(self).globals@);
            assert(self.frames@ == old(self).frames@);
        }
        r
    }

    /// Emits a `StoreGlob` of the given slot into the current chunk.
    pub fn store_global(&mut self, index: usize) -> (r: Result<usize, OperandTooLarge>)
        requires
            old(self).chunk_index < old(self).chunks@.len(),
        ensures
            emitted(*old(self), *final(self), r, OpCode::StoreGlob, index),
    {
        self.emit_current(OpCode::StoreGlob, index)
    }

    /// Emits a `LoadGlob` of the given slot into the current chunk.
    pub fn load_global(&mut self, index: usize) -> (r: Result<usize, OperandTooLarge>)
        requires
            old(self).chunk_index < old(self).chunks@.len(),
        ensures
            emitted(*old(self), *final(self), r, OpCode::LoadGlob, index),
    {
        self.emit_current(OpCode::LoadGlob, index)
    }

    /// Reads the global slot named by the operand at the instruction pointer
    /// and moves past that operand. A slot that was never stored into is the
    /// unbound-global error, and a slot that does not exist is an error too;
    /// on an error the machine is left as it was.
    pub fn get_global(&mut self) -> (r: Result<StackSlot, RuntimeError>)
        requires
            old(self).chunk_index < old(self).chunks@.len(),
            old(self).bc_pos + 3 <= old(self)@.chunks[old(self).chunk_index as int].code.len(),
        ensures
            ({
                let m = old(self)@;
                let g = operand_at(m.chunks[m.chunk_index].code, m.pos);
                if g < m.globals.len() && m.globals[g as int] is Some {
                    &&& r == Ok::<StackSlot, RuntimeError>(m.globals[g as int]->0)
                    &&& final(self)@ == at(m, m.pos + 3)
                } else {
                    &&& r == Err::<StackSlot, RuntimeError>(
                        if g < m.globals.len() {
                            RuntimeError::UnboundGlobal(g as usize)
                        } else {
                            RuntimeError::NoSuchGlobal(g as usize)
                        },
                    )
                    &&& final(self)@ == m
                }
            }),
    {
        let _len = self.chunks[self.chunk_index].bytecode.len();
        let g = read_operand(&self.chunks[self.chunk_index].bytecode, self.bc_pos);
        if g >= self.globals.len() {
            return Err(RuntimeError::NoSuchGlobal(g));
        }
        match self.globals[g] {
            Some(v) => {
                self.bc_pos = self.bc_pos + 3;
                Ok(v)
            },
            None => Err(RuntimeError::UnboundGlobal(g)),
        }
    }

    /// Executes the instruction at the instruction pointer.
    pub fn step(&mut self) -> (r: Step)
        ensures
            (final(self)@, r) == step_spec(old(self)@),
    {
        let ci = self.chunk_index;
        if ci >= self.chunks.len() {
            return Step::Halted;
        }
        let pos = self.bc_pos;
        let code_len = self.chunks[ci].bytecode.len();
        if pos >= code_len {
            return Step::Halted;
        }
        let op = match OpCode::from_u8(self.chunks[ci].bytecode[pos]) {
            Some(op) => op,
            None => {
                return Step::Halted;
            },
        };
        let wide = op.takes_operand();
        let n: usize = if wide {
            if code_len - pos < 4 {
                return Step::Failed(RuntimeError::TruncatedInstruction);
            }
            read_operand(&self.chunks[ci].bytecode, pos + 1)
        } else {
            0
        };
        let next: usize = if wide {
            pos + 4
        } else {
            pos + 1
        };
        let ghost m = self@;
        assert(m.chunks[ci as int] == self.chunks@[ci as int]@);
        let len = self.stack.len();
        match op {
            OpCode::Push => {
                if n < self.chunks[ci].constants.len() {
                    let v = self.chunks[ci].constants[n];
                    self.stack.push(v);
                    self.bc_pos = next;
                    Step::Continue
                } else {
                    Step::Failed(RuntimeError::NoSuchConstant(n))
                }
            },
            OpCode::Pop => {
                if len >= 1 {
                    self.stack.pop();
                    assert(self.stack@ =~= popped(m, 1).stack);
                    self.bc_pos = next;
                    Step::Continue
                } else {
                    Step::Failed(RuntimeError::StackUnderflow)
                }
            },
            OpCode::IAdd | OpCode::ISub | OpCode::IMul | OpCode::IDiv | OpCode::IRem => {
                if len < 2 {
                    return Step::Failed(RuntimeError::StackUnderflow);
                }
                match (self.stack[len - 2], self.stack[len - 1]) {
                    (StackSlot::Int(a), StackSlot::Int(b)) => match int_op(op, a, b) {
                        Ok(v) => {
                            self.stack.pop();
                            self.stack.pop();
                            self.stack.push(StackSlot::Int(v));
                            assert(self.stack@ =~= popped(m, 2).stack.push(StackSlot::Int(v)));
                            self.bc_pos = next;
                            Step::Continue
                        },
                        Err(e) => Step::Failed(e),
                    },
                    _ => Step::Failed(RuntimeError::TypeMismatch),
                }
            },
            OpCode::FAdd | OpCode::FSub | OpCode::FMul | OpCode::FDiv | OpCode::FRem => {
                if len < 2 {
                    return Step::Failed(RuntimeError::StackUnderflow);
                }
                match (self.stack[len - 2], self.stack[len - 1]) {
                    (StackSlot::Float(a), StackSlot::Float(b)) => {
                        self.stack.pop();
                        self.stack.pop();
                        assert(self.stack@ =~= popped(m, 2).stack);
                        self.bc_pos = next;
                        Step::Float(float_op(op), a, b)
                    },
                    _ => Step::Failed(RuntimeError::TypeMismatch),
                }
            },
            OpCode::StoreGlob => {
                if len < 1 {
                    Step::Failed(RuntimeError::StackUnderflow)
                } else if n < self.globals.len() {
                    let v = self.stack.pop().unwrap();
                    assert(self.stack@ =~= popped(m, 1).stack);
                    self.globals.set(n, Some(v));
                    self.bc_pos = next;
                    Step::Continue
                } else {
                    Step::Failed(RuntimeError::NoSuchGlobal(n))
                }
            },
            OpCode::LoadGlob => {
                if n < self.globals.len() {
                    match self.globals[n] {
                        Some(v) => {
                            self.stack.push(v);
                            self.bc_pos = next;
                            Step::Continue
                        },
                        None => Step::Failed(RuntimeError::UnboundGlobal(n)),
                    }
                } else {
                    Step::Failed(RuntimeError::NoSuchGlobal(n))
                }
            },
            OpCode::Jmp => {
                if n <= code_len {
                    self.bc_pos = n;
                    Step::Continue
                } else {
                    Step::Failed(RuntimeError::JumpOutOfBounds(n))
                }
            },
            OpCode::JmpIf => {
                if len < 1 {
                    Step::Failed(RuntimeError::StackUnderflow)
                } else if self.stack[len - 1] == StackSlot::Int(1) {
                    if n <= code_len {
                        self.stack.pop();
                        assert(self.stack@ =~= popped(m, 1).stack);
                        self.bc_pos = n;
                        Step::Continue
                    } else {
                        Step::Failed(RuntimeError::JumpOutOfBounds(n))
                    }
                } else {
                    self.stack.pop();
                    assert(self.stack@ =~= popped(m, 1).stack);
                    self.bc_pos = next;
                    Step::Continue
                }
            },
            OpCode::Call => {
                if n < self.chunks.len() {
                    self.frames.push(CallFrame { return_pos: next, chunk_index: ci });
                    self.chunk_index = n;
                    self.bc_pos = 0;
                    Step::Continue
                } else {
                    Step::Failed(RuntimeError::NoSuchChunk(n))
                }
            },
            OpCode::Ret => {
                match self.frames.pop() {
                    Some(f) => {
                        assert(self.frames@ =~= m.frames.drop_last());
                        self.chunk_index = f.chunk_index;
                        self.bc_pos = f.return_pos;
                        Step::Continue
                    },
                    None => Step::Failed(RuntimeError::EmptyCallStack),
                }
            },
            OpCode::StoreLoc => {
                if len < 1 {
                    Step::Failed(RuntimeError::StackUnderflow)
                } else if n < self.chunks[ci].locals.len() {
                    let v = self.stack.pop().unwrap();
                    assert(self.stack@ =~= popped(m, 1).stack);
                    let ghost before = *self;
                    self.chunks[ci].locals.set(n, Some(v));
                    proof {
                        lemma_chunks_view_update(before, *self);
                    }
                    self.bc_pos = next;
                    Step::Continue
                } else {
                    Step::Failed(RuntimeError::NoSuchLocal(n))
                }
            },
            OpCode::LoadLoc => {
                if n < self.chunks[ci].locals.len() {
                    match self.chunks[ci].locals[n] {
                        Some(v) => {
                            self.stack.push(v);
                            self.bc_pos = next;
                            Step::Continue
                        },
                        None => Step::Failed(RuntimeError::UnboundLocal(n)),
                    }
                } else {
                    Step::Failed(RuntimeError::NoSuchLocal(n))
                }
            },
            OpCode::Print => {
                if len < 1 {
                    Step::Failed(RuntimeError::StackUnderflow)
                } else {
                    let v = self.stack.pop().unwrap();
                    assert(self.stack@ =~= popped(m, 1).stack);
                    self.bc_pos = next;
                    Step::Printed(v)
                }
            },
        }
    }

    /// Executes at most `fuel` instructions, appending each printed value to
    /// `out`, and stops at the first that halts, fails or hands a float
    /// operation to the host (whose result the host then pushes).
    pub fn execute(&mut self, fuel: u64, out: &mut Vec<StackSlot>) -> (r: Exit)
        ensures
            final(self)@ == run_spec(old(self)@, fuel as nat).0,
            final(out)@ == old(out)@ + run_spec(old(self)@, fuel as nat).1,
            r == run_spec(old(self)@, fuel as nat).2,
    {
        let ghost m0 = self@;
        let ghost out0 = out@;
        let mut k: u64 = fuel;
        while k > 0
            invariant
                m0 == old(self)@,
                out0 == old(out)@,
                run_spec(m0, fuel as nat).0 == run_spec(self@, k as nat).0,
                run_spec(m0, fuel as nat).2 == run_spec(self@, k as nat).2,
                out0 + run_spec(m0, fuel as nat).1 == out@ + run_spec(self@, k as nat).1,
            decreases k,
        {
            let ghost before = self@;
            let ghost out_before = out@;
            let s = self.step();
            match s {
                Step::Continue => {},
                Step::Printed(v) => {
                    out.push(v);
                    let ghost rest = run_spec(self@, (k - 1) as nat).1;
                    assert(out_before + (seq![v] + rest) =~= out@ + rest);
                },
                Step::Float(o, a, b) => {
                    assert(run_spec(before, k as nat) == (self@, Seq::<StackSlot>::empty(), Exit::Float(o, a, b)));
                    assert(out@ + Seq::<StackSlot>::empty() =~= out@);
                    return Exit::Float(o, a, b);
                },
                Step::Halted => {
                    assert(run_spec(before, k as nat) == (self@, Seq::<StackSlot>::empty(), Exit::Halted));
                    assert(out@ + Seq::<StackSlot>::empty() =~= out@);
                    return Exit::Halted;
                },
                Step::Failed(e) => {
                    assert(run_spec(before, k as nat) == (self@, Seq::<StackSlot>::empty(), Exit::Failed(e)));
                    assert(out@ + Seq::<StackSlot>::empty() =~= out@);
                    return Exit::Failed(e);
                },
            }
            k = k - 1;
        }
        assert(out@ + run_spec(self@, 0).1 =~= out@);
        Exit::OutOfFuel
    }

    /// Reads the operand at the instruction pointer of the current chunk and
    /// moves past it.
    pub fn get_index(&mut self) -> (r: usize)
        requires
            old(self).chunk_index < old(self).chunks@.len(),
            old(self).bc_pos + 3 <= old(self)@.chunks[old(self).chunk_index as int].code.len(),
        ensures
            r as nat == operand_at(old(self)@.chunks[old(self).chunk_index as int].code, old(self).bc_pos as int),
            final(self)@ == at(old(self)@, old(self).bc_pos + 3),
            final(self).chunks@ == old(self).chunks@,
    {
        let _len = self.chunks[self.chunk_index].bytecode.len();
        let r = read_operand(&self.chunks[self.chunk_index].bytecode, self.bc_pos);
        self.bc_pos = self.bc_pos + 3;
        r
    }
}

/// `new` is `old` with instruction `op` carrying `index` appended to its
/// current chunk, or unchanged with an error when `index` does not fit in 24 bits.
pub open spec fn emitted(old: VM, new: VM, r: Result<usize, OperandTooLarge>, op: OpCode, index: usize) -> bool {
    let ci = old.chunk_index as int;
    let c = old@.chunks[ci];
    if index <= MAX_OPERAND {
        &&& r == Ok::<usize, OperandTooLarge>(c.code.len() as usize)
        &&& new@ == (Machine {
            chunks: old@.chunks.update(ci, ChunkState { code: c.code + encode_instr(op, index as nat), ..c }),
            ..old@
        })
    } else {
        &&& r == Err::<usize, OperandTooLarge>(OperandTooLarge { operand: index })
        &&& new@ == old@
    }
}

/// When one chunk of a machine changes and nothing else, its view changes in
/// that chunk alone.
proof fn lemma_chunks_view_update(a: VM, b: VM)
    requires
        a.chunk_index < a.chunks@.len(),
        b.chunks@ == a.chunks@.update(a.chunk_index as int, b.chunks@[a.chunk_index as int]),
    ensures
        b@.chunks == a@.chunks.update(a.chunk_index as int, b.chunks@[a.chunk_index as int]@),
{
    assert(b@.chunks =~= a@.chunks.update(a.chunk_index as int, b.chunks@[a.chunk_index as int]@));
}

/// The current chunk holds `bytes` at the instruction pointer.
pub open spec fn holds_at(m: Machine, bytes: Seq<u8>) -> bool {
    &&& 0 <= m.chunk_index < m.chunks.len()
    &&& 0 <= m.pos
    &&& m.pos + bytes.len() <= m.chunks[m.chunk_index].code.len()
    &&& m.chunks[m.chunk_index].code.subrange(m.pos, m.pos + bytes.len()) == bytes
}

/// An instruction emitted with a 24-bit operand executes with exactly that
/// operand: encoding and decoding agree for every opcode that carries one
/// and every operand up to `MAX_OPERAND`.
pub proof fn law_operand_round_trip(m: Machine, op: OpCode, n: nat)
    requires
        has_operand(op),
        n <= MAX_OPERAND,
        holds_at(m, encode_instr(op, n)),
    ensures
        step_spec(m) == exec_op(m, op, n, m.pos + 4),
{
    let code = m.chunks[m.chunk_index].code;
    let e = encode_instr(op, n);
    lemma_operand_round_trip(n);
    lemma_opcode_byte_injective(op);
    assert(code[m.pos] == code.subrange(m.pos, m.pos + 4)[0]);
    assert(code[m.pos + 1] == e[1]);
    assert(code[m.pos + 2] == e[2]);
    assert(code[m.pos + 3] == e[3]);
    let b = operand_bytes(n);
    assert(e[1] == b[0] && e[2] == b[1] && e[3] == b[2]);
    assert(operand_at(code, m.pos + 1) == operand_at(b, 0));
}

/// A conditional jump pops its condition and jumps to its target exactly
/// when that value is the integer 1; any other integer, and any float, falls
/// through to the next instruction.
pub proof fn law_jmp_if(m: Machine, n: nat)
    requires
        n <= MAX_OPERAND,
        holds_at(m, encode_instr(OpCode::JmpIf, n)),
        n <= m.chunks[m.chunk_index].code.len(),
        m.stack.len() >= 1,
    ensures
        m.stack.last() == StackSlot::Int(1) ==> step_spec(m) == (
            Machine { stack: m.stack.drop_last(), pos: n as int, ..m },
            Step::Continue,
        ),
        m.stack.last() != StackSlot::Int(1) ==> step_spec(m) == (
            Machine { stack: m.stack.drop_last(), pos: m.pos + 4, ..m },
            Step::Continue,
        ),
{
    law_operand_round_trip(m, OpCode::JmpIf, n);
    assert(m.stack.subrange(0, m.stack.len() - 1) =~= m.stack.drop_last());
}

/// A call followed, in the callee, by an immediate return resumes the
/// caller just after the call, with its chunk, stack and call frames as
/// they were.
pub proof fn law_call_return(m: Machine, c: nat)
    requires
        c <= MAX_OPERAND,
        c < m.chunks.len(),
        holds_at(m, encode_instr(OpCode::Call, c)),
        m.chunks[c as int].code.len() >= 1,
        m.chunks[c as int].code[0] == opcode_byte(OpCode::Ret),
        m.pos + 4 <= usize::MAX,
        m.chunk_index <= usize::MAX,
    ensures
        ({
            let (m1, s1) = step_spec(m);
            let (m2, s2) = step_spec(m1);
            &&& s1 == Step::Continue
            &&& m1.chunk_index == c
            &&& m1.pos == 0
            &&& s2 == Step::Continue
            &&& m2 == Machine { pos: m.pos + 4, ..m }
        }),
{
    law_operand_round_trip(m, OpCode::Call, c);
    lemma_opcode_byte_injective(OpCode::Ret);
    let (m1, s1) = step_spec(m);
    assert(m1.frames.drop_last() =~= m.frames);
    assert(m1.chunks[m1.chunk_index].code[m1.pos] == opcode_byte(OpCode::Ret));
}

/// Reading a global slot that no store has filled is a runtime error that
/// leaves the machine as it was.
pub proof fn law_unbound_global(m: Machine, g: nat)
    requires
        g <= MAX_OPERAND,
        holds_at(m, encode_instr(OpCode::LoadGlob, g)),
        g < m.globals.len(),
        m.globals[g as int] is None,
    ensures
        step_spec(m) == (m, Step::Failed(RuntimeError::UnboundGlobal(g as usize))),
{
    law_operand_round_trip(m, OpCode::LoadGlob, g);
}

} // verus!

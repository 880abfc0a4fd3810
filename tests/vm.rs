use scriptvm::chunk::Chunk;
use scriptvm::opcodes::OpCode;
use scriptvm::value::StackSlot;
use scriptvm::vm::{CallFrame, Exit, FloatOp, RuntimeError, Step, VM};

fn run(vm: &mut VM) -> (Vec<StackSlot>, Exit) {
    let mut out = Vec::new();
    let e = vm.execute(10_000, &mut out);
    (out, e)
}

fn one_chunk(bytes: &[u8], consts: &[StackSlot]) -> VM {
    let mut c = Chunk::new();
    c.constants = consts.to_vec();
    c.bytecode = bytes.to_vec();
    VM::new(vec![c])
}

#[test]
fn call_and_return_restore_the_caller() {
    let mut main = Chunk::new();
    main.emit_const(StackSlot::Int(10)).unwrap();
    main.emit_op(OpCode::StoreGlob, 0).unwrap();
    main.emit_call(1).unwrap();
    let mut f = Chunk::new();
    f.emit_op(OpCode::LoadGlob, 0).unwrap();
    f.emit_const(StackSlot::Int(10)).unwrap();
    f.emit_byte(OpCode::IAdd.to_u8());
    f.emit_op(OpCode::StoreGlob, 0).unwrap();
    f.emit_op(OpCode::LoadGlob, 0).unwrap();
    f.emit_byte(OpCode::Ret.to_u8());
    let mut vm = VM::new(vec![main, f]);
    vm.create_global();
    let (out, e) = run(&mut vm);
    assert!(out.is_empty());
    assert_eq!(e, Exit::Halted);
    assert_eq!(vm.stack, vec![StackSlot::Int(20)]);
    assert_eq!(vm.chunk_index, 0);
    assert_eq!(vm.bc_pos, 12);
    assert!(vm.frames.is_empty());
    assert_eq!(vm.globals[0], Some(StackSlot::Int(20)));
}

#[test]
fn call_pushes_a_frame() {
    let mut main = Chunk::new();
    main.emit_call(1).unwrap();
    let mut f = Chunk::new();
    f.emit_byte(OpCode::Ret.to_u8());
    let mut vm = VM::new(vec![main, f]);
    assert_eq!(vm.step(), Step::Continue);
    assert_eq!((vm.chunk_index, vm.bc_pos), (1, 0));
    assert_eq!(vm.frames, vec![CallFrame { return_pos: 4, chunk_index: 0 }]);
    assert_eq!(vm.step(), Step::Continue);
    assert_eq!((vm.chunk_index, vm.bc_pos), (0, 4));
    assert_eq!(vm.step(), Step::Halted);
}

fn jmp_if_program(cond: StackSlot) -> VM {
    let mut c = Chunk::new();
    c.constants = vec![cond, StackSlot::Int(7), StackSlot::Int(42)];
    c.emit_op(OpCode::Push, 0).unwrap();
    c.emit_jmp_if(13).unwrap();
    c.emit_op(OpCode::Push, 1).unwrap();
    c.emit_byte(OpCode::Print.to_u8());
    c.emit_op(OpCode::Push, 2).unwrap();
    c.emit_byte(OpCode::Print.to_u8());
    VM::new(vec![c])
}

#[test]
fn jmp_if_takes_the_jump_on_one() {
    let (out, e) = run(&mut jmp_if_program(StackSlot::Int(1)));
    assert_eq!(out, vec![StackSlot::Int(42)]);
    assert_eq!(e, Exit::Halted);
}

#[test]
fn jmp_if_falls_through_otherwise() {
    for cond in [StackSlot::Int(0), StackSlot::Int(2), StackSlot::Float(1.0f64.to_bits())] {
        let (out, e) = run(&mut jmp_if_program(cond));
        assert_eq!(out, vec![StackSlot::Int(7), StackSlot::Int(42)]);
        assert_eq!(e, Exit::Halted);
    }
}

#[test]
fn jmp_sets_the_position() {
    let mut c = Chunk::new();
    c.constants = vec![StackSlot::Int(1), StackSlot::Int(2)];
    c.emit_jmp(9).unwrap();
    c.emit_op(OpCode::Push, 0).unwrap();
    c.emit_byte(OpCode::Print.to_u8());
    c.emit_op(OpCode::Push, 1).unwrap();
    c.emit_byte(OpCode::Print.to_u8());
    let (out, _) = run(&mut VM::new(vec![c]));
    assert_eq!(out, vec![StackSlot::Int(2)]);
}

#[test]
fn jump_out_of_bounds_fails() {
    let mut vm = one_chunk(&[14, 0, 0, 200], &[]);
    assert_eq!(run(&mut vm).1, Exit::Failed(RuntimeError::JumpOutOfBounds(200)));
    assert_eq!(vm.bc_pos, 0);
}

#[test]
fn integer_arithmetic() {
    let cases: [(u8, i64, i64, i64); 6] =
        [(2, 7, 5, 12), (3, 7, 5, 2), (4, -7, 5, -35), (5, -7, 2, -3), (6, -7, 2, -1), (6, 7, -3, 1)];
    for (op, a, b, r) in cases {
        let mut vm = one_chunk(&[0, 0, 0, 0, 0, 0, 0, 1, op, 20], &[StackSlot::Int(a), StackSlot::Int(b)]);
        assert_eq!(run(&mut vm), (vec![StackSlot::Int(r)], Exit::Halted));
    }
}

#[test]
fn integer_errors() {
    let cases = [
        (5u8, 1i64, 0i64, RuntimeError::DivisionByZero),
        (6, 1, 0, RuntimeError::DivisionByZero),
        (2, i64::MAX, 1, RuntimeError::IntegerOverflow),
        (3, i64::MIN, 1, RuntimeError::IntegerOverflow),
        (4, i64::MAX, 2, RuntimeError::IntegerOverflow),
        (5, i64::MIN, -1, RuntimeError::IntegerOverflow),
        (6, i64::MIN, -1, RuntimeError::IntegerOverflow),
    ];
    for (op, a, b, err) in cases {
        let mut vm = one_chunk(&[0, 0, 0, 0, 0, 0, 0, 1, op, 20], &[StackSlot::Int(a), StackSlot::Int(b)]);
        assert_eq!(run(&mut vm), (vec![], Exit::Failed(err)));
        assert_eq!(vm.stack, vec![StackSlot::Int(a), StackSlot::Int(b)]);
    }
}

#[test]
fn arithmetic_kind_mismatch() {
    let f = StackSlot::Float(1.0f64.to_bits());
    let mut vm = one_chunk(&[0, 0, 0, 0, 0, 0, 0, 1, 2], &[StackSlot::Int(1), f]);
    assert_eq!(run(&mut vm).1, Exit::Failed(RuntimeError::TypeMismatch));
    let mut vm = one_chunk(&[0, 0, 0, 0, 0, 0, 0, 1, 7], &[StackSlot::Int(1), f]);
    assert_eq!(run(&mut vm).1, Exit::Failed(RuntimeError::TypeMismatch));
}

#[test]
fn float_operations_go_to_the_host() {
    let a = 1.5f64.to_bits();
    let b = 2.25f64.to_bits();
    let mut vm = one_chunk(&[0, 0, 0, 0, 0, 0, 0, 1, 8, 20], &[StackSlot::Float(a), StackSlot::Float(b)]);
    let mut out = Vec::new();
    assert_eq!(vm.execute(100, &mut out), Exit::Float(FloatOp::Sub, a, b));
    assert!(vm.stack.is_empty());
    vm.push(StackSlot::Float((1.5f64 - 2.25).to_bits()));
    assert_eq!(vm.execute(100, &mut out), Exit::Halted);
    assert_eq!(out, vec![StackSlot::Float((-0.75f64).to_bits())]);
}

#[test]
fn globals_store_and_load() {
    let mut vm = one_chunk(&[0, 0, 0, 0, 12, 0, 0, 1, 13, 0, 0, 1, 20], &[StackSlot::Int(3)]);
    vm.create_global();
    vm.create_global();
    assert_eq!(run(&mut vm), (vec![StackSlot::Int(3)], Exit::Halted));
    assert_eq!(vm.globals, vec![None, Some(StackSlot::Int(3))]);
}

#[test]
fn unbound_global_is_an_error() {
    let mut vm = one_chunk(&[13, 0, 0, 0, 20], &[]);
    vm.create_global();
    assert_eq!(run(&mut vm).1, Exit::Failed(RuntimeError::UnboundGlobal(0)));
    let mut vm = one_chunk(&[13, 0, 0, 0], &[]);
    assert_eq!(run(&mut vm).1, Exit::Failed(RuntimeError::NoSuchGlobal(0)));
}

#[test]
fn locals_store_and_load() {
    let mut c = Chunk::new();
    c.create_local();
    c.constants = vec![StackSlot::Int(8)];
    c.bytecode = vec![19, 0, 0, 0];
    let mut vm = VM::new(vec![c]);
    assert_eq!(run(&mut vm).1, Exit::Failed(RuntimeError::UnboundLocal(0)));
    vm.chunks[0].bytecode = vec![0, 0, 0, 0, 18, 0, 0, 0, 19, 0, 0, 0, 20];
    assert_eq!(run(&mut vm), (vec![StackSlot::Int(8)], Exit::Halted));
    assert_eq!(vm.chunks[0].get_local(0), Some(StackSlot::Int(8)));
    let mut vm = one_chunk(&[19, 0, 0, 3], &[]);
    assert_eq!(run(&mut vm).1, Exit::Failed(RuntimeError::NoSuchLocal(3)));
}

#[test]
fn return_without_call_fails() {
    let mut vm = one_chunk(&[17], &[]);
    assert_eq!(run(&mut vm).1, Exit::Failed(RuntimeError::EmptyCallStack));
}

#[test]
fn call_of_missing_chunk_fails() {
    let mut vm = one_chunk(&[16, 0, 0, 1], &[]);
    assert_eq!(run(&mut vm).1, Exit::Failed(RuntimeError::NoSuchChunk(1)));
}

#[test]
fn structural_errors() {
    assert_eq!(run(&mut one_chunk(&[20], &[])).1, Exit::Failed(RuntimeError::StackUnderflow));
    assert_eq!(run(&mut one_chunk(&[0, 0], &[])).1, Exit::Failed(RuntimeError::TruncatedInstruction));
    assert_eq!(run(&mut one_chunk(&[0, 0, 0, 5], &[])).1, Exit::Failed(RuntimeError::NoSuchConstant(5)));
}

#[test]
fn unknown_opcode_halts() {
    let mut vm = one_chunk(&[0, 0, 0, 0, 20, 21, 20], &[StackSlot::Int(1)]);
    assert_eq!(run(&mut vm), (vec![StackSlot::Int(1)], Exit::Halted));
    assert_eq!(vm.bc_pos, 5);
}

#[test]
fn pop_discards() {
    let mut vm = one_chunk(&[0, 0, 0, 0, 0, 0, 0, 1, 1, 20], &[StackSlot::Int(1), StackSlot::Int(2)]);
    assert_eq!(run(&mut vm), (vec![StackSlot::Int(1)], Exit::Halted));
}

#[test]
fn fuel_bounds_the_run() {
    let mut vm = one_chunk(&[14, 0, 0, 0], &[]);
    let mut out = Vec::new();
    assert_eq!(vm.execute(50, &mut out), Exit::OutOfFuel);
}

#[test]
fn push_pop_and_operand_reads() {
    let mut vm = one_chunk(&[14, 1, 2, 3], &[]);
    vm.push(StackSlot::Int(4));
    assert_eq!(vm.pop(), StackSlot::Int(4));
    vm.bc_pos = 1;
    assert_eq!(vm.get_index(), 0x010203);
    assert_eq!(vm.bc_pos, 4);
}

#[test]
fn emitting_through_the_machine() {
    let mut vm = VM::new(vec![Chunk::new()]);
    assert_eq!(vm.create_global(), 0);
    assert_eq!(vm.store_global(0), Ok(0));
    assert_eq!(vm.load_global(0), Ok(4));
    assert_eq!(vm.chunks[0].bytecode, vec![12, 0, 0, 0, 13, 0, 0, 0]);
    assert!(vm.load_global(1 << 24).is_err());
}

#[test]
fn get_global_reads_the_operand() {
    let mut vm = one_chunk(&[13, 0, 0, 1, 13, 0, 0, 0, 13, 0, 0, 9], &[]);
    vm.globals = vec![None, Some(StackSlot::Int(5))];
    vm.bc_pos = 1;
    assert_eq!(vm.get_global(), Ok(StackSlot::Int(5)));
    assert_eq!(vm.bc_pos, 4);
    vm.bc_pos = 5;
    assert_eq!(vm.get_global(), Err(RuntimeError::UnboundGlobal(0)));
    assert_eq!(vm.bc_pos, 5);
    vm.bc_pos = 9;
    assert_eq!(vm.get_global(), Err(RuntimeError::NoSuchGlobal(9)));
    assert_eq!(vm.bc_pos, 9);
    assert!(vm.stack.is_empty());
}

use scriptvm::chunk::{Chunk, OperandTooLarge, MAX_OPERAND};
use scriptvm::opcodes::OpCode;
use scriptvm::value::StackSlot;

#[test]
fn emit_byte_returns_offsets() {
    let mut c = Chunk::new();
    assert_eq!(c.emit_byte(20), 0);
    assert_eq!(c.emit_byte(17), 1);
    assert_eq!(c.bytecode, vec![20, 17]);
}

#[test]
fn constants_are_pushed_by_index() {
    let mut c = Chunk::new();
    assert_eq!(c.emit_const(StackSlot::Int(5)), Ok(0));
    assert_eq!(c.emit_const(StackSlot::Int(6)), Ok(4));
    assert_eq!(c.constants, vec![StackSlot::Int(5), StackSlot::Int(6)]);
    assert_eq!(c.bytecode, vec![0, 0, 0, 0, 0, 0, 0, 1]);
}

#[test]
fn operands_are_big_endian() {
    let mut c = Chunk::new();
    assert_eq!(c.emit_jmp(0x010203), Ok(0));
    assert_eq!(c.bytecode, vec![OpCode::Jmp.to_u8(), 1, 2, 3]);
    let mut c = Chunk::new();
    c.emit_jmp_if(300).unwrap();
    c.emit_call(7).unwrap();
    c.store_local(65536).unwrap();
    c.load_local(255).unwrap();
    assert_eq!(
        c.bytecode,
        vec![15, 0, 1, 44, 16, 0, 0, 7, 18, 1, 0, 0, 19, 0, 0, 255]
    );
}

#[test]
fn largest_operand_accepted() {
    let mut c = Chunk::new();
    assert_eq!(c.emit_jmp(16_777_215), Ok(0));
    assert_eq!(c.bytecode, vec![14, 255, 255, 255]);
    assert_eq!(MAX_OPERAND, 16_777_215);
}

#[test]
fn operand_beyond_24_bits_rejected() {
    let mut c = Chunk::new();
    assert_eq!(c.emit_jmp(16_777_216), Err(OperandTooLarge { operand: 16_777_216 }));
    assert_eq!(c.emit_call(1 << 30), Err(OperandTooLarge { operand: 1 << 30 }));
    assert_eq!(c.emit_op(OpCode::LoadGlob, 16_777_216), Err(OperandTooLarge { operand: 16_777_216 }));
    assert!(c.bytecode.is_empty());
}

#[test]
fn locals_start_unbound() {
    let mut c = Chunk::new();
    assert_eq!(c.create_local(), 0);
    assert_eq!(c.create_local(), 1);
    assert_eq!(c.get_local(0), None);
    c.locals[1] = Some(StackSlot::Int(9));
    assert_eq!(c.get_local(1), Some(StackSlot::Int(9)));
    assert_eq!(c.get_local(2), None);
}

#[test]
fn value_accessors() {
    assert_eq!(StackSlot::Int(4).as_i64(), Some(4));
    assert_eq!(StackSlot::Int(4).as_f64(), None);
    let bits = 2.5f64.to_bits();
    assert_eq!(StackSlot::Float(bits).as_f64(), Some(bits));
    assert_eq!(StackSlot::Float(bits).as_i64(), None);
}

#[test]
fn every_emitter_names_the_rejected_operand() {
    let mut c = Chunk::new();
    assert_eq!(c.emit_jmp_if(16_777_216), Err(OperandTooLarge { operand: 16_777_216 }));
    assert_eq!(c.store_local(16_777_216), Err(OperandTooLarge { operand: 16_777_216 }));
    assert_eq!(c.load_local(16_777_216), Err(OperandTooLarge { operand: 16_777_216 }));
    assert!(c.bytecode.is_empty());
}

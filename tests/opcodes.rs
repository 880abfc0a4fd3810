use scriptvm::opcodes::OpCode;

#[test]
fn every_opcode_byte_round_trips() {
    for b in 0u8..=20 {
        let op = OpCode::from_u8(b).unwrap();
        assert_eq!(op.to_u8(), b);
    }
    assert_eq!(OpCode::from_u8(0), Some(OpCode::Push));
    assert_eq!(OpCode::from_u8(2), Some(OpCode::IAdd));
    assert_eq!(OpCode::from_u8(15), Some(OpCode::JmpIf));
    assert_eq!(OpCode::from_u8(20), Some(OpCode::Print));
}

#[test]
fn bytes_above_the_set_are_no_opcode() {
    assert_eq!(OpCode::from_u8(21), None);
    assert_eq!(OpCode::from_u8(255), None);
}

#[test]
fn operand_bearing_opcodes() {
    let wide = [
        OpCode::Push,
        OpCode::StoreGlob,
        OpCode::LoadGlob,
        OpCode::Jmp,
        OpCode::JmpIf,
        OpCode::Call,
        OpCode::StoreLoc,
        OpCode::LoadLoc,
    ];
    for b in 0u8..=20 {
        let op = OpCode::from_u8(b).unwrap();
        assert_eq!(op.takes_operand(), wide.contains(&op));
    }
}

use librvm::opcode::Opcode;

#[test]
fn test_opcode_to_u8() {
    let table = [
        (Opcode::Literal, 0x00u8),
        (Opcode::Addition, 0x01),
        (Opcode::Subtract, 0x02),
        (Opcode::Multiply, 0x03),
        (Opcode::Divide, 0x04),
        (Opcode::Modulo, 0x05),
        (Opcode::Return, 0x06),
        (Opcode::Factorial, 0x07),
        (Opcode::Sqrt, 0x08),
    ];
    for (op, code) in table {
        assert_eq!(op.to_u8(), code);
        assert_eq!(Opcode::from_u8(code), Some(op));
    }
}

#[test]
fn test_invalid_opcodes_rejected() {
    assert_eq!(Opcode::from_u8(0x09), None);
    assert_eq!(Opcode::from_u8(0xFF), None);
}

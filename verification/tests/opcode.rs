use bytecode_vm::pipeline::bytecode::{OpCode, MAX_OPCODE};
use std::mem;

#[test]
fn opcode_size() {
    assert_eq!(mem::size_of::<OpCode>(), 1)
}

#[test]
fn opcodes_are_numbered_from_zero() {
    assert_eq!(OpCode::Return.to_byte(), 0);
    assert_eq!(OpCode::Constant.to_byte(), 1);
    assert_eq!(OpCode::ConstantLong.to_byte(), 2);
    assert_eq!(MAX_OPCODE, 2);
}

#[test]
fn opcode_survives_encoding() {
    for op in [OpCode::Return, OpCode::Constant, OpCode::ConstantLong] {
        assert_eq!(OpCode::try_from(op.to_byte()), Ok(op));
    }
}

#[test]
fn byte_out_of_range_is_handed_back() {
    assert_eq!(OpCode::try_from(3), Err(3));
    assert_eq!(OpCode::try_from(99), Err(99));
    assert_eq!(OpCode::try_from(255), Err(255));
    for byte in 3..=255u8 {
        assert_eq!(OpCode::try_from(byte), Err(byte));
    }
}

#[test]
fn opcode_names() {
    assert_eq!(OpCode::Return.name(), "Return");
    assert_eq!(OpCode::Constant.name(), "Constant");
    assert_eq!(OpCode::ConstantLong.name(), "ConstantLong");
    assert_eq!(format!("{:?}", OpCode::ConstantLong), "ConstantLong");
}

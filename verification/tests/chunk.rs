use bytecode_vm::pipeline::bytecode::bytes::{next_bytes, ByteIter, FromBytes};
use bytecode_vm::pipeline::bytecode::{
    Chunk, LineInfo, OpCode, SourceMap, CONSTANT_LONG_ARG_BYTES,
};
use bytecode_vm::pipeline::value::RTValue;

#[test]
fn new_chunk_is_empty() {
    let chunk = Chunk::new();
    assert!(chunk.code().is_empty());
    assert_eq!(chunk.get_constant(0), None);
    assert_eq!(chunk.get_line_info(0), None);
    let chunk = Chunk::default();
    assert!(chunk.code().is_empty());
}

#[test]
fn bytes_are_appended_in_order() {
    let mut chunk = Chunk::new();
    chunk.push_op_code(OpCode::Constant, None);
    chunk.push_op_arg(17, None);
    chunk.push_op_code(OpCode::Return, None);
    assert_eq!(chunk.code(), &[1, 17, 0]);
}

#[test]
fn constants_are_numbered_from_zero() {
    let mut chunk = Chunk::new();
    assert_eq!(chunk.push_constant(RTValue::Number(10)), 0);
    assert_eq!(chunk.push_constant(RTValue::Number(20)), 1);
    assert_eq!(chunk.push_constant(RTValue::Number(10)), 2);
    assert_eq!(chunk.get_constant(0), Some(&RTValue::Number(10)));
    assert_eq!(chunk.get_constant(1), Some(&RTValue::Number(20)));
    assert_eq!(chunk.get_constant(2), Some(&RTValue::Number(10)));
    assert_eq!(chunk.get_constant(3), None);
    assert!(chunk.code().is_empty());
}

#[test]
fn shortest_form_is_chosen() {
    let mut chunk = Chunk::new();
    chunk.push_load_constant_op(0, None);
    assert_eq!(chunk.code(), &[1, 0]);
    let mut chunk = Chunk::new();
    chunk.push_load_constant_op(255, None);
    assert_eq!(chunk.code(), &[1, 255]);
    let mut chunk = Chunk::new();
    chunk.push_load_constant_op(256, None);
    assert_eq!(chunk.code(), &[2, 0, 0, 0, 0, 0, 0, 1, 0]);
    let mut chunk = Chunk::new();
    chunk.push_load_constant_op(300, None);
    assert_eq!(chunk.code(), &[2, 0, 0, 0, 0, 0, 0, 1, 44]);
    assert_eq!(chunk.code().len(), 1 + CONSTANT_LONG_ARG_BYTES);
}

#[test]
fn operand_gives_the_index_back() {
    for index in [0usize, 1, 255, 256, 300, 65_535, 65_536, 1 << 31] {
        let mut chunk = Chunk::new();
        chunk.push_op_code(OpCode::Return, None);
        chunk.push_load_constant_op(index, None);
        let mut cursor = ByteIter::starting_at(chunk.code(), 1);
        let tag = cursor.next().unwrap();
        let decoded: usize = if index <= 255 {
            assert_eq!(OpCode::try_from(tag), Ok(OpCode::Constant));
            next_bytes::<1>(&mut cursor).unwrap().bytes_to_num()
        } else {
            assert_eq!(OpCode::try_from(tag), Ok(OpCode::ConstantLong));
            next_bytes::<8>(&mut cursor).unwrap().bytes_to_num()
        };
        assert_eq!(decoded, index);
        assert_eq!(cursor.next(), None);
    }
}

#[test]
fn load_instruction_is_annotated_byte_by_byte() {
    let mut chunk = Chunk::new();
    let info = LineInfo::new("file", 4, 2);
    chunk.push_op_code(OpCode::Return, None);
    chunk.push_load_constant_op(1000, Some(info));
    chunk.push_op_code(OpCode::Return, None);
    assert_eq!(chunk.get_line_info(0), None);
    for offset in 1..10 {
        assert_eq!(chunk.get_line_info(offset), Some(&info));
    }
    assert_eq!(chunk.get_line_info(10), None);
    assert_eq!(chunk.get_line_info(11), None);
}

#[test]
fn push_constant_and_load_op_does_both() {
    let mut chunk = Chunk::new();
    chunk.push_constant(RTValue::Number(5));
    chunk.push_constant_and_load_op(RTValue::Number(6), Some(LineInfo::new("s", 1, 1)));
    assert_eq!(chunk.get_constant(1), Some(&RTValue::Number(6)));
    assert_eq!(chunk.code(), &[1, 1]);
    assert_eq!(chunk.get_line_info(0), Some(&LineInfo::new("s", 1, 1)));
    assert_eq!(chunk.get_line_info(1), Some(&LineInfo::new("s", 1, 1)));
}

#[test]
fn operand_origin_is_its_own() {
    let mut chunk = Chunk::new();
    chunk.push_op_code(OpCode::Constant, Some(LineInfo::new("s", 1, 1)));
    chunk.push_op_arg(0, None);
    chunk.push_op_arg(0, Some(LineInfo::new("s", 2, 5)));
    assert_eq!(chunk.get_line_info(0), Some(&LineInfo::new("s", 1, 1)));
    assert_eq!(chunk.get_line_info(1), None);
    assert_eq!(chunk.get_line_info(2), Some(&LineInfo::new("s", 2, 5)));
}

#[test]
fn source_map_lookup_is_exact() {
    let mut map = SourceMap::new();
    assert_eq!(map.get_line_info(0), None);
    let first = LineInfo::new("a", 1, 1);
    let second = LineInfo::new("a", 2, 1);
    map.set_line_info(3, first);
    map.set_line_info(4, first);
    map.set_line_info(5, second);
    map.set_line_info(9, first);
    assert_eq!(map.get_line_info(2), None);
    assert_eq!(map.get_line_info(3), Some(&first));
    assert_eq!(map.get_line_info(4), Some(&first));
    assert_eq!(map.get_line_info(5), Some(&second));
    assert_eq!(map.get_line_info(6), None);
    assert_eq!(map.get_line_info(8), None);
    assert_eq!(map.get_line_info(9), Some(&first));
    assert_eq!(map.get_line_info(10), None);
    assert_eq!(map.get_line_info(usize::MAX), None);
}

#[test]
fn source_map_keeps_the_last_record() {
    let mut map = SourceMap::default();
    let first = LineInfo::new("a", 1, 1);
    let second = LineInfo::new("b", 1, 1);
    map.set_line_info(0, first);
    map.set_line_info(1, first);
    map.set_line_info(2, first);
    map.set_line_info(1, second);
    assert_eq!(map.get_line_info(0), Some(&first));
    assert_eq!(map.get_line_info(1), Some(&second));
    assert_eq!(map.get_line_info(2), Some(&first));
    map.set_line_info(1, first);
    assert_eq!(map.get_line_info(1), Some(&first));
}

#[test]
fn line_info_fields() {
    let info = LineInfo::new("name", 3, 4);
    assert_eq!(info.source_name, "name");
    assert_eq!(info.line, 3);
    assert_eq!(info.column, 4);
}

#[test]
fn no_origin_beyond_the_stream() {
    let mut chunk = Chunk::new();
    chunk.push_op_code(OpCode::Return, Some(LineInfo::new("s", 1, 1)));
    chunk.push_constant(RTValue::Number(1));
    chunk.push_load_constant_op(400, Some(LineInfo::new("s", 2, 1)));
    let len = chunk.code().len();
    assert_eq!(len, 10);
    for offset in 0..len {
        assert!(chunk.get_line_info(offset).is_some());
    }
    for offset in len..len + 20 {
        assert_eq!(chunk.get_line_info(offset), None);
    }
    chunk.push_op_arg(5, None);
    assert_eq!(chunk.get_line_info(len), None);
}

#[test]
fn long_operand_is_as_wide_as_an_index() {
    assert_eq!(CONSTANT_LONG_ARG_BYTES, std::mem::size_of::<usize>());
    let mut chunk = Chunk::new();
    chunk.push_op_code(OpCode::Return, None);
    chunk.push_load_constant_op(70_000, None);
    let mut expected = vec![0u8, 2];
    expected.extend_from_slice(&70_000usize.to_be_bytes());
    assert_eq!(chunk.code(), &expected[..]);
}

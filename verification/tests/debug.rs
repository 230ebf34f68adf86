use bytecode_vm::pipeline::bytecode::bytes::ByteIter;
use bytecode_vm::pipeline::bytecode::{Chunk, LineInfo, OpCode};
use bytecode_vm::pipeline::value::RTValue;

fn number(value: f64) -> RTValue {
    RTValue::Number(value.to_bits())
}

fn number_text(value: f64) -> String {
    format!("{:?}", value)
}

#[test]
fn test_describe() {
    let info = |line, col| Some(LineInfo::new("test", line, col));
    let mut chunk = Chunk::new();
    chunk.push_op_code(OpCode::Return, info(1, 1));
    chunk.push_op_code(OpCode::Return, None);
    let constant_index = chunk.push_constant(number(42.0));
    chunk.push_load_constant_op(constant_index, info(2, 3));
    chunk.push_op_code(OpCode::Return, info(2, 4));
    chunk.push_load_constant_op(300, info(3, 7));
    chunk.push_op_code(OpCode::ConstantLong, info(7, 4));
    chunk.push_op_arg(7, info(7, 4));
    assert_eq!(
        chunk.describe_to_string(&vec![number_text(42.0)]),
        "0000    1 Return\n\
         0001    ? Return\n\
         0002    2 Constant    0 Number(42.0)\n\
         0004    | Return\n\
         0005    3 ConstantLong  300 <BAD INDEX>\n\
         0014    7 ConstantLong <BAD BYTES>[7]\n\
         "
    );
}

#[test]
fn listing_of_three_instructions() {
    let mut chunk = Chunk::new();
    chunk.push_op_code(OpCode::Return, Some(LineInfo::new("test", 1, 1)));
    chunk.push_op_code(OpCode::Return, None);
    let index = chunk.push_constant(number(42.0));
    chunk.push_op_code(OpCode::Constant, Some(LineInfo::new("test", 2, 1)));
    chunk.push_op_arg(index as u8, Some(LineInfo::new("test", 2, 1)));
    let mut text = String::new();
    chunk.describe(&mut text, &vec![number_text(42.0)]);
    assert_eq!(
        text,
        "0000    1 Return\n0001    ? Return\n0002    2 Constant    0 Number(42.0)\n"
    );
}

#[test]
fn bad_index_does_not_stop_the_listing() {
    let mut chunk = Chunk::new();
    chunk.push_load_constant_op(300, Some(LineInfo::new("test", 1, 1)));
    chunk.push_op_code(OpCode::Return, Some(LineInfo::new("test", 2, 1)));
    chunk.push_op_code(OpCode::Return, None);
    assert_eq!(
        chunk.describe_to_string(&vec![]),
        "0000    1 ConstantLong  300 <BAD INDEX>\n0009    2 Return\n0010    ? Return\n"
    );
}

#[test]
fn unknown_opcode_takes_one_byte() {
    let mut chunk = Chunk::new();
    chunk.push_op_code(OpCode::Return, None);
    chunk.push_op_arg(99, None);
    chunk.push_op_code(OpCode::Constant, None);
    chunk.push_op_arg(0, None);
    chunk.push_constant(number(1.5));
    assert_eq!(
        chunk.describe_to_string(&vec![number_text(1.5)]),
        "0000    ? Return\n0001    ? unknown op 99\n0002    ? Constant    0 Number(1.5)\n"
    );
}

#[test]
fn unknown_opcode_does_not_skip_operands() {
    let mut chunk = Chunk::new();
    chunk.push_op_arg(200, None);
    chunk.push_op_arg(0, None);
    chunk.push_op_arg(3, None);
    assert_eq!(
        chunk.describe_to_string(&vec![]),
        "0000    ? unknown op 200\n0001    ? Return\n0002    ? unknown op 3\n"
    );
}

#[test]
fn same_line_shows_a_bar() {
    let mut chunk = Chunk::new();
    chunk.push_op_code(OpCode::Return, Some(LineInfo::new("a", 12345, 1)));
    chunk.push_op_code(OpCode::Return, Some(LineInfo::new("a", 12345, 9)));
    chunk.push_op_code(OpCode::Return, Some(LineInfo::new("a", 7, 1)));
    chunk.push_op_code(OpCode::Return, None);
    chunk.push_op_code(OpCode::Return, Some(LineInfo::new("a", 7, 1)));
    assert_eq!(
        chunk.describe_to_string(&vec![]),
        "0000 12345 Return\n0001    | Return\n0002    7 Return\n0003    ? Return\n0004    7 Return\n"
    );
}

#[test]
fn truncated_operands_are_bad_bytes() {
    let mut chunk = Chunk::new();
    chunk.push_op_code(OpCode::Constant, None);
    assert_eq!(
        chunk.describe_to_string(&vec![]),
        "0000    ? Constant <BAD BYTES>[]\n"
    );
    let mut chunk = Chunk::new();
    chunk.push_op_code(OpCode::ConstantLong, None);
    chunk.push_op_arg(1, None);
    chunk.push_op_arg(22, None);
    chunk.push_op_arg(255, None);
    assert_eq!(
        chunk.describe_to_string(&vec![]),
        "0000    ? ConstantLong <BAD BYTES>[1, 22, 255]\n"
    );
}

#[test]
fn long_form_resolves_a_constant() {
    let mut chunk = Chunk::new();
    let mut numbers = Vec::new();
    for i in 0..=256u32 {
        let index = chunk.push_constant(number(f64::from(i)));
        assert_eq!(index, i as usize);
        numbers.push(number_text(f64::from(i)));
    }
    chunk.push_load_constant_op(255, None);
    chunk.push_load_constant_op(256, None);
    assert_eq!(chunk.code().len(), 2 + 9);
    assert_eq!(
        chunk.describe_to_string(&numbers),
        "0000    ? Constant  255 Number(255.0)\n0002    ? ConstantLong  256 Number(256.0)\n"
    );
}

#[test]
fn offsets_wider_than_four_digits() {
    let mut chunk = Chunk::new();
    for _ in 0..10001 {
        chunk.push_op_code(OpCode::Return, None);
    }
    let text = chunk.describe_to_string(&vec![]);
    let lines: Vec<&str> = text.lines().collect();
    assert_eq!(lines.len(), 10001);
    assert_eq!(lines[9999], "9999    ? Return");
    assert_eq!(lines[10000], "10000    ? Return");
}

#[test]
fn single_instruction() {
    let mut chunk = Chunk::new();
    chunk.push_constant(number(0.5));
    chunk.push_constant(number(-2.0));
    let stream = [1u8, 1, 0];
    let mut ops = ByteIter::starting_at(&stream, 1);
    let mut text = String::new();
    let numbers = vec![number_text(0.5), number_text(-2.0)];
    chunk.describe_instruction(&mut text, &numbers, 0, 1, &mut ops);
    assert_eq!(text, "0000    ? Constant    1 Number(-2.0)\n");
    assert_eq!(ops.offset(), 2);
    chunk.describe_instruction(&mut text, &numbers, 2, 0, &mut ops);
    assert_eq!(
        text,
        "0000    ? Constant    1 Number(-2.0)\n0002    ? Return\n"
    );
    assert_eq!(ops.offset(), 2);
}

#[test]
fn listing_under_a_title() {
    let mut chunk = Chunk::new();
    chunk.push_op_code(OpCode::Return, None);
    assert_eq!(
        chunk.describe_with_title(&vec![], Some("test chunk")),
        "== test chunk ==\n0000    ? Return\n========\n"
    );
    assert_eq!(
        chunk.describe_with_title(&vec![], None),
        "========\n0000    ? Return\n========\n"
    );
}

#[test]
fn empty_chunk_has_an_empty_listing() {
    let chunk = Chunk::new();
    assert_eq!(chunk.describe_to_string(&vec![]), "");
}

#[test]
fn value_text() {
    assert_eq!(number(42.0).describe("42.0"), "Number(42.0)");
}

#[test]
fn listing_consumes_the_whole_stream() {
    let mut chunk = Chunk::new();
    chunk.push_constant(number(1.0));
    chunk.push_load_constant_op(0, None);
    chunk.push_op_arg(77, None);
    chunk.push_load_constant_op(4000, None);
    chunk.push_op_code(OpCode::Return, None);
    chunk.push_op_code(OpCode::ConstantLong, None);
    chunk.push_op_arg(1, None);
    let numbers = vec![number_text(1.0)];
    let mut ops = ByteIter::new(chunk.code());
    let mut starts = Vec::new();
    let mut text = String::new();
    while let Some(op) = ops.next() {
        let offset = ops.offset() - 1;
        starts.push(offset);
        chunk.describe_instruction(&mut text, &numbers, offset, op, &mut ops);
    }
    assert_eq!(ops.offset(), chunk.code().len());
    assert_eq!(starts, vec![0, 2, 3, 12, 13]);
    assert_eq!(text, chunk.describe_to_string(&numbers));
    assert_eq!(
        text,
        "0000    ? Constant    0 Number(1.0)\n\
         0002    ? unknown op 77\n\
         0003    ? ConstantLong 4000 <BAD INDEX>\n\
         0012    ? Return\n\
         0013    ? ConstantLong <BAD BYTES>[1]\n"
    );
}

#[test]
fn operand_without_origin_does_not_break_the_line() {
    let mut chunk = Chunk::new();
    chunk.push_constant(number(42.0));
    chunk.push_op_code(OpCode::Constant, Some(LineInfo::new("test", 1, 1)));
    chunk.push_op_arg(0, None);
    chunk.push_op_code(OpCode::Return, Some(LineInfo::new("test", 1, 5)));
    chunk.push_op_code(OpCode::Return, Some(LineInfo::new("test", 2, 1)));
    assert_eq!(
        chunk.describe_to_string(&vec![number_text(42.0)]),
        "0000    1 Constant    0 Number(42.0)\n0002    | Return\n0003    2 Return\n"
    );
    let mut ops = ByteIter::starting_at(chunk.code(), 3);
    let mut line = String::new();
    chunk.describe_instruction(&mut line, &vec![number_text(42.0)], 2, 0, &mut ops);
    assert_eq!(line, "0002    | Return\n");
}

#[test]
fn operand_on_another_line_does_not_show() {
    let mut chunk = Chunk::new();
    chunk.push_constant(number(42.0));
    chunk.push_op_code(OpCode::Constant, Some(LineInfo::new("test", 1, 1)));
    chunk.push_op_arg(0, Some(LineInfo::new("test", 2, 1)));
    chunk.push_op_code(OpCode::Return, Some(LineInfo::new("test", 2, 5)));
    chunk.push_op_code(OpCode::Return, Some(LineInfo::new("test", 1, 1)));
    assert_eq!(
        chunk.describe_to_string(&vec![number_text(42.0)]),
        "0000    1 Constant    0 Number(42.0)\n0002    2 Return\n0003    1 Return\n"
    );
}

#[test]
fn instruction_before_one_without_origin() {
    let mut chunk = Chunk::new();
    chunk.push_op_code(OpCode::Return, None);
    chunk.push_op_code(OpCode::Return, Some(LineInfo::new("test", 4, 1)));
    chunk.push_op_code(OpCode::Return, None);
    chunk.push_op_code(OpCode::Return, Some(LineInfo::new("test", 4, 1)));
    assert_eq!(
        chunk.describe_to_string(&vec![]),
        "0000    ? Return\n0001    4 Return\n0002    ? Return\n0003    4 Return\n"
    );
}

#[test]
fn previous_instruction_is_found_from_the_start() {
    let mut chunk = Chunk::new();
    chunk.push_load_constant_op(0, None);
    chunk.push_op_arg(99, None);
    chunk.push_load_constant_op(300, None);
    chunk.push_op_code(OpCode::Return, None);
    assert_eq!(chunk.code().len(), 13);
    assert_eq!(chunk.previous_instruction(0), None);
    assert_eq!(chunk.previous_instruction(1), Some(0));
    assert_eq!(chunk.previous_instruction(2), Some(0));
    assert_eq!(chunk.previous_instruction(3), Some(2));
    assert_eq!(chunk.previous_instruction(4), Some(3));
    assert_eq!(chunk.previous_instruction(12), Some(3));
    assert_eq!(chunk.previous_instruction(13), Some(12));
    assert_eq!(chunk.previous_instruction(99), Some(12));
    assert_eq!(Chunk::new().previous_instruction(7), None);
}

#[test]
fn unknown_opcode_line_on_its_own() {
    let chunk = Chunk::new();
    let stream = [1u8, 0u8];
    let mut ops = ByteIter::new(&stream);
    let mut line = String::new();
    chunk.describe_instruction(&mut line, &vec![], 7, 99, &mut ops);
    assert_eq!(line, "0007    ? unknown op 99\n");
    assert_eq!(ops.offset(), 0);
    assert_eq!(ops.next(), Some(1));
}

#[test]
fn byte_after_an_unknown_opcode_is_a_tag() {
    let mut chunk = Chunk::new();
    chunk.push_constant(number(42.0));
    chunk.push_op_arg(99, None);
    chunk.push_op_arg(1, None);
    chunk.push_op_arg(0, None);
    assert_eq!(
        chunk.describe_to_string(&vec![number_text(42.0)]),
        "0000    ? unknown op 99\n0001    ? Constant    0 Number(42.0)\n"
    );
}

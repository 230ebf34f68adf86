use bytecode_vm::pipeline::bytecode::{Chunk, LineInfo, OpCode};
use bytecode_vm::pipeline::value::RTValue;
use bytecode_vm::pipeline::vm::{Halt, InterpretError, VMState, VM};

fn number(value: f64) -> RTValue {
    RTValue::Number(value.to_bits())
}

fn message(result: Result<Halt, InterpretError>) -> String {
    match result {
        Err(InterpretError::RuntimeError(message)) => message,
        other => panic!("no runtime failure: {:?}", other),
    }
}

#[test]
fn constant_then_return() {
    let mut chunk = Chunk::new();
    chunk.push_constant_and_load_op(number(1.2), Some(LineInfo::new("source", 123, 0)));
    chunk.push_op_code(OpCode::Return, Some(LineInfo::new("source", 123, 1)));
    let mut vm = VM::new().with_chunk(&chunk);
    assert_eq!(vm.state(), VMState::Running);
    match vm.run() {
        Ok(Halt::Returned(Some(RTValue::Number(bits)))) => {
            assert_eq!(f64::from_bits(bits), 1.2)
        }
        other => panic!("unexpected end: {:?}", other),
    }
    assert_eq!(vm.state(), VMState::HaltedNormally);
    assert!(vm.stack().is_empty());
}

#[test]
fn idle_engine_has_nothing_to_run() {
    let mut vm = VM::new();
    assert_eq!(vm.state(), VMState::Idle);
    assert!(matches!(vm.run(), Ok(Halt::Unbound)));
    assert_eq!(vm.state(), VMState::Idle);
    let mut vm = VM::default();
    assert!(matches!(vm.run(), Ok(Halt::Unbound)));
}

#[test]
fn return_on_an_empty_stack_gives_nothing() {
    let mut chunk = Chunk::new();
    chunk.push_op_code(OpCode::Return, None);
    let mut vm = VM::new().with_chunk(&chunk);
    assert!(matches!(vm.run(), Ok(Halt::Returned(None))));
    assert_eq!(vm.state(), VMState::HaltedNormally);
}

#[test]
fn end_of_stream_halts_normally() {
    let chunk = Chunk::new();
    let mut vm = VM::new().with_chunk(&chunk);
    assert!(matches!(vm.run(), Ok(Halt::Exhausted)));
    assert_eq!(vm.state(), VMState::HaltedNormally);

    let mut chunk = Chunk::new();
    chunk.push_constant_and_load_op(number(3.0), None);
    chunk.push_constant_and_load_op(number(4.0), None);
    let mut vm = VM::new().with_chunk(&chunk);
    assert!(matches!(vm.run(), Ok(Halt::Exhausted)));
    assert_eq!(vm.stack(), &[number(3.0), number(4.0)]);
}

#[test]
fn return_takes_the_top() {
    let mut chunk = Chunk::new();
    chunk.push_constant_and_load_op(number(3.0), None);
    chunk.push_constant_and_load_op(number(4.0), None);
    chunk.push_op_code(OpCode::Return, None);
    chunk.push_constant_and_load_op(number(5.0), None);
    let mut vm = VM::new().with_chunk(&chunk);
    match vm.run() {
        Ok(Halt::Returned(top)) => assert_eq!(top, Some(number(4.0))),
        other => panic!("unexpected end: {:?}", other),
    }
    assert_eq!(vm.stack(), &[number(3.0)]);
}

#[test]
fn unknown_opcode_fails_the_run() {
    let mut chunk = Chunk::new();
    chunk.push_constant_and_load_op(number(3.0), None);
    chunk.push_op_arg(99, None);
    chunk.push_op_code(OpCode::Return, None);
    let mut vm = VM::new().with_chunk(&chunk);
    assert_eq!(message(vm.run()), "Expected OpCode, got byte 99 at offset 2");
    assert_eq!(vm.state(), VMState::HaltedError);
    assert_eq!(vm.stack(), &[number(3.0)]);
}

#[test]
fn missing_operand_fails_the_run() {
    let mut chunk = Chunk::new();
    chunk.push_op_code(OpCode::Constant, None);
    let mut vm = VM::new().with_chunk(&chunk);
    assert_eq!(message(vm.run()), "Missing arg byte for Constant");
    assert_eq!(vm.state(), VMState::HaltedError);

    let mut chunk = Chunk::new();
    chunk.push_op_code(OpCode::ConstantLong, None);
    for _ in 0..7 {
        chunk.push_op_arg(0, None);
    }
    let mut vm = VM::new().with_chunk(&chunk);
    assert_eq!(message(vm.run()), "Missing arg bytes for ConstantLong");
}

#[test]
fn bad_constant_index_fails_the_run() {
    let mut chunk = Chunk::new();
    chunk.push_constant(number(1.0));
    chunk.push_load_constant_op(1, None);
    let mut vm = VM::new().with_chunk(&chunk);
    assert_eq!(message(vm.run()), "Bad constant index 1");

    let mut chunk = Chunk::new();
    chunk.push_load_constant_op(300, None);
    chunk.push_op_code(OpCode::Return, None);
    let mut vm = VM::new().with_chunk(&chunk);
    assert_eq!(message(vm.run()), "Bad constant index 300");
    assert_eq!(vm.state(), VMState::HaltedError);
}

#[test]
fn long_form_loads_a_constant() {
    let mut chunk = Chunk::new();
    for i in 0..300u32 {
        chunk.push_constant(number(f64::from(i)));
    }
    chunk.push_constant_and_load_op(number(-7.5), None);
    chunk.push_op_code(OpCode::Return, None);
    assert_eq!(chunk.code().len(), 10);
    let mut vm = VM::new().with_chunk(&chunk);
    match vm.run() {
        Ok(Halt::Returned(top)) => assert_eq!(top, Some(number(-7.5))),
        other => panic!("unexpected end: {:?}", other),
    }
}

#[test]
fn binding_clears_the_stack() {
    let mut first = Chunk::new();
    first.push_constant_and_load_op(number(1.0), None);
    let mut vm = VM::new().with_chunk(&first);
    assert!(matches!(vm.run(), Ok(Halt::Exhausted)));
    assert_eq!(vm.stack().len(), 1);
    let mut second = Chunk::new();
    second.push_op_code(OpCode::Return, None);
    let mut vm = vm.with_chunk(&second);
    assert_eq!(vm.state(), VMState::Running);
    assert!(vm.stack().is_empty());
    assert_eq!(vm.ip(), 0);
    assert!(matches!(vm.run(), Ok(Halt::Returned(None))));
}

#[test]
fn steps_stop_where_the_listing_starts_lines() {
    let mut chunk = Chunk::new();
    for i in 0..300u32 {
        chunk.push_constant(number(f64::from(i)));
    }
    chunk.push_load_constant_op(7, None);
    chunk.push_load_constant_op(299, None);
    chunk.push_load_constant_op(0, None);
    chunk.push_op_code(OpCode::Return, None);
    let mut vm = VM::new().with_chunk(&chunk);
    let mut offsets = vec![vm.ip()];
    while vm.step().is_none() {
        offsets.push(vm.ip());
    }
    assert_eq!(offsets, vec![0, 2, 11, 13]);
    assert_eq!(vm.state(), VMState::HaltedNormally);
    let numbers: Vec<String> = (0..300u32).map(|i| format!("{:?}", f64::from(i))).collect();
    let listing = chunk.describe_to_string(&numbers);
    let listed: Vec<usize> = listing
        .lines()
        .map(|line| line[0..4].parse().unwrap())
        .collect();
    assert_eq!(listed, offsets);
}

#[test]
fn run_starts_over() {
    let mut chunk = Chunk::new();
    chunk.push_constant_and_load_op(number(2.0), None);
    chunk.push_constant_and_load_op(number(3.0), None);
    chunk.push_op_code(OpCode::Return, None);
    let mut vm = VM::new().with_chunk(&chunk);
    assert!(vm.step().is_none());
    assert_eq!(vm.ip(), 2);
    match vm.run() {
        Ok(Halt::Returned(top)) => assert_eq!(top, Some(number(3.0))),
        other => panic!("unexpected end: {:?}", other),
    }
    assert_eq!(vm.stack(), &[number(2.0), number(2.0)]);
}

#[test]
fn unknown_opcode_at_the_start_names_offset_zero() {
    let mut chunk = Chunk::new();
    chunk.push_op_arg(99, None);
    let mut vm = VM::new().with_chunk(&chunk);
    let text = message(vm.run());
    assert_eq!(text, "Expected OpCode, got byte 99 at offset 0");
    assert!(text.contains("99") && text.contains("offset 0"));
    assert_eq!(vm.state(), VMState::HaltedError);
    assert!(vm.stack().is_empty());
}

#[test]
fn rewinding_keeps_the_stack() {
    let mut chunk = Chunk::new();
    chunk.push_constant_and_load_op(number(2.0), None);
    chunk.push_op_code(OpCode::Return, None);
    chunk.push_constant_and_load_op(number(3.0), None);
    let mut vm = VM::new().with_chunk(&chunk);
    assert!(vm.step().is_none());
    vm.rewind();
    assert_eq!(vm.ip(), 0);
    assert_eq!(vm.state(), VMState::Running);
    assert_eq!(vm.stack(), &[number(2.0)]);
    assert!(vm.step().is_none());
    assert!(matches!(vm.step(), Some(Ok(Halt::Returned(Some(_))))));
    assert_eq!(vm.state(), VMState::HaltedNormally);
    vm.rewind();
    assert_eq!(vm.state(), VMState::Running);
    let mut idle = VM::new();
    idle.rewind();
    assert_eq!(idle.state(), VMState::Idle);
}

//! The execution engine: a stack machine that runs one chunk to completion.

use super::bytecode::bytes::{be_value, decode, next_bytes, ByteIter};
use super::bytecode::{Chunk, ChunkView, OpCode, CONSTANT_LONG_ARG_BYTES};
use super::text::{decimal, push_decimal};
use super::value::RTValue;
use vstd::prelude::*;
use vstd::string::StringExecFns;

verus! {

/// The number of values for which a new engine reserves room on its stack.
pub const STACK_MAX: usize = 65535;

/// Where an engine stands.
#[derive(Debug, Clone, Copy, PartialEq, Eq, Structural)]
pub enum VMState {
    /// No chunk is bound.
    Idle,
    /// A chunk is bound and has not run to its end.
    Running,
    /// The run ended with a `Return`, or at the end of the stream.
    HaltedNormally,
    /// The run ended with a failure.
    HaltedError,
}

/// How a run ended without failure.
#[derive(Debug, Clone, Copy, PartialEq, Eq, Structural)]
pub enum Halt {
    /// There was no chunk to run.
    Unbound,
    /// The stream ran out before any `Return`.
    Exhausted,
    /// A `Return` took the top of the stack, or nothing from an empty stack.
    Returned(Option<RTValue>),
}

/// Why a run failed.
#[derive(Debug)]
pub enum InterpretError {
    /// Kept for failures of a compiler; the engine never reports it.
    CompileError,
    /// The stream could not be run on; the message says why.
    RuntimeError(String),
}

/// A failure with its message as plain text.
pub enum InterpretErrorView {
    CompileError,
    RuntimeError(Seq<char>),
}

impl View for InterpretError {
    type V = InterpretErrorView;

    open spec fn view(&self) -> InterpretErrorView {
        match self {
            InterpretError::CompileError => InterpretErrorView::CompileError,
            InterpretError::RuntimeError(message) => InterpretErrorView::RuntimeError(message@),
        }
    }
}

/// The end of a run: how it halted, or why it failed.
pub type Ending = Result<Halt, InterpretErrorView>;

/// The end of a run, with the message of a failure as plain text.
pub open spec fn ending_of(result: Result<Halt, InterpretError>) -> Ending {
    match result {
        Ok(halt) => Ok(halt),
        Err(error) => Err(error@),
    }
}

/// What one step of the engine leads to.
pub enum Step {
    /// The engine goes on at `ip` with `stack`.
    Next { ip: int, stack: Seq<RTValue> },
    /// The engine halts and leaves `stack`.
    Halt { ending: Ending, stack: Seq<RTValue> },
}

/// The constant index in the operand of the instruction at `ip`, if the
/// stream holds all `width` bytes of it.
pub open spec fn operand_index(code: Seq<u8>, ip: int, width: nat) -> Option<nat> {
    if ip + 1 + width <= code.len() {
        Some(be_value(code.subrange(ip + 1, ip + 1 + width)))
    } else {
        None
    }
}

/// The message for an operand that the stream cuts short.
pub open spec fn missing_operand_message(op: OpCode) -> Seq<char> {
    match op {
        OpCode::ConstantLong => "Missing arg bytes for ConstantLong"@,
        _ => "Missing arg byte for Constant"@,
    }
}

/// One step of the engine on `chunk`, with its cursor at `ip`.
///
/// At the end of the stream the engine halts as exhausted. A byte that is no
/// instruction tag is a failure that names the byte and its offset. `Return` halts with the top of the stack,
/// or with nothing where the stack is empty. `Constant` and `ConstantLong`
/// push the constant that their operand names, and fail where the operand is
/// cut short or names no constant.
pub open spec fn step_at(chunk: ChunkView, ip: int, stack: Seq<RTValue>) -> Step {
    if !(0 <= ip < chunk.code.len()) {
        Step::Halt { ending: Ok(Halt::Exhausted), stack }
    } else {
        match OpCode::decoded(chunk.code[ip]) {
            Err(byte) => Step::Halt {
                ending: Err(
                    InterpretErrorView::RuntimeError(
                        "Expected OpCode, got byte "@ + decimal(byte as nat) + " at offset "@
                            + decimal(ip as nat),
                    ),
                ),
                stack,
            },
            Ok(OpCode::Return) => if stack.len() > 0 {
                Step::Halt {
                    ending: Ok(Halt::Returned(Some(stack.last()))),
                    stack: stack.drop_last(),
                }
            } else {
                Step::Halt { ending: Ok(Halt::Returned(None)), stack }
            },
            Ok(op) => match operand_index(chunk.code, ip, op.operand_width()) {
                None => Step::Halt {
                    ending: Err(InterpretErrorView::RuntimeError(missing_operand_message(op))),
                    stack,
                },
                Some(index) => if index < chunk.constants.len() {
                    Step::Next {
                        ip: ip + 1 + op.operand_width(),
                        stack: stack.push(chunk.constants[index as int]),
                    }
                } else {
                    Step::Halt {
                        ending: Err(
                            InterpretErrorView::RuntimeError(
                                "Bad constant index "@ + decimal(index),
                            ),
                        ),
                        stack,
                    }
                },
            },
        }
    }
}

/// The end of the run that starts at `ip` with `stack`, and the stack it
/// leaves.
pub open spec fn execute(chunk: ChunkView, ip: int, stack: Seq<RTValue>) -> (Ending, Seq<RTValue>)
    decreases chunk.code.len() - ip,
{
    match step_at(chunk, ip, stack) {
        Step::Halt { ending, stack } => (ending, stack),
        Step::Next { ip: next, stack: pushed } => execute(chunk, next, pushed),
    }
}

/// A stack machine bound to at most one chunk.
pub struct VM<'s> {
    chunk: Option<&'s Chunk<'s>>,
    stack: Vec<RTValue>,
    ip: usize,
    progress: Progress,
}

/// How far the run of a bound chunk has come.
#[derive(Clone, Copy)]
enum Progress {
    Running,
    HaltedNormally,
    HaltedError,
}

/// What an engine holds, as plain values.
pub struct VMView {
    /// The chunk that is bound, if one is.
    pub chunk: Option<ChunkView>,
    /// The operand stack, its top last.
    pub stack: Seq<RTValue>,
    /// The cursor: the offset of the next byte to read.
    pub ip: nat,
    pub state: VMState,
}

impl<'s> View for VM<'s> {
    type V = VMView;

    closed spec fn view(&self) -> VMView {
        VMView {
            chunk: match self.chunk {
                Some(chunk) => Some(chunk@),
                None => None,
            },
            stack: self.stack@,
            ip: self.ip as nat,
            state: match (self.chunk, self.progress) {
                (None, _) => VMState::Idle,
                (Some(_), Progress::Running) => VMState::Running,
                (Some(_), Progress::HaltedNormally) => VMState::HaltedNormally,
                (Some(_), Progress::HaltedError) => VMState::HaltedError,
            },
        }
    }
}

/// The state in which a run with the given end leaves the engine.
pub open spec fn state_after(ending: Ending) -> VMState {
    match ending {
        Ok(Halt::Unbound) => VMState::Idle,
        Ok(_) => VMState::HaltedNormally,
        Err(_) => VMState::HaltedError,
    }
}

impl<'s> VM<'s> {
    /// An idle engine with an empty stack.
    pub fn new() -> (vm: Self)
        ensures
            vm@.chunk.is_none(),
            vm@.stack == Seq::<RTValue>::empty(),
            vm@.ip == 0,
            vm@.state == VMState::Idle,
    {
        let mut stack: Vec<RTValue> = Vec::new();
        stack.reserve(STACK_MAX);
        Self { chunk: None, stack, ip: 0, progress: Progress::Running }
    }

    /// Binds `new_chunk`: the stack is emptied, keeping its room, and the
    /// cursor stands at the start of the stream.
    pub fn with_chunk<'t>(self, new_chunk: &'t Chunk<'t>) -> (vm: VM<'t>)
        ensures
            vm@.chunk == Some(new_chunk@),
            vm@.stack == Seq::<RTValue>::empty(),
            vm@.ip == 0,
            vm@.state == VMState::Running,
    {
        let mut stack: Vec<RTValue> = self.stack;
        stack.clear();
        VM { chunk: Some(new_chunk), stack, ip: 0, progress: Progress::Running }
    }

    pub fn state(&self) -> (state: VMState)
        ensures
            state == self@.state,
    {
        match (self.chunk, self.progress) {
            (None, _) => VMState::Idle,
            (Some(_), Progress::Running) => VMState::Running,
            (Some(_), Progress::HaltedNormally) => VMState::HaltedNormally,
            (Some(_), Progress::HaltedError) => VMState::HaltedError,
        }
    }

    /// The chunk that is bound, if one is.
    pub fn chunk(&self) -> (chunk: Option<&'s Chunk<'s>>)
        ensures
            chunk.is_some() == self@.chunk.is_some(),
            chunk.is_some() ==> chunk.unwrap()@ == self@.chunk.unwrap(),
    {
        self.chunk
    }

    /// The offset of the next byte that the engine reads.
    pub fn ip(&self) -> (ip: usize)
        ensures
            ip == self@.ip,
    {
        self.ip
    }

    /// The operand stack, its top last.
    pub fn stack(&self) -> (stack: &[RTValue])
        ensures
            stack@ == self@.stack,
    {
        self.stack.as_slice()
    }

    /// Reads the operand of a constant-loading instruction of `N` operand
    /// bytes and pushes the constant that it names.
    fn load_constant<const N: usize>(
        &mut self,
        chunk: &Chunk,
        cursor: &mut ByteIter,
        op: OpCode,
    ) -> (failure: Option<InterpretError>)
        requires
            1 <= N <= 8,
            N == op.operand_width(),
            op != OpCode::Return,
            old(cursor).stream() == chunk@.code,
            1 <= old(cursor).position() <= chunk@.code.len(),
            chunk@.code[old(cursor).position() - 1] == op.ordinal(),
        ensures
            final(self).chunk == old(self).chunk,
            final(self).progress == old(self).progress,
            final(self).ip == old(self).ip,
            final(cursor).stream() == old(cursor).stream(),
            match step_at(chunk@, old(cursor).position() - 1, old(self).stack@) {
                Step::Next { ip, stack } => failure.is_none() && final(cursor).position() == ip
                    && final(self).stack@ == stack,
                Step::Halt { ending, stack } => failure.is_some() && Err::<
                    Halt,
                    InterpretErrorView,
                >(failure.unwrap()@) == ending && final(self).stack@ == stack,
            },
    {
        let ghost at = cursor.position() - 1;
        proof {
            assert(OpCode::decoded(chunk@.code[at]) == Ok::<OpCode, u8>(op));
            chunk.lemma_sizes_bounded();
        }
        match next_bytes::<N>(cursor) {
            None => {
                let message: &str = match op {
                    OpCode::ConstantLong => "Missing arg bytes for ConstantLong",
                    _ => "Missing arg byte for Constant",
                };
                Some(InterpretError::RuntimeError(String::from_str(message)))
            },
            Some(bytes) => {
                let index: u64 = decode::<N>(&bytes);
                proof {
                    assert(bytes@ =~= chunk@.code.subrange(at + 1, at + 1 + N));
                }
                let found: Option<&RTValue> = if index <= usize::MAX as u64 {
                    chunk.get_constant(index as usize)
                } else {
                    None
                };
                match found {
                    None => {
                        let mut message = String::from_str("Bad constant index ");
                        push_decimal(&mut message, index);
                        Some(InterpretError::RuntimeError(message))
                    },
                    Some(constant) => {
                        self.stack.push(*constant);
                        None
                    },
                }
            },
        }
    }

    /// Runs the instruction at the cursor. The result is `None` where the
    /// engine goes on, and the end of the run where it halts.
    pub fn step(&mut self) -> (halt: Option<Result<Halt, InterpretError>>)
        requires
            old(self)@.state == VMState::Running,
        ensures
            final(self)@.chunk == old(self)@.chunk,
            old(self)@.chunk.is_some(),
            match step_at(old(self)@.chunk.unwrap(), old(self)@.ip as int, old(self)@.stack) {
                Step::Next { ip, stack } => halt.is_none() && final(self)@.ip == ip && final(self)@.stack == stack && final(self)@.state == VMState::Running,
                Step::Halt { ending, stack } => halt.is_some() && ending_of(halt.unwrap())
                    == ending && final(self)@.stack == stack && final(self)@.ip == old(self)@.ip
                    && final(self)@.state == state_after(ending),
            },
    {
        let chunk: &Chunk = match self.chunk {
            Some(chunk) => chunk,
            None => {
                return Some(Ok(Halt::Unbound));
            },
        };
        let mut cursor = ByteIter::starting_at(chunk.code(), self.ip);
        let opcode: u8 = match cursor.next() {
            Some(byte) => byte,
            None => {
                self.progress = Progress::HaltedNormally;
                return Some(Ok(Halt::Exhausted));
            },
        };
        let failure: Option<InterpretError> = match OpCode::try_from(opcode) {
            Err(byte) => {
                let mut message = String::from_str("Expected OpCode, got byte ");
                push_decimal(&mut message, byte as u64);
                message.append(" at offset ");
                push_decimal(&mut message, self.ip as u64);
                Some(InterpretError::RuntimeError(message))
            },
            Ok(OpCode::Return) => {
                let top: Option<RTValue> = self.stack.pop();
                self.progress = Progress::HaltedNormally;
                proof {
                    assert(old(self)@.stack.len() > 0 ==> self@.stack =~= old(self)@.stack.drop_last());
                }
                return Some(Ok(Halt::Returned(top)));
            },
            Ok(OpCode::Constant) => self.load_constant::<1>(chunk, &mut cursor, OpCode::Constant),
            Ok(OpCode::ConstantLong) => if CONSTANT_LONG_ARG_BYTES == 4 {
                self.load_constant::<4>(chunk, &mut cursor, OpCode::ConstantLong)
            } else {
                self.load_constant::<8>(chunk, &mut cursor, OpCode::ConstantLong)
            },
        };
        match failure {
            Some(error) => {
                self.progress = Progress::HaltedError;
                Some(Err(error))
            },
            None => {
                self.ip = cursor.offset();
                None
            },
        }
    }

    /// Sets the cursor back to the start of the stream, ready for a run. The
    /// stack stays as it is. Without a chunk nothing changes but the cursor.
    pub fn rewind(&mut self)
        ensures
            final(self)@.chunk == old(self)@.chunk,
            final(self)@.stack == old(self)@.stack,
            final(self)@.ip == 0,
            final(self)@.state == if old(self)@.chunk.is_some() {
                VMState::Running
            } else {
                VMState::Idle
            },
    {
        self.ip = 0;
        self.progress = Progress::Running;
    }

    /// Runs the bound chunk from the start of its stream to the end of the
    /// run. Without a chunk there is nothing to run.
    pub fn run(&mut self) -> (result: Result<Halt, InterpretError>)
        ensures
            final(self)@.chunk == old(self)@.chunk,
            old(self)@.chunk.is_none() ==> ending_of(result) == Ok::<Halt, InterpretErrorView>(
                Halt::Unbound,
            ) && final(self)@ == old(self)@,
            old(self)@.chunk.is_some() ==> (ending_of(result), final(self)@.stack) == execute(
                old(self)@.chunk.unwrap(),
                0,
                old(self)@.stack,
            ) && final(self)@.state == state_after(ending_of(result)),
    {
        if self.chunk.is_none() {
            return Ok(Halt::Unbound);
        }
        self.rewind();
        let ghost chunk = old(self)@.chunk.unwrap();
        loop
            invariant
                self@.chunk == old(self)@.chunk,
                old(self)@.chunk == Some(chunk),
                self@.state == VMState::Running,
                self@.ip <= chunk.code.len(),
                execute(chunk, self@.ip as int, self@.stack) == execute(chunk, 0, old(self)@.stack),
            decreases chunk.code.len() - self@.ip,
        {
            match self.step() {
                Some(result) => {
                    return result;
                },
                None => {},
            }
        }
    }
}

impl<'s> Default for VM<'s> {
    fn default() -> (vm: Self)
        ensures
            vm@.chunk.is_none(),
            vm@.stack == Seq::<RTValue>::empty(),
            vm@.ip == 0,
            vm@.state == VMState::Idle,
    {
        Self::new()
    }
}

} // verus!

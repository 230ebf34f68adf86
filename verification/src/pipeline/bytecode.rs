//! A chunk of bytecode: the instruction stream, its constant pool and the
//! source positions of its bytes.

pub mod bytes;
pub mod debug;
mod opcode;
mod source_map;

pub use opcode::{OpCode, MAX_OPCODE};
pub use source_map::{
    lemma_lookup_recorded, lemma_lookup_unrecorded, recorded, unmapped, LineInfo, LineInfoView,
    SourceMap,
};

use crate::pipeline::value::RTValue;
use bytes::{be_bytes, ToBytes};
use vstd::prelude::*;

verus! {

/// The place of a constant in a chunk's pool.
pub type ConstantIndex = usize;

/// How many bytes the operand of `ConstantLong` takes: the width of an index
/// on the host, four bytes or eight.
pub const CONSTANT_LONG_ARG_BYTES: usize = (usize::BITS / 8) as usize;

/// An instruction stream with its constant pool and source positions.
pub struct Chunk<'s> {
    constants: Vec<RTValue>,
    code: Vec<u8>,
    source_map: SourceMap<'s>,
}

/// What a chunk holds, as plain values.
pub struct ChunkView {
    /// The instruction stream.
    pub code: Seq<u8>,
    /// The constant pool, in the order the constants were added.
    pub constants: Seq<RTValue>,
    /// The source position recorded for each annotated offset of the stream.
    pub lines: Map<int, LineInfoView>,
}

impl ChunkView {
    /// Whether every recorded position belongs to a byte of the stream.
    pub open spec fn origins_in_stream(self) -> bool {
        forall|offset: int| #[trigger]
            self.lines.contains_key(offset) ==> 0 <= offset < self.code.len()
    }
}

impl<'s> View for Chunk<'s> {
    type V = ChunkView;

    closed spec fn view(&self) -> ChunkView {
        ChunkView { code: self.code@, constants: self.constants@, lines: self.source_map@ }
    }
}

/// The position, as plain values, that an optional origin carries.
pub open spec fn origin_view(origin: Option<LineInfo>) -> Option<LineInfoView> {
    match origin {
        Some(info) => Some(info@),
        None => None,
    }
}

/// The positions after `count` bytes from `start` on were given `origin`.
/// Without an origin nothing is recorded.
pub open spec fn annotated(
    lines: Map<int, LineInfoView>,
    start: int,
    count: int,
    origin: Option<LineInfoView>,
) -> Map<int, LineInfoView> {
    match origin {
        None => lines,
        Some(info) => Map::new(
            |offset: int| start <= offset < start + count || lines.contains_key(offset),
            |offset: int|
                if start <= offset < start + count {
                    info
                } else {
                    lines[offset]
                },
        ),
    }
}

/// The shortest instruction that loads the constant at `index`: `Constant`
/// and one byte where the index fits in a byte, else `ConstantLong` and the
/// index in `CONSTANT_LONG_ARG_BYTES` bytes, most significant first.
pub open spec fn load_constant_code(index: ConstantIndex) -> Seq<u8> {
    if index <= 255 {
        seq![OpCode::Constant.ordinal(), index as u8]
    } else {
        seq![OpCode::ConstantLong.ordinal()] + be_bytes(
            index as nat,
            CONSTANT_LONG_ARG_BYTES as nat,
        )
    }
}

impl<'s> Chunk<'s> {
    /// A position is recorded only for a byte that the stream holds.
    #[verifier::type_invariant]
    spec fn origins_kept_in_stream(self) -> bool {
        self@.origins_in_stream()
    }

    pub fn new() -> (chunk: Self)
        ensures
            chunk@.code == Seq::<u8>::empty(),
            chunk@.constants == Seq::<RTValue>::empty(),
            chunk@.lines == source_map::unmapped(),
            chunk@.origins_in_stream(),
    {
        Self { constants: Vec::new(), code: Vec::new(), source_map: SourceMap::new() }
    }

    /// Takes the chunk out and leaves an empty one in its place.
    fn take(&mut self) -> (taken: Self)
        ensures
            taken@ == old(self)@,
            taken@.origins_in_stream(),
    {
        proof {
            use_type_invariant(&*self);
        }
        let mut taken = Chunk::new();
        core::mem::swap(self, &mut taken);
        taken
    }

    /// Stream and pool are as long as a vector can be, and no longer.
    pub proof fn lemma_sizes_bounded(&self)
        ensures
            self@.code.len() <= usize::MAX,
            self@.constants.len() <= usize::MAX,
    {
        assert(self.code.len() == self.code@.len());
        assert(self.constants.len() == self.constants@.len());
    }

    /// The instruction stream.
    pub fn code(&self) -> (code: &[u8])
        ensures
            code@ == self@.code,
            self@.origins_in_stream(),
    {
        proof {
            use_type_invariant(self);
        }
        self.code.as_slice()
    }

    /// The constant at `constant_index`, if the pool has one there.
    #[inline(always)]
    pub fn get_constant(&self, constant_index: ConstantIndex) -> (constant: Option<&RTValue>)
        ensures
            constant.is_some() <==> constant_index < self@.constants.len(),
            constant.is_some() ==> *constant.unwrap() == self@.constants[constant_index as int],
    {
        if constant_index < self.constants.len() {
            Some(&self.constants[constant_index])
        } else {
            None
        }
    }

    /// The source position recorded for the byte at `instruction_index`.
    pub fn get_line_info(&self, instruction_index: usize) -> (info: Option<&LineInfo<'s>>)
        ensures
            info.is_some() <==> self@.lines.contains_key(instruction_index as int),
            info.is_some() ==> info.unwrap()@ == self@.lines[instruction_index as int],
            info.is_some() ==> instruction_index < self@.code.len(),
            self@.origins_in_stream(),
    {
        proof {
            use_type_invariant(self);
        }
        self.source_map.get_line_info(instruction_index)
    }

    /// Appends the byte of `op`, and records `line_info` for it if given.
    pub fn push_op_code(&mut self, op: OpCode, line_info: Option<LineInfo<'s>>)
        ensures
            final(self)@.origins_in_stream(),
            final(self)@.code == old(self)@.code.push(op.ordinal()),
            final(self)@.constants == old(self)@.constants,
            final(self)@.lines == annotated(
                old(self)@.lines,
                old(self)@.code.len() as int,
                1,
                origin_view(line_info),
            ),
    {
        self.push_op_arg(op.to_byte(), line_info);
    }

    /// Appends one operand byte, and records `line_info` for it if given.
    pub fn push_op_arg(&mut self, arg: u8, line_info: Option<LineInfo<'s>>)
        ensures
            final(self)@.origins_in_stream(),
            final(self)@.code == old(self)@.code.push(arg),
            final(self)@.constants == old(self)@.constants,
            final(self)@.lines == annotated(
                old(self)@.lines,
                old(self)@.code.len() as int,
                1,
                origin_view(line_info),
            ),
    {
        let taken = self.take();
        let ghost before = taken@;
        let Chunk { constants, mut code, mut source_map } = taken;
        code.push(arg);
        if let Some(line_info) = line_info {
            source_map.set_line_info(code.len() - 1, line_info);
        }
        proof {
            assert forall|offset: int| #[trigger]
                source_map@.contains_key(offset) implies 0 <= offset < code@.len() by {
                if offset != before.code.len() {
                    assert(before.lines.contains_key(offset));
                }
            }
        }
        *self = Chunk { constants, code, source_map };
        assert(self@.lines =~= annotated(
            old(self)@.lines,
            old(self)@.code.len() as int,
            1,
            origin_view(line_info),
        ));
    }

    /// Adds `value` to the pool and returns its index: the number of
    /// constants that were there before.
    pub fn push_constant(&mut self, value: RTValue) -> (index: ConstantIndex)
        ensures
            final(self)@.origins_in_stream(),
            index == old(self)@.constants.len(),
            final(self)@.constants == old(self)@.constants.push(value),
            final(self)@.code == old(self)@.code,
            final(self)@.lines == old(self)@.lines,
    {
        let taken = self.take();
        let ghost before = taken@;
        let Chunk { mut constants, code, source_map } = taken;
        constants.push(value);
        let index: ConstantIndex = constants.len() - 1;
        proof {
            assert forall|offset: int| #[trigger]
                source_map@.contains_key(offset) implies 0 <= offset < code@.len() by {
                assert(before.lines.contains_key(offset));
            }
        }
        *self = Chunk { constants, code, source_map };
        index
    }

    /// Appends the shortest instruction that loads the constant at
    /// `constant_index`, every byte of it with `line_info` if given.
    pub fn push_load_constant_op(
        &mut self,
        constant_index: ConstantIndex,
        line_info: Option<LineInfo<'s>>,
    )
        ensures
            final(self)@.origins_in_stream(),
            final(self)@.code == old(self)@.code + load_constant_code(constant_index),
            final(self)@.constants == old(self)@.constants,
            final(self)@.lines == annotated(
                old(self)@.lines,
                old(self)@.code.len() as int,
                load_constant_code(constant_index).len() as int,
                origin_view(line_info),
            ),
    {
        let ghost start = old(self)@.code.len() as int;
        let ghost origin = origin_view(line_info);
        if constant_index <= 255 {
            self.push_op_code(OpCode::Constant, line_info);
            self.push_op_arg(constant_index as u8, line_info);
            assert(self@.code =~= old(self)@.code + load_constant_code(constant_index));
            assert(self@.lines =~= annotated(old(self)@.lines, start, 2, origin));
        } else {
            self.push_op_code(OpCode::ConstantLong, line_info);
            if CONSTANT_LONG_ARG_BYTES == 4 {
                let operand: [u8; 4] = ToBytes::<4>::num_to_bytes(&constant_index);
                self.push_operand(&operand, line_info);
            } else {
                let operand: [u8; 8] = ToBytes::<8>::num_to_bytes(&constant_index);
                self.push_operand(&operand, line_info);
            }
            assert(self@.code =~= old(self)@.code + load_constant_code(constant_index));
            assert(self@.lines =~= annotated(
                old(self)@.lines,
                start,
                1 + CONSTANT_LONG_ARG_BYTES,
                origin,
            ));
        }
    }

    /// Appends the bytes of an operand, each with `line_info` if given.
    fn push_operand<const N: usize>(&mut self, operand: &[u8; N], line_info: Option<LineInfo<'s>>)
        ensures
            final(self)@.origins_in_stream(),
            final(self)@.code == old(self)@.code + operand@,
            final(self)@.constants == old(self)@.constants,
            final(self)@.lines == annotated(
                old(self)@.lines,
                old(self)@.code.len() as int,
                N as int,
                origin_view(line_info),
            ),
    {
        let ghost start = old(self)@.code.len() as int;
        let ghost origin = origin_view(line_info);
        let mut count: usize = 0;
        proof {
            assert(self@.code =~= old(self)@.code + operand@.take(0));
            assert(self@.lines =~= annotated(old(self)@.lines, start, 0, origin));
            use_type_invariant(&*self);
        }
        while count < N
            invariant
                count <= N,
                operand@.len() == N,
                self@.origins_in_stream(),
                self@.code == old(self)@.code + operand@.take(count as int),
                self@.constants == old(self)@.constants,
                self@.lines == annotated(old(self)@.lines, start, count as int, origin),
                start == old(self)@.code.len(),
                origin == origin_view(line_info),
            decreases N - count,
        {
            self.push_op_arg(operand[count], line_info);
            count = count + 1;
            assert(self@.code =~= old(self)@.code + operand@.take(count as int));
            assert(self@.lines =~= annotated(old(self)@.lines, start, count as int, origin));
        }
        assert(operand@.take(N as int) =~= operand@);
    }

    /// Adds `value` to the pool and appends the instruction that loads it.
    pub fn push_constant_and_load_op(&mut self, value: RTValue, line_info: Option<LineInfo<'s>>)
        ensures
            final(self)@.origins_in_stream(),
            final(self)@.constants == old(self)@.constants.push(value),
            final(self)@.code == old(self)@.code + load_constant_code(
                old(self)@.constants.len() as usize,
            ),
            final(self)@.lines == annotated(
                old(self)@.lines,
                old(self)@.code.len() as int,
                load_constant_code(old(self)@.constants.len() as usize).len() as int,
                origin_view(line_info),
            ),
    {
        let constant_index = self.push_constant(value);
        self.push_load_constant_op(constant_index, line_info);
    }
}

impl<'s> Default for Chunk<'s> {
    fn default() -> (chunk: Self)
        ensures
            chunk@.code == Seq::<u8>::empty(),
            chunk@.constants == Seq::<RTValue>::empty(),
            chunk@.lines == source_map::unmapped(),
            chunk@.origins_in_stream(),
    {
        Self::new()
    }
}

} // verus!

//! What the builder, the disassembler and the engine agree on.

use super::bytecode::bytes::{
    be_bytes, be_value, capacity, lemma_be_bytes_len, lemma_capacity_values, lemma_round_trip,
};
use super::bytecode::debug::{
    instruction_len, leading_bytes, lemma_operand_slots, next_offset, operand_slots,
};
use super::bytecode::{
    load_constant_code, ChunkView, ConstantIndex, OpCode, CONSTANT_LONG_ARG_BYTES,
};
use super::value::RTValue;
use super::vm::{execute, operand_index, step_at, Halt, InterpretErrorView, Step};
use vstd::prelude::*;

verus! {

/// The offsets at which a listing from `offset` on starts a line.
pub open spec fn listing_offsets(code: Seq<u8>, offset: int) -> Seq<int>
    decreases code.len() - offset,
{
    if 0 <= offset < code.len() {
        seq![offset] + listing_offsets(code, next_offset(code, offset))
    } else {
        Seq::empty()
    }
}

/// The number of bytes that a listing from `offset` on consumes.
pub open spec fn consumed(code: Seq<u8>, offset: int) -> nat
    decreases code.len() - offset,
{
    if 0 <= offset < code.len() {
        instruction_len(code[offset], (code.len() - offset - 1) as nat) + consumed(
            code,
            next_offset(code, offset),
        )
    } else {
        0
    }
}

/// The offsets at which the engine reads an instruction tag when it runs
/// from `ip` on.
pub open spec fn engine_offsets(chunk: ChunkView, ip: int) -> Seq<int>
    decreases chunk.code.len() - ip,
{
    if 0 <= ip < chunk.code.len() {
        match step_at(chunk, ip, Seq::empty()) {
            Step::Next { ip: next, .. } => seq![ip] + engine_offsets(chunk, next),
            Step::Halt { .. } => seq![ip],
        }
    } else {
        Seq::empty()
    }
}

/// Whether the engine goes on, and where, does not depend on its stack.
pub proof fn lemma_cursor_ignores_stack(
    chunk: ChunkView,
    ip: int,
    one: Seq<RTValue>,
    other: Seq<RTValue>,
)
    ensures
        step_at(chunk, ip, one) is Next <==> step_at(chunk, ip, other) is Next,
        step_at(chunk, ip, one) is Next ==> step_at(chunk, ip, one)->ip == step_at(
            chunk,
            ip,
            other,
        )->ip,
{
}

/// Where the engine goes on after an instruction, the next instruction
/// starts where the disassembler starts its next line.
pub proof fn lemma_step_matches_listing(chunk: ChunkView, ip: int, stack: Seq<RTValue>)
    requires
        step_at(chunk, ip, stack) is Next,
    ensures
        0 <= ip < chunk.code.len(),
        step_at(chunk, ip, stack)->ip == next_offset(chunk.code, ip),
        ip < next_offset(chunk.code, ip) <= chunk.code.len(),
{
}

/// A listing consumes the whole stream: the lengths of its instructions add
/// up to the bytes from where it starts to the end.
pub proof fn lemma_listing_consumes_stream(code: Seq<u8>, offset: int)
    requires
        0 <= offset <= code.len(),
    ensures
        consumed(code, offset) == code.len() - offset,
    decreases code.len() - offset,
{
    if offset < code.len() {
        lemma_listing_consumes_stream(code, next_offset(code, offset));
    }
}

/// Cursor consistency: every offset at which the engine reads an instruction
/// is, in the same order, an offset at which the listing starts a line.
pub proof fn lemma_cursor_consistency(chunk: ChunkView, ip: int)
    requires
        0 <= ip,
    ensures
        engine_offsets(chunk, ip).is_prefix_of(listing_offsets(chunk.code, ip)),
    decreases chunk.code.len() - ip,
{
    if ip < chunk.code.len() {
        let listed = listing_offsets(chunk.code, next_offset(chunk.code, ip));
        match step_at(chunk, ip, Seq::empty()) {
            Step::Next { ip: next, .. } => {
                lemma_step_matches_listing(chunk, ip, Seq::empty());
                lemma_cursor_consistency(chunk, next);
                let run = engine_offsets(chunk, next);
                assert((seq![ip] + run).is_prefix_of(seq![ip] + listed)) by {
                    assert((seq![ip] + listed).subrange(0, (seq![ip] + run).len() as int) =~= seq![
                        ip,
                    ] + run);
                }
            },
            Step::Halt { .. } => {
                assert(seq![ip].is_prefix_of(seq![ip] + listed)) by {
                    assert((seq![ip] + listed).subrange(0, 1) =~= seq![ip]);
                }
            },
        }
    }
}

/// The shortest form is chosen, and both forms give the index back: the
/// instruction that loads the constant at `index` has a one-byte operand
/// exactly where `index` is at most 255, and an operand as wide as an index
/// of the host otherwise. Wherever it stands in a stream, engine and
/// disassembler decode `index` from its operand, and the listing goes on
/// right after it.
pub proof fn lemma_load_constant_decodes(before: Seq<u8>, index: ConstantIndex, after: Seq<u8>)
    ensures
        index <= 255 <==> load_constant_code(index).len() == 2,
        index <= 255 <==> OpCode::decoded(load_constant_code(index)[0]) == Ok::<OpCode, u8>(
            OpCode::Constant,
        ),
        index > 255 <==> OpCode::decoded(load_constant_code(index)[0]) == Ok::<OpCode, u8>(
            OpCode::ConstantLong,
        ),
        ({
            let code = before + load_constant_code(index) + after;
            let at = before.len() as int;
            let width = OpCode::decoded(code[at]).unwrap().operand_width();
            &&& load_constant_code(index).len() == 1 + width
            &&& operand_index(code, at, width) == Some(index as nat)
            &&& be_value(leading_bytes(operand_slots(code.skip(at + 1), width))) == index
            &&& next_offset(code, at) == at + load_constant_code(index).len()
        }),
        index > 255 ==> load_constant_code(index).len() == 1 + CONSTANT_LONG_ARG_BYTES,
{
    let load = load_constant_code(index);
    let code = before + load + after;
    let at = before.len() as int;
    lemma_be_bytes_len(index as nat, CONSTANT_LONG_ARG_BYTES as nat);
    lemma_capacity_values();
    assert(code[at] == load[0]);
    let width = OpCode::decoded(code[at]).unwrap().operand_width();
    let operand = code.subrange(at + 1, at + 1 + width);
    if index <= 255 {
        assert(operand =~= seq![index as u8]);
        assert(operand.drop_last() =~= Seq::<u8>::empty());
        assert(be_value(operand) == 256 * be_value(operand.drop_last()) + index);
    } else {
        assert(operand =~= be_bytes(index as nat, CONSTANT_LONG_ARG_BYTES as nat));
        lemma_round_trip(index as nat, CONSTANT_LONG_ARG_BYTES as nat);
    }
    lemma_operand_slots(code.skip(at + 1), width);
    assert(code.skip(at + 1).take(width as int) =~= operand);
}

/// A run that reads the stream to its end visits every line of the listing:
/// the engine reads an instruction at each offset at which the listing
/// starts a line, and nowhere else.
pub proof fn lemma_full_run_visits_every_line(chunk: ChunkView, ip: int, stack: Seq<RTValue>)
    requires
        0 <= ip,
        execute(chunk, ip, stack).0 == Ok::<Halt, InterpretErrorView>(Halt::Exhausted),
    ensures
        engine_offsets(chunk, ip) == listing_offsets(chunk.code, ip),
    decreases chunk.code.len() - ip,
{
    if ip < chunk.code.len() {
        lemma_cursor_ignores_stack(chunk, ip, stack, Seq::empty());
        match step_at(chunk, ip, stack) {
            Step::Next { ip: next, stack: pushed } => {
                lemma_step_matches_listing(chunk, ip, stack);
                lemma_full_run_visits_every_line(chunk, next, pushed);
            },
            Step::Halt { .. } => {},
        }
    }
}

} // verus!

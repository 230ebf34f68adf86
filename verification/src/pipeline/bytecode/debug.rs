//! The disassembler: a chunk, or one instruction of it, as readable text.

use super::bytes::{all_there, be_value, decode, try_next_bytes, ByteIter};
use super::{Chunk, ChunkView, LineInfoView, OpCode, CONSTANT_LONG_ARG_BYTES};
use crate::pipeline::text::{decimal, padded, push_decimal, push_padded};
use crate::pipeline::value::RTValue;
use vstd::prelude::*;
use vstd::string::StringExecFns;

verus! {

/// The texts of a list of strings.
pub open spec fn texts(strings: Seq<String>) -> Seq<Seq<char>> {
    strings.map_values(|text: String| text@)
}

/// The start of the last instruction that begins before `offset`, found by
/// going through the stream from `at` on, instruction by instruction; it is
/// `before` where none begins between `at` and `offset`.
pub open spec fn previous_from(code: Seq<u8>, at: int, before: Option<int>, offset: int) -> Option<
    int,
>
    decreases code.len() - at,
{
    if 0 <= at < offset && at < code.len() {
        previous_from(code, next_offset(code, at), Some(at), offset)
    } else {
        before
    }
}

/// The start of the instruction before the one at `offset`: the last
/// instruction that begins before `offset` when the stream is read from its
/// start. The first instruction has none before it.
pub open spec fn previous_instruction(code: Seq<u8>, offset: int) -> Option<int> {
    previous_from(code, 0, None, offset)
}

/// The start of a listing line for the instruction at `offset`: the offset
/// in four digits, then the source line of its tag byte in four columns, or
/// `|` where the tag byte of the instruction before it has the same line, or
/// `?` where no position was recorded for the tag byte.
pub open spec fn line_prefix(chunk: ChunkView, offset: int) -> Seq<char> {
    let lines = chunk.lines;
    let previous = previous_instruction(chunk.code, offset);
    padded(decimal(offset as nat), 4, '0') + " "@ + if !lines.contains_key(offset) {
        "   ? "@
    } else if previous.is_some() && lines.contains_key(previous.unwrap())
        && lines[previous.unwrap()].line == lines[offset].line {
        "   | "@
    } else {
        padded(decimal(lines[offset].line), 4, ' ') + " "@
    }
}

/// An offset as a plain integer.
pub open spec fn offset_view(offset: Option<usize>) -> Option<int> {
    match offset {
        Some(at) => Some(at as int),
        None => None,
    }
}

/// Whether a walk from the start of the stream has come to `at` with
/// `before` as the start of the last instruction: from here on it finds the
/// instruction before any offset as a walk from the start does.
pub open spec fn walked(code: Seq<u8>, at: int, before: Option<int>) -> bool {
    forall|target: int|
        target >= at ==> #[trigger] previous_instruction(code, target) == previous_from(
            code,
            at,
            before,
            target,
        )
}

/// A walk that has come to the instruction at `at` knows the instruction
/// before it, and goes on to the next instruction with `at` as the last.
pub proof fn lemma_walk_step(code: Seq<u8>, at: int, before: Option<int>)
    requires
        walked(code, at, before),
        0 <= at < code.len(),
    ensures
        previous_instruction(code, at) == before,
        walked(code, next_offset(code, at), Some(at)),
{
    assert(previous_instruction(code, at) == previous_from(code, at, before, at));
    assert forall|target: int| target >= next_offset(code, at) implies #[trigger]
        previous_instruction(code, target) == previous_from(
        code,
        next_offset(code, at),
        Some(at),
        target,
    ) by {
        assert(previous_instruction(code, target) == previous_from(code, at, before, target));
    }
}

/// Bytes in decimal, separated by a comma and a space.
pub open spec fn joined_bytes(bytes: Seq<u8>) -> Seq<char>
    decreases bytes.len(),
{
    if bytes.len() == 0 {
        Seq::empty()
    } else if bytes.len() == 1 {
        decimal(bytes[0] as nat)
    } else {
        joined_bytes(bytes.drop_last()) + ", "@ + decimal(bytes.last() as nat)
    }
}

/// A list of bytes in square brackets.
pub open spec fn byte_list(bytes: Seq<u8>) -> Seq<char> {
    "["@ + joined_bytes(bytes) + "]"@
}

/// The bytes of the filled slots that come before the first empty one.
pub open spec fn leading_bytes(slots: Seq<Option<u8>>) -> Seq<u8>
    decreases slots.len(),
{
    if slots.len() == 0 || slots[0].is_none() {
        Seq::empty()
    } else {
        seq![slots[0].unwrap()] + leading_bytes(slots.skip(1))
    }
}

/// Whether every slot holds a byte.
pub open spec fn all_filled(slots: Seq<Option<u8>>) -> bool {
    forall|i: int| 0 <= i < slots.len() ==> (#[trigger] slots[i]).is_some()
}

/// The rest of a line for an instruction that loads a constant, from the
/// slots read for its operand. With every slot filled, the operand is the
/// index of the constant: the line shows it and the constant, or
/// `<BAD INDEX>` where the pool has none there. Otherwise the line shows
/// `<BAD BYTES>` and the bytes that were there.
pub open spec fn constant_text(
    chunk: ChunkView,
    numbers: Seq<Seq<char>>,
    op: OpCode,
    slots: Seq<Option<u8>>,
) -> Seq<char> {
    if all_filled(slots) {
        let index = be_value(leading_bytes(slots));
        op.name_text() + " "@ + padded(decimal(index), 4, ' ') + " "@ + if index
            < chunk.constants.len() {
            chunk.constants[index as int].text(numbers[index as int]) + "\n"@
        } else {
            "<BAD INDEX>\n"@
        }
    } else {
        op.name_text() + " <BAD BYTES>"@ + byte_list(leading_bytes(slots)) + "\n"@
    }
}

/// The `width` slots that a reader fills from `rest`: byte for byte, empty
/// from the end of `rest` on.
pub open spec fn operand_slots(rest: Seq<u8>, width: nat) -> Seq<Option<u8>> {
    Seq::new(
        width,
        |i: int|
            if i < rest.len() {
                Some(rest[i])
            } else {
                None
            },
    )
}

/// The listing line of the instruction whose tag byte `op_byte` stands at
/// `offset` and is followed by the bytes `rest`.
pub open spec fn instruction_text(
    chunk: ChunkView,
    numbers: Seq<Seq<char>>,
    offset: int,
    op_byte: u8,
    rest: Seq<u8>,
) -> Seq<char> {
    line_prefix(chunk, offset) + match OpCode::decoded(op_byte) {
        Ok(OpCode::Return) => OpCode::Return.name_text() + "\n"@,
        Ok(op) => constant_text(chunk, numbers, op, operand_slots(rest, op.operand_width())),
        Err(byte) => "unknown op "@ + decimal(byte as nat) + "\n"@,
    }
}

/// How many bytes the instruction with tag byte `op_byte` takes when `left`
/// bytes follow the tag: the tag and its operand, cut off where the stream
/// ends. An unknown tag stands alone.
pub open spec fn instruction_len(op_byte: u8, left: nat) -> nat {
    match OpCode::decoded(op_byte) {
        Ok(op) => if op.operand_width() <= left {
            1 + op.operand_width()
        } else {
            1 + left
        },
        Err(_) => 1,
    }
}

/// The offset of the instruction after the one at `offset`.
pub open spec fn next_offset(code: Seq<u8>, offset: int) -> int
    recommends
        0 <= offset < code.len(),
{
    offset + instruction_len(code[offset], (code.len() - offset - 1) as nat)
}

/// The listing of the instructions from `offset` to the end of the stream.
pub open spec fn listing(chunk: ChunkView, numbers: Seq<Seq<char>>, offset: int) -> Seq<char>
    decreases chunk.code.len() - offset,
{
    if 0 <= offset < chunk.code.len() {
        instruction_text(
            chunk,
            numbers,
            offset,
            chunk.code[offset],
            chunk.code.skip(offset + 1),
        ) + listing(chunk, numbers, next_offset(chunk.code, offset))
    } else {
        Seq::empty()
    }
}

/// A listing of the whole chunk between a title line and a closing line.
/// The title line carries the chunk's name, if it has one.
pub open spec fn titled_listing(
    chunk: ChunkView,
    numbers: Seq<Seq<char>>,
    chunk_name: Option<Seq<char>>,
) -> Seq<char> {
    let title = match chunk_name {
        Some(name) => "== "@ + name + " ==\n"@,
        None => "========\n"@,
    };
    title + listing(chunk, numbers, 0) + "========\n"@
}

/// The name, as plain text, that an optional title carries.
pub open spec fn title_view(chunk_name: Option<&str>) -> Option<Seq<char>> {
    match chunk_name {
        Some(name) => Some(name@),
        None => None,
    }
}

/// The leading filled slots, spelled out: where the first `count` slots are
/// filled and the next one, if there is one, is empty, the leading bytes are
/// the bytes of those `count` slots.
pub proof fn lemma_leading_bytes(slots: Seq<Option<u8>>, count: int)
    requires
        0 <= count <= slots.len(),
        forall|i: int| 0 <= i < count ==> (#[trigger] slots[i]).is_some(),
        count == slots.len() || slots[count].is_none(),
    ensures
        leading_bytes(slots) == Seq::new(count as nat, |i: int| slots[i].unwrap()),
    decreases count,
{
    let spelled = Seq::new(count as nat, |i: int| slots[i].unwrap());
    if count == 0 {
        assert(leading_bytes(slots) =~= spelled);
    } else {
        let tail = slots.skip(1);
        assert(slots[0].is_some());
        assert forall|i: int| 0 <= i < count - 1 implies (#[trigger] tail[i]).is_some() by {
            assert(slots[i + 1].is_some());
        }
        lemma_leading_bytes(tail, count - 1);
        assert(leading_bytes(slots) =~= spelled);
    }
}

/// Slots filled from a stream hold its next bytes: all of the operand where
/// the stream is long enough, else what is left of the stream.
pub proof fn lemma_operand_slots(rest: Seq<u8>, width: nat)
    ensures
        all_filled(operand_slots(rest, width)) <==> width <= rest.len(),
        width <= rest.len() ==> leading_bytes(operand_slots(rest, width)) == rest.take(
            width as int,
        ),
        width > rest.len() ==> leading_bytes(operand_slots(rest, width)) == rest,
{
    let slots = operand_slots(rest, width);
    if width <= rest.len() {
        lemma_leading_bytes(slots, width as int);
        assert(leading_bytes(slots) =~= rest.take(width as int));
    } else {
        assert(slots[rest.len() as int].is_none());
        lemma_leading_bytes(slots, rest.len() as int);
        assert(leading_bytes(slots) =~= rest);
    }
}

/// Appends the bytes of the leading filled slots as a list in brackets.
fn push_leading_bytes<const N: usize>(w: &mut String, slots: &[Option<u8>; N])
    ensures
        final(w)@ == old(w)@ + byte_list(leading_bytes(slots@)),
{
    w.append("[");
    let mut count: usize = 0;
    let ghost mut shown: Seq<u8> = Seq::empty();
    let mut open_ended: bool = true;
    while count < N && open_ended
        invariant
            count <= N,
            slots@.len() == N,
            shown.len() == count,
            forall|i: int| 0 <= i < count ==> #[trigger] slots@[i] == Some(shown[i]),
            !open_ended ==> count < N && slots@[count as int].is_none(),
            w@ == old(w)@ + "["@ + joined_bytes(shown),
        decreases N - count + if open_ended { 1int } else { 0int },
    {
        match slots[count] {
            Some(byte) => {
                if count > 0 {
                    w.append(", ");
                }
                push_decimal(w, byte as u64);
                proof {
                    let longer = shown.push(byte);
                    assert(longer.drop_last() =~= shown);
                    assert(w@ =~= old(w)@ + "["@ + joined_bytes(longer));
                    shown = longer;
                }
                count = count + 1;
            },
            None => {
                open_ended = false;
            },
        }
    }
    proof {
        lemma_leading_bytes(slots@, count as int);
        assert(leading_bytes(slots@) =~= shown);
    }
    w.append("]");
    assert(w@ =~= old(w)@ + byte_list(leading_bytes(slots@)));
}

/// How many bytes the instruction with tag byte `op_byte` takes when `left`
/// bytes follow the tag.
fn instruction_width(op_byte: u8, left: usize) -> (width: usize)
    requires
        left < usize::MAX,
    ensures
        width == instruction_len(op_byte, left as nat),
        1 <= width <= left + 1,
{
    let operand: usize = match OpCode::try_from(op_byte) {
        Ok(OpCode::Return) => 0,
        Ok(OpCode::Constant) => 1,
        Ok(OpCode::ConstantLong) => CONSTANT_LONG_ARG_BYTES,
        Err(_) => 0,
    };
    if operand <= left {
        1 + operand
    } else {
        1 + left
    }
}

impl<'s> Chunk<'s> {
    /// The start of the instruction before the one at `offset`, found by
    /// reading the stream from its start.
    pub fn previous_instruction(&self, offset: usize) -> (previous: Option<usize>)
        ensures
            offset_view(previous) == previous_instruction(self@.code, offset as int),
    {
        let code: &[u8] = self.code();
        let mut previous: Option<usize> = None;
        let mut at: usize = 0;
        while at < offset && at < code.len()
            invariant
                at <= code@.len(),
                code@ == self@.code,
                previous_instruction(code@, offset as int) == previous_from(
                    code@,
                    at as int,
                    offset_view(previous),
                    offset as int,
                ),
            decreases code@.len() - at,
        {
            let width: usize = instruction_width(code[at], code.len() - at - 1);
            previous = Some(at);
            at = at + width;
        }
        previous
    }

    /// Appends the start of the line for the instruction at `offset`, which
    /// comes after the instruction at `previous`.
    fn write_line_prefix(&self, w: &mut String, offset: usize, previous: Option<usize>)
        requires
            offset_view(previous) == previous_instruction(self@.code, offset as int),
        ensures
            final(w)@ == old(w)@ + line_prefix(self@, offset as int),
    {
        push_padded(w, offset as u64, 4, '0');
        w.append(" ");
        let previous_line: Option<usize> = match previous {
            Some(before) => match self.get_line_info(before) {
                Some(line_info) => Some(line_info.line),
                None => None,
            },
            None => None,
        };
        match self.get_line_info(offset) {
            Some(line_info) => {
                let same: bool = match previous_line {
                    Some(line) => line == line_info.line,
                    None => false,
                };
                if same {
                    w.append("   | ");
                } else {
                    push_padded(w, line_info.line as u64, 4, ' ');
                    w.append(" ");
                }
            },
            None => {
                w.append("   ? ");
            },
        }
        assert(w@ =~= old(w)@ + line_prefix(self@, offset as int));
    }

    /// Appends the rest of the line for an instruction without operand.
    fn describe_simple(w: &mut String, op: &OpCode)
        ensures
            final(w)@ == old(w)@ + op.name_text() + "\n"@,
    {
        w.append(op.name());
        w.append("\n");
    }

    /// Appends the rest of the line for an instruction that loads a constant,
    /// from the slots read for its operand.
    fn describe_constant<const N: usize>(
        &self,
        w: &mut String,
        numbers: &Vec<String>,
        op: &OpCode,
        arg_bytes: [Option<u8>; N],
    )
        requires
            N <= 8,
            numbers@.len() == self@.constants.len(),
        ensures
            final(w)@ == old(w)@ + constant_text(self@, texts(numbers@), *op, arg_bytes@),
    {
        match all_there(&arg_bytes) {
            None => {
                w.append(op.name());
                w.append(" <BAD BYTES>");
                push_leading_bytes(w, &arg_bytes);
                w.append("\n");
                assert(w@ =~= old(w)@ + constant_text(self@, texts(numbers@), *op, arg_bytes@));
            },
            Some(bytes) => {
                let index: u64 = decode::<N>(&bytes);
                proof {
                    lemma_leading_bytes(arg_bytes@, N as int);
                    assert(leading_bytes(arg_bytes@) =~= bytes@);
                    assert(all_filled(arg_bytes@));
                    self.lemma_sizes_bounded();
                }
                w.append(op.name());
                w.append(" ");
                push_padded(w, index, 4, ' ');
                w.append(" ");
                let found: Option<&RTValue> = if index
                    <= usize::MAX as u64 {
                    self.get_constant(index as usize)
                } else {
                    None
                };
                match found {
                    None => {
                        w.append("<BAD INDEX>\n");
                    },
                    Some(constant_value) => {
                        let shown: String = constant_value.describe(
                            numbers[index as usize].as_str(),
                        );
                        w.append(shown.as_str());
                        w.append("\n");
                    },
                }
                assert(w@ =~= old(w)@ + constant_text(self@, texts(numbers@), *op, arg_bytes@));
            },
        }
    }

    /// Appends the listing line of one instruction: its tag byte `op_byte`
    /// stands at `offset`, and `ops` is about to read the bytes after it.
    /// The operand, as far as it is there, is read from `ops`. The
    /// instruction before it is looked for in the chunk's own stream.
    pub fn describe_instruction(
        &self,
        w: &mut String,
        numbers: &Vec<String>,
        offset: usize,
        op_byte: u8,
        ops: &mut ByteIter,
    )
        requires
            numbers@.len() == self@.constants.len(),
        ensures
            final(w)@ == old(w)@ + instruction_text(
                self@,
                texts(numbers@),
                offset as int,
                op_byte,
                old(ops).remaining(),
            ),
            final(ops).stream() == old(ops).stream(),
            final(ops).position() + 1 == old(ops).position() + instruction_len(
                op_byte,
                old(ops).remaining().len(),
            ),
    {
        let previous: Option<usize> = self.previous_instruction(offset);
        self.describe_instruction_after(w, numbers, offset, previous, op_byte, ops);
    }

    /// Appends the listing line of the instruction at `offset`, which comes
    /// after the instruction at `previous`.
    fn describe_instruction_after(
        &self,
        w: &mut String,
        numbers: &Vec<String>,
        offset: usize,
        previous: Option<usize>,
        op_byte: u8,
        ops: &mut ByteIter,
    )
        requires
            numbers@.len() == self@.constants.len(),
            offset_view(previous) == previous_instruction(self@.code, offset as int),
        ensures
            final(w)@ == old(w)@ + instruction_text(
                self@,
                texts(numbers@),
                offset as int,
                op_byte,
                old(ops).remaining(),
            ),
            final(ops).stream() == old(ops).stream(),
            final(ops).position() + 1 == old(ops).position() + instruction_len(
                op_byte,
                old(ops).remaining().len(),
            ),
    {
        let ghost rest = ops.remaining();
        self.write_line_prefix(w, offset, previous);
        match OpCode::try_from(op_byte) {
            Ok(OpCode::Constant) => {
                let slots: [Option<u8>; 1] = try_next_bytes::<1>(ops);
                assert(slots@ =~= operand_slots(rest, 1));
                self.describe_constant(w, numbers, &OpCode::Constant, slots);
            },
            Ok(OpCode::ConstantLong) => {
                if CONSTANT_LONG_ARG_BYTES == 4 {
                    let slots: [Option<u8>; 4] = try_next_bytes::<4>(ops);
                    assert(slots@ =~= operand_slots(rest, 4));
                    self.describe_constant(w, numbers, &OpCode::ConstantLong, slots);
                } else {
                    let slots: [Option<u8>; 8] = try_next_bytes::<8>(ops);
                    assert(slots@ =~= operand_slots(rest, 8));
                    self.describe_constant(w, numbers, &OpCode::ConstantLong, slots);
                }
            },
            Ok(op) => {
                Self::describe_simple(w, &op);
            },
            Err(byte) => {
                w.append("unknown op ");
                push_decimal(w, byte as u64);
                w.append("\n");
            },
        }
        assert(w@ =~= old(w)@ + instruction_text(
            self@,
            texts(numbers@),
            offset as int,
            op_byte,
            rest,
        ));
    }

    /// Appends the listing of the whole chunk, one line for each instruction.
    pub fn describe(&self, w: &mut String, numbers: &Vec<String>)
        requires
            numbers@.len() == self@.constants.len(),
        ensures
            final(w)@ == old(w)@ + listing(self@, texts(numbers@), 0),
    {
        let mut ops = ByteIter::new(self.code());
        let mut previous: Option<usize> = None;
        let ghost whole = listing(self@, texts(numbers@), 0);
        loop
            invariant
                numbers@.len() == self@.constants.len(),
                walked(self@.code, ops.position() as int, offset_view(previous)),
                ops.stream() == self@.code,
                ops.position() <= self@.code.len(),
                w@ + listing(self@, texts(numbers@), ops.position() as int) == old(w)@ + whole,
                whole == listing(self@, texts(numbers@), 0),
            ensures
                w@ == old(w)@ + whole,
            decreases self@.code.len() - ops.position(),
        {
            let ghost at = ops.position() as int;
            let ghost shown = w@;
            match ops.next() {
                None => {
                    assert(w@ =~= old(w)@ + whole);
                    break ;
                },
                Some(op) => {
                    let offset: usize = ops.offset() - 1;
                    proof {
                        lemma_walk_step(self@.code, at, offset_view(previous));
                    }
                    self.describe_instruction_after(w, numbers, offset, previous, op, &mut ops);
                    previous = Some(offset);
                    proof {
                        let line = instruction_text(
                            self@,
                            texts(numbers@),
                            at,
                            op,
                            self@.code.skip(at + 1),
                        );
                        let after = listing(self@, texts(numbers@), next_offset(self@.code, at));
                        assert(listing(self@, texts(numbers@), at) == line + after);
                        assert(w@ == shown + line);
                        assert(ops.position() == next_offset(self@.code, at));
                        assert(w@ + after =~= shown + (line + after));
                    }
                },
            }
        }
    }

    /// The listing of the whole chunk under a title line, closed by a line
    /// of equal signs.
    pub fn describe_with_title(&self, numbers: &Vec<String>, chunk_name: Option<&str>) -> (text:
        String)
        requires
            numbers@.len() == self@.constants.len(),
        ensures
            text@ == titled_listing(self@, texts(numbers@), title_view(chunk_name)),
    {
        let mut text = String::new();
        match chunk_name {
            Some(name) => {
                text.append("== ");
                text.append(name);
                text.append(" ==\n");
            },
            None => {
                text.append("========\n");
            },
        }
        self.describe(&mut text, numbers);
        text.append("========\n");
        assert(text@ =~= titled_listing(self@, texts(numbers@), title_view(chunk_name)));
        text
    }

    /// The listing of the whole chunk as a string.
    pub fn describe_to_string(&self, numbers: &Vec<String>) -> (text: String)
        requires
            numbers@.len() == self@.constants.len(),
        ensures
            text@ == listing(self@, texts(numbers@), 0),
    {
        let mut text = String::new();
        self.describe(&mut text, numbers);
        assert(text@ =~= listing(self@, texts(numbers@), 0));
        text
    }
}

} // verus!

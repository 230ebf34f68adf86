//! The scanner's place in its source: what is left to read, the text read
//! since the last token, and the positions of both ends of that text.

use vstd::prelude::*;
use vstd::std_specs::iter::IteratorSpec;
use vstd::string::{StringExecFns, StringSliceAdditionalSpecFns};
use vstd::utf8::{
    decode_utf8_split, encode_scalar, encode_utf8, encode_utf8_decode_utf8,
    encode_utf8_first_scalar, encode_utf8_valid_utf8, is_char_boundary, valid_utf8_split,
};

verus! {

/// A place in a source text. Lines are counted from zero, from the start of
/// the source; the column is the number of bytes since the last line break.
#[derive(Debug, Copy, Clone, PartialEq, Eq, Structural)]
pub struct Position {
    pub line: usize,
    pub column: usize,
}

impl Position {
    fn new(line: usize, column: usize) -> (position: Self)
        ensures
            position.line == line,
            position.column == column,
    {
        Self { line, column }
    }

    fn zero() -> (position: Self)
        ensures
            position.line == 0,
            position.column == 0,
    {
        Self::new(0, 0)
    }
}

/// The byte of a line break.
pub const NEWLINE: u8 = 10;

/// How many line breaks `bytes` hold.
pub open spec fn newline_count(bytes: Seq<u8>) -> nat
    decreases bytes.len(),
{
    if bytes.len() == 0 {
        0
    } else {
        newline_count(bytes.drop_last()) + if bytes.last() == NEWLINE {
            1nat
        } else {
            0nat
        }
    }
}

/// How many bytes follow the last line break in `bytes`: all of them where
/// there is none.
pub open spec fn tail_len(bytes: Seq<u8>) -> nat
    decreases bytes.len(),
{
    if bytes.len() == 0 || bytes.last() == NEWLINE {
        0
    } else {
        tail_len(bytes.drop_last()) + 1
    }
}

/// The position reached from `from` by reading `bytes`: every line break
/// starts a new line, and the column counts the bytes after the last one.
pub open spec fn position_after(from: Position, bytes: Seq<u8>) -> (int, int) {
    if newline_count(bytes) == 0 {
        (from.line as int, from.column + bytes.len())
    } else {
        (from.line + newline_count(bytes), tail_len(bytes) as int)
    }
}

/// Neither count exceeds the number of bytes, and without a line break the
/// tail is everything.
pub proof fn lemma_newline_bounds(bytes: Seq<u8>)
    ensures
        newline_count(bytes) <= bytes.len(),
        tail_len(bytes) <= bytes.len(),
        newline_count(bytes) == 0 ==> tail_len(bytes) == bytes.len(),
    decreases bytes.len(),
{
    if bytes.len() > 0 {
        lemma_newline_bounds(bytes.drop_last());
    }
}

/// Counts the line breaks in `bytes` and the bytes after the last of them.
fn newline_stats(bytes: &[u8]) -> (stats: (usize, usize))
    ensures
        stats.0 == newline_count(bytes@),
        stats.1 == tail_len(bytes@),
{
    let mut count: usize = 0;
    let mut tail: usize = 0;
    let mut index: usize = 0;
    proof {
        assert(bytes@.take(0) =~= Seq::<u8>::empty());
    }
    while index < bytes.len()
        invariant
            index <= bytes@.len(),
            count == newline_count(bytes@.take(index as int)),
            tail == tail_len(bytes@.take(index as int)),
        decreases bytes@.len() - index,
    {
        proof {
            lemma_newline_bounds(bytes@.take(index as int));
            assert(bytes@.take(index + 1).drop_last() =~= bytes@.take(index as int));
        }
        if bytes[index] == NEWLINE {
            count = count + 1;
            tail = 0;
        } else {
            tail = tail + 1;
        }
        index = index + 1;
    }
    proof {
        assert(bytes@.take(bytes@.len() as int) =~= bytes@);
    }
    (count, tail)
}

/// A scanner's place in its source.
pub struct ScanState<'s> {
    source: &'s str,
    segment: String,
    start_pos: Position,
    current_pos: Position,
}

/// What a scan state holds, as plain values.
pub struct ScanStateView {
    /// The text that is still to be read.
    pub source: Seq<char>,
    /// The text read since the segment was last taken or reset.
    pub segment: Seq<char>,
    /// Where the segment was last taken or reset.
    pub start_pos: Position,
    /// Where the reading has come to.
    pub current_pos: Position,
}

impl<'s> View for ScanState<'s> {
    type V = ScanStateView;

    closed spec fn view(&self) -> ScanStateView {
        ScanStateView {
            source: self.source@,
            segment: self.segment@,
            start_pos: self.start_pos,
            current_pos: self.current_pos,
        }
    }
}

/// The number of bytes that a text takes in UTF-8.
pub open spec fn byte_len(text: Seq<char>) -> nat {
    encode_utf8(text).len()
}

/// `text` is valid UTF-8 of the characters `text@`, and a text is known by
/// its bytes.
pub proof fn lemma_text_of_bytes(text: &str)
    ensures
        vstd::utf8::valid_utf8(text.spec_bytes()),
        vstd::utf8::decode_utf8(text.spec_bytes()) == text@,
{
    encode_utf8_valid_utf8(text@);
    encode_utf8_decode_utf8(text@);
}

/// Cutting a text at a character boundary cuts its characters in two.
pub proof fn lemma_split(whole: &str, front: &str, back: &str, mid: int)
    requires
        is_char_boundary(whole.spec_bytes(), mid),
        0 <= mid <= whole.spec_bytes().len(),
        front.spec_bytes() == whole.spec_bytes().subrange(0, mid),
        back.spec_bytes() == whole.spec_bytes().subrange(mid, whole.spec_bytes().len() as int),
    ensures
        whole@ == front@ + back@,
{
    lemma_text_of_bytes(whole);
    lemma_text_of_bytes(front);
    lemma_text_of_bytes(back);
    decode_utf8_split(whole.spec_bytes(), mid);
}

/// The number of bytes that `ch` takes in UTF-8.
pub open spec fn char_width(ch: char) -> nat {
    encode_scalar(ch as u32).len()
}

/// The first character of a text ends at a character boundary, one to four
/// bytes into the text.
pub proof fn lemma_first_char(text: Seq<char>)
    requires
        text.len() > 0,
    ensures
        1 <= char_width(text[0]) <= 4,
        char_width(text[0]) <= byte_len(text),
        is_char_boundary(encode_utf8(text), char_width(text[0]) as int),
        byte_len(text) == char_width(text[0]) + byte_len(text.drop_first()),
{
    let bytes = encode_utf8(text);
    encode_utf8_first_scalar(text);
    encode_utf8_valid_utf8(text);
    encode_utf8_valid_utf8(text.drop_first());
    assert(vstd::utf8::pop_first_scalar(bytes) =~= encode_utf8(text.drop_first()));
    reveal_with_fuel(is_char_boundary, 2);
}

/// A front part of a text that takes as many bytes as the first character
/// is that character alone.
pub proof fn lemma_front_is_first_char(front: Seq<char>, back: Seq<char>)
    requires
        (front + back).len() > 0,
        byte_len(front) == char_width((front + back)[0]),
    ensures
        front == seq![(front + back)[0]],
        back == (front + back).drop_first(),
{
    let whole = front + back;
    lemma_first_char(whole);
    if front.len() == 0 {
        assert(byte_len(front) == 0);
    } else {
        assert(front[0] == whole[0]);
        lemma_first_char(front);
        let rest = front.drop_first();
        if rest.len() > 0 {
            lemma_first_char(rest);
        }
        assert(front =~= seq![whole[0]]);
        assert(back =~= whole.drop_first());
    }
}

/// The number of bytes that `ch` takes in UTF-8.
pub fn utf8_width(ch: char) -> (width: usize)
    ensures
        width == char_width(ch),
        1 <= width <= 4,
{
    let code: u32 = ch as u32;
    if code < 0x80 {
        1
    } else if code < 0x800 {
        2
    } else if code < 0x10000 {
        3
    } else {
        4
    }
}

/// What reading the first character of the source does to a state: the
/// character moves from the source to the segment, and the current position
/// moves past it.
pub open spec fn popped(before: ScanStateView, after: ScanStateView) -> bool {
    &&& before.source.len() > 0
    &&& after.source == before.source.drop_first()
    &&& after.segment == before.segment.push(before.source[0])
    &&& after.start_pos == before.start_pos
    &&& (after.current_pos.line as int, after.current_pos.column as int) == position_after(
        before.current_pos,
        encode_scalar(before.source[0] as u32),
    )
}

impl<'s> ScanState<'s> {
    /// The positions leave room for every byte that is still to be read.
    pub closed spec fn wf(&self) -> bool {
        &&& self.current_pos.line + self.source.spec_bytes().len() <= usize::MAX
        &&& self.current_pos.column + self.source.spec_bytes().len() <= usize::MAX
    }

    /// A state at the start of `source`, with an empty segment.
    pub fn new(source: &'s str) -> (state: Self)
        ensures
            state.wf(),
            state@.source == source@,
            state@.segment == Seq::<char>::empty(),
            state@.start_pos == (Position { line: 0, column: 0 }),
            state@.current_pos == (Position { line: 0, column: 0 }),
    {
        let bytes: &[u8] = source.as_bytes();
        assert(bytes@.len() == bytes.len());
        Self {
            source,
            segment: String::new(),
            start_pos: Position::zero(),
            current_pos: Position::zero(),
        }
    }

    /// Whether the whole source has been read.
    pub fn is_at_end(&self) -> (at_end: bool)
        ensures
            at_end == (self@.source.len() == 0),
    {
        self.source.is_empty()
    }

    pub fn current_position(&self) -> (position: &Position)
        ensures
            *position == self@.current_pos,
    {
        &self.current_pos
    }

    /// The segment with the positions of its two ends.
    pub fn segment(&self) -> (parts: (&str, &Position, &Position))
        ensures
            parts.0@ == self@.segment,
            *parts.1 == self@.start_pos,
            *parts.2 == self@.current_pos,
    {
        (self.segment.as_str(), &self.start_pos, &self.current_pos)
    }

    /// Takes the segment out and starts an empty one at the current
    /// position. Both positions returned are the current one.
    pub fn take_segment(&mut self) -> (parts: (String, Position, Position))
        requires
            old(self).wf(),
        ensures
            final(self).wf(),
            parts.0@ == old(self)@.segment,
            parts.1 == old(self)@.current_pos,
            parts.2 == old(self)@.current_pos,
            final(self)@.segment == Seq::<char>::empty(),
            final(self)@.start_pos == old(self)@.current_pos,
            final(self)@.current_pos == old(self)@.current_pos,
            final(self)@.source == old(self)@.source,
    {
        let mut segment = String::new();
        std::mem::swap(&mut self.segment, &mut segment);
        self.start_pos = self.current_pos;
        (segment, self.start_pos, self.current_pos)
    }

    /// Drops the segment and starts an empty one at the current position.
    pub fn reset_segment(&mut self)
        requires
            old(self).wf(),
        ensures
            final(self).wf(),
            final(self)@.segment == Seq::<char>::empty(),
            final(self)@.start_pos == old(self)@.current_pos,
            final(self)@.current_pos == old(self)@.current_pos,
            final(self)@.source == old(self)@.source,
    {
        self.segment = String::new();
        self.start_pos = self.current_pos;
    }

    /// Reads the next `distance` bytes of the source into the segment and
    /// returns them. The current position moves past them.
    pub fn advance(&mut self, distance: usize) -> (consumed: &'s str)
        requires
            old(self).wf(),
            is_char_boundary(encode_utf8(old(self)@.source), distance as int),
            distance <= byte_len(old(self)@.source),
        ensures
            final(self).wf(),
            byte_len(consumed@) == distance,
            old(self)@.source == consumed@ + final(self)@.source,
            final(self)@.segment == old(self)@.segment + consumed@,
            final(self)@.start_pos == old(self)@.start_pos,
            (final(self)@.current_pos.line as int, final(self)@.current_pos.column as int)
                == position_after(old(self)@.current_pos, encode_utf8(consumed@)),
    {
        let (consumed, leftovers) = self.source.split_at(distance);
        proof {
            lemma_split(self.source, consumed, leftovers, distance as int);
            lemma_newline_bounds(consumed.spec_bytes());
        }
        self.source = leftovers;
        let (newlines, tail) = newline_stats(consumed.as_bytes());
        if newlines == 0 {
            self.current_pos.column = self.current_pos.column + consumed.len();
        } else {
            self.current_pos.column = tail;
            self.current_pos.line = self.current_pos.line + newlines;
        }
        self.segment.append(consumed);
        consumed
    }
}

impl<'s> ScanState<'s> {
    /// Reads one character, if the source has one left.
    pub fn pop_char(&mut self) -> (ch: Option<char>)
        requires
            old(self).wf(),
        ensures
            final(self).wf(),
            match ch {
                Some(first) => first == old(self)@.source[0] && popped(old(self)@, final(self)@),
                None => old(self)@.source.len() == 0 && final(self)@ == old(self)@,
            },
    {
        let mut chars = self.source.chars();
        match chars.next() {
            None => None,
            Some(first) => {
                proof {
                    lemma_first_char(self@.source);
                }
                let consumed = self.advance(utf8_width(first));
                proof {
                    lemma_front_is_first_char(consumed@, self@.source);
                    assert(encode_utf8(consumed@) =~= encode_scalar(first as u32)) by {
                        assert(consumed@.drop_first() =~= Seq::<char>::empty());
                        reveal_with_fuel(encode_utf8, 2);
                    }
                    assert(self@.segment =~= old(self)@.segment.push(first));
                }
                Some(first)
            },
        }
    }

    /// Reads one character if the source has one left and `pred` holds of it.
    pub fn match_pred<F>(&mut self, pred: F) -> (ch: Option<char>) where F: FnOnce(char) -> bool
        requires
            old(self).wf(),
            old(self)@.source.len() > 0 ==> pred.requires((old(self)@.source[0],)),
        ensures
            final(self).wf(),
            match ch {
                Some(first) => first == old(self)@.source[0] && pred.ensures((first,), true)
                    && popped(old(self)@, final(self)@),
                None => final(self)@ == old(self)@ && (old(self)@.source.len() > 0
                    ==> pred.ensures((old(self)@.source[0],), false)),
            },
    {
        match self.peek_char() {
            None => None,
            Some(first) => {
                if pred(first) {
                    self.pop_char()
                } else {
                    None
                }
            },
        }
    }

    /// Reads one character if the source goes on with `expected`.
    pub fn match_char(&mut self, expected: char) -> (matched: bool)
        requires
            old(self).wf(),
        ensures
            final(self).wf(),
            matched == (old(self)@.source.len() > 0 && old(self)@.source[0] == expected),
            matched ==> popped(old(self)@, final(self)@),
            !matched ==> final(self)@ == old(self)@,
    {
        match self.peek_char() {
            None => false,
            Some(first) => {
                if first == expected {
                    self.pop_char();
                    true
                } else {
                    false
                }
            },
        }
    }

    /// The next character of the source, which stays unread.
    pub fn peek_char(&mut self) -> (ch: Option<char>)
        ensures
            final(self)@ == old(self)@,
            final(self).wf() == old(self).wf(),
            match ch {
                Some(first) => old(self)@.source.len() > 0 && first == old(self)@.source[0],
                None => old(self)@.source.len() == 0,
            },
    {
        let mut chars = self.source.chars();
        chars.next()
    }

    /// The next `N` characters of the source, if it has as many left. They
    /// stay unread.
    pub fn peek_chars<const N: usize>(&mut self) -> (chars: Option<[char; N]>)
        ensures
            final(self)@ == old(self)@,
            final(self).wf() == old(self).wf(),
            chars.is_some() <==> N <= old(self)@.source.len(),
            chars.is_some() ==> chars.unwrap()@ == old(self)@.source.take(N as int),
    {
        let mut found_chars: usize = 0;
        let mut cs: [char; N] = ['\0'; N];
        let mut rest = self.source.chars();
        let mut open_ended: bool = true;
        while found_chars < N && open_ended
            invariant
                found_chars <= N,
                cs@.len() == N,
                found_chars <= self@.source.len(),
                rest.remaining() == self@.source.skip(found_chars as int),
                forall|i: int| 0 <= i < found_chars ==> cs@[i] == self@.source[i],
                !open_ended ==> found_chars == self@.source.len() && found_chars < N,
            decreases N - found_chars + if open_ended { 1int } else { 0int },
        {
            match rest.next() {
                Some(c) => {
                    cs[found_chars] = c;
                    found_chars = found_chars + 1;
                    assert(rest.remaining() =~= self@.source.skip(found_chars as int));
                },
                None => {
                    open_ended = false;
                },
            }
        }
        if found_chars == N {
            assert(cs@ =~= self@.source.take(N as int));
            Some(cs)
        } else {
            None
        }
    }
}

} // verus!

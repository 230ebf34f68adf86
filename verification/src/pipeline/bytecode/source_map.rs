//! An index from offsets in an instruction stream to the source positions
//! they came from, kept as coalesced ranges.

use rangemap::RangeMap;
use vstd::prelude::*;

verus! {

/// A position in a named source text. Lines and columns count from one.
#[derive(Debug, Clone, Copy, PartialEq, Eq)]
pub struct LineInfo<'s> {
    pub source_name: &'s str,
    pub line: usize,
    pub column: usize,
}

/// What a `LineInfo` says, as plain values.
pub struct LineInfoView {
    pub source_name: Seq<char>,
    pub line: nat,
    pub column: nat,
}

impl<'s> View for LineInfo<'s> {
    type V = LineInfoView;

    open spec fn view(&self) -> LineInfoView {
        LineInfoView {
            source_name: self.source_name@,
            line: self.line as nat,
            column: self.column as nat,
        }
    }
}

impl<'s> LineInfo<'s> {
    pub fn new(source_name: &'s str, line: usize, column: usize) -> (info: Self)
        ensures
            info.source_name == source_name,
            info.line == line,
            info.column == column,
    {
        Self { source_name, line, column }
    }
}

/// `rangemap::RangeMap`, a map from ranges of keys to values. Nothing of
/// its inside is known here.
#[verifier::external_type_specification]
#[verifier::external_body]
#[verifier::reject_recursive_types(K)]
#[verifier::reject_recursive_types(V)]
pub struct ExRangeMap<K, V>(RangeMap<K, V>);

/// The mapping that knows no offset.
pub open spec fn unmapped() -> Map<int, LineInfoView> {
    Map::empty()
}

/// What a `RangeMap` from offsets to positions holds: the position of each
/// offset that one of its ranges covers.
pub uninterp spec fn covered(ranges: RangeMap<usize, LineInfo>) -> Map<int, LineInfoView>;

/// `RangeMap::new`: the new map holds no range, so it covers no offset.
#[verifier::external_body]
fn ranges_new<'s>() -> (ranges: RangeMap<usize, LineInfo<'s>>)
    ensures
        covered(ranges) == unmapped(),
{
    RangeMap::new()
}

/// `RangeMap::insert` of the range from `start` up to, not including, `end`:
/// afterwards every offset in the range maps to `info`, whatever it mapped to
/// before, and every other offset maps to what it did. The call panics on an
/// empty range, which the precondition leaves out.
///
/// The map stores ranges that touch and carry equal positions as one, and
/// cuts a stored range that the new one overlaps, keeping copies of its
/// position for what is left of it. Positions are compared and copied field
/// by field, so neither shows in the mapping.
#[verifier::external_body]
fn ranges_insert<'s>(
    ranges: &mut RangeMap<usize, LineInfo<'s>>,
    start: usize,
    end: usize,
    info: LineInfo<'s>,
)
    requires
        start < end,
    ensures
        covered(*final(ranges)) == Map::new(
            |offset: int| start <= offset < end || covered(*old(ranges)).contains_key(offset),
            |offset: int|
                if start <= offset < end {
                    info@
                } else {
                    covered(*old(ranges))[offset]
                },
        ),
{
    ranges.insert(start..end, info)
}

/// `RangeMap::get`: a reference to the position of the stored range that
/// covers `offset`, or nothing where no stored range covers it.
#[verifier::external_body]
fn ranges_get<'a, 's>(ranges: &'a RangeMap<usize, LineInfo<'s>>, offset: usize) -> (info: Option<
    &'a LineInfo<'s>,
>)
    ensures
        info.is_some() <==> covered(*ranges).contains_key(offset as int),
        info.is_some() ==> info.unwrap()@ == covered(*ranges)[offset as int],
{
    ranges.get(&offset)
}

/// Source positions by offset. Its view maps each annotated offset to the
/// position last recorded for it.
pub struct SourceMap<'s> {
    line_info: RangeMap<usize, LineInfo<'s>>,
}

impl<'s> View for SourceMap<'s> {
    type V = Map<int, LineInfoView>;

    closed spec fn view(&self) -> Map<int, LineInfoView> {
        covered(self.line_info)
    }
}

impl<'s> SourceMap<'s> {
    pub fn new() -> (map: Self)
        ensures
            map@ == unmapped(),
    {
        Self { line_info: ranges_new() }
    }

    /// Records `info` as the origin of the byte at `instruction_index`.
    pub fn set_line_info(&mut self, instruction_index: usize, info: LineInfo<'s>)
        requires
            instruction_index < usize::MAX,
        ensures
            final(self)@ == old(self)@.insert(instruction_index as int, info@),
    {
        ranges_insert(&mut self.line_info, instruction_index, instruction_index + 1, info);
        assert(self@ =~= old(self)@.insert(instruction_index as int, info@));
    }

    /// The origin recorded for the byte at `instruction_index`, if any was.
    pub fn get_line_info(&self, instruction_index: usize) -> (info: Option<&LineInfo<'s>>)
        ensures
            info.is_some() <==> self@.contains_key(instruction_index as int),
            info.is_some() ==> info.unwrap()@ == self@[instruction_index as int],
    {
        ranges_get(&self.line_info, instruction_index)
    }
}

impl<'s> Default for SourceMap<'s> {
    fn default() -> (map: Self)
        ensures
            map@ == unmapped(),
    {
        Self::new()
    }
}

/// The mapping that stands after `calls`, each an offset and the position
/// recorded for it, were applied in order to an empty source map.
pub open spec fn recorded(calls: Seq<(int, LineInfoView)>) -> Map<int, LineInfoView>
    decreases calls.len(),
{
    if calls.len() == 0 {
        unmapped()
    } else {
        recorded(calls.drop_last()).insert(calls.last().0, calls.last().1)
    }
}

/// An offset that no call recorded is not found.
pub proof fn lemma_lookup_unrecorded(calls: Seq<(int, LineInfoView)>, offset: int)
    requires
        forall|i: int| 0 <= i < calls.len() ==> (#[trigger] calls[i]).0 != offset,
    ensures
        !recorded(calls).contains_key(offset),
    decreases calls.len(),
{
    if calls.len() > 0 {
        let front = calls.drop_last();
        assert forall|i: int| 0 <= i < front.len() implies (#[trigger] front[i]).0 != offset by {
            assert(front[i] == calls[i]);
        }
        lemma_lookup_unrecorded(front, offset);
        assert(calls[calls.len() - 1].0 != offset);
    }
}

/// An offset that a call recorded is found, with exactly the position that
/// the last such call gave.
pub proof fn lemma_lookup_recorded(calls: Seq<(int, LineInfoView)>, offset: int, last: int)
    requires
        0 <= last < calls.len(),
        calls[last].0 == offset,
        forall|j: int| last < j < calls.len() ==> (#[trigger] calls[j]).0 != offset,
    ensures
        recorded(calls).contains_key(offset),
        recorded(calls)[offset] == calls[last].1,
    decreases calls.len(),
{
    if last < calls.len() - 1 {
        let front = calls.drop_last();
        assert forall|j: int| last < j < front.len() implies (#[trigger] front[j]).0
            != offset by {
            assert(front[j] == calls[j]);
        }
        assert(front[last] == calls[last]);
        lemma_lookup_recorded(front, offset, last);
        assert(calls[calls.len() - 1].0 != offset);
    }
}

} // verus!

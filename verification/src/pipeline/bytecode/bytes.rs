//! Fixed-width big-endian conversion between unsigned integers and bytes.

use vstd::prelude::*;

verus! {

/// Number of distinct values that `width` bytes can hold: 256 to the power `width`.
pub open spec fn capacity(width: nat) -> nat
    decreases width,
{
    if width == 0 {
        1
    } else {
        256 * capacity((width - 1) as nat)
    }
}

/// The unsigned integer that `bytes` spell, most significant byte first.
pub open spec fn be_value(bytes: Seq<u8>) -> nat
    decreases bytes.len(),
{
    if bytes.len() == 0 {
        0
    } else {
        256 * be_value(bytes.drop_last()) + bytes.last() as nat
    }
}

/// The `width` low bytes of `value`, most significant byte first.
pub open spec fn be_bytes(value: nat, width: nat) -> Seq<u8>
    decreases width,
{
    if width == 0 {
        Seq::empty()
    } else {
        be_bytes(value / 256, (width - 1) as nat).push((value % 256) as u8)
    }
}

/// Every width holds at least one value.
pub proof fn lemma_capacity_positive(width: nat)
    ensures
        capacity(width) > 0,
    decreases width,
{
    if width > 0 {
        lemma_capacity_positive((width - 1) as nat);
    }
}

/// More bytes hold at least as many values.
pub proof fn lemma_capacity_monotonic(small: nat, large: nat)
    requires
        small <= large,
    ensures
        capacity(small) <= capacity(large),
    decreases large,
{
    if small < large {
        lemma_capacity_monotonic(small, (large - 1) as nat);
    }
}

/// The capacities of up to eight bytes, written out.
pub proof fn lemma_capacity_values()
    ensures
        capacity(0) == 1,
        capacity(1) == 0x100,
        capacity(2) == 0x1_0000,
        capacity(3) == 0x100_0000,
        capacity(4) == 0x1_0000_0000,
        capacity(5) == 0x100_0000_0000,
        capacity(6) == 0x1_0000_0000_0000,
        capacity(7) == 0x100_0000_0000_0000,
        capacity(8) == 0x1_0000_0000_0000_0000,
{
    reveal_with_fuel(capacity, 10);
}

/// An encoding in `width` bytes has `width` bytes.
pub proof fn lemma_be_bytes_len(value: nat, width: nat)
    ensures
        be_bytes(value, width).len() == width,
    decreases width,
{
    if width > 0 {
        lemma_be_bytes_len(value / 256, (width - 1) as nat);
    }
}

/// Every byte string spells a value below the capacity of its length.
pub proof fn lemma_be_value_bound(bytes: Seq<u8>)
    ensures
        be_value(bytes) < capacity(bytes.len()),
    decreases bytes.len(),
{
    if bytes.len() > 0 {
        lemma_be_value_bound(bytes.drop_last());
    }
}

/// Decoding an encoding gives the value back, cut to the low `width` bytes.
pub proof fn lemma_decode_encode(value: nat, width: nat)
    ensures
        be_value(be_bytes(value, width)) == value % capacity(width),
    decreases width,
{
    if width > 0 {
        let rest = (width - 1) as nat;
        let high = be_bytes(value / 256, rest);
        lemma_decode_encode(value / 256, rest);
        lemma_capacity_positive(rest);
        assert(be_bytes(value, width).drop_last() =~= high);
        assert(be_bytes(value, width).last() == (value % 256) as u8);
        vstd::arithmetic::div_mod::lemma_breakdown(value as int, 256, capacity(rest) as int);
    }
}

/// Round trip: a value that fits in `width` bytes survives encoding and decoding.
pub proof fn lemma_round_trip(value: nat, width: nat)
    requires
        value < capacity(width),
    ensures
        be_value(be_bytes(value, width)) == value,
{
    lemma_decode_encode(value, width);
    vstd::arithmetic::div_mod::lemma_small_mod(value, capacity(width));
}

/// Encoding the value of a byte string at its own length gives the bytes back.
pub proof fn lemma_encode_decode(bytes: Seq<u8>)
    ensures
        be_bytes(be_value(bytes), bytes.len()) == bytes,
    decreases bytes.len(),
{
    if bytes.len() > 0 {
        let front = bytes.drop_last();
        lemma_encode_decode(front);
        let v = be_value(bytes);
        assert(v / 256 == be_value(front));
        assert(v % 256 == bytes.last() as nat);
        assert(be_bytes(v, bytes.len()) =~= bytes);
    } else {
        assert(be_bytes(be_value(bytes), bytes.len()) =~= bytes);
    }
}

/// Byte `index` of an encoding is the matching base-256 digit of the value.
pub proof fn lemma_be_bytes_index(value: nat, width: nat, index: int)
    requires
        0 <= index < width,
    ensures
        be_bytes(value, width).len() == width,
        be_bytes(value, width)[index] as nat == (value / capacity((width - 1 - index) as nat))
            % 256,
    decreases width,
{
    lemma_be_bytes_len(value, width);
    let rest = (width - 1) as nat;
    let high = be_bytes(value / 256, rest);
    lemma_be_bytes_len(value / 256, rest);
    assert(be_bytes(value, width) == high.push((value % 256) as u8));
    if index < rest {
        lemma_be_bytes_index(value / 256, rest, index);
        let below = capacity((rest - 1 - index) as nat);
        lemma_capacity_positive((rest - 1 - index) as nat);
        vstd::arithmetic::div_mod::lemma_div_denominator(value as int, 256, below as int);
        assert(capacity((width - 1 - index) as nat) == 256 * below);
        assert(be_bytes(value, width)[index] == high[index]);
        assert((value / 256) / below == value / (256 * below));
    } else {
        assert(capacity((width - 1 - index) as nat) == 1);
        assert(be_bytes(value, width)[index] == (value % 256) as u8);
    }
}

/// The value of one more byte: shift the value so far by a byte and add it.
pub proof fn lemma_be_value_step(bytes: Seq<u8>, count: int)
    requires
        0 <= count < bytes.len(),
    ensures
        be_value(bytes.take(count + 1)) == 256 * be_value(bytes.take(count)) + bytes[count] as nat,
{
    assert(bytes.take(count + 1).drop_last() =~= bytes.take(count));
}

/// Encodes `value` in `N` bytes, most significant first. A narrow value is
/// padded with zero bytes on the left; a wide one keeps its low `N` bytes.
pub fn encode<const N: usize>(value: u64) -> (bytes: [u8; N])
    ensures
        bytes@ == be_bytes(value as nat, N as nat),
{
    let mut bytes: [u8; N] = [0u8; N];
    let mut rest: u64 = value;
    let mut index: usize = N;
    proof {
        assert(capacity((N - index) as nat) == 1);
    }
    while index > 0
        invariant
            index <= N,
            bytes@.len() == N,
            rest as nat == value as nat / capacity((N - index) as nat),
            forall|j: int| index <= j < N ==> bytes@[j] == be_bytes(value as nat, N as nat)[j],
        decreases index,
    {
        index = index - 1;
        let low: u8 = (rest % 256) as u8;
        proof {
            lemma_be_bytes_index(value as nat, N as nat, index as int);
            let below = capacity((N - 1 - index) as nat);
            lemma_capacity_positive((N - 1 - index) as nat);
            vstd::arithmetic::div_mod::lemma_div_denominator(value as int, below as int, 256);
            assert(capacity((N - index) as nat) == 256 * below);
            assert(below * 256 == 256 * below) by (nonlinear_arith);
        }
        bytes[index] = low;
        rest = rest / 256;
    }
    proof {
        lemma_be_bytes_len(value as nat, N as nat);
        assert(bytes@ =~= be_bytes(value as nat, N as nat));
    }
    bytes
}

/// Decodes `N` bytes, most significant first, by shifting the value so far
/// one byte to the left and combining it with the next byte.
pub fn decode<const N: usize>(bytes: &[u8; N]) -> (value: u64)
    requires
        N <= 8,
    ensures
        value as nat == be_value(bytes@),
{
    let mut value: u64 = 0;
    let mut index: usize = 0;
    proof {
        assert(bytes@.take(0) =~= Seq::<u8>::empty());
    }
    while index < N
        invariant
            index <= N <= 8,
            bytes@.len() == N,
            value as nat == be_value(bytes@.take(index as int)),
        decreases N - index,
    {
        let byte: u8 = bytes[index];
        proof {
            lemma_be_value_bound(bytes@.take(index as int));
            lemma_capacity_monotonic(index as nat, 7);
            lemma_capacity_values();
            lemma_be_value_step(bytes@, index as int);
            let v = value;
            assert(v < 0x100_0000_0000_0000u64 ==> ((v << 8) | (byte as u64)) == 256 * v + (
            byte as u64)) by (bit_vector);
        }
        value = (value << 8) | (byte as u64);
        index = index + 1;
    }
    proof {
        assert(bytes@.take(N as int) =~= bytes@);
    }
    value
}

/// Bytes never spell more than the integer type of their width holds, so
/// reading them as that type, or as a wider one, cuts nothing off.
pub proof fn lemma_bytes_fit(bytes: Seq<u8>)
    ensures
        bytes.len() <= 1 ==> be_value(bytes) <= u8::MAX,
        bytes.len() <= 2 ==> be_value(bytes) <= u16::MAX,
        bytes.len() <= 4 ==> be_value(bytes) <= u32::MAX,
        bytes.len() <= 8 ==> be_value(bytes) <= u64::MAX,
{
    lemma_be_value_bound(bytes);
    lemma_capacity_values();
    if bytes.len() <= 1 {
        lemma_capacity_monotonic(bytes.len(), 1);
    }
    if bytes.len() <= 2 {
        lemma_capacity_monotonic(bytes.len(), 2);
    }
    if bytes.len() <= 4 {
        lemma_capacity_monotonic(bytes.len(), 4);
    }
    if bytes.len() <= 8 {
        lemma_capacity_monotonic(bytes.len(), 8);
    }
}

/// Decoding of a byte array into a number of type `Num`.
pub trait FromBytes<Num> {
    /// The number that the bytes spell, most significant byte first. Every
    /// array here fits its number type, but for eight bytes read as an index
    /// on a platform with narrower indices, where the low bytes count.
    spec fn spec_bytes_to_num(&self) -> Num;

    fn bytes_to_num(&self) -> (num: Num)
        ensures
            num == self.spec_bytes_to_num(),
    ;
}

/// Encoding of a number into `SIZE` bytes.
pub trait ToBytes<const SIZE: usize> {
    /// The `SIZE` bytes of the number, most significant byte first.
    spec fn spec_num_to_bytes(&self) -> Seq<u8>;

    fn num_to_bytes(&self) -> (bytes: [u8; SIZE])
        ensures
            bytes@ == self.spec_num_to_bytes(),
    ;
}

impl FromBytes<u8> for [u8; 1] {
    open spec fn spec_bytes_to_num(&self) -> u8 {
        be_value(self@) as u8
    }

    fn bytes_to_num(&self) -> (num: u8) {
        proof {
            lemma_bytes_fit(self@);
        }
        let wide: u64 = decode::<1>(self);
        wide as u8
    }
}

impl FromBytes<u16> for [u8; 1] {
    open spec fn spec_bytes_to_num(&self) -> u16 {
        be_value(self@) as u16
    }

    fn bytes_to_num(&self) -> (num: u16) {
        proof {
            lemma_bytes_fit(self@);
        }
        let wide: u64 = decode::<1>(self);
        wide as u16
    }
}

impl FromBytes<u16> for [u8; 2] {
    open spec fn spec_bytes_to_num(&self) -> u16 {
        be_value(self@) as u16
    }

    fn bytes_to_num(&self) -> (num: u16) {
        proof {
            lemma_bytes_fit(self@);
        }
        let wide: u64 = decode::<2>(self);
        wide as u16
    }
}

impl FromBytes<u32> for [u8; 1] {
    open spec fn spec_bytes_to_num(&self) -> u32 {
        be_value(self@) as u32
    }

    fn bytes_to_num(&self) -> (num: u32) {
        proof {
            lemma_bytes_fit(self@);
        }
        let wide: u64 = decode::<1>(self);
        wide as u32
    }
}

impl FromBytes<u32> for [u8; 2] {
    open spec fn spec_bytes_to_num(&self) -> u32 {
        be_value(self@) as u32
    }

    fn bytes_to_num(&self) -> (num: u32) {
        proof {
            lemma_bytes_fit(self@);
        }
        let wide: u64 = decode::<2>(self);
        wide as u32
    }
}

impl FromBytes<u32> for [u8; 4] {
    open spec fn spec_bytes_to_num(&self) -> u32 {
        be_value(self@) as u32
    }

    fn bytes_to_num(&self) -> (num: u32) {
        proof {
            lemma_bytes_fit(self@);
        }
        let wide: u64 = decode::<4>(self);
        wide as u32
    }
}

impl FromBytes<u64> for [u8; 1] {
    open spec fn spec_bytes_to_num(&self) -> u64 {
        be_value(self@) as u64
    }

    fn bytes_to_num(&self) -> (num: u64) {
        proof {
            lemma_bytes_fit(self@);
        }
        let wide: u64 = decode::<1>(self);
        wide as u64
    }
}

impl FromBytes<u64> for [u8; 2] {
    open spec fn spec_bytes_to_num(&self) -> u64 {
        be_value(self@) as u64
    }

    fn bytes_to_num(&self) -> (num: u64) {
        proof {
            lemma_bytes_fit(self@);
        }
        let wide: u64 = decode::<2>(self);
        wide as u64
    }
}

impl FromBytes<u64> for [u8; 4] {
    open spec fn spec_bytes_to_num(&self) -> u64 {
        be_value(self@) as u64
    }

    fn bytes_to_num(&self) -> (num: u64) {
        proof {
            lemma_bytes_fit(self@);
        }
        let wide: u64 = decode::<4>(self);
        wide as u64
    }
}

impl FromBytes<u64> for [u8; 8] {
    open spec fn spec_bytes_to_num(&self) -> u64 {
        be_value(self@) as u64
    }

    fn bytes_to_num(&self) -> (num: u64) {
        proof {
            lemma_bytes_fit(self@);
        }
        let wide: u64 = decode::<8>(self);
        wide as u64
    }
}

impl FromBytes<usize> for [u8; 1] {
    open spec fn spec_bytes_to_num(&self) -> usize {
        be_value(self@) as usize
    }

    fn bytes_to_num(&self) -> (num: usize) {
        proof {
            lemma_bytes_fit(self@);
        }
        let wide: u64 = decode::<1>(self);
        wide as usize
    }
}

impl FromBytes<usize> for [u8; 2] {
    open spec fn spec_bytes_to_num(&self) -> usize {
        be_value(self@) as usize
    }

    fn bytes_to_num(&self) -> (num: usize) {
        proof {
            lemma_bytes_fit(self@);
        }
        let wide: u64 = decode::<2>(self);
        wide as usize
    }
}

/// Four bytes hold an index of a platform with indices of 32 bits, and fit
/// an index of any wider one.
impl FromBytes<usize> for [u8; 4] {
    open spec fn spec_bytes_to_num(&self) -> usize {
        be_value(self@) as usize
    }

    fn bytes_to_num(&self) -> (num: usize) {
        proof {
            lemma_bytes_fit(self@);
        }
        let wide: u64 = decode::<4>(self);
        wide as usize
    }
}

/// Eight bytes hold an index of a platform with indices of 64 bits; on a
/// narrower one the high bytes are dropped.
impl FromBytes<usize> for [u8; 8] {
    open spec fn spec_bytes_to_num(&self) -> usize {
        be_value(self@) as usize
    }

    fn bytes_to_num(&self) -> (num: usize) {
        let wide: u64 = decode::<8>(self);
        #[verifier::truncate]
        (wide as usize)
    }
}

impl ToBytes<1> for u8 {
    open spec fn spec_num_to_bytes(&self) -> Seq<u8> {
        be_bytes(*self as nat, 1)
    }

    fn num_to_bytes(&self) -> (bytes: [u8; 1]) {
        encode::<1>(*self as u64)
    }
}

impl ToBytes<2> for u8 {
    open spec fn spec_num_to_bytes(&self) -> Seq<u8> {
        be_bytes(*self as nat, 2)
    }

    fn num_to_bytes(&self) -> (bytes: [u8; 2]) {
        encode::<2>(*self as u64)
    }
}

impl ToBytes<4> for u8 {
    open spec fn spec_num_to_bytes(&self) -> Seq<u8> {
        be_bytes(*self as nat, 4)
    }

    fn num_to_bytes(&self) -> (bytes: [u8; 4]) {
        encode::<4>(*self as u64)
    }
}

impl ToBytes<8> for u8 {
    open spec fn spec_num_to_bytes(&self) -> Seq<u8> {
        be_bytes(*self as nat, 8)
    }

    fn num_to_bytes(&self) -> (bytes: [u8; 8]) {
        encode::<8>(*self as u64)
    }
}

impl ToBytes<2> for u16 {
    open spec fn spec_num_to_bytes(&self) -> Seq<u8> {
        be_bytes(*self as nat, 2)
    }

    fn num_to_bytes(&self) -> (bytes: [u8; 2]) {
        encode::<2>(*self as u64)
    }
}

impl ToBytes<4> for u16 {
    open spec fn spec_num_to_bytes(&self) -> Seq<u8> {
        be_bytes(*self as nat, 4)
    }

    fn num_to_bytes(&self) -> (bytes: [u8; 4]) {
        encode::<4>(*self as u64)
    }
}

impl ToBytes<8> for u16 {
    open spec fn spec_num_to_bytes(&self) -> Seq<u8> {
        be_bytes(*self as nat, 8)
    }

    fn num_to_bytes(&self) -> (bytes: [u8; 8]) {
        encode::<8>(*self as u64)
    }
}

impl ToBytes<4> for u32 {
    open spec fn spec_num_to_bytes(&self) -> Seq<u8> {
        be_bytes(*self as nat, 4)
    }

    fn num_to_bytes(&self) -> (bytes: [u8; 4]) {
        encode::<4>(*self as u64)
    }
}

impl ToBytes<8> for u32 {
    open spec fn spec_num_to_bytes(&self) -> Seq<u8> {
        be_bytes(*self as nat, 8)
    }

    fn num_to_bytes(&self) -> (bytes: [u8; 8]) {
        encode::<8>(*self as u64)
    }
}

impl ToBytes<8> for u64 {
    open spec fn spec_num_to_bytes(&self) -> Seq<u8> {
        be_bytes(*self as nat, 8)
    }

    fn num_to_bytes(&self) -> (bytes: [u8; 8]) {
        encode::<8>(*self as u64)
    }
}

impl ToBytes<4> for usize {
    open spec fn spec_num_to_bytes(&self) -> Seq<u8> {
        be_bytes(*self as nat, 4)
    }

    fn num_to_bytes(&self) -> (bytes: [u8; 4]) {
        encode::<4>(*self as u64)
    }
}

impl ToBytes<8> for usize {
    open spec fn spec_num_to_bytes(&self) -> Seq<u8> {
        be_bytes(*self as nat, 8)
    }

    fn num_to_bytes(&self) -> (bytes: [u8; 8]) {
        encode::<8>(*self as u64)
    }
}

/// A read cursor over a byte stream that knows how far it has come.
#[derive(Clone, Copy)]
pub struct ByteIter<'l> {
    bytes: &'l [u8],
    offset: usize,
}

impl<'l> ByteIter<'l> {
    #[verifier::type_invariant]
    spec fn in_bounds(self) -> bool {
        self.offset <= self.bytes@.len()
    }

    /// The whole stream, read or not.
    pub closed spec fn stream(self) -> Seq<u8> {
        self.bytes@
    }

    /// How many bytes have been read.
    pub closed spec fn position(self) -> nat {
        self.offset as nat
    }

    /// The bytes still to be read.
    pub open spec fn remaining(self) -> Seq<u8> {
        self.stream().skip(self.position() as int)
    }

    pub fn new(bytes: &'l [u8]) -> (iter: Self)
        ensures
            iter.stream() == bytes@,
            iter.position() == 0,
    {
        ByteIter { bytes, offset: 0 }
    }

    /// A cursor that stands at `offset`, or at the end of a shorter stream.
    pub fn starting_at(bytes: &'l [u8], offset: usize) -> (iter: Self)
        ensures
            iter.stream() == bytes@,
            iter.position() == if offset <= bytes@.len() {
                offset as nat
            } else {
                bytes@.len()
            },
    {
        let start: usize = if offset <= bytes.len() {
            offset
        } else {
            bytes.len()
        };
        ByteIter { bytes, offset: start }
    }

    pub fn offset(&self) -> (offset: usize)
        ensures
            offset == self.position(),
            offset <= self.stream().len(),
    {
        proof {
            use_type_invariant(self);
        }
        self.offset
    }

    /// Reads one byte, or nothing at the end of the stream.
    pub fn next(&mut self) -> (byte: Option<u8>)
        ensures
            old(self).position() <= old(self).stream().len(),
            final(self).stream() == old(self).stream(),
            old(self).position() < old(self).stream().len() ==> byte == Some(old(self).stream()[old(self).position() as int]) && final(self).position() == old(self).position() + 1,
            old(self).position() >= old(self).stream().len() ==> byte.is_none() && final(self).position() == old(self).position(),
    {
        proof {
            use_type_invariant(&*self);
        }
        if self.offset < self.bytes.len() {
            let byte: u8 = self.bytes[self.offset];
            self.offset = self.offset + 1;
            Some(byte)
        } else {
            None
        }
    }
}

/// Where a cursor stands after an attempt to read `count` more bytes.
pub open spec fn position_after(iter: ByteIter, count: nat) -> nat {
    if iter.position() + count <= iter.stream().len() {
        iter.position() + count
    } else {
        iter.stream().len()
    }
}

/// Reads exactly `N` bytes. Where fewer are left, they are consumed and the
/// result is `None`.
pub fn next_bytes<const N: usize>(code: &mut ByteIter) -> (bytes: Option<[u8; N]>)
    ensures
        old(code).position() <= old(code).stream().len(),
        final(code).stream() == old(code).stream(),
        final(code).position() == position_after(*old(code), N as nat),
        bytes.is_some() <==> old(code).position() + N <= old(code).stream().len(),
        bytes.is_some() ==> bytes.unwrap()@ == old(code).remaining().take(N as int),
{
    let mut result: [u8; N] = [0u8; N];
    let mut index: usize = 0;
    let ghost start = code.position();
    let ghost stream = code.stream();
    proof {
        use_type_invariant(&*code);
    }
    while index < N
        invariant
            index <= N,
            stream == old(code).stream(),
            start == old(code).position(),
            code.stream() == stream,
            start + index <= stream.len(),
            code.position() == start + index,
            result@.len() == N,
            forall|j: int| 0 <= j < index ==> result@[j] == stream[start + j],
        decreases N - index,
    {
        match code.next() {
            None => {
                return None;
            },
            Some(byte) => {
                result[index] = byte;
            },
        }
        index = index + 1;
    }
    proof {
        assert(result@ =~= old(code).remaining().take(N as int));
    }
    Some(result)
}

/// Reads up to `N` bytes: slot `i` holds byte `i` after the cursor, or nothing
/// where the stream ends before it.
pub fn try_next_bytes<const N: usize>(code: &mut ByteIter) -> (slots: [Option<u8>; N])
    ensures
        old(code).position() <= old(code).stream().len(),
        final(code).stream() == old(code).stream(),
        final(code).position() == position_after(*old(code), N as nat),
        forall|i: int|
            0 <= i < N ==> #[trigger] slots@[i] == if old(code).position() + i < old(code).stream().len() {
                Some(old(code).stream()[old(code).position() + i])
            } else {
                None
            },
{
    let mut slots: [Option<u8>; N] = [None; N];
    let mut index: usize = 0;
    let ghost start = code.position();
    let ghost stream = code.stream();
    proof {
        use_type_invariant(&*code);
    }
    while index < N
        invariant
            index <= N,
            code.stream() == stream,
            start <= stream.len(),
            code.position() == if start + index <= stream.len() {
                start + index
            } else {
                stream.len() as int
            },
            slots@.len() == N,
            forall|i: int|
                0 <= i < index ==> #[trigger] slots@[i] == if start + i < stream.len() {
                    Some(stream[start + i])
                } else {
                    None
                },
        decreases N - index,
    {
        let slot: Option<u8> = code.next();
        slots[index] = slot;
        index = index + 1;
    }
    slots
}

/// The bytes in the slots, if every slot holds one.
pub fn all_there<const N: usize>(some_bytes: &[Option<u8>; N]) -> (bytes: Option<[u8; N]>)
    ensures
        bytes.is_some() <==> forall|i: int| 0 <= i < N ==> (#[trigger] some_bytes@[i]).is_some(),
        bytes.is_some() ==> forall|i: int|
            0 <= i < N ==> some_bytes@[i] == Some(#[trigger] bytes.unwrap()@[i]),
{
    let mut result: [u8; N] = [0u8; N];
    let mut index: usize = 0;
    while index < N
        invariant
            index <= N,
            result@.len() == N,
            some_bytes@.len() == N,
            forall|i: int| 0 <= i < index ==> #[trigger] some_bytes@[i] == Some(result@[i]),
        decreases N - index,
    {
        match some_bytes[index] {
            Some(byte) => {
                result[index] = byte;
            },
            None => {
                return None;
            },
        }
        index = index + 1;
    }
    Some(result)
}

} // verus!

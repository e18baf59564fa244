//! Fixed-width integers as byte sequences, in both byte orders.

use vstd::prelude::*;

verus! {

/// The little-endian 16-bit number whose bytes start at index `i` of `s`.
pub open spec fn le_u16_at(s: Seq<u8>, i: int) -> u16 {
    (s[i] + 0x100 * s[i + 1]) as u16
}

/// The little-endian 32-bit number whose bytes start at index `i` of `s`.
pub open spec fn le_u32_at(s: Seq<u8>, i: int) -> u32 {
    (s[i] + 0x100 * s[i + 1] + 0x1_0000 * s[i + 2] + 0x100_0000 * s[i + 3]) as u32
}

/// The little-endian 64-bit number whose bytes start at index `i` of `s`.
pub open spec fn le_u64_at(s: Seq<u8>, i: int) -> u64 {
    (le_u32_at(s, i) + 0x1_0000_0000 * le_u32_at(s, i + 4)) as u64
}

/// The big-endian 16-bit number whose bytes start at index `i` of `s`.
pub open spec fn be_u16_at(s: Seq<u8>, i: int) -> u16 {
    (0x100 * s[i] + s[i + 1]) as u16
}

/// The big-endian 32-bit number whose bytes start at index `i` of `s`.
pub open spec fn be_u32_at(s: Seq<u8>, i: int) -> u32 {
    (0x100_0000 * s[i] + 0x1_0000 * s[i + 1] + 0x100 * s[i + 2] + s[i + 3]) as u32
}

/// The big-endian 64-bit number whose bytes start at index `i` of `s`.
pub open spec fn be_u64_at(s: Seq<u8>, i: int) -> u64 {
    (0x1_0000_0000 * be_u32_at(s, i) + be_u32_at(s, i + 4)) as u64
}

/// The two bytes of `v`, least significant first.
pub open spec fn le_bytes_u16(v: u16) -> Seq<u8> {
    seq![(v % 0x100) as u8, (v / 0x100) as u8]
}

/// The four bytes of `v`, least significant first.
pub open spec fn le_bytes_u32(v: u32) -> Seq<u8> {
    seq![
        (v % 0x100) as u8,
        (v / 0x100 % 0x100) as u8,
        (v / 0x1_0000 % 0x100) as u8,
        (v / 0x100_0000) as u8,
    ]
}

/// The eight bytes of `v`, least significant first.
pub open spec fn le_bytes_u64(v: u64) -> Seq<u8> {
    le_bytes_u32((v % 0x1_0000_0000) as u32) + le_bytes_u32((v / 0x1_0000_0000) as u32)
}

/// The two bytes of `v`, most significant first.
pub open spec fn be_bytes_u16(v: u16) -> Seq<u8> {
    seq![(v / 0x100) as u8, (v % 0x100) as u8]
}

/// The four bytes of `v`, most significant first.
pub open spec fn be_bytes_u32(v: u32) -> Seq<u8> {
    seq![
        (v / 0x100_0000) as u8,
        (v / 0x1_0000 % 0x100) as u8,
        (v / 0x100 % 0x100) as u8,
        (v % 0x100) as u8,
    ]
}

/// Decoding the little-endian bytes of a number gives the number back, wherever in a
/// sequence the bytes stand.
pub proof fn le_round_trip_u16(s: Seq<u8>, i: int, v: u16)
    requires
        0 <= i,
        i + 2 <= s.len(),
        s.subrange(i, i + 2) == le_bytes_u16(v),
    ensures
        le_u16_at(s, i) == v,
{
    let t = s.subrange(i, i + 2);
    assert(t[0] == s[i] && t[1] == s[i + 1]);
}

/// The four-byte case of [`le_round_trip_u16`].
pub proof fn le_round_trip_u32(s: Seq<u8>, i: int, v: u32)
    requires
        0 <= i,
        i + 4 <= s.len(),
        s.subrange(i, i + 4) == le_bytes_u32(v),
    ensures
        le_u32_at(s, i) == v,
{
    let t = s.subrange(i, i + 4);
    assert(t[0] == s[i] && t[1] == s[i + 1] && t[2] == s[i + 2] && t[3] == s[i + 3]);
}

/// Encoding the little-endian number that four bytes make gives the bytes back.
pub proof fn le_bytes_of_le_u32(s: Seq<u8>)
    requires
        s.len() == 4,
    ensures
        le_bytes_u32(le_u32_at(s, 0)) == s,
{
    assert(le_bytes_u32(le_u32_at(s, 0)) =~= s);
}

/// The eight-byte case of [`le_round_trip_u16`].
pub proof fn le_round_trip_u64(s: Seq<u8>, i: int, v: u64)
    requires
        0 <= i,
        i + 8 <= s.len(),
        s.subrange(i, i + 8) == le_bytes_u64(v),
    ensures
        le_u64_at(s, i) == v,
{
    let t = s.subrange(i, i + 8);
    let low = (v % 0x1_0000_0000) as u32;
    let high = (v / 0x1_0000_0000) as u32;
    assert(s.subrange(i, i + 4) =~= t.subrange(0, 4));
    assert(s.subrange(i + 4, i + 8) =~= t.subrange(4, 8));
    assert(t.subrange(0, 4) =~= le_bytes_u32(low));
    assert(t.subrange(4, 8) =~= le_bytes_u32(high));
    le_round_trip_u32(s, i, low);
    le_round_trip_u32(s, i + 4, high);
}

/// Decoding the big-endian bytes of a number gives the number back, wherever in a
/// sequence the bytes stand.
pub proof fn be_round_trip_u16(s: Seq<u8>, i: int, v: u16)
    requires
        0 <= i,
        i + 2 <= s.len(),
        s.subrange(i, i + 2) == be_bytes_u16(v),
    ensures
        be_u16_at(s, i) == v,
{
    let t = s.subrange(i, i + 2);
    assert(t[0] == s[i] && t[1] == s[i + 1]);
}

/// The four-byte case of [`be_round_trip_u16`].
pub proof fn be_round_trip_u32(s: Seq<u8>, i: int, v: u32)
    requires
        0 <= i,
        i + 4 <= s.len(),
        s.subrange(i, i + 4) == be_bytes_u32(v),
    ensures
        be_u32_at(s, i) == v,
{
    let t = s.subrange(i, i + 4);
    assert(t[0] == s[i] && t[1] == s[i + 1] && t[2] == s[i + 2] && t[3] == s[i + 3]);
}

/// Reads a little-endian 16-bit number.
pub fn read_le_u16(s: &[u8], i: usize) -> (v: u16)
    requires
        i + 2 <= s@.len(),
    ensures
        v == le_u16_at(s@, i as int),
{
    s[i] as u16 + 0x100 * (s[i + 1] as u16)
}

/// Reads a little-endian 32-bit number.
pub fn read_le_u32(s: &[u8], i: usize) -> (v: u32)
    requires
        i + 4 <= s@.len(),
    ensures
        v == le_u32_at(s@, i as int),
{
    s[i] as u32 + 0x100 * (s[i + 1] as u32) + 0x1_0000 * (s[i + 2] as u32) + 0x100_0000 * (s[i
        + 3] as u32)
}

/// Reads a little-endian 64-bit number.
pub fn read_le_u64(s: &[u8], i: usize) -> (v: u64)
    requires
        i + 8 <= s@.len(),
    ensures
        v == le_u64_at(s@, i as int),
{
    assert(s@.len() == s.len());
    read_le_u32(s, i) as u64 + 0x1_0000_0000 * (read_le_u32(s, i + 4) as u64)
}

/// Reads a big-endian 16-bit number.
pub fn read_be_u16(s: &[u8], i: usize) -> (v: u16)
    requires
        i + 2 <= s@.len(),
    ensures
        v == be_u16_at(s@, i as int),
{
    0x100 * (s[i] as u16) + s[i + 1] as u16
}

/// Reads a big-endian 32-bit number.
pub fn read_be_u32(s: &[u8], i: usize) -> (v: u32)
    requires
        i + 4 <= s@.len(),
    ensures
        v == be_u32_at(s@, i as int),
{
    0x100_0000 * (s[i] as u32) + 0x1_0000 * (s[i + 1] as u32) + 0x100 * (s[i + 2] as u32) + s[i
        + 3] as u32
}

/// Reads a big-endian 64-bit number.
pub fn read_be_u64(s: &[u8], i: usize) -> (v: u64)
    requires
        i + 8 <= s@.len(),
    ensures
        v == be_u64_at(s@, i as int),
{
    assert(s@.len() == s.len());
    0x1_0000_0000 * (read_be_u32(s, i) as u64) + read_be_u32(s, i + 4) as u64
}

/// Appends `value` to `buffer`, most significant byte first.
pub fn append_u16_be(buffer: &mut Vec<u8>, value: u16)
    ensures
        final(buffer)@ == old(buffer)@ + be_bytes_u16(value),
{
    buffer.push((value / 0x100) as u8);
    buffer.push((value % 0x100) as u8);
}

/// Appends `value` to `buffer`, most significant byte first.
pub fn append_u32_be(buffer: &mut Vec<u8>, value: u32)
    ensures
        final(buffer)@ == old(buffer)@ + be_bytes_u32(value),
{
    buffer.push((value / 0x100_0000) as u8);
    buffer.push((value / 0x1_0000 % 0x100) as u8);
    buffer.push((value / 0x100 % 0x100) as u8);
    buffer.push((value % 0x100) as u8);
}

/// Appends `value` to `buffer`, least significant byte first.
pub fn append_u16_le(buffer: &mut Vec<u8>, value: u16)
    ensures
        final(buffer)@ == old(buffer)@ + le_bytes_u16(value),
{
    buffer.push((value % 0x100) as u8);
    buffer.push((value / 0x100) as u8);
}

/// Appends `value` to `buffer`, least significant byte first.
pub fn append_u32_le(buffer: &mut Vec<u8>, value: u32)
    ensures
        final(buffer)@ == old(buffer)@ + le_bytes_u32(value),
{
    buffer.push((value % 0x100) as u8);
    buffer.push((value / 0x100 % 0x100) as u8);
    buffer.push((value / 0x1_0000 % 0x100) as u8);
    buffer.push((value / 0x100_0000) as u8);
}

/// Appends `value` to `buffer`, least significant byte first.
pub fn append_u64_le(buffer: &mut Vec<u8>, value: u64)
    ensures
        final(buffer)@ == old(buffer)@ + le_bytes_u64(value),
{
    append_u32_le(buffer, (value % 0x1_0000_0000) as u32);
    append_u32_le(buffer, (value / 0x1_0000_0000) as u32);
}

/// The number that the `n` bytes of `s` from index `i` on make, the least significant one first.
pub open spec fn le_number(s: Seq<u8>, i: int, n: nat) -> int
    decreases n,
{
    if n == 0 {
        0
    } else {
        s[i] + 0x100 * le_number(s, i + 1, (n - 1) as nat)
    }
}

/// The number that the `n` bytes of `s` from index `i` on make, the most significant one first.
pub open spec fn be_number(s: Seq<u8>, i: int, n: nat) -> int
    decreases n,
{
    if n == 0 {
        0
    } else {
        0x100 * be_number(s, i, (n - 1) as nat) + s[i + n - 1]
    }
}

/// What is read as a little-endian number of two, four or eight bytes is the number that they make,
/// the least significant one first.
pub proof fn little_endian_reads_are_numbers(s: Seq<u8>, i: int)
    ensures
        le_u16_at(s, i) == le_number(s, i, 2),
        le_u32_at(s, i) == le_number(s, i, 4),
        le_u64_at(s, i) == le_number(s, i, 8),
{
    reveal_with_fuel(le_number, 9);
}

/// What is read as a big-endian number of two, four or eight bytes is the number that they make,
/// the most significant one first.
pub proof fn big_endian_reads_are_numbers(s: Seq<u8>, i: int)
    ensures
        be_u16_at(s, i) == be_number(s, i, 2),
        be_u32_at(s, i) == be_number(s, i, 4),
        be_u64_at(s, i) == be_number(s, i, 8),
{
    reveal_with_fuel(be_number, 9);
}

/// The bytes of a number, the least significant one first, make that number again, and so do its
/// bytes with the most significant one first.
pub proof fn bytes_make_their_number(a: u16, b: u32, c: u64)
    ensures
        le_bytes_u16(a).len() == 2 && le_number(le_bytes_u16(a), 0, 2) == a,
        le_bytes_u32(b).len() == 4 && le_number(le_bytes_u32(b), 0, 4) == b,
        le_bytes_u64(c).len() == 8 && le_number(le_bytes_u64(c), 0, 8) == c,
        be_bytes_u16(a).len() == 2 && be_number(be_bytes_u16(a), 0, 2) == a,
        be_bytes_u32(b).len() == 4 && be_number(be_bytes_u32(b), 0, 4) == b,
{
    let la = le_bytes_u16(a);
    let lb = le_bytes_u32(b);
    let lc = le_bytes_u64(c);
    let ba = be_bytes_u16(a);
    let bb = be_bytes_u32(b);
    assert(la.subrange(0, 2) =~= la);
    assert(lb.subrange(0, 4) =~= lb);
    assert(lc.subrange(0, 8) =~= lc);
    assert(ba.subrange(0, 2) =~= ba);
    assert(bb.subrange(0, 4) =~= bb);
    le_round_trip_u16(la, 0, a);
    le_round_trip_u32(lb, 0, b);
    le_round_trip_u64(lc, 0, c);
    be_round_trip_u16(ba, 0, a);
    be_round_trip_u32(bb, 0, b);
    little_endian_reads_are_numbers(la, 0);
    little_endian_reads_are_numbers(lb, 0);
    little_endian_reads_are_numbers(lc, 0);
    big_endian_reads_are_numbers(ba, 0);
    big_endian_reads_are_numbers(bb, 0);
}

} // verus!

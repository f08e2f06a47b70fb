//! Little-endian integers in byte sequences.

use vstd::prelude::*;

verus! {

/// The 16-bit little-endian integer at index `i` of `s`.
pub open spec fn le16(s: Seq<u8>, i: int) -> u16 {
    (s[i] + 0x100 * s[i + 1]) as u16
}

/// The 32-bit little-endian integer at index `i` of `s`.
pub open spec fn le32(s: Seq<u8>, i: int) -> u32 {
    (s[i] + 0x100 * s[i + 1] + 0x1_0000 * s[i + 2] + 0x100_0000 * s[i + 3]) as u32
}

/// The 64-bit little-endian integer at index `i` of `s`.
pub open spec fn le64(s: Seq<u8>, i: int) -> u64 {
    (le32(s, i) + 0x1_0000_0000 * le32(s, i + 4)) as u64
}

/// The two bytes of `v`, least significant first.
pub open spec fn le16_bytes(v: u16) -> Seq<u8> {
    seq![(v % 0x100) as u8, (v / 0x100) as u8]
}

/// The four bytes of `v`, least significant first.
pub open spec fn le32_bytes(v: u32) -> Seq<u8> {
    seq![
        (v % 0x100) as u8,
        (v / 0x100 % 0x100) as u8,
        (v / 0x1_0000 % 0x100) as u8,
        (v / 0x100_0000) as u8,
    ]
}

/// The eight bytes of `v`, least significant first.
pub open spec fn le64_bytes(v: u64) -> Seq<u8> {
    le32_bytes((v % 0x1_0000_0000) as u32) + le32_bytes((v / 0x1_0000_0000) as u32)
}

/// Reading the bytes of a 16-bit integer gives the integer back.
pub proof fn law_le16_round_trip(v: u16)
    ensures
        le16_bytes(v).len() == 2,
        le16(le16_bytes(v), 0) == v,
{
}

/// Reading the bytes of a 32-bit integer gives the integer back.
pub proof fn law_le32_round_trip(v: u32)
    ensures
        le32_bytes(v).len() == 4,
        le32(le32_bytes(v), 0) == v,
{
}

/// Reading the bytes of a 64-bit integer gives the integer back.
pub proof fn law_le64_round_trip(v: u64)
    ensures
        le64_bytes(v).len() == 8,
        le64(le64_bytes(v), 0) == v,
{
    let lo = (v % 0x1_0000_0000) as u32;
    let hi = (v / 0x1_0000_0000) as u32;
    law_le32_round_trip(lo);
    law_le32_round_trip(hi);
    let s = le64_bytes(v);
    assert(le32(s, 0) == le32(le32_bytes(lo), 0));
    assert(le32(s, 4) == le32(le32_bytes(hi), 0));
}

/// Four bytes are the bytes of the integer they spell.
pub proof fn law_le32_bytes_of_value(s: Seq<u8>)
    requires
        s.len() == 4,
    ensures
        le32_bytes(le32(s, 0)) == s,
{
    let v = le32(s, 0);
    let r1 = s[1] + 0x100 * s[2] + 0x1_0000 * s[3];
    let r2 = s[2] + 0x100 * s[3];
    assert(v == s[0] + 0x100 * r1);
    assert(v / 0x100 == r1 && v % 0x100 == s[0]);
    assert(r1 == s[1] + 0x100 * r2);
    assert(r1 / 0x100 == r2 && r1 % 0x100 == s[1]);
    assert(v / 0x1_0000 == r2);
    assert(r2 / 0x100 == s[3] && r2 % 0x100 == s[2]);
    assert(v / 0x100_0000 == s[3]);
    assert(le32_bytes(v) =~= s);
}

/// The integer at index `i` is the one that the subrange from `i` on spells.
pub proof fn lemma_le16_at(s: Seq<u8>, i: int)
    requires
        0 <= i,
        i + 2 <= s.len(),
    ensures
        le16(s, i) == le16(s.subrange(i, i + 2), 0),
{
}

/// The integer at index `i` is the one that the subrange from `i` on spells.
pub proof fn lemma_le32_at(s: Seq<u8>, i: int)
    requires
        0 <= i,
        i + 4 <= s.len(),
    ensures
        le32(s, i) == le32(s.subrange(i, i + 4), 0),
{
}

/// The integer at index `i` is the one that the subrange from `i` on spells.
pub proof fn lemma_le64_at(s: Seq<u8>, i: int)
    requires
        0 <= i,
        i + 8 <= s.len(),
    ensures
        le64(s, i) == le64(s.subrange(i, i + 8), 0),
{
}

/// Reads the 16-bit little-endian integer at index `i`.
pub fn get_le16(s: &[u8], i: usize) -> (v: u16)
    requires
        i + 2 <= s@.len(),
    ensures
        v == le16(s@, i as int),
{
    s[i] as u16 + 0x100 * (s[i + 1] as u16)
}

/// Reads the 32-bit little-endian integer at index `i`.
pub fn get_le32(s: &[u8], i: usize) -> (v: u32)
    requires
        i + 4 <= s@.len(),
    ensures
        v == le32(s@, i as int),
{
    s[i] as u32 + 0x100 * (s[i + 1] as u32) + 0x1_0000 * (s[i + 2] as u32) + 0x100_0000 * (s[i + 3] as u32)
}

/// Reads the 64-bit little-endian integer at index `i`.
pub fn get_le64(s: &[u8], i: usize) -> (v: u64)
    requires
        i + 8 <= s@.len(),
    ensures
        v == le64(s@, i as int),
{
    assert(s@.len() == s.len());
    get_le32(s, i) as u64 + 0x1_0000_0000 * (get_le32(s, i + 4) as u64)
}

/// The bytes of a 16-bit integer.
pub fn le16_vec(v: u16) -> (r: Vec<u8>)
    ensures
        r@ == le16_bytes(v),
{
    let mut r: Vec<u8> = Vec::new();
    push_le16(&mut r, v);
    assert(r@ =~= le16_bytes(v));
    r
}

/// The bytes of a 32-bit integer.
pub fn le32_vec(v: u32) -> (r: Vec<u8>)
    ensures
        r@ == le32_bytes(v),
{
    let mut r: Vec<u8> = Vec::new();
    push_le32(&mut r, v);
    assert(r@ =~= le32_bytes(v));
    r
}

/// The bytes of a 64-bit integer.
pub fn le64_vec(v: u64) -> (r: Vec<u8>)
    ensures
        r@ == le64_bytes(v),
{
    let mut r: Vec<u8> = Vec::new();
    push_le64(&mut r, v);
    assert(r@ =~= le64_bytes(v));
    r
}

/// Appends the bytes of a 16-bit integer.
pub fn push_le16(out: &mut Vec<u8>, v: u16)
    ensures
        final(out)@ == old(out)@ + le16_bytes(v),
{
    out.push((v % 0x100) as u8);
    out.push((v / 0x100) as u8);
    assert(out@ =~= old(out)@ + le16_bytes(v));
}

/// Appends the bytes of a 32-bit integer.
pub fn push_le32(out: &mut Vec<u8>, v: u32)
    ensures
        final(out)@ == old(out)@ + le32_bytes(v),
{
    out.push((v % 0x100) as u8);
    out.push((v / 0x100 % 0x100) as u8);
    out.push((v / 0x1_0000 % 0x100) as u8);
    out.push((v / 0x100_0000) as u8);
    assert(out@ =~= old(out)@ + le32_bytes(v));
}

/// Appends the bytes of a 64-bit integer.
pub fn push_le64(out: &mut Vec<u8>, v: u64)
    ensures
        final(out)@ == old(out)@ + le64_bytes(v),
{
    push_le32(out, (v % 0x1_0000_0000) as u32);
    push_le32(out, (v / 0x1_0000_0000) as u32);
    assert(out@ =~= old(out)@ + le64_bytes(v));
}

/// Appends a run of bytes.
pub fn push_bytes(out: &mut Vec<u8>, bytes: &[u8])
    ensures
        final(out)@ == old(out)@ + bytes@,
{
    out.extend_from_slice(bytes);
    assert(out@ =~= old(out)@ + bytes@);
}

/// A vector of `n` zero bytes.
pub fn zero_vec(n: usize) -> (r: Vec<u8>)
    ensures
        r@ == Seq::new(n as nat, |i: int| 0u8),
{
    let r: Vec<u8> = vec![0u8; n];
    assert(r@ =~= Seq::new(n as nat, |i: int| 0u8));
    r
}

/// The first `n` bytes of a slice.
pub fn prefix_vec(s: &[u8], n: usize) -> (r: Vec<u8>)
    requires
        n <= s@.len(),
    ensures
        r@ == s@.subrange(0, n as int),
{
    vstd::slice::slice_to_vec(vstd::slice::slice_subrange(s, 0, n))
}

/// The big-endian bytes of a 32-bit integer.
pub open spec fn be32_bytes(v: u32) -> Seq<u8> {
    seq![
        (v / 0x100_0000) as u8,
        (v / 0x1_0000 % 0x100) as u8,
        (v / 0x100 % 0x100) as u8,
        (v % 0x100) as u8,
    ]
}

/// The big-endian bytes of a 64-bit integer.
pub open spec fn be64_bytes(v: u64) -> Seq<u8> {
    be32_bytes((v / 0x1_0000_0000) as u32) + be32_bytes((v % 0x1_0000_0000) as u32)
}

} // verus!

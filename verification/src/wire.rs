//! Integers as bytes, least significant byte first.
use vstd::prelude::*;

verus! {

/// The 16-bit value of two bytes.
pub open spec fn le16(b0: u8, b1: u8) -> u16 {
    (b0 + 0x100 * b1) as u16
}

/// The 32-bit value of four bytes.
pub open spec fn le32(b0: u8, b1: u8, b2: u8, b3: u8) -> u32 {
    (b0 + 0x100 * b1 + 0x1_0000 * b2 + 0x100_0000 * b3) as u32
}

/// The 16-bit value at `at`.
pub open spec fn le16_at(s: Seq<u8>, at: int) -> u16 {
    le16(s[at], s[at + 1])
}

/// The 32-bit value at `at`.
pub open spec fn le32_at(s: Seq<u8>, at: int) -> u32 {
    le32(s[at], s[at + 1], s[at + 2], s[at + 3])
}

/// The two bytes of a 16-bit value.
pub open spec fn le16_bytes(v: u16) -> Seq<u8> {
    seq![(v % 0x100) as u8, (v / 0x100) as u8]
}

/// The four bytes of a 32-bit value.
pub open spec fn le32_bytes(v: u32) -> Seq<u8> {
    seq![
        (v % 0x100) as u8,
        (v / 0x100 % 0x100) as u8,
        (v / 0x1_0000 % 0x100) as u8,
        (v / 0x100_0000) as u8,
    ]
}

/// The eight bytes of a 64-bit value.
pub open spec fn le64_bytes(v: u64) -> Seq<u8> {
    le32_bytes((v % 0x1_0000_0000) as u32) + le32_bytes((v / 0x1_0000_0000) as u32)
}

/// Reading back the bytes of a 16-bit value gives the value.
pub proof fn le16_round_trips(v: u16)
    ensures
        le16_at(le16_bytes(v), 0) == v,
        le16_bytes(v).len() == 2,
{
}

/// Reading back the bytes of a 32-bit value gives the value.
pub proof fn le32_round_trips(v: u32)
    ensures
        le32_at(le32_bytes(v), 0) == v,
        le32_bytes(v).len() == 4,
{
}

/// Reads the 16-bit value at `at`.
pub fn u16_at(p: &[u8], at: usize) -> (v: u16)
    requires
        at + 2 <= p@.len(),
    ensures
        v == le16_at(p@, at as int),
{
    p[at] as u16 + 0x100 * (p[at + 1] as u16)
}

/// Reads the 32-bit value at `at`.
pub fn u32_at(p: &[u8], at: usize) -> (v: u32)
    requires
        at + 4 <= p@.len(),
    ensures
        v == le32_at(p@, at as int),
{
    p[at] as u32 + 0x100 * (p[at + 1] as u32) + 0x1_0000 * (p[at + 2] as u32) + 0x100_0000 * (
    p[at + 3] as u32)
}

/// Appends the bytes of a 32-bit value.
pub fn push_u32(out: &mut Vec<u8>, v: u32)
    ensures
        final(out)@ == old(out)@ + le32_bytes(v),
{
    out.push((v % 0x100) as u8);
    out.push((v / 0x100 % 0x100) as u8);
    out.push((v / 0x1_0000 % 0x100) as u8);
    out.push((v / 0x100_0000) as u8);
    assert(out@ =~= old(out)@ + le32_bytes(v));
}

/// Appends the bytes of a 64-bit value.
pub fn push_u64(out: &mut Vec<u8>, v: u64)
    ensures
        final(out)@ == old(out)@ + le64_bytes(v),
{
    push_u32(out, (v % 0x1_0000_0000) as u32);
    push_u32(out, (v / 0x1_0000_0000) as u32);
    assert(out@ =~= old(out)@ + le64_bytes(v));
}

/// Appends the bytes of a slice.
pub fn push_all(out: &mut Vec<u8>, bytes: &[u8])
    ensures
        final(out)@ == old(out)@ + bytes@,
{
    let mut i: usize = 0;
    while i < bytes.len()
        invariant
            i <= bytes@.len(),
            out@ == old(out)@ + bytes@.subrange(0, i as int),
        decreases bytes@.len() - i,
    {
        out.push(bytes[i]);
        i += 1;
        assert(bytes@.subrange(0, i as int) =~= bytes@.subrange(0, i - 1).push(bytes@[i - 1]));
    }
    assert(bytes@.subrange(0, i as int) =~= bytes@);
}

} // verus!

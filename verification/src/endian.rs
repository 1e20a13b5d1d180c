//! Fixed-width integer encodings used by the region and codec formats.

use vstd::prelude::*;

verus! {

/// Big-endian value of the four bytes of `s` starting at `at`.
pub open spec fn be32(s: Seq<u8>, at: int) -> nat {
    (s[at] as nat) * 16777216 + (s[at + 1] as nat) * 65536 + (s[at + 2] as nat) * 256 + (
    s[at + 3] as nat)
}

/// Little-endian value of the four bytes of `s` starting at `at`.
pub open spec fn le32(s: Seq<u8>, at: int) -> nat {
    (s[at + 3] as nat) * 16777216 + (s[at + 2] as nat) * 65536 + (s[at + 1] as nat) * 256 + (
    s[at] as nat)
}

/// Little-endian value of the two bytes of `s` starting at `at`.
pub open spec fn le16(s: Seq<u8>, at: int) -> nat {
    (s[at + 1] as nat) * 256 + (s[at] as nat)
}

/// The four big-endian bytes of `v`.
pub open spec fn be32_bytes(v: nat) -> Seq<u8> {
    seq![
        (v / 16777216 % 256) as u8,
        (v / 65536 % 256) as u8,
        (v / 256 % 256) as u8,
        (v % 256) as u8,
    ]
}

/// Decoding the encoding of a 32-bit value gives the value back.
pub proof fn lemma_be32_round_trip(v: nat)
    requires
        v <= u32::MAX,
    ensures
        be32_bytes(v).len() == 4,
        be32(be32_bytes(v), 0) == v,
{
    assert(be32(be32_bytes(v), 0) == v) by (nonlinear_arith)
        requires
            v <= u32::MAX,
    {
    }
}

/// The four little-endian bytes of `v`.
pub open spec fn le32_bytes(v: nat) -> Seq<u8> {
    seq![
        (v % 256) as u8,
        (v / 256 % 256) as u8,
        (v / 65536 % 256) as u8,
        (v / 16777216 % 256) as u8,
    ]
}

/// Decoding the little-endian encoding of a 32-bit value gives it back.
pub proof fn lemma_le32_round_trip(v: nat)
    requires
        v <= u32::MAX,
    ensures
        le32_bytes(v).len() == 4,
        le32(le32_bytes(v), 0) == v,
{
    assert(le32(le32_bytes(v), 0) == v) by (nonlinear_arith)
        requires
            v <= u32::MAX,
    {
    }
}

pub fn read_be32(s: &[u8], at: usize) -> (v: u32)
    requires
        at + 4 <= s@.len(),
    ensures
        v == be32(s@, at as int),
{
    let n = s.len();
    (s[at] as u32) * 16777216 + (s[at + 1] as u32) * 65536 + (s[at + 2] as u32) * 256 + (s[at
        + 3] as u32)
}

pub fn read_le32(s: &[u8], at: usize) -> (v: u32)
    requires
        at + 4 <= s@.len(),
    ensures
        v == le32(s@, at as int),
{
    let n = s.len();
    (s[at + 3] as u32) * 16777216 + (s[at + 2] as u32) * 65536 + (s[at + 1] as u32) * 256 + (
    s[at] as u32)
}

/// Appends the four big-endian bytes of `v`.
pub fn push_be32(out: &mut Vec<u8>, v: u32)
    ensures
        final(out)@ == old(out)@ + be32_bytes(v as nat),
{
    out.push((v / 16777216 % 256) as u8);
    out.push((v / 65536 % 256) as u8);
    out.push((v / 256 % 256) as u8);
    out.push((v % 256) as u8);
    assert(out@ =~= old(out)@ + be32_bytes(v as nat));
}

} // verus!

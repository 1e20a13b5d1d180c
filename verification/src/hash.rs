//! Hash helpers for already-read region data.

use vstd::prelude::*;

use crate::endian::{le32, read_le32};

verus! {

/// BLAKE3 digest of `data`, as the `blake3` crate computes it.
pub uninterp spec fn blake3_digest(data: Seq<u8>) -> Seq<u8>;

/// `blake3::hash(data).as_bytes()`: the 32-byte digest named by
/// `blake3_digest`.
#[verifier::external_body]
fn blake3_hash(data: &[u8]) -> (r: [u8; 32])
    ensures
        r@ == blake3_digest(data@),
{
    *blake3::hash(data).as_bytes()
}

/// Blake3 digest of a region-file header or other byte prefix.
pub fn header_hash(header: &[u8]) -> (r: [u8; 32])
    ensures
        r@ == blake3_digest(header@),
{
    blake3_hash(header)
}

/// Dimension identifier.
#[derive(Debug, Clone, Copy, PartialEq, Eq)]
pub struct Dimension {
    id: i32,
}

impl Dimension {
    pub closed spec fn id(self) -> i32 {
        self.id
    }

    pub fn new(id: i32) -> (r: Self)
        ensures
            r.id() == id,
    {
        Self { id }
    }

    pub fn raw(self) -> (r: i32)
        ensures
            r == self.id(),
    {
        self.id
    }
}

/// Identifier of a custom dimension: the first four bytes of the BLAKE3
/// digest of its path's UTF-8 bytes, read as a little-endian `i32`.
pub open spec fn custom_dimension_spec(relative: Seq<char>) -> i32 {
    (le32(blake3_digest(vstd::utf8::encode_utf8(relative)), 0) as u32) as i32
}

/// Stable dimension identifier derived from a custom dimension path.
pub fn custom_dimension_id(relative: &str) -> (r: Dimension)
    ensures
        r.id() == custom_dimension_spec(relative@),
{
    let digest = blake3_hash(relative.as_bytes());
    let raw = read_le32(digest.as_slice(), 0);
    Dimension::new(raw as i32)
}

} // verus!

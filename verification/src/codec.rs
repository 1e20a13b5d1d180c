//! Chunk compression framing and decompression.
//!
//! A stored chunk payload is a one-byte compression type followed by the
//! encoded body. Gzip and LZ4-Java framing are parsed here; the inflate
//! and LZ4 block decoders, and the CRC-32 and XXH32 checksums, come from
//! their crates.

use vstd::prelude::*;

use crate::endian::{le32_bytes, lemma_le32_round_trip, le16, le32, read_le32};
use crate::error::AnvilError;

verus! {

/// Compression formats supported by the Anvil chunk format.
#[derive(Debug, Clone, Copy, PartialEq, Eq)]
pub enum Compression {
    /// `1`: Gzip-compressed NBT.
    Gzip,
    /// `2`: Zlib-compressed NBT.
    Zlib,
    /// `3`: Uncompressed NBT.
    Raw,
    /// `4`: Java's `LZ4BlockOutputStream` framing.
    Lz4,
}

/// Meaning of an Anvil compression-type byte.
pub open spec fn compression_spec(byte: u8) -> Result<Compression, AnvilError> {
    if byte == 1 {
        Ok(Compression::Gzip)
    } else if byte == 2 {
        Ok(Compression::Zlib)
    } else if byte == 3 {
        Ok(Compression::Raw)
    } else if byte == 4 {
        Ok(Compression::Lz4)
    } else if byte == 127 {
        Err(AnvilError::CustomCompression)
    } else if byte >= 128 {
        Err(AnvilError::ExternalBody(byte))
    } else {
        Err(AnvilError::UnknownCompression(byte))
    }
}

/// Decodes an Anvil compression-type byte.
///
/// Types `127` and `128..=255` are reported separately because they indicate
/// unsupported storage schemes rather than an unknown built-in codec.
pub fn compression_of(byte: u8) -> (r: Result<Compression, AnvilError>)
    ensures
        r == compression_spec(byte),
{
    match byte {
        1 => Ok(Compression::Gzip),
        2 => Ok(Compression::Zlib),
        3 => Ok(Compression::Raw),
        4 => Ok(Compression::Lz4),
        127 => Err(AnvilError::CustomCompression),
        128..=255 => Err(AnvilError::ExternalBody(byte)),
        _ => Err(AnvilError::UnknownCompression(byte)),
    }
}

/// Largest decompressed chunk the decoders produce (64 MiB).
pub const MAX_DECOMPRESSED: usize = 67_108_864;

// ---------------------------------------------------------------------------
// Results of the outside decoders and checksums
// ---------------------------------------------------------------------------
/// Why a capped inflate failed.
#[derive(Debug, Clone, Copy, PartialEq, Eq)]
pub enum InflateFailure {
    /// The output would exceed the cap.
    LimitReached,
    /// The input is not a valid stream.
    Malformed,
}

/// What `miniz_oxide` inflates from a zlib stream with an output cap.
pub uninterp spec fn zlib_inflated(data: Seq<u8>, limit: nat) -> Result<Seq<u8>, InflateFailure>;

/// What `miniz_oxide` inflates from a raw deflate stream with an output cap.
pub uninterp spec fn deflate_inflated(data: Seq<u8>, limit: nat) -> Result<
    Seq<u8>,
    InflateFailure,
>;

/// CRC-32 (IEEE) of `data`, as `crc32fast` computes it.
pub uninterp spec fn crc32_of(data: Seq<u8>) -> u32;

/// XXH32 of `data` with `seed`, widened to 64 bits as `twox_hash`'s
/// `Hasher::finish` returns it.
pub uninterp spec fn xxh32_of(seed: u32, data: Seq<u8>) -> u64;

/// What `lz4_flex` decodes from an LZ4 block into a zeroed buffer of
/// `capacity` bytes: the buffer afterwards, and the number of bytes written
/// when the decode succeeds.
pub uninterp spec fn lz4_block_decoded(block: Seq<u8>, capacity: nat) -> (Seq<u8>, Option<nat>);

/// `miniz_oxide::inflate::decompress_to_vec_zlib_with_limit`: the output is
/// named by `zlib_inflated`; a success never exceeds the limit, and a
/// `HasMoreOutput` status is reported as `LimitReached`.
#[verifier::external_body]
fn inflate_zlib(body: &[u8], limit: usize) -> (r: Result<Vec<u8>, InflateFailure>)
    ensures
        match r {
            Ok(out) => zlib_inflated(body@, limit as nat) == Ok::<Seq<u8>, InflateFailure>(out@)
                && out@.len() <= limit,
            Err(f) => zlib_inflated(body@, limit as nat) == Err::<Seq<u8>, InflateFailure>(f),
        },
{
    match miniz_oxide::inflate::decompress_to_vec_zlib_with_limit(body, limit) {
        Ok(out) => Ok(out),
        Err(err) => match err.status {
            miniz_oxide::inflate::TINFLStatus::HasMoreOutput => Err(InflateFailure::LimitReached),
            _ => Err(InflateFailure::Malformed),
        },
    }
}

/// `miniz_oxide::inflate::decompress_to_vec_with_limit`: the output is
/// named by `deflate_inflated`; a success never exceeds the limit, and a
/// `HasMoreOutput` status is reported as `LimitReached`.
#[verifier::external_body]
fn inflate_raw(body: &[u8], limit: usize) -> (r: Result<Vec<u8>, InflateFailure>)
    ensures
        match r {
            Ok(out) => deflate_inflated(body@, limit as nat) == Ok::<Seq<u8>, InflateFailure>(
                out@,
            ) && out@.len() <= limit,
            Err(f) => deflate_inflated(body@, limit as nat) == Err::<Seq<u8>, InflateFailure>(f),
        },
{
    match miniz_oxide::inflate::decompress_to_vec_with_limit(body, limit) {
        Ok(out) => Ok(out),
        Err(err) => match err.status {
            miniz_oxide::inflate::TINFLStatus::HasMoreOutput => Err(InflateFailure::LimitReached),
            _ => Err(InflateFailure::Malformed),
        },
    }
}

/// `crc32fast::Hasher` fed `data`, then finalized.
#[verifier::external_body]
fn crc32(data: &[u8]) -> (r: u32)
    ensures
        r == crc32_of(data@),
{
    let mut hasher = crc32fast::Hasher::new();
    hasher.update(data);
    hasher.finalize()
}

/// `twox_hash::XxHash32::with_seed(seed)` fed `data`, then `finish`ed; the
/// value is the 32-bit hash, so it fits in 32 bits.
#[verifier::external_body]
fn xxh32(seed: u32, data: &[u8]) -> (r: u64)
    ensures
        r == xxh32_of(seed, data@),
        r <= u32::MAX,
{
    let mut hasher = twox_hash::XxHash32::with_seed(seed);
    core::hash::Hasher::write(&mut hasher, data);
    core::hash::Hasher::finish(&hasher)
}

/// `lz4_flex::block::decompress_into` on a zeroed buffer of `len` bytes:
/// the buffer afterwards (whatever the decode wrote, also when it failed)
/// and the byte count of a success are named by `lz4_block_decoded`; the
/// buffer keeps its length and the count never exceeds it.
#[verifier::external_body]
fn lz4_decode_block(block: &[u8], len: usize) -> (r: (Vec<u8>, Option<usize>))
    ensures
        lz4_block_decoded(block@, len as nat) == (r.0@, match r.1 {
            Some(n) => Some(n as nat),
            None => None,
        }),
        r.0@.len() == len,
        r.1 matches Some(n) ==> n <= len,
{
    let mut buf = vec![0u8; len];
    match lz4_flex::block::decompress_into(block, &mut buf) {
        Ok(n) => (buf, Some(n)),
        Err(_) => (buf, None),
    }
}

// ---------------------------------------------------------------------------
// Gzip
// ---------------------------------------------------------------------------
/// Position just past the first zero byte at or after `pos`.
pub open spec fn zero_terminated_end(b: Seq<u8>, pos: int) -> Option<int>
    decreases b.len() - pos,
{
    if pos < 0 || pos >= b.len() {
        None
    } else if b[pos] == 0 {
        Some(pos + 1)
    } else {
        zero_terminated_end(b, pos + 1)
    }
}

/// Position past the optional gzip header fields selected by `flags`,
/// starting at `pos`: extra field, file name, comment, header CRC.
pub open spec fn gzip_optional_end(b: Seq<u8>, flags: u8, pos: int) -> Option<int> {
    let extra = if flags & 0x04u8 != 0 {
        if pos + 2 > b.len() || pos + 2 + le16(b, pos) > b.len() {
            None
        } else {
            Some(pos + 2 + le16(b, pos))
        }
    } else {
        Some(pos)
    };
    let name = match extra {
        None => None,
        Some(p) => if flags & 0x08u8 != 0 {
            zero_terminated_end(b, p)
        } else {
            Some(p)
        },
    };
    let comment = match name {
        None => None,
        Some(p) => if flags & 0x10u8 != 0 {
            zero_terminated_end(b, p)
        } else {
            Some(p)
        },
    };
    match comment {
        None => None,
        Some(p) => if flags & 0x02u8 != 0 {
            if p + 2 > b.len() {
                None
            } else {
                Some(p + 2)
            }
        } else {
            Some(p)
        },
    }
}

/// Position where the deflate stream of a gzip member starts, or `None`
/// when its header is malformed or uses reserved flags.
pub open spec fn gzip_header_end(b: Seq<u8>) -> Option<int> {
    if b.len() < 10 || b[0] != 0x1Fu8 || b[1] != 0x8Bu8 || b[2] != 8u8 || b[3] & 0xE0u8 != 0 {
        None
    } else {
        gzip_optional_end(b, b[3], 10)
    }
}

/// Contents of a gzip member: its deflate stream inflated under the cap,
/// checked against the CRC-32 and length of its eight-byte trailer.
pub open spec fn gunzipped(b: Seq<u8>) -> Result<Seq<u8>, AnvilError> {
    match gzip_header_end(b) {
        None => Err(AnvilError::Gzip),
        Some(pos) => if b.len() < 8 || pos > b.len() - 8 {
            Err(AnvilError::Gzip)
        } else {
            let end = b.len() - 8;
            match deflate_inflated(b.subrange(pos, end), MAX_DECOMPRESSED as nat) {
                Err(InflateFailure::LimitReached) => Err(AnvilError::OutputTooLarge),
                Err(InflateFailure::Malformed) => Err(AnvilError::Gzip),
                Ok(d) => if crc32_of(d) as nat != le32(b, end) || d.len() != le32(b, end + 4) {
                    Err(AnvilError::Gzip)
                } else {
                    Ok(d)
                },
            }
        },
    }
}

fn read_u8(input: &[u8], pos: &mut usize) -> (r: Result<u8, AnvilError>)
    ensures
        match r {
            Ok(byte) => *old(pos) < input@.len() && byte == input@[*old(pos) as int] && *final(pos)
                == *old(pos) + 1,
            Err(e) => *old(pos) >= input@.len() && e == AnvilError::Gzip && *final(pos) == *old(
                pos,
            ),
        },
{
    if *pos >= input.len() {
        return Err(AnvilError::Gzip);
    }
    let byte = input[*pos];
    *pos += 1;
    Ok(byte)
}

fn read_u16_le(input: &[u8], pos: &mut usize) -> (r: Result<u16, AnvilError>)
    requires
        *old(pos) <= input@.len(),
    ensures
        match r {
            Ok(v) => *old(pos) + 2 <= input@.len() && v == le16(input@, *old(pos) as int)
                && *final(pos) == *old(pos) + 2,
            Err(e) => *old(pos) + 2 > input@.len() && e == AnvilError::Gzip && *final(pos)
                == *old(pos),
        },
{
    if input.len() - *pos < 2 {
        return Err(AnvilError::Gzip);
    }
    let v = (input[*pos + 1] as u16) * 256 + input[*pos] as u16;
    *pos += 2;
    Ok(v)
}

fn skip(input: &[u8], pos: &mut usize, len: usize) -> (r: Result<(), AnvilError>)
    ensures
        match r {
            Ok(_) => *old(pos) + len <= input@.len() && *final(pos) == *old(pos) + len,
            Err(e) => *old(pos) + len > input@.len() && e == AnvilError::Gzip && *final(pos)
                == *old(pos),
        },
{
    let n = input.len();
    let end = match pos.checked_add(len) {
        Some(end) => end,
        None => {
            return Err(AnvilError::Gzip);
        },
    };
    if end > input.len() {
        return Err(AnvilError::Gzip);
    }
    *pos = end;
    Ok(())
}

/// Skips a zero-terminated header field.
fn skip_zero_terminated(input: &[u8], pos: &mut usize) -> (r: Result<(), AnvilError>)
    ensures
        match r {
            Ok(_) => zero_terminated_end(input@, *old(pos) as int) == Some(*final(pos) as int),
            Err(e) => zero_terminated_end(input@, *old(pos) as int) is None && e == AnvilError::Gzip,
        },
    decreases input@.len() - *old(pos),
{
    let byte = read_u8(input, pos)?;
    if byte != 0 {
        skip_zero_terminated(input, pos)
    } else {
        Ok(())
    }
}

fn gunzip_capped(body: &[u8], out: &mut Vec<u8>) -> (r: Result<(), AnvilError>)
    ensures
        match r {
            Ok(_) => gunzipped(body@) matches Ok(d) && final(out)@ == old(out)@ + d && d.len()
                <= MAX_DECOMPRESSED,
            Err(e) => gunzipped(body@) == Err::<Seq<u8>, AnvilError>(e) && final(out)@ == old(
                out,
            )@,
        },
{
    let ghost b = body@;
    let mut pos: usize = 0;
    if read_u8(body, &mut pos)? != 0x1F || read_u8(body, &mut pos)? != 0x8B || read_u8(
        body,
        &mut pos,
    )? != 8 {
        return Err(AnvilError::Gzip);
    }
    let flags = read_u8(body, &mut pos)?;
    if flags & 0xE0 != 0 {
        return Err(AnvilError::Gzip);
    }
    skip(body, &mut pos, 6)?;
    assert(gzip_header_end(b) == gzip_optional_end(b, flags, 10));
    if flags & 0x04 != 0 {
        let len = read_u16_le(body, &mut pos)? as usize;
        skip(body, &mut pos, len)?;
    }
    let ghost after_extra = pos as int;
    if flags & 0x08 != 0 {
        skip_zero_terminated(body, &mut pos)?;
    }
    if flags & 0x10 != 0 {
        skip_zero_terminated(body, &mut pos)?;
    }
    if flags & 0x02 != 0 {
        skip(body, &mut pos, 2)?;
    }
    assert(gzip_header_end(b) == Some(pos as int));
    if body.len() < 8 {
        return Err(AnvilError::Gzip);
    }
    let end = body.len() - 8;
    if pos > end {
        return Err(AnvilError::Gzip);
    }
    let stream = &body[pos..end];
    let footer = &body[end..body.len()];
    let decoded = match inflate_raw(stream, MAX_DECOMPRESSED) {
        Ok(decoded) => decoded,
        Err(InflateFailure::LimitReached) => {
            return Err(AnvilError::OutputTooLarge);
        },
        Err(InflateFailure::Malformed) => {
            return Err(AnvilError::Gzip);
        },
    };
    let crc = crc32(decoded.as_slice());
    let expected_crc = read_le32(footer, 0);
    assert(le32(footer@, 0) == le32(b, end as int));
    if crc != expected_crc {
        return Err(AnvilError::Gzip);
    }
    let isize = read_le32(footer, 4);
    assert(le32(footer@, 4) == le32(b, end + 4));
    if decoded.len() as u64 != isize as u64 {
        return Err(AnvilError::Gzip);
    }
    out.extend_from_slice(decoded.as_slice());
    Ok(())
}

// ---------------------------------------------------------------------------
// LZ4-Java block stream
// ---------------------------------------------------------------------------
/// Seed of the block checksums of Java's `LZ4BlockOutputStream`.
pub const LZ4_CHECKSUM_SEED: u32 = 0x9747_b28c;

/// Largest body a block of compression level `level` may hold:
/// `1 << (10 + level)`.
pub open spec fn lz4_max_block(level: int) -> int
    decreases level,
{
    if level <= 0 {
        1024
    } else {
        2 * lz4_max_block(level - 1)
    }
}

/// The eight magic bytes `LZ4Block` at `pos`.
pub open spec fn lz4_magic_at(b: Seq<u8>, pos: int) -> bool {
    &&& b[pos] == 0x4Cu8
    &&& b[pos + 1] == 0x5Au8
    &&& b[pos + 2] == 0x34u8
    &&& b[pos + 3] == 0x42u8
    &&& b[pos + 4] == 0x6Cu8
    &&& b[pos + 5] == 0x6Fu8
    &&& b[pos + 6] == 0x63u8
    &&& b[pos + 7] == 0x6Bu8
}

/// Checksum stored for a block body: XXH32 with the stream's seed, top
/// four bits dropped (as the Java implementation writes it).
pub open spec fn lz4_checksum(data: Seq<u8>) -> u32 {
    (xxh32_of(LZ4_CHECKSUM_SEED, data) & 0x0FFF_FFFFu64) as u32
}

/// Decoded contents of the LZ4-Java blocks from `pos` on, appended to
/// `acc`. The stream ends at the first block whose decompressed length is
/// zero; every header field, size and checksum is validated.
pub open spec fn lz4_from(b: Seq<u8>, pos: int, acc: Seq<u8>) -> Result<Seq<u8>, AnvilError>
    decreases b.len() - pos,
{
    if pos < 0 || pos + 21 > b.len() || !lz4_magic_at(b, pos) {
        Err(AnvilError::Lz4)
    } else {
        let token = b[pos + 8];
        let method = token & 0xF0u8;
        let level = token & 0x0Fu8;
        let clen = le32(b, pos + 9);
        let dlen = le32(b, pos + 13);
        let checksum = le32(b, pos + 17);
        let raw = method == 0x10u8;
        if method != 0x10u8 && method != 0x20u8 {
            Err(AnvilError::Lz4)
        } else if dlen > lz4_max_block(level as int) {
            Err(AnvilError::Lz4)
        } else if (clen == 0) != (dlen == 0) {
            Err(AnvilError::Lz4)
        } else if raw && clen != dlen {
            Err(AnvilError::Lz4)
        } else if dlen == 0 {
            if checksum == 0 {
                Ok(acc)
            } else {
                Err(AnvilError::Lz4)
            }
        } else if acc.len() + dlen > MAX_DECOMPRESSED {
            Err(AnvilError::OutputTooLarge)
        } else if pos + 21 + clen > b.len() {
            Err(AnvilError::Lz4)
        } else {
            let block = b.subrange(pos + 21, pos + 21 + clen);
            let decoded = if raw {
                Some(block)
            } else {
                match lz4_block_decoded(block, dlen) {
                    (buf, Some(n)) => if n == dlen {
                        Some(buf)
                    } else {
                        None
                    },
                    (_, None) => None,
                }
            };
            match decoded {
                None => Err(AnvilError::Lz4),
                Some(d) => if lz4_checksum(d) as nat != checksum {
                    Err(AnvilError::Lz4)
                } else {
                    lz4_from(b, pos + 21 + clen, acc + d)
                },
            }
        }
    }
}

/// What a failed decode of the LZ4-Java blocks from `pos` on leaves after
/// `acc`: the blocks that passed every check before the first failing one.
/// A block that fails its length or checksum check contributes nothing; a
/// compressed block that `lz4_flex` rejects leaves its whole buffer, zeroed
/// and partly written, as the decoder left it.
pub open spec fn lz4_kept(b: Seq<u8>, pos: int, acc: Seq<u8>) -> Seq<u8>
    decreases b.len() - pos,
{
    if pos < 0 || pos + 21 > b.len() || !lz4_magic_at(b, pos) {
        acc
    } else {
        let token = b[pos + 8];
        let method = token & 0xF0u8;
        let level = token & 0x0Fu8;
        let clen = le32(b, pos + 9);
        let dlen = le32(b, pos + 13);
        let checksum = le32(b, pos + 17);
        let raw = method == 0x10u8;
        if method != 0x10u8 && method != 0x20u8 {
            acc
        } else if dlen > lz4_max_block(level as int) {
            acc
        } else if (clen == 0) != (dlen == 0) {
            acc
        } else if raw && clen != dlen {
            acc
        } else if dlen == 0 {
            acc
        } else if acc.len() + dlen > MAX_DECOMPRESSED {
            acc
        } else if pos + 21 + clen > b.len() {
            acc
        } else {
            let block = b.subrange(pos + 21, pos + 21 + clen);
            if raw {
                if lz4_checksum(block) as nat != checksum {
                    acc
                } else {
                    lz4_kept(b, pos + 21 + clen, acc + block)
                }
            } else {
                match lz4_block_decoded(block, dlen) {
                    (buf, None) => acc + buf,
                    (buf, Some(n)) => if n != dlen || lz4_checksum(buf) as nat != checksum {
                        acc
                    } else {
                        lz4_kept(b, pos + 21 + clen, acc + buf)
                    },
                }
            }
        }
    }
}

/// Decodes Java's `LZ4BlockOutputStream` framing, appending to `out`.
///
/// This is not the standard LZ4 frame format.
fn unlz4(body: &[u8], out: &mut Vec<u8>) -> (r: Result<(), AnvilError>)
    ensures
        match r {
            Ok(_) => lz4_from(body@, 0, old(out)@) == Ok::<Seq<u8>, AnvilError>(final(out)@) && (
            final(out)@.len() == old(out)@.len() || final(out)@.len() <= MAX_DECOMPRESSED),
            Err(e) => lz4_from(body@, 0, old(out)@) == Err::<Seq<u8>, AnvilError>(e)
                && final(out)@ == lz4_kept(body@, 0, old(out)@),
        },
{
    let ghost b = body@;
    let ghost start = out@;
    let mut pos: usize = 0;
    loop
        invariant
            b == body@,
            start == old(out)@,
            pos <= body@.len(),
            lz4_from(b, 0, start) == lz4_from(b, pos as int, out@),
            lz4_kept(b, 0, start) == lz4_kept(b, pos as int, out@),
            out@.len() == start.len() || out@.len() <= MAX_DECOMPRESSED,
        decreases body@.len() - pos,
    {
        if body.len() - pos < 21 {
            return Err(AnvilError::Lz4);
        }
        if !(body[pos] == 0x4C && body[pos + 1] == 0x5A && body[pos + 2] == 0x34 && body[pos + 3]
            == 0x42 && body[pos + 4] == 0x6C && body[pos + 5] == 0x6F && body[pos + 6] == 0x63
            && body[pos + 7] == 0x6B) {
            return Err(AnvilError::Lz4);
        }
        let token = body[pos + 8];
        let method = token & 0xF0;
        let level = token & 0x0F;
        if method != 0x10 && method != 0x20 {
            return Err(AnvilError::Lz4);
        }
        let compressed_len = read_le32(body, pos + 9) as usize;
        let decompressed_len = read_le32(body, pos + 13) as usize;
        let checksum = read_le32(body, pos + 17);
        assert(level < 16) by (bit_vector)
            requires
                level == token & 0x0F,
        ;
        let mut max_body: usize = 1024;
        let mut i: u8 = 0;
        while i < level
            invariant
                i <= level < 16,
                max_body == lz4_max_block(i as int),
                max_body <= 1024 * 32768,
            decreases level - i,
        {
            proof {
                assert(lz4_max_block(i + 1) == 2 * lz4_max_block(i as int));
                lemma_lz4_max_block_bound(i + 1);
            }
            max_body = max_body * 2;
            i = i + 1;
        }
        if decompressed_len > max_body {
            return Err(AnvilError::Lz4);
        }
        if (compressed_len == 0) != (decompressed_len == 0) {
            return Err(AnvilError::Lz4);
        }
        let raw = method == 0x10;
        if raw && compressed_len != decompressed_len {
            return Err(AnvilError::Lz4);
        }
        if decompressed_len == 0 {
            if checksum == 0 {
                return Ok(());
            } else {
                return Err(AnvilError::Lz4);
            }
        }
        let header_end = pos + 21;
        if out.len() > MAX_DECOMPRESSED || MAX_DECOMPRESSED - out.len() < decompressed_len {
            return Err(AnvilError::OutputTooLarge);
        }
        if body.len() - header_end < compressed_len {
            return Err(AnvilError::Lz4);
        }
        let body_end = header_end + compressed_len;
        let block = &body[header_end..body_end];
        proof {
            let bp = pos as int;
            assert(token == b[bp + 8]);
            assert(compressed_len == le32(b, bp + 9));
            assert(decompressed_len == le32(b, bp + 13));
            assert(checksum == le32(b, bp + 17));
            assert(lz4_magic_at(b, bp));
            assert(block@ == b.subrange(bp + 21, bp + 21 + compressed_len));
        }
        let decoded: Vec<u8> = if raw {
            vstd::slice::slice_to_vec(block)
        } else {
            match lz4_decode_block(block, decompressed_len) {
                (buf, Some(n)) => {
                    if n != decompressed_len {
                        return Err(AnvilError::Lz4);
                    }
                    buf
                },
                (buf, None) => {
                    // The rejected block's buffer stays, as the decoder left it.
                    let ghost before = out@;
                    out.extend_from_slice(buf.as_slice());
                    assert(out@ =~= before + buf@);
                    assert(lz4_kept(b, pos as int, before) == before + buf@);
                    return Err(AnvilError::Lz4);
                },
            }
        };
        let computed = (xxh32(LZ4_CHECKSUM_SEED, decoded.as_slice()) & 0x0FFF_FFFF) as u32;
        if computed != checksum {
            return Err(AnvilError::Lz4);
        }
        let ghost old_out = out@;
        proof {
            let bp = pos as int;
            assert(token == b[bp + 8]);
            assert(compressed_len == le32(b, bp + 9));
            assert(decompressed_len == le32(b, bp + 13));
            assert(checksum == le32(b, bp + 17));
            assert(lz4_magic_at(b, bp));
            assert(block@ == b.subrange(bp + 21, bp + 21 + compressed_len));
            assert(computed == lz4_checksum(decoded@));
            assert(lz4_from(b, bp, old_out) == lz4_from(b, body_end as int, old_out + decoded@));
            assert(lz4_kept(b, bp, old_out) == lz4_kept(b, body_end as int, old_out + decoded@));
        }
        out.extend_from_slice(decoded.as_slice());
        assert(out@ =~= old_out + decoded@);
        pos = body_end;
    }
}

proof fn lemma_lz4_max_block_pos(a: int)
    ensures
        1024 <= lz4_max_block(a),
    decreases a,
{
    if a > 0 {
        lemma_lz4_max_block_pos(a - 1);
    }
}

proof fn lemma_lz4_max_block_mono(a: int, b: int)
    requires
        0 <= a <= b,
    ensures
        1024 <= lz4_max_block(a) <= lz4_max_block(b),
    decreases b,
{
    lemma_lz4_max_block_pos(a);
    if a < b {
        lemma_lz4_max_block_mono(a, b - 1);
        lemma_lz4_max_block_pos(b - 1);
    }
}

proof fn lemma_lz4_max_block_bound(level: int)
    requires
        0 <= level <= 15,
    ensures
        1024 <= lz4_max_block(level) <= 1024 * 32768,
        level > 0 ==> lz4_max_block(level) == 2 * lz4_max_block(level - 1),
{
    reveal_with_fuel(lz4_max_block, 16);
    assert(lz4_max_block(15) == 1024 * 32768);
    lemma_lz4_max_block_mono(level, 15);
}

// ---------------------------------------------------------------------------
// Payload decoding
// ---------------------------------------------------------------------------
/// Decoded body of a chunk stored with compression `c`.
pub open spec fn decoded_body(c: Compression, body: Seq<u8>) -> Result<Seq<u8>, AnvilError> {
    match c {
        Compression::Raw => if body.len() > MAX_DECOMPRESSED {
            Err(AnvilError::OutputTooLarge)
        } else {
            Ok(body)
        },
        Compression::Zlib => match zlib_inflated(body, MAX_DECOMPRESSED as nat) {
            Ok(d) => Ok(d),
            Err(InflateFailure::LimitReached) => Err(AnvilError::OutputTooLarge),
            Err(InflateFailure::Malformed) => Err(AnvilError::Zlib),
        },
        Compression::Gzip => gunzipped(body),
        Compression::Lz4 => lz4_from(body, 0, Seq::empty()),
    }
}

/// Compression and decoded contents of a stored chunk payload: the
/// compression-type byte, then the encoded body.
pub open spec fn decoded_payload(payload: Seq<u8>) -> Result<(Compression, Seq<u8>), AnvilError> {
    if payload.len() == 0 {
        Err(AnvilError::EmptyPayload)
    } else {
        match compression_spec(payload[0]) {
            Err(e) => Err(e),
            Ok(c) => match decoded_body(c, payload.drop_first()) {
                Err(e) => Err(e),
                Ok(d) => Ok((c, d)),
            },
        }
    }
}

/// Decompresses `payload` into `out`, reusing its allocation.
///
/// `payload` consists of the one-byte compression type followed by the
/// encoded chunk body. `out` is cleared before decoding.
pub fn decompress_into(payload: &[u8], out: &mut Vec<u8>) -> (r: Result<Compression, AnvilError>)
    ensures
        match r {
            Ok(c) => decoded_payload(payload@) == Ok::<(Compression, Seq<u8>), AnvilError>(
                (c, final(out)@),
            ) && final(out)@.len() <= MAX_DECOMPRESSED,
            Err(e) => decoded_payload(payload@) == Err::<(Compression, Seq<u8>), AnvilError>(e)
                && final(out)@ == (if payload@.len() > 0 && compression_spec(payload@[0])
                == Ok::<Compression, AnvilError>(Compression::Lz4) {
                lz4_kept(payload@.drop_first(), 0, Seq::empty())
            } else {
                Seq::empty()
            }),
        },
{
    out.clear();
    if payload.len() == 0 {
        return Err(AnvilError::EmptyPayload);
    }
    let kind = payload[0];
    let body = &payload[1..payload.len()];
    assert(body@ =~= payload@.drop_first());
    let codec = compression_of(kind)?;
    match codec {
        Compression::Raw => {
            if body.len() > MAX_DECOMPRESSED {
                return Err(AnvilError::OutputTooLarge);
            }
            out.extend_from_slice(body);
            assert(out@ =~= body@);
        },
        Compression::Zlib => {
            *out = match inflate_zlib(body, MAX_DECOMPRESSED) {
                Ok(decoded) => decoded,
                Err(InflateFailure::LimitReached) => {
                    return Err(AnvilError::OutputTooLarge);
                },
                Err(InflateFailure::Malformed) => {
                    return Err(AnvilError::Zlib);
                },
            };
        },
        Compression::Gzip => {
            gunzip_capped(body, out)?;
            assert(out@ =~= Seq::<u8>::empty() + out@);
        },
        Compression::Lz4 => {
            unlz4(body, out)?;
        },
    }
    Ok(codec)
}

/// Decompresses one raw chunk payload into NBT bytes.
pub fn decompress_chunk(compressed: &[u8]) -> (r: Result<Vec<u8>, AnvilError>)
    ensures
        match decoded_payload(compressed@) {
            Ok((_, d)) => r matches Ok(v) && v@ == d,
            Err(e) => r == Err::<Vec<u8>, AnvilError>(e),
        },
{
    let mut nbt = Vec::new();
    decompress_into(compressed, &mut nbt)?;
    Ok(nbt)
}

/// Empty root compound: the NBT a missing chunk diffs as.
pub open spec fn empty_compound() -> Seq<u8> {
    seq![10u8, 0u8, 0u8, 0u8]
}

/// Decompresses a chunk payload, or gives the empty root compound for a
/// missing chunk.
pub fn decompress_or_empty(compressed: Option<Vec<u8>>) -> (r: Result<Vec<u8>, AnvilError>)
    ensures
        match compressed {
            None => r matches Ok(v) && v@ == empty_compound(),
            Some(c) => match decoded_payload(c@) {
                Ok((_, d)) => r matches Ok(v) && v@ == d,
                Err(e) => r == Err::<Vec<u8>, AnvilError>(e),
            },
        },
{
    match compressed {
        None => {
            let v = vec![10u8, 0u8, 0u8, 0u8];
            assert(v@ =~= empty_compound());
            Ok(v)
        },
        Some(c) => decompress_chunk(c.as_slice()),
    }
}

/// The stream ends at its first empty block: whatever follows that block
/// is never read, so trailing bytes do not change what a valid stream
/// decodes to.
pub proof fn lemma_lz4_trailing_ignored(b: Seq<u8>, extra: Seq<u8>, pos: int, acc: Seq<u8>)
    requires
        lz4_from(b, pos, acc) is Ok,
    ensures
        lz4_from(b + extra, pos, acc) == lz4_from(b, pos, acc),
    decreases b.len() - pos,
{
    let c = b + extra;
    assert(0 <= pos && pos + 21 <= b.len());
    assert forall|i: int| pos <= i < pos + 21 implies c[i] == b[i] by {}
    assert(le32(c, pos + 9) == le32(b, pos + 9));
    assert(le32(c, pos + 13) == le32(b, pos + 13));
    assert(le32(c, pos + 17) == le32(b, pos + 17));
    let clen = le32(b, pos + 9);
    let dlen = le32(b, pos + 13);
    if dlen != 0 {
        assert(pos + 21 + clen <= b.len());
        assert(c.subrange(pos + 21, pos + 21 + clen) =~= b.subrange(pos + 21, pos + 21 + clen));
        let token = b[pos + 8];
        let raw = token & 0xF0u8 == 0x10u8;
        let block = b.subrange(pos + 21, pos + 21 + clen);
        let decoded = if raw {
            Some(block)
        } else {
            match lz4_block_decoded(block, dlen) {
                (buf, Some(n)) => if n == dlen {
                    Some(buf)
                } else {
                    None
                },
                (_, None) => None,
            }
        };
        if let Some(d) = decoded {
            lemma_lz4_trailing_ignored(b, extra, pos + 21 + clen, acc + d);
        }
    }
}

/// A raw payload decodes to its body, unchanged, while the body is within
/// the output bound.
pub proof fn lemma_raw_payload(body: Seq<u8>)
    requires
        body.len() <= MAX_DECOMPRESSED,
    ensures
        decoded_payload(seq![3u8] + body) == Ok::<(Compression, Seq<u8>), AnvilError>(
            (Compression::Raw, body),
        ),
{
    assert((seq![3u8] + body).drop_first() =~= body);
}

/// The eight magic bytes `LZ4Block`.
pub open spec fn lz4_magic() -> Seq<u8> {
    seq![0x4Cu8, 0x5Au8, 0x34u8, 0x42u8, 0x6Cu8, 0x6Fu8, 0x63u8, 0x6Bu8]
}

/// A stored (uncompressed) block holding `d`, with checksum field `c`.
pub open spec fn lz4_raw_block(d: Seq<u8>, c: u32) -> Seq<u8> {
    lz4_magic() + seq![0x10u8] + le32_bytes(d.len()) + le32_bytes(d.len()) + le32_bytes(c as nat)
        + d
}

/// The block that ends a stream: no data, checksum zero.
pub open spec fn lz4_end_block() -> Seq<u8> {
    lz4_magic() + seq![0x10u8] + Seq::new(12, |i: int| 0u8)
}

/// A stream of one stored block and the end block decodes to the block's
/// data exactly when its checksum field is the data's checksum; otherwise
/// it fails and nothing of the block is kept.
pub proof fn lemma_lz4_single_raw_block(d: Seq<u8>, c: u32, o: Seq<u8>)
    requires
        1 <= d.len() <= 1024,
        o.len() + d.len() <= MAX_DECOMPRESSED,
    ensures
        lz4_from(lz4_raw_block(d, c) + lz4_end_block(), 0, o) == (if c == lz4_checksum(d) {
            Ok::<Seq<u8>, AnvilError>(o + d)
        } else {
            Err::<Seq<u8>, AnvilError>(AnvilError::Lz4)
        }),
        c != lz4_checksum(d) ==> lz4_kept(lz4_raw_block(d, c) + lz4_end_block(), 0, o) == o,
{
    let n = d.len() as int;
    let body = lz4_raw_block(d, c) + lz4_end_block();
    lemma_le32_round_trip(d.len());
    lemma_le32_round_trip(c as nat);
    let len_bytes = le32_bytes(d.len());
    let c_bytes = le32_bytes(c as nat);
    assert(body.len() == 21 + n + 21);
    assert(lz4_magic_at(body, 0));
    assert(body[8] == 0x10u8);
    assert(body.subrange(9, 13) =~= len_bytes);
    assert(body.subrange(13, 17) =~= len_bytes);
    assert(body.subrange(17, 21) =~= c_bytes);
    assert(le32(body, 9) == le32(len_bytes, 0));
    assert(le32(body, 13) == le32(len_bytes, 0));
    assert(le32(body, 17) == le32(c_bytes, 0));
    assert(body.subrange(21, 21 + n) =~= d);
    assert(0x10u8 & 0xF0u8 == 0x10u8 && 0x10u8 & 0x0Fu8 == 0u8) by (bit_vector);
    assert(lz4_max_block(0) == 1024);
    let e = 21 + n;
    assert(lz4_magic_at(body, e));
    assert(body[e + 8] == 0x10u8);
    assert(le32(body, e + 9) == 0);
    assert(le32(body, e + 13) == 0);
    assert(le32(body, e + 17) == 0);
    assert(lz4_from(body, e, o + d) == Ok::<Seq<u8>, AnvilError>(o + d));
}

} // verus!

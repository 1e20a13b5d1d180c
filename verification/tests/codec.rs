use core::hash::Hasher as _;

use sekai::codec::{compression_of, decompress_chunk, decompress_into, decompress_or_empty, Compression};
use sekai::error::AnvilError;
use sekai::hash::{custom_dimension_id, header_hash};

fn zlib_body(data: &[u8]) -> Vec<u8> {
    let mut payload = Vec::from([2]);
    payload.extend_from_slice(&miniz_oxide::deflate::compress_to_vec_zlib(data, 6));
    payload
}

fn gzip_body(data: &[u8], name: Option<&[u8]>) -> Vec<u8> {
    let mut payload = Vec::from([1, 0x1F, 0x8B, 0x08]);
    let flags = u8::from(name.is_some()) << 3;
    payload.push(flags);
    payload.extend_from_slice(&[0, 0, 0, 0, 0, 0]);
    if let Some(name) = name {
        payload.extend_from_slice(name);
        payload.push(0);
    }
    payload.extend_from_slice(&miniz_oxide::deflate::compress_to_vec(data, 6));
    let mut crc = crc32fast::Hasher::new();
    crc.update(data);
    payload.extend_from_slice(&crc.finalize().to_le_bytes());
    let isize = u32::try_from(data.len()).unwrap();
    payload.extend_from_slice(&isize.to_le_bytes());
    payload
}

fn lz4_checksum(body: &[u8]) -> [u8; 4] {
    let mut xx = twox_hash::XxHash32::with_seed(0x9747_b28c);
    xx.write(body);
    ((xx.finish() & 0x0FFF_FFFF) as u32).to_le_bytes()
}

fn lz4_block(token: u8, stored: &[u8], raw_len: u32, checksummed: &[u8]) -> Vec<u8> {
    let mut block = Vec::from(*b"LZ4Block");
    block.push(token);
    block.extend_from_slice(&u32::try_from(stored.len()).unwrap().to_le_bytes());
    block.extend_from_slice(&raw_len.to_le_bytes());
    block.extend_from_slice(&lz4_checksum(checksummed));
    block.extend_from_slice(stored);
    block
}

fn lz4_empty() -> Vec<u8> {
    let mut block = Vec::from(*b"LZ4Block");
    block.push(0x10);
    block.extend_from_slice(&[0; 12]);
    block
}

#[test]
fn detects_all_four_codecs() {
    let mut out = Vec::new();
    let mut payload = Vec::from([3]);
    payload.extend_from_slice(b"nbt-bytes");
    assert_eq!(decompress_into(&payload, &mut out), Ok(Compression::Raw));
    assert_eq!(out, b"nbt-bytes");
}

#[test]
fn gzip_zlib_and_lz4_round_trip() {
    let body = b"fake-nbt-body";
    let mut out = Vec::new();
    assert_eq!(decompress_into(&zlib_body(body), &mut out), Ok(Compression::Zlib));
    assert_eq!(out, body);
    assert_eq!(decompress_into(&gzip_body(body, None), &mut out), Ok(Compression::Gzip));
    assert_eq!(out, body);
    assert_eq!(
        decompress_into(&gzip_body(body, Some(b"name")), &mut out),
        Ok(Compression::Gzip)
    );
    assert_eq!(out, body);

    let raw_len = u32::try_from(body.len()).unwrap();
    let mut payload = Vec::from([4]);
    payload.extend_from_slice(&lz4_block(0x10, body, raw_len, body));
    payload.extend_from_slice(&lz4_empty());
    assert_eq!(decompress_into(&payload, &mut out), Ok(Compression::Lz4));
    assert_eq!(out, body);

    let mut coded = Vec::from([4]);
    coded.extend_from_slice(&lz4_block(0x20, b"\x50hello", 5, b"hello"));
    coded.extend_from_slice(&lz4_empty());
    assert_eq!(decompress_into(&coded, &mut out), Ok(Compression::Lz4));
    assert_eq!(out, b"hello");
}

#[test]
fn rejects_empty_unknown_and_corrupt() {
    let mut out = Vec::new();
    assert_eq!(decompress_into(&[], &mut out), Err(AnvilError::EmptyPayload));
    assert_eq!(decompress_into(&[9, 0], &mut out), Err(AnvilError::UnknownCompression(9)));
    assert_eq!(decompress_into(&[127, 0], &mut out), Err(AnvilError::CustomCompression));
    assert_eq!(decompress_into(&[128, 0], &mut out), Err(AnvilError::ExternalBody(128)));
    assert_eq!(decompress_into(&[130, 0], &mut out), Err(AnvilError::ExternalBody(130)));
    assert_eq!(decompress_into(&[1, 0, 1, 2, 3], &mut out), Err(AnvilError::Gzip));

    let mut bad = Vec::from([4]);
    bad.extend_from_slice(b"BADMagic");
    bad.extend_from_slice(&[0; 13]);
    assert_eq!(decompress_into(&bad, &mut out), Err(AnvilError::Lz4));
    assert_eq!(decompress_into(&[4, 1], &mut out), Err(AnvilError::Lz4));

    let mut payload = Vec::from([4]);
    let mut block = lz4_block(0x10, b"data", 4, b"data");
    let last = block.len() - 1;
    block[last] ^= 0xFF;
    payload.extend_from_slice(&block);
    payload.extend_from_slice(&lz4_empty());
    assert_eq!(decompress_into(&payload, &mut out), Err(AnvilError::Lz4));
}

#[test]
fn output_is_cleared_before_reuse() {
    let mut out = Vec::from([9, 9, 9]);
    let mut payload = Vec::from([3]);
    payload.extend_from_slice(b"ab");
    decompress_into(&payload, &mut out).unwrap();
    assert_eq!(out, b"ab");
}

#[test]
fn classifies_compression_bytes() {
    assert_eq!(compression_of(1), Ok(Compression::Gzip));
    assert_eq!(compression_of(2), Ok(Compression::Zlib));
    assert_eq!(compression_of(3), Ok(Compression::Raw));
    assert_eq!(compression_of(4), Ok(Compression::Lz4));
    assert_eq!(compression_of(0), Err(AnvilError::UnknownCompression(0)));
    assert_eq!(compression_of(126), Err(AnvilError::UnknownCompression(126)));
    assert_eq!(compression_of(255), Err(AnvilError::ExternalBody(255)));
}

#[test]
fn gzip_checks_trailer_and_flags() {
    let body = b"fake-nbt-body";
    let mut out = Vec::new();
    let mut bad_crc = gzip_body(body, None);
    let n = bad_crc.len();
    bad_crc[n - 8] ^= 1;
    assert_eq!(decompress_into(&bad_crc, &mut out), Err(AnvilError::Gzip));
    let mut bad_len = gzip_body(body, None);
    bad_len[n - 4] ^= 1;
    assert_eq!(decompress_into(&bad_len, &mut out), Err(AnvilError::Gzip));
    let mut reserved = gzip_body(body, None);
    reserved[4] = 0x20;
    assert_eq!(decompress_into(&reserved, &mut out), Err(AnvilError::Gzip));
    let unterminated = [1u8, 0x1F, 0x8B, 0x08, 0x08, 0, 0, 0, 0, 0, 0, b'a', b'b'];
    assert_eq!(decompress_into(&unterminated, &mut out), Err(AnvilError::Gzip));
    assert_eq!(decompress_into(&[2, 0, 0], &mut out), Err(AnvilError::Zlib));
}

#[test]
fn lz4_rejects_incoherent_headers() {
    let mut out = Vec::new();
    // Raw block whose stored and decoded lengths differ.
    let mut payload = Vec::from([4]);
    payload.extend_from_slice(&lz4_block(0x10, b"data", 5, b"data"));
    payload.extend_from_slice(&lz4_empty());
    assert_eq!(decompress_into(&payload, &mut out), Err(AnvilError::Lz4));
    // Unknown method nibble.
    let mut payload = Vec::from([4]);
    payload.extend_from_slice(&lz4_block(0x30, b"data", 4, b"data"));
    assert_eq!(decompress_into(&payload, &mut out), Err(AnvilError::Lz4));
    // Decoded length beyond the block's level.
    let mut payload = Vec::from([4]);
    let big = vec![1u8; 2000];
    payload.extend_from_slice(&lz4_block(0x10, &big, 2000, &big));
    assert_eq!(decompress_into(&payload, &mut out), Err(AnvilError::Lz4));
    // The same block at level 1 is accepted.
    let mut payload = Vec::from([4]);
    payload.extend_from_slice(&lz4_block(0x11, &big, 2000, &big));
    payload.extend_from_slice(&lz4_empty());
    assert_eq!(decompress_into(&payload, &mut out), Ok(Compression::Lz4));
    assert_eq!(out, big);
    // Empty terminator with a non-zero checksum.
    let mut payload = Vec::from([4]);
    let mut end = lz4_empty();
    end[20] = 1;
    payload.extend_from_slice(&end);
    assert_eq!(decompress_into(&payload, &mut out), Err(AnvilError::Lz4));
    // Missing terminator.
    let mut payload = Vec::from([4]);
    payload.extend_from_slice(&lz4_block(0x10, b"data", 4, b"data"));
    assert_eq!(decompress_into(&payload, &mut out), Err(AnvilError::Lz4));
}

#[test]
fn decompresses_chunks_or_gives_empty_compound() {
    assert_eq!(decompress_chunk(&[3, 7, 8]), Ok(vec![7, 8]));
    assert_eq!(decompress_chunk(&[]), Err(AnvilError::EmptyPayload));
    assert_eq!(decompress_or_empty(None), Ok(vec![10, 0, 0, 0]));
    assert_eq!(decompress_or_empty(Some(vec![3, 1])), Ok(vec![1]));
}

#[test]
fn header_hash_is_stable() {
    assert_eq!(header_hash(b"abc"), header_hash(b"abc"));
    assert_ne!(header_hash(b"abc"), header_hash(b"xyz"));
    assert_eq!(header_hash(b"abc"), *blake3::hash(b"abc").as_bytes());
}

#[test]
fn custom_ids_are_stable() {
    let a = custom_dimension_id("dimensions/aether/sky");
    assert_eq!(a, custom_dimension_id("dimensions/aether/sky"));
    assert_ne!(a, custom_dimension_id("dimensions/aether/other"));
    let digest = blake3::hash(b"dimensions/aether/sky");
    let b = digest.as_bytes();
    assert_eq!(a.raw(), i32::from_le_bytes([b[0], b[1], b[2], b[3]]));
}

#[test]
fn errors_leave_the_output_cleared() {
    let mut out = vec![9, 9, 9];
    assert_eq!(decompress_into(&[], &mut out), Err(AnvilError::EmptyPayload));
    assert!(out.is_empty());
    out.extend_from_slice(&[1, 2]);
    assert_eq!(decompress_into(&[2, 0xFF, 0xFF], &mut out), Err(AnvilError::Zlib));
    assert!(out.is_empty());
    out.push(7);
    assert_eq!(decompress_into(&[1, 0x1F, 0x8B, 0x08], &mut out), Err(AnvilError::Gzip));
    assert!(out.is_empty());
}

#[test]
fn lz4_keeps_good_blocks_and_drops_a_failing_one() {
    let good = lz4_block(0x10, b"abc", 3, b"abc");
    let bad = lz4_block(0x10, b"xyz", 3, b"not xyz");
    let mut payload = Vec::from([4]);
    payload.extend_from_slice(&good);
    payload.extend_from_slice(&bad);
    payload.extend_from_slice(&lz4_empty());
    let mut out = Vec::new();
    assert_eq!(decompress_into(&payload, &mut out), Err(AnvilError::Lz4));
    assert_eq!(out, b"abc");

    let mut payload = Vec::from([4]);
    payload.extend_from_slice(&good);
    payload.extend_from_slice(&lz4_empty());
    assert_eq!(decompress_into(&payload, &mut out), Ok(Compression::Lz4));
    assert_eq!(out, b"abc");
}

#[test]
fn lz4_keeps_the_buffer_of_a_block_the_decoder_rejects() {
    let good = lz4_block(0x10, b"abc", 3, b"abc");
    let broken = lz4_block(0x20, &[0xF0], 4, &[0, 0, 0, 0]);
    let mut payload = Vec::from([4]);
    payload.extend_from_slice(&good);
    payload.extend_from_slice(&broken);
    payload.extend_from_slice(&lz4_empty());
    let mut out = Vec::new();
    assert_eq!(decompress_into(&payload, &mut out), Err(AnvilError::Lz4));
    assert_eq!(out.len(), 3 + 4);
    assert_eq!(&out[..3], b"abc");
}

//! Errors produced while parsing or rebuilding Anvil region images.

use vstd::prelude::*;

use crate::text::{decimal, push_decimal, push_signed_decimal, signed_decimal};

verus! {

/// Errors produced while reading or rebuilding `.mca` images.
#[allow(inconsistent_fields)]
#[derive(Debug, Clone, PartialEq, Eq)]
pub enum AnvilError {
    /// File name was not `r.<x>.<z>.mca`.
    BadFilename { name: String },
    /// Region coordinates cannot address all 32 chunk columns.
    CoordinateOverflow { region_x: i32, region_z: i32 },
    /// Image is shorter than the 8 KiB header.
    TruncatedFile { len: u64 },
    /// Image length is not a whole number of 4 KiB sectors.
    MisalignedFile { len: u64 },
    /// A location-table entry is invalid or points outside the image.
    CorruptEntry { index: u32, offset: u32, sectors: u32 },
    /// A chunk length prefix is invalid for its allocated sectors.
    CorruptChunk { index: u32, len: u32 },
    /// A chunk payload has no compression-type byte.
    EmptyPayload,
    /// A chunk would require more than the 255 addressable sectors.
    ChunkTooLarge { len: usize },
    /// The rebuilt image exceeds the 24-bit sector-offset range.
    ImageTooLarge { sectors: u64 },
    /// A chunk coordinate does not belong to the selected region.
    WrongRegion { region_x: i32, region_z: i32, x: i32, z: i32 },
    /// The compression type is not recognized.
    UnknownCompression(u8),
    /// Type `127`: third-party custom compression.
    CustomCompression,
    /// Type `>= 128`: chunk data is stored in an external `.mcc` file.
    ExternalBody(u8),
    /// Gzip framing or decompression failed.
    Gzip,
    /// Zlib decompression failed.
    Zlib,
    /// LZ4-Java framing, decompression, or checksum validation failed.
    Lz4,
    /// Decompressed output exceeded the decoder safety limit.
    OutputTooLarge,
}

/// The message an error reads as.
pub open spec fn error_text(e: AnvilError) -> Seq<char> {
    match e {
        AnvilError::BadFilename { name } => "bad region file name (expected r.<x>.<z>.mca): "@
            + name@,
        AnvilError::CoordinateOverflow { region_x, region_z } => "region coordinates out of range: r."@
            + signed_decimal(region_x as int) + "."@ + signed_decimal(region_z as int),
        AnvilError::TruncatedFile { len } => "truncated region image: "@ + decimal(len as nat)
            + " bytes, need at least 8192"@,
        AnvilError::MisalignedFile { len } => "misaligned region image: "@ + decimal(len as nat)
            + " bytes, not a whole number of 4096-byte sectors"@,
        AnvilError::CorruptEntry { index, offset, sectors } => "corrupt location entry "@
            + decimal(index as nat) + ": offset "@ + decimal(offset as nat) + " sectors, "@
            + decimal(sectors as nat) + " sectors"@,
        AnvilError::CorruptChunk { index, len } => "corrupt chunk payload at entry "@ + decimal(
            index as nat,
        ) + ": declared length "@ + decimal(len as nat),
        AnvilError::EmptyPayload => "empty chunk payload: missing compression-type byte"@,
        AnvilError::ChunkTooLarge { len } => "chunk payload too large: "@ + decimal(len as nat)
            + " bytes need more than 255 sectors"@,
        AnvilError::ImageTooLarge { sectors } => "region image too large: "@ + decimal(
            sectors as nat,
        ) + " sectors exceed the offset range"@,
        AnvilError::WrongRegion { region_x, region_z, x, z } => "chunk ("@ + signed_decimal(
            x as int,
        ) + ", "@ + signed_decimal(z as int) + ") does not belong to r."@ + signed_decimal(
            region_x as int,
        ) + "."@ + signed_decimal(region_z as int),
        AnvilError::UnknownCompression(byte) => "unknown compression type: "@ + decimal(
            byte as nat,
        ),
        AnvilError::CustomCompression => "custom compression (type 127) from third-party servers is unsupported"@,
        AnvilError::ExternalBody(byte) => "external chunk body (type "@ + decimal(byte as nat)
            + "): payload lives in c.<x>.<z>.mcc, not the region file"@,
        AnvilError::Gzip => "gzip decode failed"@,
        AnvilError::Zlib => "zlib decode failed"@,
        AnvilError::Lz4 => "lz4 decode failed"@,
        AnvilError::OutputTooLarge => "decompressed output exceeded the safety bound"@,
    }
}

impl AnvilError {
    /// Human-readable description of the error.
    pub fn message(&self) -> (r: String)
        ensures
            r@ == error_text(*self),
    {
        let mut out = String::new();
        match self {
            AnvilError::BadFilename { name } => {
                out.append("bad region file name (expected r.<x>.<z>.mca): ");
                out.append(name.as_str());
            },
            AnvilError::CoordinateOverflow { region_x, region_z } => {
                out.append("region coordinates out of range: r.");
                push_signed_decimal(&mut out, *region_x as i64);
                out.append(".");
                push_signed_decimal(&mut out, *region_z as i64);
            },
            AnvilError::TruncatedFile { len } => {
                out.append("truncated region image: ");
                push_decimal(&mut out, *len);
                out.append(" bytes, need at least 8192");
            },
            AnvilError::MisalignedFile { len } => {
                out.append("misaligned region image: ");
                push_decimal(&mut out, *len);
                out.append(" bytes, not a whole number of 4096-byte sectors");
            },
            AnvilError::CorruptEntry { index, offset, sectors } => {
                out.append("corrupt location entry ");
                push_decimal(&mut out, *index as u64);
                out.append(": offset ");
                push_decimal(&mut out, *offset as u64);
                out.append(" sectors, ");
                push_decimal(&mut out, *sectors as u64);
                out.append(" sectors");
            },
            AnvilError::CorruptChunk { index, len } => {
                out.append("corrupt chunk payload at entry ");
                push_decimal(&mut out, *index as u64);
                out.append(": declared length ");
                push_decimal(&mut out, *len as u64);
            },
            AnvilError::EmptyPayload => {
                out.append("empty chunk payload: missing compression-type byte");
            },
            AnvilError::ChunkTooLarge { len } => {
                out.append("chunk payload too large: ");
                push_decimal(&mut out, *len as u64);
                out.append(" bytes need more than 255 sectors");
            },
            AnvilError::ImageTooLarge { sectors } => {
                out.append("region image too large: ");
                push_decimal(&mut out, *sectors);
                out.append(" sectors exceed the offset range");
            },
            AnvilError::WrongRegion { region_x, region_z, x, z } => {
                out.append("chunk (");
                push_signed_decimal(&mut out, *x as i64);
                out.append(", ");
                push_signed_decimal(&mut out, *z as i64);
                out.append(") does not belong to r.");
                push_signed_decimal(&mut out, *region_x as i64);
                out.append(".");
                push_signed_decimal(&mut out, *region_z as i64);
            },
            AnvilError::UnknownCompression(byte) => {
                out.append("unknown compression type: ");
                push_decimal(&mut out, *byte as u64);
            },
            AnvilError::CustomCompression => {
                out.append(
                    "custom compression (type 127) from third-party servers is unsupported",
                );
            },
            AnvilError::ExternalBody(byte) => {
                out.append("external chunk body (type ");
                push_decimal(&mut out, *byte as u64);
                out.append("): payload lives in c.<x>.<z>.mcc, not the region file");
            },
            AnvilError::Gzip => {
                out.append("gzip decode failed");
            },
            AnvilError::Zlib => {
                out.append("zlib decode failed");
            },
            AnvilError::Lz4 => {
                out.append("lz4 decode failed");
            },
            AnvilError::OutputTooLarge => {
                out.append("decompressed output exceeded the safety bound");
            },
        }
        assert(out@ =~= error_text(*self));
        out
    }
}

} // verus!

//! Properties that relate the reading and writing sides of the region format.

use vstd::prelude::*;

use crate::endian::{be32, be32_bytes, lemma_be32_round_trip};
use crate::reader::{chunks_from, entry_word, region_chunks, slot_chunk};
use crate::region::{
    all_digits, decimal_i32, digits_value, image_sectors, is_digit, region_name_coords,
    region_name_parts, stored_sectors,
};
use crate::region::RegionLoc;
use crate::restore::region_file_name_text;
use crate::text::{decimal, digit_char, index_of_char, lemma_index_of_char, signed_decimal};
use crate::writer::{
    body_upto, header, header_byte, lemma_body_len, lemma_body_prefix, lemma_sectors_bound,
    lemma_sectors_mono, lemma_stored_block_len, lemma_stored_sectors, location_word,
    region_image, sectors_upto, slots_wf, storable, stored_block,
};

verus! {

/// Occupied slots `s..1024` of per-slot contents, as `(slot, payload)` in
/// slot order.
pub open spec fn occupied_from(v: Seq<Option<Seq<u8>>>, s: int) -> Seq<(int, Seq<u8>)>
    decreases 1024 - s,
{
    if s >= 1024 || s < 0 {
        Seq::empty()
    } else {
        match v[s] {
            Some(p) => seq![(s, p)] + occupied_from(v, s + 1),
            None => occupied_from(v, s + 1),
        }
    }
}

proof fn lemma_entry_of_image(v: Seq<Option<Seq<u8>>>, ts: u32, s: int)
    requires
        slots_wf(v),
        0 <= s < 1024,
    ensures
        entry_word(region_image(v, ts), s) == (if v[s] is Some {
            location_word(v, s)
        } else {
            0
        }),
{
    reveal(region_image);
    let img = region_image(v, ts);
    lemma_body_len(v, 1024);
    assert forall|j: int| 0 <= j < 4 implies #[trigger] img[4 * s + j] == header_byte(
        v,
        1024,
        ts,
        4 * s + j,
    ) by {}
    assert(((4 * s) % 4096) / 4 == s && (4 * s) % 4 == 0);
    assert(((4 * s + 1) % 4096) / 4 == s && (4 * s + 1) % 4 == 1);
    assert(((4 * s + 2) % 4096) / 4 == s && (4 * s + 2) % 4 == 2);
    assert(((4 * s + 3) % 4096) / 4 == s && (4 * s + 3) % 4 == 3);
    if v[s] is Some {
        let p = v[s]->Some_0;
        assert(storable(p));
        lemma_sectors_bound(v, s);
        lemma_body_len(v, s);
        lemma_stored_sectors(p.len() as int);
        let word = location_word(v, s);
        assert(0 <= word <= u32::MAX);
        lemma_be32_round_trip(word as nat);
        assert(img[4 * s] == be32_bytes(word as nat)[0]);
        assert(img[4 * s + 1] == be32_bytes(word as nat)[1]);
        assert(img[4 * s + 2] == be32_bytes(word as nat)[2]);
        assert(img[4 * s + 3] == be32_bytes(word as nat)[3]);
    } else {
        assert(img[4 * s] == 0u8 && img[4 * s + 1] == 0u8 && img[4 * s + 2] == 0u8 && img[4 * s
            + 3] == 0u8);
    }
}

proof fn lemma_block_of_image(v: Seq<Option<Seq<u8>>>, ts: u32, s: int)
    requires
        0 <= s < 1024,
        v[s] is Some,
    ensures
        ({
            let img = region_image(v, ts);
            let base = (8192 + body_upto(v, s).len()) as int;
            let block = stored_block(v[s]->Some_0);
            let p = v[s]->Some_0;
            &&& base + block.len() <= img.len()
            &&& forall|j: int| 0 <= j < block.len() ==> #[trigger] img[base + j] == block[j]
            &&& p.len() <= u32::MAX ==> be32(img, base) == p.len()
            &&& img.subrange(base + 4, base + 4 + p.len() as int) == p
        }),
{
    reveal(region_image);
    let img = region_image(v, ts);
    let body = body_upto(v, 1024);
    let p = v[s]->Some_0;
    lemma_body_prefix(v, s + 1, 1024);
    let before = body_upto(v, s);
    let block = stored_block(p);
    assert(body_upto(v, s + 1) =~= before + block);
    let base = (8192 + before.len()) as int;
    assert forall|j: int| 0 <= j < block.len() implies #[trigger] img[base + j] == block[j] by {
        assert(img[base + j] == body[before.len() + j]);
        assert(body.subrange(0, body_upto(v, s + 1).len() as int)[before.len() + j] == (before
            + block)[before.len() + j]);
    }
    lemma_stored_sectors(p.len() as int);
    lemma_stored_block_len(p);
    if p.len() <= u32::MAX {
        lemma_be32_round_trip(p.len() as nat);
    }
    assert(img[base + 0] == block[0]);
    assert(img[base + 1] == block[1]);
    assert(img[base + 2] == block[2]);
    assert(img[base + 3] == block[3]);
    assert(img.subrange(base + 4, base + 4 + p.len() as int) =~= p) by {
        assert forall|j: int| 0 <= j < p.len() implies img.subrange(
            base + 4,
            base + 4 + p.len() as int,
        )[j] == p[j] by {
            assert(img[base + (4 + j)] == block[4 + j]);
        }
    }
}

proof fn lemma_image_len(v: Seq<Option<Seq<u8>>>, ts: u32)
    ensures
        region_image(v, ts).len() == 8192 + 4096 * sectors_upto(v, 1024),
        sectors_upto(v, 1024) >= 0,
{
    reveal(region_image);
    lemma_body_len(v, 1024);
}

proof fn lemma_slot_reads_back(v: Seq<Option<Seq<u8>>>, ts: u32, s: int)
    requires
        slots_wf(v),
        0 <= s < 1024,
    ensures
        slot_chunk(region_image(v, ts), s) == Ok::<Option<Seq<u8>>, crate::error::AnvilError>(
            v[s],
        ),
{
    let img = region_image(v, ts);
    lemma_image_len(v, ts);
    lemma_sectors_bound(v, 1024);
    lemma_entry_of_image(v, ts, s);
    assert(img.len() / 4096 == 2 + sectors_upto(v, 1024));
    if v[s] is Some {
        let p = v[s]->Some_0;
        assert(storable(p));
        lemma_sectors_bound(v, s);
        lemma_sectors_mono(v, s + 1, 1024);
        lemma_stored_sectors(p.len() as int);
        let count = stored_sectors(p.len() as int);
        let offset = 2 + sectors_upto(v, s);
        let word = location_word(v, s);
        assert(word == offset * 256 + count);
        assert(word / 256 == offset);
        assert(word % 256 == count);
        assert(sectors_upto(v, s + 1) == sectors_upto(v, s) + count);
        lemma_body_len(v, s);
        lemma_stored_block_len(p);
        lemma_block_of_image(v, ts, s);
        let block = stored_block(p);
        let base = offset * 4096;
        assert(base == 8192 + body_upto(v, s).len());
    }
}

proof fn lemma_chunks_read_back(v: Seq<Option<Seq<u8>>>, ts: u32, s: int)
    requires
        slots_wf(v),
        0 <= s <= 1024,
    ensures
        chunks_from(region_image(v, ts), s) == Ok::<
            Seq<(int, Seq<u8>)>,
            crate::error::AnvilError,
        >(occupied_from(v, s)),
    decreases 1024 - s,
{
    if s < 1024 {
        lemma_chunks_read_back(v, ts, s + 1);
        lemma_slot_reads_back(v, ts, s);
    }
}

/// Round trip of the region format: the image built from per-slot contents
/// is a valid region image, and reading it back yields every stored payload,
/// byte for byte, in slot order, and nothing else.
pub proof fn lemma_image_reads_back(v: Seq<Option<Seq<u8>>>, ts: u32)
    requires
        slots_wf(v),
    ensures
        region_image(v, ts).len() <= u64::MAX,
        image_sectors(region_image(v, ts).len() as u64) == Ok::<u64, crate::error::AnvilError>(
            (2 + sectors_upto(v, 1024)) as u64,
        ),
        region_chunks(region_image(v, ts)) == Ok::<
            Seq<(int, Seq<u8>)>,
            crate::error::AnvilError,
        >(occupied_from(v, 0)),
{
    lemma_image_len(v, ts);
    lemma_sectors_bound(v, 1024);
    lemma_chunks_read_back(v, ts, 0);
}

// ---------------------------------------------------------------------------
// Region file names
// ---------------------------------------------------------------------------
proof fn lemma_decimal_digits(n: nat)
    ensures
        decimal(n).len() >= 1,
        all_digits(decimal(n)),
        digits_value(decimal(n)) == n,
    decreases n,
{
    assert(digit_char((n % 10) as int) as int == (n % 10) + 48);
    if n >= 10 {
        lemma_decimal_digits(n / 10);
        let d = decimal(n);
        assert(d.drop_last() =~= decimal(n / 10));
        assert(d.last() == digit_char((n % 10) as int));
        assert(digits_value(d) == digits_value(d.drop_last()) * 10 + (d.last() as int - '0' as int));
        assert(n == (n / 10) * 10 + n % 10);
        assert forall|i: int| 0 <= i < d.len() implies is_digit(#[trigger] d[i]) by {
            if i < d.len() - 1 {
                assert(d[i] == decimal(n / 10)[i]);
            }
        }
    } else {
        let d = decimal(n);
        assert(d.drop_last() =~= Seq::<char>::empty());
        assert(digits_value(d.drop_last()) == 0);
        assert(d.last() == digit_char(n as int));
        assert(digits_value(d) == digits_value(d.drop_last()) * 10 + (d.last() as int - '0' as int));
        assert(n % 10 == n);
        assert(digits_value(d) == n);
    }
}

proof fn lemma_signed_decimal(i: i32)
    ensures
        decimal_i32(signed_decimal(i as int)) == Some(i),
        forall|j: int|
            0 <= j < signed_decimal(i as int).len() ==> #[trigger] signed_decimal(i as int)[j]
                != '.',
        signed_decimal(i as int).len() >= 1,
{
    let s = signed_decimal(i as int);
    if i < 0 {
        let d = decimal((-i) as nat);
        lemma_decimal_digits((-i) as nat);
        assert(s.drop_first() =~= d);
        assert(is_digit(d[0]));
        assert forall|j: int| 0 <= j < s.len() implies #[trigger] s[j] != '.' by {
            if j > 0 {
                assert(s[j] == d[j - 1]);
                assert(is_digit(d[j - 1]));
            }
        }
    } else {
        lemma_decimal_digits(i as nat);
        assert(is_digit(s[0]));
        assert forall|j: int| 0 <= j < s.len() implies #[trigger] s[j] != '.' by {
            assert(is_digit(s[j]));
        }
    }
}

/// The name a region file is given parses back to the region's
/// coordinates.
pub proof fn lemma_region_name_round_trip(x: i32, z: i32)
    ensures
        region_name_coords(region_file_name_text(x, z)) == Some((x, z)),
{
    let a = signed_decimal(x as int);
    let b = signed_decimal(z as int);
    lemma_signed_decimal(x);
    lemma_signed_decimal(z);
    let s = region_file_name_text(x, z);
    let n = s.len() as int;
    let rest = s.subrange(2, n - 4);
    assert(rest =~= a + seq!['.'] + b);
    let k = a.len() as int;
    assert forall|j: int| 0 <= j < k implies rest[j] != '.' by {
        assert(rest[j] == a[j]);
    }
    lemma_index_of_char(rest, '.', k);
    let zt = rest.subrange(k + 1, rest.len() as int);
    assert(zt =~= b);
    lemma_index_of_char(b, '.', b.len() as int);
    assert(rest.subrange(0, k) =~= a);
    assert(region_name_parts(s) == Some((a, b)));
}

/// Slots and global chunk coordinates correspond one to one: the
/// coordinates of slot `index` lie in the region and map back to `index`,
/// and the only coordinates that map to `index` are those.
pub proof fn lemma_slot_coords_round_trip(loc: RegionLoc, index: int, x: i32, z: i32)
    requires
        loc.inv(),
        0 <= index < 1024,
    ensures
        loc.slot_at((loc.bx() + index % 32) as i32, (loc.bz() + index / 32) as i32) == Some(
            index,
        ),
        loc.slot_at(x, z) == Some(index) ==> x == loc.bx() + index % 32 && z == loc.bz() + index
            / 32,
{
    loc.lemma_inv();
    assert(index == index % 32 + 32 * (index / 32) && 0 <= index % 32 < 32 && 0 <= index / 32
        < 32) by (nonlinear_arith)
        requires
            0 <= index < 1024,
    ;
    if loc.slot_at(x, z) == Some(index) {
        let dx = x - loc.bx();
        let dz = z - loc.bz();
        assert(dx == index % 32 && dz == index / 32) by (nonlinear_arith)
            requires
                0 <= dx < 32,
                0 <= dz < 32,
                index == dx + 32 * dz,
        ;
    }
}

} // verus!

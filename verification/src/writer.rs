//! Write-side construction of fresh `.mca` images.

use vstd::prelude::*;

use crate::endian::{be32_bytes, push_be32};
use crate::error::AnvilError;
use crate::region::{
    region_base, sectors_for, stored_sectors, RegionLoc, FIRST_DATA_SECTOR, MAX_SECTOR_OFFSET,
    SECTOR_LEN,
};

verus! {

// ---------------------------------------------------------------------------
// The image a builder produces
// ---------------------------------------------------------------------------
/// A payload that a region image can hold: non-empty, and small enough for
/// the 255 sectors one chunk may occupy.
pub open spec fn storable(p: Seq<u8>) -> bool {
    p.len() > 0 && stored_sectors(p.len() as int) <= 255
}

/// Per-slot contents of a region: 1024 slots, each empty or a storable
/// payload.
pub open spec fn slots_wf(v: Seq<Option<Seq<u8>>>) -> bool {
    &&& v.len() == 1024
    &&& forall|s: int| 0 <= s < 1024 ==> (#[trigger] v[s] matches Some(p) ==> storable(p))
}

/// A payload as stored in the data area: its big-endian length, the payload,
/// and zero padding up to a whole number of sectors.
pub open spec fn stored_block(p: Seq<u8>) -> Seq<u8> {
    be32_bytes(p.len()) + p + Seq::new(
        (stored_sectors(p.len() as int) * 4096 - 4 - p.len()) as nat,
        |i: int| 0u8,
    )
}

/// Data area holding the payloads of slots `0..s`, in slot order.
pub open spec fn body_upto(v: Seq<Option<Seq<u8>>>, s: int) -> Seq<u8>
    decreases s,
{
    if s <= 0 {
        Seq::empty()
    } else {
        body_upto(v, s - 1) + match v[s - 1] {
            Some(p) => stored_block(p),
            None => Seq::empty(),
        }
    }
}

/// Sectors used by the payloads of slots `0..s`.
pub open spec fn sectors_upto(v: Seq<Option<Seq<u8>>>, s: int) -> int
    decreases s,
{
    if s <= 0 {
        0
    } else {
        sectors_upto(v, s - 1) + match v[s - 1] {
            Some(p) => stored_sectors(p.len() as int),
            None => 0,
        }
    }
}

/// Location word of a present slot: its first sector and its sector count.
pub open spec fn location_word(v: Seq<Option<Seq<u8>>>, slot: int) -> int {
    (2 + sectors_upto(v, slot)) * 256 + stored_sectors(v[slot]->Some_0.len() as int)
}

/// Byte `i` of the two header tables, counting only slots below `lim`: the
/// location table (`i < 4096`) and the timestamp table.
pub open spec fn header_byte(v: Seq<Option<Seq<u8>>>, lim: int, ts: u32, i: int) -> u8 {
    let slot = (i % 4096) / 4;
    if slot < lim && v[slot] is Some {
        let word = if i < 4096 {
            location_word(v, slot)
        } else {
            ts as int
        };
        be32_bytes(word as nat)[i % 4]
    } else {
        0
    }
}

pub open spec fn header(v: Seq<Option<Seq<u8>>>, lim: int, ts: u32) -> Seq<u8> {
    Seq::new(8192, |i: int| header_byte(v, lim, ts, i))
}

/// The region image of per-slot contents `v`, with every chunk stamped `ts`:
/// the location and timestamp tables, then each present payload in slot
/// order, sector aligned.
#[verifier::opaque]
pub open spec fn region_image(v: Seq<Option<Seq<u8>>>, ts: u32) -> Seq<u8> {
    header(v, 1024, ts) + body_upto(v, 1024)
}

// ---------------------------------------------------------------------------
// Lemmas on the image
// ---------------------------------------------------------------------------
pub proof fn lemma_stored_sectors(len: int)
    requires
        len >= 0,
    ensures
        stored_sectors(len) >= 1,
        stored_sectors(len) * 4096 >= len + 4,
        stored_sectors(len) * 4096 < len + 4 + 4096,
{
    assert(stored_sectors(len) * 4096 >= len + 4 && stored_sectors(len) * 4096 < len + 4 + 4096)
        by (nonlinear_arith)
        requires
            len >= 0,
    {
    }
}

pub proof fn lemma_stored_block_len(p: Seq<u8>)
    ensures
        stored_block(p).len() == stored_sectors(p.len() as int) * 4096,
{
    lemma_stored_sectors(p.len() as int);
}

pub proof fn lemma_body_len(v: Seq<Option<Seq<u8>>>, s: int)
    ensures
        body_upto(v, s).len() == sectors_upto(v, s) * 4096,
        sectors_upto(v, s) >= 0,
    decreases s,
{
    if s > 0 {
        lemma_body_len(v, s - 1);
        if let Some(p) = v[s - 1] {
            lemma_stored_block_len(p);
            lemma_stored_sectors(p.len() as int);
        }
    }
}

pub proof fn lemma_sectors_bound(v: Seq<Option<Seq<u8>>>, s: int)
    requires
        slots_wf(v),
        0 <= s <= 1024,
    ensures
        sectors_upto(v, s) <= 255 * s,
    decreases s,
{
    if s > 0 {
        lemma_sectors_bound(v, s - 1);
        assert(v[s - 1] matches Some(p) ==> storable(p));
    }
}

pub proof fn lemma_sectors_mono(v: Seq<Option<Seq<u8>>>, a: int, b: int)
    requires
        a <= b,
    ensures
        sectors_upto(v, a) <= sectors_upto(v, b),
    decreases b - a,
{
    if a < b {
        lemma_sectors_mono(v, a, b - 1);
        if b > 0 {
            if let Some(p) = v[b - 1] {
                lemma_stored_sectors(p.len() as int);
            }
        }
    }
}

/// Empty slots add nothing to the data area.
pub proof fn lemma_skip_empty(v: Seq<Option<Seq<u8>>>, a: int, b: int)
    requires
        0 <= a <= b,
        forall|s: int| a <= s < b ==> #[trigger] v[s] is None,
    ensures
        body_upto(v, b) == body_upto(v, a),
        sectors_upto(v, b) == sectors_upto(v, a),
    decreases b - a,
{
    if a < b {
        lemma_skip_empty(v, a, b - 1);
        assert(v[b - 1] is None);
        assert(body_upto(v, b) =~= body_upto(v, b - 1));
    }
}

/// The data area of the lower slots is a prefix of that of the higher ones.
pub proof fn lemma_body_prefix(v: Seq<Option<Seq<u8>>>, a: int, b: int)
    requires
        a <= b,
    ensures
        body_upto(v, a).len() <= body_upto(v, b).len(),
        body_upto(v, b).subrange(0, body_upto(v, a).len() as int) =~= body_upto(v, a),
    decreases b - a,
{
    if a < b {
        lemma_body_prefix(v, a, b - 1);
        if b > 0 {
            let prev = body_upto(v, b - 1);
            let cur = body_upto(v, b);
            assert(cur.subrange(0, prev.len() as int) =~= prev);
            assert(cur.subrange(0, body_upto(v, a).len() as int) =~= prev.subrange(
                0,
                body_upto(v, a).len() as int,
            ));
        }
    }
}

// ---------------------------------------------------------------------------
// The builder
// ---------------------------------------------------------------------------
#[derive(Debug)]
struct StagedChunk {
    slot: u32,
    payload: Vec<u8>,
}

/// Payload staged for `slot`, if any.
spec fn staged_payload(st: Seq<StagedChunk>, s: int) -> Option<Seq<u8>> {
    if exists|i: int| 0 <= i < st.len() && st[i].slot == s {
        Some(st[choose|i: int| 0 <= i < st.len() && st[i].slot == s].payload@)
    } else {
        None
    }
}

spec fn staged_sorted(st: Seq<StagedChunk>) -> bool {
    forall|i: int, j: int| 0 <= i < j < st.len() ==> st[i].slot < st[j].slot
}

spec fn staged_wf(st: Seq<StagedChunk>) -> bool {
    &&& staged_sorted(st)
    &&& forall|i: int|
        0 <= i < st.len() ==> (#[trigger] st[i]).slot < 1024 && storable(st[i].payload@)
}

proof fn lemma_staged_lookup(st: Seq<StagedChunk>, k: int)
    requires
        staged_sorted(st),
        0 <= k < st.len(),
    ensures
        staged_payload(st, st[k].slot as int) == Some(st[k].payload@),
{
    let s = st[k].slot as int;
    assert(exists|i: int| 0 <= i < st.len() && st[i].slot == s);
    let c = choose|i: int| 0 <= i < st.len() && st[i].slot == s;
    if c < k {
        assert(st[c].slot < st[k].slot);
    } else if c > k {
        assert(st[k].slot < st[c].slot);
    }
}

/// Slot where the `k`-th staged chunk (or the end of the table) lies.
spec fn next_slot(st: Seq<StagedChunk>, k: int) -> int {
    if k < st.len() {
        st[k].slot as int
    } else {
        1024
    }
}


/// Position of `slot` among the staged chunks, or where it would be inserted.
fn find_slot(staged: &Vec<StagedChunk>, slot: u32) -> (r: Result<usize, usize>)
    requires
        staged_sorted(staged@),
    ensures
        match r {
            Ok(i) => i < staged@.len() && staged@[i as int].slot == slot,
            Err(i) => i <= staged@.len() && (forall|j: int|
                0 <= j < i ==> #[trigger] staged@[j].slot < slot) && (forall|j: int|
                i <= j < staged@.len() ==> #[trigger] staged@[j].slot > slot),
        },
{
    let mut lo: usize = 0;
    let mut hi: usize = staged.len();
    while lo < hi
        invariant
            lo <= hi <= staged@.len(),
            staged_sorted(staged@),
            forall|j: int| 0 <= j < lo ==> #[trigger] staged@[j].slot < slot,
            forall|j: int| hi <= j < staged@.len() ==> #[trigger] staged@[j].slot > slot,
        decreases hi - lo,
    {
        let mid = lo + (hi - lo) / 2;
        let at = staged[mid].slot;
        if at == slot {
            return Ok(mid);
        } else if at < slot {
            assert forall|j: int| 0 <= j < mid + 1 implies #[trigger] staged@[j].slot < slot by {
                if j < mid {
                    assert(staged@[j].slot < staged@[mid as int].slot);
                }
            }
            lo = mid + 1;
        } else {
            assert forall|j: int| mid <= j < staged@.len() implies #[trigger] staged@[j].slot
                > slot by {
                if j > mid {
                    assert(staged@[mid as int].slot < staged@[j].slot);
                }
            }
            hi = mid;
        }
    }
    Err(lo)
}

proof fn lemma_slot_value(st: Seq<StagedChunk>, s: int, k: int)
    requires
        staged_sorted(st),
        0 <= k < st.len(),
        st[k].slot == s,
    ensures
        staged_payload(st, s) == Some(st[k].payload@),
{
    lemma_staged_lookup(st, k);
}

proof fn lemma_update_slots(
    st: Seq<StagedChunk>,
    index: int,
    st2: Seq<StagedChunk>,
    before: Seq<Option<Seq<u8>>>,
    after: Seq<Option<Seq<u8>>>,
)
    requires
        staged_sorted(st),
        staged_sorted(st2),
        0 <= index < st.len(),
        st[index].slot < 1024,
        st2.len() == st.len(),
        st2[index].slot == st[index].slot,
        forall|i: int| 0 <= i < st.len() && i != index ==> st2[i] == st[i],
        before == Seq::new(1024, |s: int| staged_payload(st, s)),
        after == Seq::new(1024, |s: int| staged_payload(st2, s)),
    ensures
        after == before.update(st[index].slot as int, Some(st2[index].payload@)),
{
    let slot = st[index].slot as int;
    assert forall|s: int| 0 <= s < 1024 implies #[trigger] after[s] == before.update(
        slot,
        Some(st2[index].payload@),
    )[s] by {
        if s == slot {
            lemma_slot_value(st2, s, index);
        } else if exists|i: int| 0 <= i < st.len() && st[i].slot == s {
            let c = choose|i: int| 0 <= i < st.len() && st[i].slot == s;
            lemma_slot_value(st, s, c);
            lemma_slot_value(st2, s, c);
        } else {
            assert(!exists|i: int| 0 <= i < st2.len() && st2[i].slot == s) by {
                if exists|i: int| 0 <= i < st2.len() && st2[i].slot == s {
                    let c = choose|i: int| 0 <= i < st2.len() && st2[i].slot == s;
                    assert(st[c].slot == s);
                }
            }
        }
    }
    assert(after =~= before.update(slot, Some(st2[index].payload@)));
}

proof fn lemma_insert_slots(
    st: Seq<StagedChunk>,
    index: int,
    st2: Seq<StagedChunk>,
    before: Seq<Option<Seq<u8>>>,
    after: Seq<Option<Seq<u8>>>,
)
    requires
        staged_sorted(st),
        staged_sorted(st2),
        0 <= index <= st.len(),
        st2.len() == st.len() + 1,
        0 <= st2[index].slot < 1024,
        forall|i: int| 0 <= i < index ==> st2[i] == st[i],
        forall|i: int| index < i < st2.len() ==> st2[i] == st[i - 1],
        before == Seq::new(1024, |s: int| staged_payload(st, s)),
        after == Seq::new(1024, |s: int| staged_payload(st2, s)),
    ensures
        after == before.update(st2[index].slot as int, Some(st2[index].payload@)),
{
    let slot = st2[index].slot as int;
    assert forall|s: int| 0 <= s < 1024 implies #[trigger] after[s] == before.update(
        slot,
        Some(st2[index].payload@),
    )[s] by {
        if s == slot {
            lemma_slot_value(st2, s, index);
        } else if exists|i: int| 0 <= i < st.len() && st[i].slot == s {
            let c = choose|i: int| 0 <= i < st.len() && st[i].slot == s;
            lemma_slot_value(st, s, c);
            if c < index {
                lemma_slot_value(st2, s, c);
            } else {
                lemma_slot_value(st2, s, c + 1);
            }
        } else {
            assert(!exists|i: int| 0 <= i < st2.len() && st2[i].slot == s) by {
                if exists|i: int| 0 <= i < st2.len() && st2[i].slot == s {
                    let c = choose|i: int| 0 <= i < st2.len() && st2[i].slot == s;
                    if c < index {
                        assert(st[c].slot == s);
                    } else if c > index {
                        assert(st[c - 1].slot == s);
                    }
                }
            }
        }
    }
    assert(after =~= before.update(slot, Some(st2[index].payload@)));
}

proof fn lemma_remove_slots(
    st: Seq<StagedChunk>,
    index: int,
    st2: Seq<StagedChunk>,
    before: Seq<Option<Seq<u8>>>,
    after: Seq<Option<Seq<u8>>>,
)
    requires
        staged_sorted(st),
        staged_sorted(st2),
        0 <= index < st.len(),
        st[index].slot < 1024,
        st2 == st.remove(index),
        before == Seq::new(1024, |s: int| staged_payload(st, s)),
        after == Seq::new(1024, |s: int| staged_payload(st2, s)),
    ensures
        after == before.update(st[index].slot as int, None),
{
    let slot = st[index].slot as int;
    assert forall|s: int| 0 <= s < 1024 implies #[trigger] after[s] == before.update(
        slot,
        None,
    )[s] by {
        if s == slot {
            assert(!exists|i: int| 0 <= i < st2.len() && st2[i].slot == s) by {
                if exists|i: int| 0 <= i < st2.len() && st2[i].slot == s {
                    let c = choose|i: int| 0 <= i < st2.len() && st2[i].slot == s;
                    if c < index {
                        assert(st[c].slot < st[index].slot);
                    } else {
                        assert(st[index].slot < st[c + 1].slot);
                    }
                }
            }
        } else if exists|i: int| 0 <= i < st.len() && st[i].slot == s {
            let c = choose|i: int| 0 <= i < st.len() && st[i].slot == s;
            lemma_slot_value(st, s, c);
            if c < index {
                lemma_slot_value(st2, s, c);
            } else {
                assert(c != index);
                lemma_slot_value(st2, s, c - 1);
            }
        } else {
            assert(!exists|i: int| 0 <= i < st2.len() && st2[i].slot == s) by {
                if exists|i: int| 0 <= i < st2.len() && st2[i].slot == s {
                    let c = choose|i: int| 0 <= i < st2.len() && st2[i].slot == s;
                    if c < index {
                        assert(st[c].slot == s);
                    } else {
                        assert(st[c + 1].slot == s);
                    }
                }
            }
        }
    }
    assert(after =~= before.update(slot, None));
}


/// Appends `n` zero bytes.
fn push_zeros(out: &mut Vec<u8>, n: usize)
    ensures
        final(out)@ == old(out)@ + Seq::new(n as nat, |i: int| 0u8),
{
    let ghost start = out@;
    let mut i: usize = 0;
    while i < n
        invariant
            i <= n,
            out@ == start + Seq::new(i as nat, |j: int| 0u8),
        decreases n - i,
    {
        out.push(0u8);
        i = i + 1;
        assert(out@ =~= start + Seq::new(i as nat, |j: int| 0u8));
    }
}

/// Overwrites `out[at..at + 4]` with the big-endian bytes of `v`.
fn set_be32(out: &mut Vec<u8>, at: usize, v: u32)
    requires
        at + 4 <= old(out)@.len(),
    ensures
        final(out)@.len() == old(out)@.len(),
        forall|i: int|
            0 <= i < old(out)@.len() ==> #[trigger] final(out)@[i] == if at <= i < at + 4 {
                be32_bytes(v as nat)[i - at]
            } else {
                old(out)@[i]
            },
{
    let n = out.len();
    out.set(at, (v / 16777216 % 256) as u8);
    out.set(at + 1, (v / 65536 % 256) as u8);
    out.set(at + 2, (v / 256 % 256) as u8);
    out.set(at + 3, (v % 256) as u8);
}

/// Filling in the table entries of slot `s` turns the header of the slots
/// below `s` into that of the slots below `lim`, when `s` is the only
/// occupied slot in `s..lim`.
proof fn lemma_header_step(
    v: Seq<Option<Seq<u8>>>,
    s: int,
    lim: int,
    ts: u32,
    old_h: Seq<u8>,
    new_h: Seq<u8>,
)
    requires
        v.len() == 1024,
        0 <= s < lim <= 1024,
        v[s] is Some,
        forall|t: int| s < t < lim ==> #[trigger] v[t] is None,
        old_h == header(v, s, ts),
        new_h.len() == 8192,
        forall|i: int|
            0 <= i < 8192 ==> #[trigger] new_h[i] == if 4 * s <= i < 4 * s + 4 {
                be32_bytes(location_word(v, s) as nat)[i - 4 * s]
            } else if 4096 + 4 * s <= i < 4096 + 4 * s + 4 {
                be32_bytes(ts as nat)[i - 4096 - 4 * s]
            } else {
                old_h[i]
            },
    ensures
        new_h == header(v, lim, ts),
{
    assert forall|i: int| 0 <= i < 8192 implies #[trigger] new_h[i] == header_byte(v, lim, ts, i) by {
        if i < 4096 {
            assert(i % 4096 == i);
        } else {
            assert(i % 4096 == i - 4096);
        }
        let slot = (i % 4096) / 4;
        if 4 * s <= i < 4 * s + 4 {
            assert(slot == s);
            assert(i % 4 == i - 4 * s);
        } else if 4096 + 4 * s <= i < 4096 + 4 * s + 4 {
            assert(slot == s);
            assert(i % 4 == i - 4096 - 4 * s);
        } else {
            assert(slot != s);
            assert(old_h[i] == header_byte(v, s, ts, i));
        }
    }
    assert(new_h =~= header(v, lim, ts));
}

/// Builder for a complete region image.
#[derive(Debug)]
pub struct RegionBuilder {
    loc: RegionLoc,
    timestamp: u32,
    staged: Vec<StagedChunk>,
}

impl RegionBuilder {
    #[verifier::type_invariant]
    pub closed spec fn inv(self) -> bool {
        &&& staged_wf(self.staged@)
        &&& self.loc.inv()
    }

    /// The builder's region origin is 32 chunks per region coordinate.
    pub proof fn lemma_loc(self)
        requires
            self.inv(),
        ensures
            self.loc().inv(),
            self.loc().bx() == self.loc().rx() * 32,
            self.loc().bz() == self.loc().rz() * 32,
    {
        self.loc.lemma_inv();
    }

    /// Payload held for each of the 1024 table slots.
    pub closed spec fn slots(self) -> Seq<Option<Seq<u8>>> {
        Seq::new(1024, |s: int| staged_payload(self.staged@, s))
    }

    pub closed spec fn loc(self) -> RegionLoc {
        self.loc
    }

    /// Timestamp stamped on every chunk of the image.
    pub closed spec fn ts(self) -> u32 {
        self.timestamp
    }

    proof fn lemma_slots(self)
        requires
            self.inv(),
        ensures
            slots_wf(self.slots()),
            forall|k: int|
                0 <= k < self.staged@.len() ==> self.slots()[#[trigger] self.staged@[k].slot as int]
                    == Some(self.staged@[k].payload@),
            forall|s: int|
                0 <= s < 1024 && (forall|k: int|
                    0 <= k < self.staged@.len() ==> #[trigger] self.staged@[k].slot != s)
                    ==> self.slots()[s] is None,
    {
        let st = self.staged@;
        assert forall|k: int| 0 <= k < st.len() implies self.slots()[#[trigger] st[k].slot as int]
            == Some(st[k].payload@) by {
            assert(st[k].slot < 1024);
            lemma_staged_lookup(st, k);
        }
        assert forall|s: int| 0 <= s < 1024 implies (#[trigger] self.slots()[s] matches Some(p)
            ==> storable(p)) by {
            if staged_payload(st, s) is Some {
                let c = choose|i: int| 0 <= i < st.len() && st[i].slot == s;
                assert(storable(st[c].payload@));
            }
        }
    }

    /// Creates an empty builder for one region.
    pub fn new(region_x: i32, region_z: i32, timestamp: u32) -> (r: Result<Self, AnvilError>)
        ensures
            match (region_base(region_x), region_base(region_z)) {
                (Some(_), Some(_)) => r matches Ok(b) && b.loc().rx() == region_x
                    && b.loc().rz() == region_z && b.loc().bx() == region_x * 32
                    && b.loc().bz() == region_z * 32 && b.ts() == timestamp && b.slots() == Seq::new(
                    1024,
                    |s: int| None::<Seq<u8>>,
                ),
                _ => r == Err::<Self, AnvilError>(
                    AnvilError::CoordinateOverflow { region_x, region_z },
                ),
            },
    {
        let loc = RegionLoc::new(region_x, region_z)?;
        proof {
            use_type_invariant(&loc);
            loc.lemma_inv();
        }
        let b = Self { loc, timestamp, staged: Vec::new() };
        assert(b.slots() =~= Seq::new(1024, |s: int| None::<Seq<u8>>));
        Ok(b)
    }

    pub fn region_x(&self) -> (r: i32)
        ensures
            r == self.loc().rx(),
    {
        self.loc.region_x()
    }

    pub fn region_z(&self) -> (r: i32)
        ensures
            r == self.loc().rz(),
    {
        self.loc.region_z()
    }


    /// Assembles the complete `.mca` image.
    pub fn image(&self) -> (r: Result<Vec<u8>, AnvilError>)
        ensures
            slots_wf(self.slots()),
            r matches Ok(img) && img@ == region_image(self.slots(), self.ts()),
    {
        proof {
            use_type_invariant(self);
            self.lemma_slots();
        }
        let ghost v = self.slots();
        let ghost st = self.staged@;
        let ghost ts = self.timestamp;
        let mut image: Vec<u8> = Vec::new();
        push_zeros(&mut image, 8192);
        proof {
            let lim0 = next_slot(st, 0);
            assert forall|t: int| 0 <= t < lim0 implies #[trigger] v[t] is None by {
                assert forall|k: int| 0 <= k < st.len() implies #[trigger] st[k].slot != t by {
                    if k > 0 {
                        assert(st[0].slot < st[k].slot);
                    }
                }
            }
            lemma_skip_empty(v, 0, lim0);
            assert(image@ =~= header(v, lim0, ts) + body_upto(v, lim0));
        }
        let mut offset: u64 = FIRST_DATA_SECTOR;
        let mut k: usize = 0;
        while k < self.staged.len()
            invariant
                k <= st.len(),
                st == self.staged@,
                v == self.slots(),
                ts == self.timestamp,
                self.inv(),
                slots_wf(v),
                forall|j: int|
                    0 <= j < st.len() ==> v[#[trigger] st[j].slot as int] == Some(st[j].payload@),
                forall|t: int|
                    0 <= t < 1024 && (forall|j: int| 0 <= j < st.len() ==> #[trigger] st[j].slot != t)
                        ==> v[t] is None,
                image@ == header(v, next_slot(st, k as int), ts) + body_upto(
                    v,
                    next_slot(st, k as int),
                ),
                offset == 2 + sectors_upto(v, next_slot(st, k as int)),
            decreases st.len() - k,
        {
            let chunk = &self.staged[k];
            let ghost s = chunk.slot as int;
            let ghost p = chunk.payload@;
            let ghost lim = next_slot(st, k + 1);
            proof {
                assert(st[k as int].slot < 1024 && storable(p));
                lemma_sectors_bound(v, s);
                lemma_stored_sectors(p.len() as int);
                assert forall|t: int| s < t < lim implies #[trigger] v[t] is None by {
                    assert forall|j: int| 0 <= j < st.len() implies #[trigger] st[j].slot != t by {
                        if j < k {
                            assert(st[j].slot < st[k as int].slot);
                        } else if j > k + 1 {
                            assert(st[k + 1].slot < st[j].slot);
                        }
                    }
                }
            }
            let sectors = sectors_for(chunk.payload.len())?;
            if offset > MAX_SECTOR_OFFSET {
                return Err(AnvilError::ImageTooLarge { sectors: offset });
            }
            let entry = (offset * 256 + sectors) as u32;
            assert(entry == location_word(v, s));
            let at = chunk.slot as usize * 4;
            let ghost before = image@;
            set_be32(&mut image, at, entry);
            set_be32(&mut image, 4096 + at, self.timestamp);
            proof {
                let new_h = image@.subrange(0, 8192);
                assert forall|i: int| 0 <= i < 8192 implies #[trigger] new_h[i] == if 4 * s <= i < 4
                    * s + 4 {
                    be32_bytes(location_word(v, s) as nat)[i - 4 * s]
                } else if 4096 + 4 * s <= i < 4096 + 4 * s + 4 {
                    be32_bytes(ts as nat)[i - 4096 - 4 * s]
                } else {
                    header(v, s, ts)[i]
                } by {
                    assert(before[i] == header(v, s, ts)[i]);
                }
                lemma_header_step(v, s, lim, ts, header(v, s, ts), new_h);
                assert(image@ =~= header(v, lim, ts) + body_upto(v, s));
            }
            let len = chunk.payload.len();
            push_be32(&mut image, len as u32);
            image.extend_from_slice(chunk.payload.as_slice());
            let padding = (sectors * SECTOR_LEN - (len as u64 + 4)) as usize;
            push_zeros(&mut image, padding);
            proof {
                lemma_skip_empty(v, s + 1, lim);
                assert(body_upto(v, s + 1) =~= body_upto(v, s) + stored_block(p));
                assert(image@ =~= header(v, lim, ts) + body_upto(v, lim));
            }
            offset = offset + sectors;
            k = k + 1;
        }
        proof {
            reveal(region_image);
        }
        Ok(image)
    }

    /// Adds or replaces a stored chunk payload.
    pub fn stage_chunk(&mut self, x: i32, z: i32, payload: &[u8]) -> (r: Result<(), AnvilError>)
        ensures
            final(self).loc() == old(self).loc(),
            final(self).ts() == old(self).ts(),
            if payload@.len() == 0 {
                r == Err::<(), AnvilError>(AnvilError::EmptyPayload)
            } else if stored_sectors(payload@.len() as int) > 255 {
                r == Err::<(), AnvilError>(AnvilError::ChunkTooLarge { len: payload@.len() as usize })
            } else {
                match old(self).loc().slot_at(x, z) {
                    None => r == Err::<(), AnvilError>(
                        AnvilError::WrongRegion {
                            region_x: old(self).loc().rx(),
                            region_z: old(self).loc().rz(),
                            x,
                            z,
                        },
                    ),
                    Some(slot) => r == Ok::<(), AnvilError>(()),
                }
            },
            match r {
                Ok(_) => final(self).slots() == old(self).slots().update(
                    old(self).loc().slot_at(x, z)->Some_0,
                    Some(payload@),
                ),
                Err(_) => final(self).slots() == old(self).slots(),
            },
    {
        proof {
            use_type_invariant(&*self);
        }
        if payload.len() == 0 {
            return Err(AnvilError::EmptyPayload);
        }
        sectors_for(payload.len())?;
        let slot = self.loc.slot_of(x, z)?;
        let ghost old_slots = self.slots();
        let ghost st = self.staged@;
        let chunk = StagedChunk { slot, payload: vstd::slice::slice_to_vec(payload) };
        let mut staged: Vec<StagedChunk> = Vec::new();
        std::mem::swap(&mut staged, &mut self.staged);
        match find_slot(&staged, slot) {
            Ok(index) => {
                let ghost st2 = st.update(index as int, chunk);
                assert(staged_wf(st2)) by {
                    assert forall|i: int, j: int| 0 <= i < j < st2.len() implies st2[i].slot
                        < st2[j].slot by {
                        assert(st[i].slot < st[j].slot);
                    }
                }
                staged.set(index, chunk);
                self.staged = staged;
                proof {
                    assert(self.staged@ == st2);
                    lemma_update_slots(st, index as int, st2, old_slots, self.slots());
                }
            },
            Err(index) => {
                let ghost st2 = st.insert(index as int, chunk);
                assert(staged_wf(st2)) by {
                    assert forall|i: int, j: int| 0 <= i < j < st2.len() implies st2[i].slot
                        < st2[j].slot by {
                        if j < index {
                            assert(st[i].slot < st[j].slot);
                        } else if j == index {
                        } else if i < index {
                        } else if i == index {
                            assert(st2[j] == st[j - 1]);
                        } else {
                            assert(st[i - 1].slot < st[j - 1].slot);
                        }
                    }
                }
                staged.insert(index, chunk);
                self.staged = staged;
                proof {
                    assert(self.staged@ == st2);
                    lemma_insert_slots(st, index as int, st2, old_slots, self.slots());
                }
            },
        }
        Ok(())
    }

    /// Removes a previously staged chunk.
    pub fn remove_chunk(&mut self, x: i32, z: i32) -> (r: Result<(), AnvilError>)
        ensures
            final(self).loc() == old(self).loc(),
            final(self).ts() == old(self).ts(),
            match old(self).loc().slot_at(x, z) {
                None => r == Err::<(), AnvilError>(
                    AnvilError::WrongRegion {
                        region_x: old(self).loc().rx(),
                        region_z: old(self).loc().rz(),
                        x,
                        z,
                    },
                ) && final(self).slots() == old(self).slots(),
                Some(slot) => r == Ok::<(), AnvilError>(()) && final(self).slots() == old(
                    self,
                ).slots().update(slot, None),
            },
    {
        proof {
            use_type_invariant(&*self);
        }
        let slot = self.loc.slot_of(x, z)?;
        let ghost old_slots = self.slots();
        let ghost st = self.staged@;
        let mut staged: Vec<StagedChunk> = Vec::new();
        std::mem::swap(&mut staged, &mut self.staged);
        match find_slot(&staged, slot) {
            Ok(index) => {
                let ghost st2 = st.remove(index as int);
                assert(staged_wf(st2)) by {
                    assert forall|i: int, j: int| 0 <= i < j < st2.len() implies st2[i].slot
                        < st2[j].slot by {
                        if j < index {
                            assert(st[i].slot < st[j].slot);
                        } else if i < index {
                            assert(st[i].slot < st[j + 1].slot);
                        } else {
                            assert(st[i + 1].slot < st[j + 1].slot);
                        }
                    }
                }
                staged.remove(index);
                self.staged = staged;
                proof {
                    assert(self.staged@ == st2);
                    lemma_remove_slots(st, index as int, st2, old_slots, self.slots());
                }
            },
            Err(_) => {
                self.staged = staged;
                proof {
                    assert(old_slots[slot as int] is None) by {
                        if staged_payload(st, slot as int) is Some {
                            let c = choose|i: int| 0 <= i < st.len() && st[i].slot == slot;
                            assert(st[c].slot == slot);
                        }
                    }
                    assert(self.slots() =~= old_slots.update(slot as int, None));
                }
            },
        }
        Ok(())
    }
}

/// Removing a chunk undoes staging it: staging a payload into an empty
/// slot and then removing it gives back the original contents.
pub proof fn lemma_remove_undoes_stage(v: Seq<Option<Seq<u8>>>, slot: int, p: Seq<u8>)
    requires
        0 <= slot < v.len(),
        v[slot] is None,
    ensures
        v.update(slot, Some(p)).update(slot, None) == v,
{
    assert(v.update(slot, Some(p)).update(slot, None) =~= v);
}

/// Staging twice into the same slot keeps only the later payload.
pub proof fn lemma_stage_replaces(v: Seq<Option<Seq<u8>>>, slot: int, p: Seq<u8>, q: Seq<u8>)
    requires
        0 <= slot < v.len(),
    ensures
        v.update(slot, Some(p)).update(slot, Some(q)) == v.update(slot, Some(q)),
{
    assert(v.update(slot, Some(p)).update(slot, Some(q)) =~= v.update(slot, Some(q)));
}

} // verus!

//! Read-side parsing of `.mca` region images.

use vstd::prelude::*;

use crate::endian::{be32, read_be32};
use crate::error::AnvilError;
use crate::region::{check_image_len, image_sectors, region_base, RegionLoc, FIRST_DATA_SECTOR, SECTOR_LEN};

verus! {

/// Location-table word of slot `index`.
pub open spec fn entry_word(bytes: Seq<u8>, index: int) -> nat {
    be32(bytes, 4 * index)
}

/// What slot `index` of a (non-empty, well-sized) image holds: nothing, the
/// stored payload, or why the slot is damaged.
pub open spec fn slot_chunk(bytes: Seq<u8>, index: int) -> Result<Option<Seq<u8>>, AnvilError> {
    let word = entry_word(bytes, index);
    let offset = word / 256;
    let count = word % 256;
    if offset == 0 && count == 0 {
        Ok(None)
    } else if offset < 2 || count == 0 || offset + count > bytes.len() / 4096 {
        Err(
            AnvilError::CorruptEntry {
                index: index as u32,
                offset: offset as u32,
                sectors: count as u32,
            },
        )
    } else {
        let base = (offset * 4096) as int;
        let len = be32(bytes, base);
        if len == 0 || len + 4 > count * 4096 {
            Err(AnvilError::CorruptChunk { index: index as u32, len: len as u32 })
        } else {
            Ok(Some(bytes.subrange(base + 4, base + 4 + len)))
        }
    }
}

/// Present chunks of slots `index..1024` as `(slot, payload)` in table
/// order, or the first damaged slot's error.
pub open spec fn chunks_from(bytes: Seq<u8>, index: int) -> Result<
    Seq<(int, Seq<u8>)>,
    AnvilError,
>
    decreases 1024 - index,
{
    if index >= 1024 || index < 0 {
        Ok(Seq::empty())
    } else {
        match slot_chunk(bytes, index) {
            Err(e) => Err(e),
            Ok(None) => chunks_from(bytes, index + 1),
            Ok(Some(p)) => match chunks_from(bytes, index + 1) {
                Err(e) => Err(e),
                Ok(rest) => Ok(seq![(index, p)] + rest),
            },
        }
    }
}

/// All present chunks of a region image, in table order, or the error of
/// its first damaged slot. An empty image is an empty region.
pub open spec fn region_chunks(bytes: Seq<u8>) -> Result<Seq<(int, Seq<u8>)>, AnvilError> {
    if bytes.len() == 0 {
        Ok(Seq::empty())
    } else {
        chunks_from(bytes, 0)
    }
}

pub open spec fn error_of<T>(r: Result<T, AnvilError>) -> Option<AnvilError> {
    match r {
        Ok(_) => None,
        Err(e) => Some(e),
    }
}

/// One present chunk and its exact stored payload.
#[derive(Debug, Clone, Copy, PartialEq, Eq)]
pub struct Chunk<'a> {
    /// Global chunk X coordinate.
    pub x: i32,
    /// Global chunk Z coordinate.
    pub z: i32,
    /// Stored compression byte followed by the compressed body.
    pub payload: &'a [u8],
}

/// Parsed `.mca` image.
///
/// The image owns its backing bytes and exposes chunks only as borrows.
#[derive(Debug)]
pub struct RegionImage {
    loc: RegionLoc,
    bytes: Vec<u8>,
}

impl View for RegionImage {
    type V = Seq<u8>;

    closed spec fn view(&self) -> Seq<u8> {
        self.bytes@
    }
}

impl RegionImage {
    #[verifier::type_invariant]
    pub closed spec fn inv(self) -> bool {
        &&& image_sectors(self.bytes@.len() as u64) is Ok
        &&& self.bytes@.len() <= u64::MAX
        &&& self.loc.inv()
    }

    pub closed spec fn loc(self) -> RegionLoc {
        self.loc
    }

    /// `c` is stored in this image: the slot of its coordinates holds
    /// exactly its payload.
    pub open spec fn holds_chunk(self, c: Chunk<'_>) -> bool {
        &&& self@.len() > 0
        &&& self.loc().slot_at(c.x, c.z) matches Some(i)
        &&& slot_chunk(self@, i) == Ok::<Option<Seq<u8>>, AnvilError>(Some(c.payload@))
    }

    /// The image's length is that of a valid region file, and its region
    /// origin is 32 chunks per region coordinate.
    pub proof fn lemma_valid_len(self)
        requires
            self.inv(),
        ensures
            self@.len() <= u64::MAX,
            image_sectors(self@.len() as u64) is Ok,
            self.loc().inv(),
            self.loc().bx() == self.loc().rx() * 32,
            self.loc().bz() == self.loc().rz() * 32,
    {
        self.loc.lemma_inv();
    }

    /// Parses an in-memory region image.
    pub fn from_bytes(bytes: Vec<u8>, region_x: i32, region_z: i32) -> (r: Result<
        Self,
        AnvilError,
    >)
        ensures
            match image_sectors(bytes@.len() as u64) {
                Err(e) => r == Err::<Self, AnvilError>(e),
                Ok(_) => match (region_base(region_x), region_base(region_z)) {
                    (Some(_), Some(_)) => r matches Ok(image) && image@ == bytes@
                        && image.loc().rx() == region_x && image.loc().rz() == region_z
                        && image.loc().bx() == region_x * 32 && image.loc().bz() == region_z
                        * 32,
                    _ => r == Err::<Self, AnvilError>(
                        AnvilError::CoordinateOverflow { region_x, region_z },
                    ),
                },
            },
    {
        check_image_len(bytes.len() as u64)?;
        let loc = RegionLoc::new(region_x, region_z)?;
        proof {
            use_type_invariant(&loc);
            loc.lemma_inv();
        }
        Ok(Self { loc, bytes })
    }

    pub fn region_x(&self) -> (r: i32)
        ensures
            r == self.loc().rx(),
    {
        self.loc.region_x()
    }

    pub fn region_z(&self) -> (r: i32)
        ensures
            r == self.loc().rz(),
    {
        self.loc.region_z()
    }

    pub fn image(&self) -> (r: &[u8])
        ensures
            r@ == self@,
    {
        self.bytes.as_slice()
    }

    /// The visitor may have answered `out` for the chunk of slot `slot`: its
    /// global coordinates and exact stored payload.
    pub open spec fn answered<F: FnMut(Chunk<'_>) -> bool>(
        self,
        visitor: F,
        slot: int,
        out: bool,
    ) -> bool {
        exists|c: Chunk<'_>|
            #![trigger call_ensures(visitor, (c,), out)]
            self.loc().slot_at(c.x, c.z) == Some(slot) && slot_chunk(self@, slot) == Ok::<
                Option<Seq<u8>>,
                AnvilError,
            >(Some(c.payload@)) && call_ensures(visitor, (c,), out)
    }

    /// A walk of the table that ended at slot `end` with result `r`: every
    /// slot before `end` is sound and each chunk in them was handed to the
    /// visitor, which answered `true`; the walk ran through all slots, or
    /// stopped at a damaged slot with its error, or at a chunk for which the
    /// visitor answered `false`.
    pub open spec fn walk_ends<F: FnMut(Chunk<'_>) -> bool>(
        self,
        visitor: F,
        end: int,
        r: Result<(), AnvilError>,
    ) -> bool {
        &&& 0 <= end <= 1024
        &&& forall|j: int|
            0 <= j < end ==> #[trigger] slot_chunk(self@, j) is Ok && (slot_chunk(self@, j) is Ok
                && slot_chunk(self@, j)->Ok_0 is Some ==> self.answered(visitor, j, true))
        &&& end == 1024 ==> r is Ok
        &&& end < 1024 ==> match slot_chunk(self@, end) {
            Err(e) => r == Err::<(), AnvilError>(e),
            Ok(Some(_)) => r is Ok && self.answered(visitor, end, false),
            Ok(None) => false,
        }
    }

    /// Visits all present chunks in table order.
    ///
    /// Returning `false` stops iteration. The visitor is only handed chunks
    /// that the image holds; the walk (see `walk_ends`) hands it every
    /// present chunk in slot order, with global coordinates and exact
    /// payload, until the visitor answers `false` or a damaged slot is
    /// reached, whose error is then the result.
    pub fn visit_chunks<F>(&self, visitor: F) -> (r: Result<(), AnvilError>) where
        F: FnMut(Chunk<'_>) -> bool,

        requires
            forall|c: Chunk<'_>| self.holds_chunk(c) ==> call_requires(visitor, (c,)),
        ensures
            region_chunks(self@) is Ok ==> r is Ok,
            r matches Err(e) ==> region_chunks(self@) == Err::<Seq<(int, Seq<u8>)>, AnvilError>(
                e,
            ),
            self@.len() > 0 ==> exists|end: int| #[trigger] self.walk_ends(visitor, end, r),
    {
        proof {
            use_type_invariant(self);
            use_type_invariant(&self.loc);
            self.loc.lemma_inv();
        }
        if self.bytes.len() == 0 {
            return Ok(());
        }
        let total_sectors = self.bytes.len() as u64 / SECTOR_LEN;
        let mut index: u32 = 0;
        let mut visit = visitor;
        let ghost visit0 = visit;
        while index < 1024
            invariant
                index <= 1024,
                visit == visit0,
                visit0 == visitor,
                forall|c: Chunk<'_>| self.holds_chunk(c) ==> call_requires(visit, (c,)),
                self.bytes@.len() > 0,
                self.inv(),
                self.loc.inv(),
                self.loc.bz() + 31 <= i32::MAX,
                total_sectors == self.bytes@.len() / 4096,
                error_of(chunks_from(self@, 0)) == error_of(chunks_from(self@, index as int)),
                forall|j: int|
                    0 <= j < index ==> #[trigger] slot_chunk(self@, j) is Ok && (slot_chunk(
                        self@,
                        j,
                    ) is Ok && slot_chunk(self@, j)->Ok_0 is Some ==> self.answered(
                        visitor,
                        j,
                        true,
                    )),
            decreases 1024 - index,
        {
            let (offset, count) = match self.entry(index) {
                Ok(entry) => entry,
                Err(e) => return Err(e),
            };
            if offset == 0 && count == 0 {
                index = index + 1;
                continue;
            }
            if offset < FIRST_DATA_SECTOR || count == 0 {
                let e = Self::corrupt_entry(index, offset, count);
                proof {
                    assert(self.walk_ends(visitor, index as int, Err(e)));
                }
                return Err(e);
            }
            let end = offset + count;
            if end > total_sectors {
                let e = Self::corrupt_entry(index, offset, count);
                proof {
                    assert(self.walk_ends(visitor, index as int, Err(e)));
                }
                return Err(e);
            }
            let payload = match self.sector_payload(index, offset, count) {
                Ok(payload) => payload,
                Err(e) => {
                    proof {
                        assert(self.walk_ends(visitor, index as int, Err(e)));
                    }
                    return Err(e);
                },
            };
            let (x, z) = self.loc.coord_at(index);
            let chunk = Chunk { x, z, payload };
            proof {
                assert(index as int == index as int % 32 + 32 * (index as int / 32)) by (
                nonlinear_arith);
                assert(self.loc().slot_at(x, z) == Some(index as int));
                assert(slot_chunk(self@, index as int) == Ok::<Option<Seq<u8>>, AnvilError>(
                    Some(payload@),
                ));
                assert(self.holds_chunk(chunk));
            }
            let keep = visit(chunk);
            proof {
                assert(call_ensures(visitor, (chunk,), keep));
                assert(self.answered(visitor, index as int, keep));
            }
            if !keep {
                proof {
                    assert(self.walk_ends(visitor, index as int, Ok(())));
                }
                return Ok(());
            }
            index = index + 1;
        }
        proof {
            assert(self.walk_ends(visitor, 1024, Ok(())));
        }
        Ok(())
    }

    fn corrupt_entry(index: u32, offset: u64, count: u64) -> (r: AnvilError)
        ensures
            r == (AnvilError::CorruptEntry {
                index,
                offset: if offset <= u32::MAX {
                    offset as u32
                } else {
                    u32::MAX
                },
                sectors: if count <= u32::MAX {
                    count as u32
                } else {
                    u32::MAX
                },
            }),
    {
        AnvilError::CorruptEntry { index, offset: saturate(offset), sectors: saturate(count) }
    }

    /// Sector offset and sector count stored in slot `index`.
    fn entry(&self, index: u32) -> (r: Result<(u64, u64), AnvilError>)
        requires
            index < 1024,
            self.bytes@.len() >= 8192,
        ensures
            r matches Ok((offset, count)) && offset == entry_word(self@, index as int) / 256
                && count == entry_word(self@, index as int) % 256,
    {
        let offset = index as usize * 4;
        let entry = read_be32(self.bytes.as_slice(), offset);
        Ok(((entry / 256) as u64, (entry % 256) as u64))
    }

    /// The payload stored for slot `index` whose entry passed its checks.
    fn sector_payload(&self, index: u32, offset: u64, count: u64) -> (r: Result<
        &[u8],
        AnvilError,
    >)
        requires
            index < 1024,
            self.bytes@.len() >= 8192,
            self.bytes@.len() % 4096 == 0,
            self.bytes@.len() <= u64::MAX,
            offset == entry_word(self@, index as int) / 256,
            count == entry_word(self@, index as int) % 256,
            offset >= 2,
            count > 0,
            offset + count <= self.bytes@.len() / 4096,
        ensures
            match slot_chunk(self@, index as int) {
                Ok(Some(p)) => r matches Ok(s) && s@ == p,
                Err(e) => r == Err::<&[u8], AnvilError>(e),
                Ok(None) => false,
            },
    {
        let n_exec = self.bytes.len();
        let ghost n = self.bytes@.len();
        assert(offset * 4096 + count * 4096 <= n) by (nonlinear_arith)
            requires
                offset + count <= n / 4096,
                n % 4096 == 0,
        {
        }
        let base = (offset * SECTOR_LEN) as usize;
        let len = read_be32(self.bytes.as_slice(), base);
        if len == 0 || len as u64 + 4 > count * SECTOR_LEN {
            return Err(AnvilError::CorruptChunk { index, len });
        }
        let start = base + 4;
        let end = start + len as usize;
        Ok(&self.bytes.as_slice()[start..end])
    }
}

fn saturate(value: u64) -> (r: u32)
    ensures
        r == (if value <= u32::MAX {
            value as u32
        } else {
            u32::MAX
        }),
{
    if value <= u32::MAX as u64 {
        value as u32
    } else {
        u32::MAX
    }
}

/// The four big-endian bytes of the location entry `(offset << 8) | sectors`.
pub fn entry_of(offset: u32, sectors: u32) -> (r: [u8; 4])
    ensures
        r@ == crate::endian::be32_bytes(((offset << 8u32) | sectors) as nat),
{
    let word = (offset << 8u32) | sectors;
    let r = [(word / 16777216 % 256) as u8, (word / 65536 % 256) as u8, (word / 256 % 256) as u8, (
    word % 256) as u8];
    assert(r@ =~= crate::endian::be32_bytes(word as nat));
    r
}

} // verus!

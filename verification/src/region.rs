//! Shared Anvil sector layout and coordinate mapping.

use vstd::prelude::*;

use crate::error::AnvilError;
use crate::text::{chars_of, find_char, index_of_char};

verus! {

pub const SECTOR_LEN: u64 = 4096;

pub const HEADER_LEN: u64 = 8192;

pub const TABLE_ENTRIES: u32 = 1024;

pub const ROW_WIDTH: u32 = 32;

pub const FIRST_DATA_SECTOR: u64 = 2;

pub const MAX_SECTORS_PER_CHUNK: u64 = 255;

pub const MAX_SECTOR_OFFSET: u64 = 0xFF_FFFF;

// ---------------------------------------------------------------------------
// Region file names
// ---------------------------------------------------------------------------
pub open spec fn is_digit(c: char) -> bool {
    '0' <= c && c <= '9'
}

/// Decimal value of a run of ASCII digits.
pub open spec fn digits_value(d: Seq<char>) -> int
    decreases d.len(),
{
    if d.len() == 0 {
        0
    } else {
        digits_value(d.drop_last()) * 10 + (d.last() as int - '0' as int)
    }
}

pub open spec fn all_digits(d: Seq<char>) -> bool {
    forall|i: int| 0 <= i < d.len() ==> is_digit(#[trigger] d[i])
}

/// What `i32::from_str` accepts: an optional sign, then one or more ASCII
/// digits, with a value in range.
pub open spec fn decimal_i32(s: Seq<char>) -> Option<i32> {
    let signed = s.len() > 0 && (s[0] == '-' || s[0] == '+');
    let digits = if signed {
        s.drop_first()
    } else {
        s
    };
    let value = if s.len() > 0 && s[0] == '-' {
        -digits_value(digits)
    } else {
        digits_value(digits)
    };
    if digits.len() == 0 || !all_digits(digits) {
        None
    } else if i32::MIN <= value && value <= i32::MAX {
        Some(value as i32)
    } else {
        None
    }
}

/// The two coordinate texts of `r.<x>.<z>.mca`: the name ends in `.mca`,
/// and the rest splits at dots into exactly `r`, `x` and `z`.
pub open spec fn region_name_parts(s: Seq<char>) -> Option<(Seq<char>, Seq<char>)> {
    let n = s.len();
    if n < 6 || s[n - 4] != '.' || s[n - 3] != 'm' || s[n - 2] != 'c' || s[n - 1] != 'a' || s[0]
        != 'r' || s[1] != '.' {
        None
    } else {
        let rest = s.subrange(2, n - 4);
        match index_of_char(rest, '.') {
            None => None,
            Some(k) => {
                let z = rest.subrange(k + 1, rest.len() as int);
                if index_of_char(z, '.') is Some {
                    None
                } else {
                    Some((rest.subrange(0, k), z))
                }
            },
        }
    }
}

/// Region coordinates named by a region file name, if it is well formed.
pub open spec fn region_name_coords(s: Seq<char>) -> Option<(i32, i32)> {
    match region_name_parts(s) {
        None => None,
        Some((x, z)) => match (decimal_i32(x), decimal_i32(z)) {
            (Some(x), Some(z)) => Some((x, z)),
            _ => None,
        },
    }
}

const DECIMAL_CAP: i64 = 2_147_483_649;

proof fn lemma_digits_nonneg(d: Seq<char>)
    requires
        all_digits(d),
    ensures
        digits_value(d) >= 0,
    decreases d.len(),
{
    if d.len() > 0 {
        assert(is_digit(d[d.len() - 1]));
        lemma_digits_nonneg(d.drop_last());
    }
}

/// Parses `s` as `i32::from_str` does.
#[verifier::loop_isolation(false)]
pub(crate) fn parse_i32(s: &[char]) -> (r: Option<i32>)
    ensures
        r == decimal_i32(s@),
{
    let n = s.len();
    if n == 0 {
        return None;
    }
    let negative = s[0] == '-';
    let start: usize = if s[0] == '-' || s[0] == '+' {
        1
    } else {
        0
    };
    let ghost digits = s@.subrange(start as int, n as int);
    assert(digits =~= (if start == 1 {
        s@.drop_first()
    } else {
        s@
    }));
    if start == n {
        return None;
    }
    let mut acc: i64 = 0;
    let mut i = start;
    assert(s@.subrange(start as int, start as int) =~= Seq::<char>::empty());
    while i < n
        invariant
            start <= i <= n,
            n == s@.len(),
            digits == s@.subrange(start as int, n as int),
            all_digits(s@.subrange(start as int, i as int)),
            0 <= acc <= DECIMAL_CAP,
            acc == (if digits_value(s@.subrange(start as int, i as int)) < DECIMAL_CAP {
                digits_value(s@.subrange(start as int, i as int))
            } else {
                DECIMAL_CAP as int
            }),
        decreases n - i,
    {
        let c = s[i];
        let ghost prev = s@.subrange(start as int, i as int);
        let ghost next = s@.subrange(start as int, i + 1);
        assert(next.drop_last() =~= prev);
        if !('0' <= c && c <= '9') {
            proof {
                assert(digits[i - start] == c);
                assert(!is_digit(digits[i - start]));
            }
            return None;
        }
        proof {
            lemma_digits_nonneg(prev);
        }
        let d = (c as u32 - '0' as u32) as i64;
        let grown = acc * 10 + d;
        acc = if grown < DECIMAL_CAP {
            grown
        } else {
            DECIMAL_CAP
        };
        i = i + 1;
        assert(all_digits(next)) by {
            assert forall|j: int| 0 <= j < next.len() implies is_digit(#[trigger] next[j]) by {
                if j < prev.len() {
                    assert(next[j] == prev[j]);
                }
            }
        }
    }
    assert(s@.subrange(start as int, n as int) =~= digits);
    proof {
        lemma_digits_nonneg(digits);
    }
    let value: i64 = if negative {
        -acc
    } else {
        acc
    };
    if value < -2147483648 || value > 2147483647 {
        None
    } else {
        Some(value as i32)
    }
}

/// Parses `r.<x>.<z>.mca` into region coordinates.
pub fn parse_region_name(file_name: &str) -> (r: Result<(i32, i32), AnvilError>)
    ensures
        match region_name_coords(file_name@) {
            Some(coords) => r == Ok::<(i32, i32), AnvilError>(coords),
            None => r matches Err(AnvilError::BadFilename { name }) && name@ == file_name@,
        },
{
    let chars = chars_of(file_name);
    let n = chars.len();
    let s = chars.as_slice();
    let ghost full = file_name@;
    if n < 6 || s[n - 4] != '.' || s[n - 3] != 'm' || s[n - 2] != 'c' || s[n - 1] != 'a' || s[0]
        != 'r' || s[1] != '.' {
        return Err(AnvilError::BadFilename { name: file_name.to_owned() });
    }
    let stem = &s[2..n - 4];
    assert(stem@ =~= full.subrange(2, n - 4));
    let dot = match find_char(stem, 0, '.') {
        Some(k) => k,
        None => {
            assert(stem@.subrange(0, stem@.len() as int) =~= stem@);
            return Err(AnvilError::BadFilename { name: file_name.to_owned() });
        },
    };
    assert(stem@.subrange(0, stem@.len() as int) =~= stem@);
    let z_text = &stem[dot + 1..stem.len()];
    assert(z_text@ =~= stem@.subrange(dot + 1, stem@.len() as int));
    match find_char(z_text, 0, '.') {
        Some(_) => {
            assert(z_text@.subrange(0, z_text@.len() as int) =~= z_text@);
            return Err(AnvilError::BadFilename { name: file_name.to_owned() });
        },
        None => {},
    }
    assert(z_text@.subrange(0, z_text@.len() as int) =~= z_text@);
    let x_text = &stem[0..dot];
    assert(x_text@ =~= stem@.subrange(0, dot as int));
    let x = match parse_i32(x_text) {
        Some(x) => x,
        None => {
            return Err(AnvilError::BadFilename { name: file_name.to_owned() });
        },
    };
    let z = match parse_i32(z_text) {
        Some(z) => z,
        None => {
            return Err(AnvilError::BadFilename { name: file_name.to_owned() });
        },
    };
    Ok((x, z))
}

// ---------------------------------------------------------------------------
// Region locations
// ---------------------------------------------------------------------------
/// The global chunk coordinate of a region's first column or row, when all
/// 32 columns of the region are addressable in `i32`.
pub open spec fn region_base(region: i32) -> Option<i32> {
    let base = region as int * 32;
    if i32::MIN <= base && base + 31 <= i32::MAX {
        Some(base as i32)
    } else {
        None
    }
}

/// Region coordinates together with their global chunk origin.
#[derive(Debug, Clone, Copy, PartialEq, Eq)]
pub struct RegionLoc {
    region_x: i32,
    region_z: i32,
    base_x: i32,
    base_z: i32,
}

impl RegionLoc {
    #[verifier::type_invariant]
    pub closed spec fn inv(self) -> bool {
        &&& region_base(self.region_x) == Some(self.base_x)
        &&& region_base(self.region_z) == Some(self.base_z)
    }

    pub closed spec fn rx(self) -> i32 {
        self.region_x
    }

    pub closed spec fn rz(self) -> i32 {
        self.region_z
    }

    /// Global chunk X of the region's first column.
    pub closed spec fn bx(self) -> int {
        self.base_x as int
    }

    /// Global chunk Z of the region's first row.
    pub closed spec fn bz(self) -> int {
        self.base_z as int
    }

    /// What the invariant of a location says of its coordinates.
    pub proof fn lemma_inv(self)
        requires
            self.inv(),
        ensures
            region_base(self.rx()) == Some(self.bx() as i32),
            region_base(self.rz()) == Some(self.bz() as i32),
            self.bx() == self.rx() * 32,
            self.bz() == self.rz() * 32,
            i32::MIN <= self.bx(),
            self.bx() + 31 <= i32::MAX,
            i32::MIN <= self.bz(),
            self.bz() + 31 <= i32::MAX,
    {
    }

    pub fn new(region_x: i32, region_z: i32) -> (r: Result<Self, AnvilError>)
        ensures
            match (region_base(region_x), region_base(region_z)) {
                (Some(_), Some(_)) => r matches Ok(loc) && loc.rx() == region_x && loc.rz()
                    == region_z,
                _ => r == Err::<Self, AnvilError>(
                    AnvilError::CoordinateOverflow { region_x, region_z },
                ),
            },
    {
        let (base_x, base_z) = base_coords(region_x, region_z)?;
        Ok(Self { region_x, region_z, base_x, base_z })
    }

    pub fn region_x(self) -> (r: i32)
        ensures
            r == self.rx(),
    {
        self.region_x
    }

    pub fn region_z(self) -> (r: i32)
        ensures
            r == self.rz(),
    {
        self.region_z
    }

    /// Table slot of global chunk `(x, z)`, if the chunk lies in this region.
    pub open spec fn slot_at(self, x: i32, z: i32) -> Option<int> {
        let dx = x - self.bx();
        let dz = z - self.bz();
        if 0 <= dx < 32 && 0 <= dz < 32 {
            Some(dx + 32 * dz)
        } else {
            None
        }
    }

    /// Table slot of global chunk `(x, z)`, if the chunk lies in this region.
    pub fn slot_of(self, x: i32, z: i32) -> (r: Result<u32, AnvilError>)
        ensures
            match self.slot_at(x, z) {
                Some(slot) => r == Ok::<u32, AnvilError>(slot as u32) && slot < 1024,
                None => r == Err::<u32, AnvilError>(
                    AnvilError::WrongRegion { region_x: self.rx(), region_z: self.rz(), x, z },
                ),
            },
    {
        let dx = x as i64 - self.base_x as i64;
        let dz = z as i64 - self.base_z as i64;
        if !(0 <= dx && dx < 32) || !(0 <= dz && dz < 32) {
            return Err(
                AnvilError::WrongRegion {
                    region_x: self.region_x,
                    region_z: self.region_z,
                    x,
                    z,
                },
            );
        }
        Ok((dx + 32 * dz) as u32)
    }

    /// Global chunk coordinate of table slot `index`.
    pub fn coord_at(self, index: u32) -> (r: (i32, i32))
        requires
            self.bz() + index / 32 <= i32::MAX,
        ensures
            r.0 == self.bx() + index % 32,
            r.1 == self.bz() + index / 32,
    {
        proof {
            use_type_invariant(&self);
        }
        (self.base_x + (index % 32) as i32, self.base_z + (index / 32) as i32)
    }
}

/// Returns the global chunk-coordinate origin of a region.
pub fn base_coords(region_x: i32, region_z: i32) -> (r: Result<(i32, i32), AnvilError>)
    ensures
        match (region_base(region_x), region_base(region_z)) {
            (Some(bx), Some(bz)) => r == Ok::<(i32, i32), AnvilError>((bx, bz)),
            _ => r == Err::<(i32, i32), AnvilError>(
                AnvilError::CoordinateOverflow { region_x, region_z },
            ),
        },
{
    let bx = region_x as i64 * 32;
    let bz = region_z as i64 * 32;
    if bx < -2147483648 || bx + 31 > 2147483647 || bz < -2147483648 || bz + 31 > 2147483647 {
        return Err(AnvilError::CoordinateOverflow { region_x, region_z });
    }
    Ok((bx as i32, bz as i32))
}

// ---------------------------------------------------------------------------
// Sizes
// ---------------------------------------------------------------------------
/// Sector count of a valid image length, or why the length is invalid.
pub open spec fn image_sectors(len: u64) -> Result<u64, AnvilError> {
    if len == 0 {
        Ok(0)
    } else if len < 8192 {
        Err(AnvilError::TruncatedFile { len })
    } else if len % 4096 != 0 {
        Err(AnvilError::MisalignedFile { len })
    } else {
        Ok(len / 4096)
    }
}

/// Validates an image length and returns its sector count.
pub fn check_image_len(len: u64) -> (r: Result<u64, AnvilError>)
    ensures
        r == image_sectors(len),
{
    if len == 0 {
        return Ok(0);
    }
    if len < HEADER_LEN {
        return Err(AnvilError::TruncatedFile { len });
    }
    if len % SECTOR_LEN != 0 {
        return Err(AnvilError::MisalignedFile { len });
    }
    Ok(len / SECTOR_LEN)
}

/// Sectors occupied by a stored payload: its four-byte length prefix plus
/// the payload, rounded up to whole sectors.
pub open spec fn stored_sectors(payload_len: int) -> int {
    (payload_len + 4 + 4095) / 4096
}

/// Returns the number of sectors required for a stored payload.
pub fn sectors_for(payload_len: usize) -> (r: Result<u64, AnvilError>)
    ensures
        stored_sectors(payload_len as int) <= 255 ==> r == Ok::<u64, AnvilError>(
            stored_sectors(payload_len as int) as u64,
        ),
        stored_sectors(payload_len as int) > 255 ==> r == Err::<u64, AnvilError>(
            AnvilError::ChunkTooLarge { len: payload_len },
        ),
{
    let len = payload_len as u64;
    let whole = len / SECTOR_LEN;
    let rest = len % SECTOR_LEN;
    let sectors = if rest + 4 <= SECTOR_LEN {
        whole + 1
    } else {
        whole + 2
    };
    assert(sectors == stored_sectors(payload_len as int)) by (nonlinear_arith)
        requires
            len == payload_len,
            whole == len / 4096,
            rest == len % 4096,
            sectors == (if rest + 4 <= 4096 {
                whole + 1
            } else {
                whole + 2
            }),
    {
    }
    if sectors > MAX_SECTORS_PER_CHUNK {
        return Err(AnvilError::ChunkTooLarge { len: payload_len });
    }
    Ok(sectors)
}

} // verus!

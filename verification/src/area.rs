//! The area part of an `--in DIM[:X,Z|X0,Z0..X1,Z1]` option: the text after
//! the dimension and its colon.

use vstd::prelude::*;

use crate::flags::Xz;
use crate::hash::Dimension;
use crate::pair::{pair_result, parse_pair};
use crate::restore::joined;
use crate::text::{chars_of, decimal, push_decimal};

verus! {

/// Inclusive rectangle of chunk coordinates, corners ordered.
#[derive(Debug, Clone, Copy, PartialEq, Eq)]
pub struct Rect {
    pub x0: i32,
    pub z0: i32,
    pub x1: i32,
    pub z1: i32,
}

/// The rectangle spanned by two opposite corners, in either order.
pub open spec fn spanned(ax: i32, az: i32, bx: i32, bz: i32) -> Rect {
    Rect {
        x0: if ax <= bx { ax } else { bx },
        z0: if az <= bz { az } else { bz },
        x1: if ax <= bx { bx } else { ax },
        z1: if az <= bz { bz } else { az },
    }
}

impl Rect {
    /// The rectangle spanned by corners `(ax, az)` and `(bx, bz)`.
    pub fn new(ax: i32, az: i32, bx: i32, bz: i32) -> (r: Rect)
        ensures
            r == spanned(ax, az, bx, bz),
    {
        Rect {
            x0: if ax <= bx { ax } else { bx },
            z0: if az <= bz { az } else { bz },
            x1: if ax <= bx { bx } else { ax },
            z1: if az <= bz { bz } else { az },
        }
    }
}

/// Area shape within one dimension.
#[derive(Debug, Clone, Copy, PartialEq, Eq)]
pub enum DimArea {
    /// Every chunk of the dimension.
    All,
    /// Single chunk.
    Chunk(Xz),
    /// Inclusive rectangle.
    Rect(Rect),
}

/// Position of the first `..` in `s` at or after `i`.
pub open spec fn dots_from(s: Seq<char>, i: int) -> Option<int>
    decreases s.len() - i,
{
    if i < 0 || i + 1 >= s.len() {
        None
    } else if s[i] == '.' && s[i + 1] == '.' {
        Some(i)
    } else {
        dots_from(s, i + 1)
    }
}

/// What `parse_area(rest, whole)` gives: the whole dimension for an empty
/// area, the rectangle spanned by the corners around the first `..`, or a
/// single chunk; a malformed pair gives the message of the first failure.
pub open spec fn area_result(rest: Seq<char>, whole: Seq<char>) -> Result<DimArea, Seq<char>> {
    if rest.len() == 0 {
        Ok(DimArea::All)
    } else {
        match dots_from(rest, 0) {
            Some(k) => match pair_result(rest.subrange(0, k), whole) {
                Err(m) => Err(m),
                Ok(a) => match pair_result(rest.subrange(k + 2, rest.len() as int), whole) {
                    Err(m) => Err(m),
                    Ok(b) => Ok(DimArea::Rect(spanned(a.0, a.1, b.0, b.1))),
                },
            },
            None => match pair_result(rest, whole) {
                Err(m) => Err(m),
                Ok(a) => Ok(DimArea::Chunk(Xz { x: a.0, z: a.1 })),
            },
        }
    }
}

proof fn lemma_dots_from(s: Seq<char>, i: int)
    requires
        0 <= i,
    ensures
        match dots_from(s, i) {
            Some(k) => i <= k && k + 1 < s.len() && s[k] == '.' && s[k + 1] == '.',
            None => true,
        },
    decreases s.len() - i,
{
    if i + 1 < s.len() && !(s[i] == '.' && s[i + 1] == '.') {
        lemma_dots_from(s, i + 1);
    }
}

fn find_dots(s: &[char]) -> (r: Option<usize>)
    ensures
        match r {
            Some(k) => dots_from(s@, 0) == Some(k as int),
            None => dots_from(s@, 0) is None,
        },
{
    let n = s.len();
    let mut i: usize = 0;
    while i < n && i + 1 < n
        invariant
            i <= n,
            n == s@.len(),
            dots_from(s@, 0) == dots_from(s@, i as int),
        decreases n - i,
    {
        if s[i] == '.' && s[i + 1] == '.' {
            return Some(i);
        }
        i = i + 1;
    }
    None
}

/// Parses the area `rest` of the option value `whole`.
pub fn parse_area(rest: &str, whole: &str) -> (r: Result<DimArea, String>)
    ensures
        match r {
            Ok(area) => area_result(rest@, whole@) == Ok::<DimArea, Seq<char>>(area),
            Err(message) => area_result(rest@, whole@) == Err::<DimArea, Seq<char>>(message@),
        },
{
    let chars = chars_of(rest);
    let n = chars.len();
    if n == 0 {
        return Ok(DimArea::All);
    }
    match find_dots(chars.as_slice()) {
        Some(k) => {
            proof {
                lemma_dots_from(chars@, 0);
            }
            let first = rest.substring_char(0, k);
            let second = rest.substring_char(k + 2, n);
            let from = match parse_pair(first, whole) {
                Ok(xz) => xz,
                Err(message) => return Err(message),
            };
            let to = match parse_pair(second, whole) {
                Ok(xz) => xz,
                Err(message) => return Err(message),
            };
            Ok(DimArea::Rect(Rect::new(from.x, from.z, to.x, to.z)))
        },
        None => match parse_pair(rest, whole) {
            Ok(xz) => Ok(DimArea::Chunk(xz)),
            Err(message) => Err(message),
        },
    }
}

/// One `--in` area: whole dimension, single chunk, or rectangle.
#[derive(Debug, Clone, Copy)]
pub struct AreaSpec {
    /// Selected dimension.
    pub dim: Dimension,
    /// Whole, chunk, or rectangle within it.
    pub area: DimArea,
}

/// One `--region DIM:RX,RZ` entry.
#[derive(Debug, Clone, Copy)]
pub struct RegionSpec {
    /// Selected dimension.
    pub dim: Dimension,
    /// Region coordinates.
    pub at: Xz,
}

/// Whether a selection holds whole-dimension or rectangle areas, or
/// regions, which need coordinate enumeration.
pub open spec fn broad_selection(areas: Seq<AreaSpec>, regions: Seq<RegionSpec>) -> bool {
    (exists|i: int| 0 <= i < areas.len() && !(areas[i].area is Chunk)) || regions.len() > 0
}

/// Whether the selection needs coordinate enumeration.
pub fn has_broad_areas(areas: &[AreaSpec], regions: &[RegionSpec]) -> (r: bool)
    ensures
        r == broad_selection(areas@, regions@),
{
    let mut i: usize = 0;
    while i < areas.len()
        invariant
            i <= areas@.len(),
            forall|j: int| 0 <= j < i ==> areas@[j].area is Chunk,
        decreases areas@.len() - i,
    {
        if !matches!(areas[i].area, DimArea::Chunk(_)) {
            return true;
        }
        i = i + 1;
    }
    regions.len() > 0
}

/// Pieces of a selection summary: area count, region count, kind names.
pub open spec fn selection_parts(areas: nat, regions: nat, kinds: Seq<Seq<char>>) -> Seq<
    Seq<char>,
> {
    let a = if areas > 0 {
        seq![decimal(areas) + " area(s)"@]
    } else {
        Seq::empty()
    };
    let r = if regions > 0 {
        seq![decimal(regions) + " region(s)"@]
    } else {
        Seq::empty()
    };
    let k = if kinds.len() > 0 {
        seq!["kinds "@ + joined(kinds, ","@)]
    } else {
        Seq::empty()
    };
    a + r + k
}

/// One-line summary of a selection: `whole world` when it names no area
/// and no region, else its pieces joined with `, `.
pub open spec fn selection_text(areas: nat, regions: nat, kinds: Seq<Seq<char>>) -> Seq<char> {
    if areas == 0 && regions == 0 {
        "whole world"@
    } else {
        joined(selection_parts(areas, regions, kinds), ", "@)
    }
}

/// `parts` joined with `sep`.
fn join_strings(parts: &[String], sep: &str) -> (r: String)
    ensures
        r@ == joined(parts@.map_values(|p: String| p@), sep@),
{
    let ghost views = parts@.map_values(|p: String| p@);
    let mut out = String::new();
    if parts.len() == 0 {
        assert(out@ =~= joined(views, sep@));
        return out;
    }
    out.append(parts[0].as_str());
    let mut i: usize = 1;
    assert(views.take(1) =~= seq![views[0]]);
    while i < parts.len()
        invariant
            1 <= i <= parts@.len(),
            views == parts@.map_values(|p: String| p@),
            out@ == joined(views.take(i as int), sep@),
        decreases parts@.len() - i,
    {
        out.append(sep);
        out.append(parts[i].as_str());
        assert(views.take(i + 1).drop_last() =~= views.take(i as int));
        i = i + 1;
    }
    assert(views.take(parts@.len() as int) =~= views);
    out
}

/// One-line human summary of the selected scope for pre-run echoes;
/// `kinds` names the selected region kinds.
pub fn describe_selection(areas: &[AreaSpec], regions: &[RegionSpec], kinds: &[String]) -> (r:
    String)
    ensures
        r@ == selection_text(
            areas@.len(),
            regions@.len(),
            kinds@.map_values(|k: String| k@),
        ),
{
    if areas.len() == 0 && regions.len() == 0 {
        return String::from_str("whole world");
    }
    let ghost kind_views = kinds@.map_values(|k: String| k@);
    let mut parts: Vec<String> = Vec::new();
    let ghost mut expected: Seq<Seq<char>> = Seq::empty();
    if areas.len() > 0 {
        let mut part = String::new();
        push_decimal(&mut part, areas.len() as u64);
        part.append(" area(s)");
        parts.push(part);
        proof {
            expected = expected.push(decimal(areas@.len()) + " area(s)"@);
        }
    }
    if regions.len() > 0 {
        let mut part = String::new();
        push_decimal(&mut part, regions.len() as u64);
        part.append(" region(s)");
        parts.push(part);
        proof {
            expected = expected.push(decimal(regions@.len()) + " region(s)"@);
        }
    }
    if kinds.len() > 0 {
        let mut part = String::from_str("kinds ");
        let names = join_strings(kinds, ",");
        part.append(names.as_str());
        parts.push(part);
        proof {
            expected = expected.push("kinds "@ + joined(kind_views, ","@));
        }
    }
    assert(parts@.map_values(|p: String| p@) =~= expected);
    assert(expected =~= selection_parts(areas@.len(), regions@.len(), kind_views));
    join_strings(parts.as_slice(), ", ")
}

} // verus!

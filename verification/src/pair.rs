//! `X,Z` coordinate pairs of the `--in` and `--region` options.

use vstd::prelude::*;

use crate::flags::Xz;
use crate::region::decimal_i32;
use crate::text::{chars_of, find_char, index_of_char};

verus! {

/// Unicode `White_Space` characters, which `str::trim` strips.
pub open spec fn is_white_space(c: char) -> bool {
    ('\u{9}' <= c && c <= '\u{d}') || c == ' ' || c == '\u{85}' || c == '\u{a0}' || c
        == '\u{1680}' || ('\u{2000}' <= c && c <= '\u{200a}') || c == '\u{2028}' || c
        == '\u{2029}' || c == '\u{202f}' || c == '\u{205f}' || c == '\u{3000}'
}

fn white_space(c: char) -> (r: bool)
    ensures
        r == is_white_space(c),
{
    ('\u{9}' <= c && c <= '\u{d}') || c == ' ' || c == '\u{85}' || c == '\u{a0}' || c
        == '\u{1680}' || ('\u{2000}' <= c && c <= '\u{200a}') || c == '\u{2028}' || c
        == '\u{2029}' || c == '\u{202f}' || c == '\u{205f}' || c == '\u{3000}'
}

/// Index of the first non-white-space character at or after `i`, or the
/// length.
pub open spec fn text_start(s: Seq<char>, i: int) -> int
    decreases s.len() - i,
{
    if i >= s.len() || i < 0 {
        s.len() as int
    } else if is_white_space(s[i]) {
        text_start(s, i + 1)
    } else {
        i
    }
}

/// End of the text before `j`: one past the last non-white-space character
/// before `j`, or `0`.
pub open spec fn text_end(s: Seq<char>, j: int) -> int
    decreases j,
{
    if j <= 0 || j > s.len() {
        0
    } else if is_white_space(s[j - 1]) {
        text_end(s, j - 1)
    } else {
        j
    }
}

/// `s` without leading and trailing white space, as `str::trim` gives it.
pub open spec fn trimmed(s: Seq<char>) -> Seq<char> {
    let a = text_start(s, 0);
    if a >= s.len() {
        Seq::empty()
    } else {
        s.subrange(a, text_end(s, s.len() as int))
    }
}

proof fn lemma_text_start(s: Seq<char>, i: int)
    requires
        0 <= i <= s.len(),
    ensures
        i <= text_start(s, i) <= s.len(),
        text_start(s, i) < s.len() ==> !is_white_space(s[text_start(s, i)]),
    decreases s.len() - i,
{
    if i < s.len() && is_white_space(s[i]) {
        lemma_text_start(s, i + 1);
    }
}

proof fn lemma_text_end(s: Seq<char>, j: int, k: int)
    requires
        0 <= k < j <= s.len(),
        !is_white_space(s[k]),
    ensures
        k < text_end(s, j) <= j,
    decreases j,
{
    if is_white_space(s[j - 1]) {
        lemma_text_end(s, j - 1, k);
    }
}

/// `s` without leading and trailing white space.
fn trim_chars(s: &[char]) -> (r: &[char])
    ensures
        r@ == trimmed(s@),
{
    let n = s.len();
    let mut a: usize = 0;
    while a < n && white_space(s[a])
        invariant
            a <= n,
            n == s@.len(),
            text_start(s@, 0) == text_start(s@, a as int),
        decreases n - a,
    {
        a = a + 1;
    }
    if a >= n {
        let empty: &[char] = &s[n..n];
        assert(empty@ =~= Seq::<char>::empty());
        return empty;
    }
    let mut b: usize = n;
    while b > 0 && white_space(s[b - 1])
        invariant
            b <= n,
            n == s@.len(),
            text_end(s@, n as int) == text_end(s@, b as int),
        decreases b,
    {
        b = b - 1;
    }
    proof {
        lemma_text_end(s@, n as int, a as int);
    }
    &s[a..b]
}

/// `format!("{s:?}")`: the string quoted and escaped as `str`'s `Debug`
/// renders it.
pub uninterp spec fn debug_quoted(s: Seq<char>) -> Seq<char>;

/// `format!("{s:?}")` on a `&str`, named by `debug_quoted`.
#[verifier::external_body]
fn quoted(s: &str) -> (r: String)
    ensures
        r@ == debug_quoted(s@),
{
    format!("{s:?}")
}

/// What `parse_pair(s, whole)` gives: the two coordinates around the first
/// comma, each parsed after trimming white space, or the message of the
/// first failure.
pub open spec fn pair_result(s: Seq<char>, whole: Seq<char>) -> Result<(i32, i32), Seq<char>> {
    match index_of_char(s, ',') {
        None => Err("expected X,Z in "@ + debug_quoted(whole)),
        Some(k) => {
            let x = s.subrange(0, k);
            let z = s.subrange(k + 1, s.len() as int);
            match decimal_i32(trimmed(x)) {
                None => Err(
                    "invalid X coordinate "@ + debug_quoted(x) + " in "@ + debug_quoted(whole)
                        + ", expected X,Z"@,
                ),
                Some(xv) => match decimal_i32(trimmed(z)) {
                    None => Err(
                        "invalid Z coordinate "@ + debug_quoted(z) + " in "@ + debug_quoted(whole)
                            + ", expected X,Z"@,
                    ),
                    Some(zv) => Ok((xv, zv)),
                },
            }
        },
    }
}

/// Parses the `X,Z` part `s` of the option value `whole`.
pub fn parse_pair(s: &str, whole: &str) -> (r: Result<Xz, String>)
    ensures
        match r {
            Ok(xz) => pair_result(s@, whole@) == Ok::<(i32, i32), Seq<char>>((xz.x, xz.z)),
            Err(message) => pair_result(s@, whole@) == Err::<(i32, i32), Seq<char>>(message@),
        },
{
    let chars = chars_of(s);
    let n = chars.len();
    let comma = match find_char(chars.as_slice(), 0, ',') {
        Some(k) => k,
        None => {
            assert(chars@.subrange(0, n as int) =~= chars@);
            let mut message = String::from_str("expected X,Z in ");
            message.append(quoted(whole).as_str());
            return Err(message);
        },
    };
    assert(chars@.subrange(0, n as int) =~= chars@);
    let x_chars = &chars.as_slice()[0..comma];
    let z_chars = &chars.as_slice()[comma + 1..n];
    let x = crate::region::parse_i32(trim_chars(x_chars));
    let x = match x {
        Some(x) => x,
        None => {
            let x_text = s.substring_char(0, comma);
            let mut message = String::from_str("invalid X coordinate ");
            message.append(quoted(x_text).as_str());
            message.append(" in ");
            message.append(quoted(whole).as_str());
            message.append(", expected X,Z");
            return Err(message);
        },
    };
    let z = crate::region::parse_i32(trim_chars(z_chars));
    let z = match z {
        Some(z) => z,
        None => {
            let z_text = s.substring_char(comma + 1, n);
            let mut message = String::from_str("invalid Z coordinate ");
            message.append(quoted(z_text).as_str());
            message.append(" in ");
            message.append(quoted(whole).as_str());
            message.append(", expected X,Z");
            return Err(message);
        },
    };
    Ok(Xz { x, z })
}

} // verus!

//! Terminal and JSON rendering of command outcomes: error reports, JSON
//! string escaping and the one-document JSON envelopes.

use vstd::prelude::*;

use crate::style::{painted, Styler};
use crate::text::{
    chars_of, decimal, digit_char, find_char, index_of_char, push_char, push_chars, push_decimal,
};

verus! {

#[verifier::external_type_specification]
#[verifier::external_body]
pub struct ExAnyhowError(anyhow::Error);

/// `format!("{err:?}")` on an `anyhow::Error`: the message followed by its
/// chain of causes, as anyhow's `Debug` renders them. Nothing is stated of
/// the text: it is built from the causes' own `Display` impls.
#[verifier::external_body]
fn error_report(err: &anyhow::Error) -> String {
    format!("{err:?}")
}

// ---------------------------------------------------------------------------
// Lines
// ---------------------------------------------------------------------------
/// A line without its `\r` before the line feed.
pub open spec fn line_text(l: Seq<char>) -> Seq<char> {
    if l.len() > 0 && l.last() == '\r' {
        l.drop_last()
    } else {
        l
    }
}

/// Lines of `s` as `str::lines` splits them: at `\n` or `\r\n`, with an
/// optional final line ending.
pub open spec fn lines_of(s: Seq<char>) -> Seq<Seq<char>>
    decreases s.len(),
{
    if s.len() == 0 {
        Seq::empty()
    } else {
        match index_of_char(s, '\n') {
            None => seq![s],
            Some(k) => if 0 <= k < s.len() {
                seq![line_text(s.subrange(0, k))] + lines_of(s.subrange(k + 1, s.len() as int))
            } else {
                Seq::empty()
            },
        }
    }
}

/// Lines joined with `\n`.
pub open spec fn joined_lines(ls: Seq<Seq<char>>) -> Seq<char>
    decreases ls.len(),
{
    if ls.len() == 0 {
        Seq::empty()
    } else if ls.len() == 1 {
        ls[0]
    } else {
        joined_lines(ls.drop_last()) + seq!['\n'] + ls.last()
    }
}

/// A failure for stderr: a red bold `error` prefix, then the report's
/// first line after `: `, then its remaining lines.
pub open spec fn rendered_error(on: bool, report: Seq<char>) -> Seq<char> {
    let ls = lines_of(report);
    if ls.len() == 0 {
        painted(on, "error"@, "1;31"@)
    } else {
        painted(on, "error"@, "1;31"@) + ": "@ + joined_lines(ls)
    }
}

proof fn lemma_index_bounds(s: Seq<char>, c: char)
    ensures
        index_of_char(s, c) matches Some(k) ==> 0 <= k < s.len() && s[k] == c,
    decreases s.len(),
{
    if s.len() > 0 {
        lemma_index_bounds(s.drop_first(), c);
    }
}

proof fn lemma_joined_push(ls: Seq<Seq<char>>, l: Seq<char>)
    requires
        ls.len() > 0,
    ensures
        joined_lines(ls.push(l)) == joined_lines(ls) + seq!['\n'] + l,
{
    assert(ls.push(l).drop_last() =~= ls);
}

/// Renders a failure report (the `Debug` text of an error chain) for
/// stderr.
pub fn render_report(report: &str, style: Styler) -> (r: String)
    ensures
        r@ == rendered_error(style.on(), report@),
{
    let chars = chars_of(report);
    let n = chars.len();
    let mut out = style.red_bold("error");
    let ghost prefix = out@;
    assert(chars@.subrange(0, n as int) =~= chars@);
    let mut pos: usize = 0;
    let mut first = true;
    let ghost mut done: Seq<Seq<char>> = Seq::empty();
    while pos < n
        invariant
            n == chars@.len(),
            chars@ == report@,
            pos <= n,
            prefix == painted(style.on(), "error"@, "1;31"@),
            lines_of(report@) == done + lines_of(chars@.subrange(pos as int, n as int)),
            first <==> done.len() == 0,
            first ==> out@ == prefix,
            !first ==> out@ == prefix + ": "@ + joined_lines(done),
        decreases n - pos,
    {
        let ghost rest = chars@.subrange(pos as int, n as int);
        let next = find_char(chars.as_slice(), pos, '\n');
        let end = match next {
            Some(k) => k,
            None => n,
        };
        let mut line_end = end;
        if line_end > pos && next.is_some() && chars[line_end - 1] == '\r' {
            line_end = line_end - 1;
        }
        if first {
            out.append(": ");
        } else {
            push_char(&mut out, '\n');
        }
        let ghost before = out@;
        push_chars(&mut out, chars.as_slice(), pos, line_end);
        let ghost line = chars@.subrange(pos as int, line_end as int);
        proof {
            lemma_index_bounds(rest, '\n');
            match next {
                Some(k) => {
                    assert(rest.subrange(0, k - pos) =~= chars@.subrange(pos as int, k as int));
                    assert(line == line_text(rest.subrange(0, k - pos)));
                    assert(rest.subrange(k - pos + 1, rest.len() as int) =~= chars@.subrange(
                        k + 1,
                        n as int,
                    ));
                    assert(lines_of(rest) == seq![line] + lines_of(
                        chars@.subrange(k + 1, n as int),
                    ));
                },
                None => {
                    assert(line =~= rest);
                    assert(lines_of(rest) == seq![line]);
                    assert(chars@.subrange(n as int, n as int) =~= Seq::<char>::empty());
                },
            }
            if done.len() > 0 {
                lemma_joined_push(done, line);
            }
            assert(done.push(line) + lines_of(chars@.subrange(
                if next is Some {
                    end + 1
                } else {
                    n as int
                },
                n as int,
            )) =~= done + (seq![line] + lines_of(chars@.subrange(
                if next is Some {
                    end + 1
                } else {
                    n as int
                },
                n as int,
            ))));
            done = done.push(line);
        }
        assert(out@ =~= prefix + ": "@ + joined_lines(done));
        first = false;
        pos = match next {
            Some(k) => k + 1,
            None => n,
        };
    }
    assert(chars@.subrange(n as int, n as int) =~= Seq::<char>::empty());
    out
}

/// Renders a runtime failure for stderr: red bold `error:` prefix plus the
/// anyhow context chain. The text is that of `render_report` on the
/// error's `Debug` report.
pub fn render_error(err: &anyhow::Error, style: Styler) -> (r: String)
    ensures
        exists|report: Seq<char>| r@ == rendered_error(style.on(), report),
{
    let report = error_report(err);
    render_report(report.as_str(), style)
}

// ---------------------------------------------------------------------------
// JSON
// ---------------------------------------------------------------------------
/// JSON string escape of one character: quote, backslash and the named
/// escapes (`\n`, `\r`, `\t`, `\b`, `\f`), `\u00XX` for the other
/// control characters.
pub open spec fn escaped_char(c: char) -> Seq<char> {
    if c == '"' {
        seq!['\\', '"']
    } else if c == '\\' {
        seq!['\\', '\\']
    } else if c == '\n' {
        seq!['\\', 'n']
    } else if c == '\r' {
        seq!['\\', 'r']
    } else if c == '\t' {
        seq!['\\', 't']
    } else if c == '\u{8}' {
        seq!['\\', 'b']
    } else if c == '\u{c}' {
        seq!['\\', 'f']
    } else if (c as int) < 0x20 {
        seq!['\\', 'u', '0', '0', digit_char(c as int / 16), digit_char(c as int % 16)]
    } else {
        seq![c]
    }
}

/// `s` escaped for use inside a JSON string literal.
pub open spec fn json_escaped(s: Seq<char>) -> Seq<char>
    decreases s.len(),
{
    if s.len() == 0 {
        Seq::empty()
    } else {
        json_escaped(s.drop_last()) + escaped_char(s.last())
    }
}

/// Value of a lower-case hexadecimal digit.
pub open spec fn hex_value(c: char) -> int {
    if '0' <= c && c <= '9' {
        c as int - 48
    } else {
        c as int - 87
    }
}

/// A JSON string literal's contents read back: each escape sequence
/// (`\"`, `\\`, `\n`, `\r`, `\t`, `\b`, `\f`, `\uXXXX`) stands for its character,
/// anything else for itself.
pub open spec fn json_unescaped(s: Seq<char>) -> Seq<char>
    decreases s.len(),
{
    if s.len() == 0 {
        Seq::empty()
    } else if s[0] == '\\' && s.len() >= 2 && s[1] == '"' {
        seq!['"'] + json_unescaped(s.subrange(2, s.len() as int))
    } else if s[0] == '\\' && s.len() >= 2 && s[1] == '\\' {
        seq!['\\'] + json_unescaped(s.subrange(2, s.len() as int))
    } else if s[0] == '\\' && s.len() >= 2 && s[1] == 'n' {
        seq!['\n'] + json_unescaped(s.subrange(2, s.len() as int))
    } else if s[0] == '\\' && s.len() >= 2 && s[1] == 'r' {
        seq!['\r'] + json_unescaped(s.subrange(2, s.len() as int))
    } else if s[0] == '\\' && s.len() >= 2 && s[1] == 't' {
        seq!['\t'] + json_unescaped(s.subrange(2, s.len() as int))
    } else if s[0] == '\\' && s.len() >= 2 && s[1] == 'b' {
        seq!['\u{8}'] + json_unescaped(s.subrange(2, s.len() as int))
    } else if s[0] == '\\' && s.len() >= 2 && s[1] == 'f' {
        seq!['\u{c}'] + json_unescaped(s.subrange(2, s.len() as int))
    } else if s[0] == '\\' && s.len() >= 6 && s[1] == 'u' {
        seq![
            (4096 * hex_value(s[2]) + 256 * hex_value(s[3]) + 16 * hex_value(s[4]) + hex_value(
                s[5],
            )) as char,
        ] + json_unescaped(s.subrange(6, s.len() as int))
    } else {
        seq![s[0]] + json_unescaped(s.subrange(1, s.len() as int))
    }
}

proof fn lemma_escaped_front(s: Seq<char>)
    requires
        s.len() > 0,
    ensures
        json_escaped(s) == escaped_char(s[0]) + json_escaped(s.drop_first()),
    decreases s.len(),
{
    if s.len() == 1 {
        assert(s.drop_last() =~= Seq::<char>::empty());
        assert(s.drop_first() =~= Seq::<char>::empty());
        assert(json_escaped(s.drop_last()) =~= Seq::<char>::empty());
        assert(json_escaped(s.drop_first()) =~= Seq::<char>::empty());
        assert(s.last() == s[0]);
        assert(json_escaped(s) =~= escaped_char(s[0]) + json_escaped(s.drop_first()));
    } else {
        lemma_escaped_front(s.drop_last());
        assert(s.drop_last().drop_first() =~= s.drop_first().drop_last());
        assert(s.drop_first().last() == s.last());
        assert(json_escaped(s) =~= escaped_char(s[0]) + json_escaped(s.drop_first()));
    }
}

proof fn lemma_unescape_char(c: char, rest: Seq<char>)
    ensures
        json_unescaped(escaped_char(c) + rest) == seq![c] + json_unescaped(rest),
{
    let e = escaped_char(c) + rest;
    if c == '"' || c == '\\' || c == '\n' || c == '\r' || c == '\t' || c == '\u{8}' || c
        == '\u{c}' {
        assert(e.subrange(2, e.len() as int) =~= rest);
    } else if (c as int) < 0x20 {
        let v = c as int;
        assert(e.subrange(6, e.len() as int) =~= rest);
        assert(hex_value(digit_char(v / 16)) == v / 16);
        assert(hex_value(digit_char(v % 16)) == v % 16);
        assert(hex_value('0') == 0);
        assert(4096 * hex_value(e[2]) + 256 * hex_value(e[3]) + 16 * hex_value(e[4]) + hex_value(
            e[5],
        ) == v);
        assert(((v as char) as int) == v);
    } else {
        assert(e.subrange(1, e.len() as int) =~= rest);
    }
}

/// Escaping loses nothing: reading the escaped text back as a JSON string
/// literal's contents gives the original text.
pub proof fn lemma_json_escape_round_trip(s: Seq<char>)
    ensures
        json_unescaped(json_escaped(s)) == s,
    decreases s.len(),
{
    if s.len() > 0 {
        lemma_escaped_front(s);
        lemma_unescape_char(s[0], json_escaped(s.drop_first()));
        lemma_json_escape_round_trip(s.drop_first());
        assert(seq![s[0]] + s.drop_first() =~= s);
    }
}

/// Numeric value of a control character.
fn control_code(c: char) -> (d: u8)
    requires
        (c as int) < 0x20,
    ensures
        d as int == c as int,
{
    let mut d: u8 = 0;
    while d < 0x20 && (d as char) != c
        invariant
            d <= 0x20,
            d as int <= c as int,
        decreases 0x20 - d,
    {
        d = d + 1;
    }
    d
}

/// Escapes `text` for use inside a JSON string literal.
pub fn json_escape(text: &str) -> (r: String)
    ensures
        r@ == json_escaped(text@),
{
    let chars = chars_of(text);
    let mut out = String::new();
    let mut i: usize = 0;
    while i < chars.len()
        invariant
            chars@ == text@,
            i <= chars@.len(),
            out@ == json_escaped(chars@.subrange(0, i as int)),
        decreases chars@.len() - i,
    {
        let c = chars[i];
        let ghost before = out@;
        if c == '"' {
            out.append("\\\"");
            proof {
                reveal_strlit("\\\"");
            }
            assert(out@ =~= before + escaped_char(c));
        } else if c == '\\' {
            out.append("\\\\");
            proof {
                reveal_strlit("\\\\");
            }
        } else if c == '\n' {
            out.append("\\n");
            proof {
                reveal_strlit("\\n");
            }
        } else if c == '\r' {
            out.append("\\r");
            proof {
                reveal_strlit("\\r");
            }
        } else if c == '\t' {
            out.append("\\t");
            proof {
                reveal_strlit("\\t");
            }
        } else if c == '\u{8}' {
            out.append("\\b");
            proof {
                reveal_strlit("\\b");
            }
        } else if c == '\u{c}' {
            out.append("\\f");
            proof {
                reveal_strlit("\\f");
            }
        } else if ' ' > c {
            out.append("\\u00");
            proof {
                reveal_strlit("\\u00");
            }
            let code = control_code(c) as u32;
            push_char(&mut out, if code / 16 == 0 {
                '0'
            } else {
                '1'
            });
            let low = code % 16;
            let low_char = if low < 10 {
                ((low + 48) as u8) as char
            } else {
                ((low + 87) as u8) as char
            };
            push_char(&mut out, low_char);
            assert((c as int) / 16 == code / 16);
            assert(digit_char((c as int) / 16) == (if code / 16 == 0 {
                '0'
            } else {
                '1'
            }));
            assert(digit_char((c as int) % 16) == low_char);
            assert(out@ =~= before + escaped_char(c));
        } else {
            push_char(&mut out, c);
        }
        assert(out@ =~= before + escaped_char(c));
        assert(chars@.subrange(0, i + 1).drop_last() =~= chars@.subrange(0, i as int));
        i = i + 1;
    }
    assert(chars@.subrange(0, chars@.len() as int) =~= chars@);
    out
}

/// JSON success document for `command` around an already-rendered result.
pub open spec fn ok_envelope(command: Seq<char>, result_json: Seq<char>) -> Seq<char> {
    "{\"command\":\""@ + json_escaped(command) + "\",\"status\":\"ok\",\"result\":"@ + result_json
        + "}"@
}

/// JSON error document for `command` carrying a failure report.
pub open spec fn err_envelope(command: Seq<char>, report: Seq<char>) -> Seq<char> {
    "{\"command\":\""@ + json_escaped(command) + "\",\"status\":\"error\",\"error\":\""@
        + json_escaped(report)
        + "\"}"@
}

/// JSON success envelope: exactly one JSON document on stdout.
pub fn envelope_ok(command: &str, result_json: &str) -> (r: String)
    ensures
        r@ == ok_envelope(command@, result_json@),
{
    let name = json_escape(command);
    let mut out = String::new();
    out.append("{\"command\":\"");
    out.append(name.as_str());
    out.append("\",\"status\":\"ok\",\"result\":");
    out.append(result_json);
    out.append("}");
    assert(out@ =~= ok_envelope(command@, result_json@));
    out
}

/// JSON error document for a failure report.
pub fn report_envelope(command: &str, report: &str) -> (r: String)
    ensures
        r@ == err_envelope(command@, report@),
{
    let escaped = json_escape(report);
    let name = json_escape(command);
    let mut out = String::new();
    out.append("{\"command\":\"");
    out.append(name.as_str());
    out.append("\",\"status\":\"error\",\"error\":\"");
    out.append(escaped.as_str());
    out.append("\"}");
    assert(out@ =~= err_envelope(command@, report@));
    out
}

/// JSON error object: stdout stays exactly one JSON document. Callers must
/// still check the exit code; `error` is only present here. The document is
/// that of `report_envelope` on the error's `Debug` report.
pub fn envelope_err(command: &str, err: &anyhow::Error) -> (r: String)
    ensures
        exists|report: Seq<char>| r@ == err_envelope(command@, report),
{
    let report = error_report(err);
    report_envelope(command, report.as_str())
}

// ---------------------------------------------------------------------------
// Values and times
// ---------------------------------------------------------------------------
/// Longest rendered value shown whole; longer ones are cut with `...`.
pub const MAX_VALUE_CHARS: usize = 500;

/// A rendered value, cut to its first 500 characters plus `...` when
/// longer.
pub open spec fn truncated(rendered: Seq<char>) -> Seq<char> {
    if rendered.len() <= 500 {
        rendered
    } else {
        rendered.subrange(0, 500) + "..."@
    }
}

/// Cuts an overlong rendered value.
pub fn truncate_value(rendered: &str) -> (r: String)
    ensures
        r@ == truncated(rendered@),
{
    if rendered.unicode_len() <= MAX_VALUE_CHARS {
        return rendered.to_owned();
    }
    let mut out = String::from_str(rendered.substring_char(0, MAX_VALUE_CHARS));
    out.append("...");
    out
}

/// RFC 3339 text of a Unix time in milliseconds, as `chrono` renders it,
/// when the time is representable.
pub uninterp spec fn rfc3339_of_millis(millis: int) -> Option<Seq<char>>;

/// `chrono::DateTime::from_timestamp_millis(millis)` rendered with
/// `to_rfc3339`, or `None` out of range: named by `rfc3339_of_millis`.
#[verifier::external_body]
fn rfc3339(millis: i64) -> (r: Option<String>)
    ensures
        match r {
            Some(text) => rfc3339_of_millis(millis as int) == Some(text@),
            None => rfc3339_of_millis(millis as int) is None,
        },
{
    match chrono::DateTime::from_timestamp_millis(millis) {
        Some(time) => Some(time.to_rfc3339()),
        None => None,
    }
}

/// Milliseconds as handed to the calendar: values beyond `i64` are clamped.
pub open spec fn clamped_millis(created_at_ms: u64) -> int {
    if created_at_ms <= i64::MAX {
        created_at_ms as int
    } else {
        i64::MAX as int
    }
}

/// A creation time: its calendar rendering, or the raw number of
/// milliseconds followed by `ms` when it has none.
pub open spec fn time_text(created_at_ms: u64, calendar: Option<Seq<char>>) -> Seq<char> {
    match calendar {
        Some(text) => text,
        None => decimal(created_at_ms as nat) + "ms"@,
    }
}

/// Renders a creation time from its calendar rendering, if any.
pub fn render_time(created_at_ms: u64, calendar: Option<String>) -> (r: String)
    ensures
        r@ == time_text(
            created_at_ms,
            match calendar {
                Some(text) => Some(text@),
                None => None,
            },
        ),
{
    match calendar {
        Some(text) => text,
        None => {
            let mut out = String::new();
            push_decimal(&mut out, created_at_ms);
            out.append("ms");
            out
        },
    }
}

/// Unix millis to RFC 3339, falling back to the raw number when absurd.
pub fn format_time(created_at_ms: u64) -> (r: String)
    ensures
        r@ == time_text(created_at_ms, rfc3339_of_millis(clamped_millis(created_at_ms))),
{
    let millis: i64 = if created_at_ms <= i64::MAX as u64 {
        created_at_ms as i64
    } else {
        i64::MAX
    };
    render_time(created_at_ms, rfc3339(millis))
}

} // verus!

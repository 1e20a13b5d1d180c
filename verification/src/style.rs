//! Minimal terminal styling for human output.

use vstd::prelude::*;

use crate::text::{decimal, decimal_string};

verus! {

/// When to emit ANSI escapes.
#[derive(Debug, Clone, Copy, PartialEq, Eq)]
pub enum ColorChoice {
    /// Emit escapes only on a TTY without `NO_COLOR` set.
    Auto,
    /// Always emit escapes, even piped.
    Always,
    /// Never emit escapes.
    Never,
}

impl Default for ColorChoice {
    fn default() -> (r: Self)
        ensures
            r == ColorChoice::Auto,
    {
        ColorChoice::Auto
    }
}

/// Whether escapes are emitted for `choice`, given whether `NO_COLOR` is
/// set and whether the stream is a terminal.
pub open spec fn color_enabled(choice: ColorChoice, no_color: bool, is_tty: bool) -> bool {
    match choice {
        ColorChoice::Always => true,
        ColorChoice::Never => false,
        ColorChoice::Auto => is_tty && !no_color,
    }
}

/// Pure TTY/`NO_COLOR`/flag resolution. Kept free of I/O so tests never
/// touch the process environment.
pub fn resolve_color(choice: ColorChoice, no_color: bool, is_tty: bool) -> (r: bool)
    ensures
        r == color_enabled(choice, no_color, is_tty),
{
    match choice {
        ColorChoice::Always => true,
        ColorChoice::Never => false,
        ColorChoice::Auto => is_tty && !no_color,
    }
}

/// `text` wrapped in the SGR escape `code` when styling is on and the text
/// is not empty; `text` unchanged otherwise.
pub open spec fn painted(on: bool, text: Seq<char>, code: Seq<char>) -> Seq<char> {
    if !on || text.len() == 0 {
        text
    } else {
        "\x1b["@ + code + "m"@ + text + "\x1b[0m"@
    }
}

/// Decoupled styling switch.
///
/// Construct once per process from the flag and the terminal state; pass
/// by value into render functions. [`Styler::enabled`] and
/// [`Styler::disabled`] give deterministic output.
#[derive(Debug, Clone, Copy)]
pub struct Styler {
    enabled: bool,
}

impl Styler {
    /// Whether this styler emits escapes.
    pub closed spec fn on(self) -> bool {
        self.enabled
    }

    /// Styling resolved from the flag, `NO_COLOR`, and the stream's TTY
    /// state.
    pub fn from_tty(choice: ColorChoice, no_color: bool, is_tty: bool) -> (r: Self)
        ensures
            r.on() == color_enabled(choice, no_color, is_tty),
    {
        Self { enabled: resolve_color(choice, no_color, is_tty) }
    }

    /// Styling unconditionally on (`--color=always` plumbing).
    pub fn enabled() -> (r: Self)
        ensures
            r.on(),
    {
        Self { enabled: true }
    }

    /// Styling unconditionally off (`--porcelain` plumbing).
    pub fn disabled() -> (r: Self)
        ensures
            !r.on(),
    {
        Self { enabled: false }
    }

    /// Whether escapes are emitted.
    pub fn is_enabled(self) -> (r: bool)
        ensures
            r == self.on(),
    {
        self.enabled
    }

    /// Bold (snapshot IDs, headings).
    pub fn bold(self, text: &str) -> (r: String)
        ensures
            r@ == painted(self.on(), text@, "1"@),
    {
        self.paint(text, "1")
    }

    /// Red (deletions, failures).
    pub fn red(self, text: &str) -> (r: String)
        ensures
            r@ == painted(self.on(), text@, "31"@),
    {
        self.paint(text, "31")
    }

    /// Bold red (the `error:` prefix).
    pub fn red_bold(self, text: &str) -> (r: String)
        ensures
            r@ == painted(self.on(), text@, "1;31"@),
    {
        self.paint(text, "1;31")
    }

    /// Green (additions, completed work).
    pub fn green(self, text: &str) -> (r: String)
        ensures
            r@ == painted(self.on(), text@, "32"@),
    {
        self.paint(text, "32")
    }

    /// Yellow (modifications, pending work).
    pub fn yellow(self, text: &str) -> (r: String)
        ensures
            r@ == painted(self.on(), text@, "33"@),
    {
        self.paint(text, "33")
    }

    /// Faint (secondary timing detail).
    pub fn dim(self, text: &str) -> (r: String)
        ensures
            r@ == painted(self.on(), text@, "2"@),
    {
        self.paint(text, "2")
    }

    fn paint(self, text: &str, code: &str) -> (r: String)
        ensures
            r@ == painted(self.on(), text@, code@),
    {
        if !self.enabled || text.is_empty() {
            return text.to_owned();
        }
        let mut out = String::new();
        out.append("\x1b[");
        out.append(code);
        out.append("m");
        out.append(text);
        out.append("\x1b[0m");
        assert(out@ =~= "\x1b["@ + code@ + "m"@ + text@ + "\x1b[0m"@);
        out
    }
}

/// A count, emphasized in yellow unless it is zero.
pub open spec fn highlighted_count(on: bool, count: nat) -> Seq<char> {
    if count == 0 {
        decimal(count)
    } else {
        painted(on, decimal(count), "33"@)
    }
}

/// Renders `count`, emphasizing non-zero values.
pub fn highlight_count(style: Styler, count: usize) -> (r: String)
    ensures
        r@ == highlighted_count(style.on(), count as nat),
{
    let text = decimal_string(count as u64);
    if count == 0 {
        text
    } else {
        style.yellow(text.as_str())
    }
}

} // verus!

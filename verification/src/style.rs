//! Terminal styling through `owo_colors`.
//!
//! Each wrapper formats its text through one `OwoColorize` method and
//! hands back the escape-coded string. The contracts state the escape
//! sequences that owo-colors 4.4 writes: a select-graphic-rendition code in
//! front, then the text, then the matching reset (`39` for a foreground
//! colour, `0` for a style).

use vstd::prelude::*;
use owo_colors::OwoColorize;

verus! {

/// The escape sequence `ESC [ code m`.
pub open spec fn sgr(code: Seq<char>) -> Seq<char> {
    seq!['\x1b', '['] + code + seq!['m']
}

/// `s` in the foreground colour `code`, reset to the default colour after.
pub open spec fn fg_coloured(code: Seq<char>, s: Seq<char>) -> Seq<char> {
    sgr(code) + s + sgr(seq!['3', '9'])
}

/// `s` in the style `code`, followed by a full reset.
pub open spec fn styled(code: Seq<char>, s: Seq<char>) -> Seq<char> {
    sgr(code) + s + sgr(seq!['0'])
}

/// `s` in magenta.
pub open spec fn magenta(s: Seq<char>) -> Seq<char> {
    fg_coloured(seq!['3', '5'], s)
}

/// `s` in yellow.
pub open spec fn yellow(s: Seq<char>) -> Seq<char> {
    fg_coloured(seq!['3', '3'], s)
}

/// `s` in bright cyan.
pub open spec fn bright_cyan(s: Seq<char>) -> Seq<char> {
    fg_coloured(seq!['9', '6'], s)
}

/// `s` in bold.
pub open spec fn bold(s: Seq<char>) -> Seq<char> {
    styled(seq!['1'], s)
}

/// `s` dimmed.
pub open spec fn dimmed(s: Seq<char>) -> Seq<char> {
    styled(seq!['2'], s)
}

/// `OwoColorize::magenta`, displayed: `ESC[35m` + text + `ESC[39m`.
#[verifier::external_body]
pub(crate) fn paint_magenta(s: &str) -> (r: String)
    ensures
        r@ == magenta(s@),
{
    format!("{}", s.magenta())
}

/// `OwoColorize::yellow`, displayed: `ESC[33m` + text + `ESC[39m`.
#[verifier::external_body]
pub(crate) fn paint_yellow(s: &str) -> (r: String)
    ensures
        r@ == yellow(s@),
{
    format!("{}", s.yellow())
}

/// `OwoColorize::bright_cyan`, displayed: `ESC[96m` + text + `ESC[39m`.
#[verifier::external_body]
pub(crate) fn paint_bright_cyan(s: &str) -> (r: String)
    ensures
        r@ == bright_cyan(s@),
{
    format!("{}", s.bright_cyan())
}

/// `OwoColorize::bold`, displayed: `ESC[1m` + text + `ESC[0m`.
#[verifier::external_body]
pub(crate) fn paint_bold(s: &str) -> (r: String)
    ensures
        r@ == bold(s@),
{
    format!("{}", s.bold())
}

/// `OwoColorize::dimmed`, displayed: `ESC[2m` + text + `ESC[0m`.
#[verifier::external_body]
pub(crate) fn paint_dimmed(s: &str) -> (r: String)
    ensures
        r@ == dimmed(s@),
{
    format!("{}", s.dimmed())
}

} // verus!

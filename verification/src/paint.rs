//! Choosing a style for a piece of a line.

use vstd::prelude::*;
use crate::style::{bold, bright_cyan, dimmed, magenta, yellow};
use crate::style::{paint_bold, paint_bright_cyan, paint_dimmed, paint_magenta, paint_yellow};

verus! {

/// The look of one piece of a terminal line.
#[derive(Debug, Clone, Copy, PartialEq, Eq, Structural)]
pub enum Paint {
    Plain,
    Dim,
    Bold,
    Magenta,
    Yellow,
    /// Bold text in bright cyan.
    CyanBold,
}

/// `s` with the look `p`.
pub open spec fn painted(p: Paint, s: Seq<char>) -> Seq<char> {
    match p {
        Paint::Plain => s,
        Paint::Dim => dimmed(s),
        Paint::Bold => bold(s),
        Paint::Magenta => magenta(s),
        Paint::Yellow => yellow(s),
        Paint::CyanBold => bright_cyan(bold(s)),
    }
}

/// Gives `s` the look `p`.
pub fn paint(p: Paint, s: &str) -> (r: String)
    ensures
        r@ == painted(p, s@),
{
    match p {
        Paint::Plain => String::from_str(s),
        Paint::Dim => paint_dimmed(s),
        Paint::Bold => paint_bold(s),
        Paint::Magenta => paint_magenta(s),
        Paint::Yellow => paint_yellow(s),
        Paint::CyanBold => {
            let b = paint_bold(s);
            paint_bright_cyan(b.as_str())
        },
    }
}

} // verus!

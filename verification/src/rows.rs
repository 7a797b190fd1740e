//! The lines of the terminal listing.

use vstd::prelude::*;
use crate::display::{DisplayEntry, SIZE_COL_WIDTH, TtyLayout};
use crate::glyphs::{bar, make_bar, make_sparkline, shortened, sparkline, truncate_name};
use crate::paint::{paint, painted, Paint};
use crate::size::{format_size, size_parts};
use crate::text::{
    decimal, decimal_string, grouped, pad_left, pad_left_string, pad_right, pad_right_string, push_char,
    push_decimal, push_grouped, push_repeat, push_str, repeat_char,
};
use crate::types::ScanResult;

verus! {

/// The name as listed: symbolic links get a leading `@`.
pub open spec fn shown_name(e: DisplayEntry) -> Seq<char> {
    if e.is_symlink { seq!['@'] + e.name@ } else { e.name@ }
}

/// The name column: the listed name fitted and padded to the column width.
pub open spec fn name_cell(e: DisplayEntry, l: TtyLayout) -> Seq<char> {
    pad_right(shortened(shown_name(e), l.name_width as nat), l.name_width as nat)
}

/// The bar column.
pub open spec fn bar_cell(e: DisplayEntry, l: TtyLayout, spark: bool) -> Seq<char> {
    if spark {
        sparkline(e.share.spark_level as nat)
    } else {
        bar(e.share.bar_cells as nat, l.bar_width as nat)
    }
}

/// The number of a size, with `~` in front of an estimate.
pub open spec fn size_number(estimate: bool, bytes: nat) -> Seq<char> {
    (if estimate { seq!['~'] } else { Seq::empty() }) + size_parts(bytes).0
}

/// The size number right-aligned so that number, space and unit take the
/// size column.
pub open spec fn size_cell(number: Seq<char>, unit: Seq<char>) -> Seq<char> {
    pad_left(number, if unit.len() + 1 <= SIZE_COL_WIDTH { (SIZE_COL_WIDTH - (unit.len() + 1)) as nat } else { 0 })
}

/// A percentage right-aligned in three characters, then `%`.
pub open spec fn percent_cell(p: nat) -> Seq<char> {
    pad_left(decimal(p), 3) + seq!['%']
}

/// The looks of name, bar, size, unit, percentage and marker of a line.
pub open spec fn row_paints(e: DisplayEntry, color: bool) -> (Paint, Paint, Paint, Paint, Paint, Paint) {
    if !color {
        (Paint::Plain, Paint::Plain, Paint::Plain, Paint::Plain, Paint::Plain, Paint::Plain)
    } else if e.is_symlink {
        (Paint::Magenta, Paint::Dim, Paint::Dim, Paint::Dim, Paint::Dim, Paint::Yellow)
    } else if e.share.heavy {
        (Paint::CyanBold, Paint::Bold, Paint::Bold, Paint::Dim, Paint::Plain, Paint::Yellow)
    } else if e.share.light {
        (Paint::Dim, Paint::Dim, Paint::Dim, Paint::Dim, Paint::Dim, Paint::Dim)
    } else {
        (Paint::Plain, Paint::Plain, Paint::Plain, Paint::Dim, Paint::Plain, Paint::Yellow)
    }
}

/// The `(!)` marker of a listed hidden entry.
pub open spec fn marker_part(e: DisplayEntry, color: bool) -> Seq<char> {
    if e.is_hidden {
        painted(row_paints(e, color).5, "  (!)"@)
    } else {
        Seq::empty()
    }
}

/// The terminal line of one entry.
pub open spec fn entry_row(e: DisplayEntry, l: TtyLayout, spark: bool, color: bool) -> Seq<char> {
    let p = row_paints(e, color);
    let unit = size_parts(e.size as nat).1;
    "  "@ + painted(p.0, name_cell(e, l))
        + "  "@ + painted(p.1, bar_cell(e, l, spark))
        + "  "@ + painted(p.2, size_cell(size_number(e.is_estimate, e.size as nat), unit))
        + " "@ + painted(p.3, unit)
        + "  "@ + painted(p.4, percent_cell(e.share.percent as nat))
        + marker_part(e, color)
}

/// The label of the hidden line.
pub open spec fn aggregate_label(count: nat) -> Seq<char> {
    "... "@ + decimal(count) + " hidden items"@
}

/// The hidden line: label, an empty bar, size and percentage, dimmed when
/// coloured.
pub open spec fn aggregate_row(count: nat, bytes: nat, percent: nat, l: TtyLayout, color: bool) -> Seq<char> {
    let d = if color { Paint::Dim } else { Paint::Plain };
    let unit = size_parts(bytes).1;
    "  "@ + painted(d, pad_right(aggregate_label(count), l.name_width as nat))
        + "  "@ + repeat_char(' ', l.bar_width as nat)
        + "  "@ + painted(d, size_cell(size_parts(bytes).0, unit))
        + " "@ + painted(d, unit)
        + "  "@ + painted(d, percent_cell(percent))
}

/// The footer: the total and the number of items, grouped in thousands.
pub open spec fn footer_row(total: nat, items: nat) -> Seq<char> {
    "  Total: "@ + size_parts(total).0 + " "@ + size_parts(total).1 + " across "@ + grouped(items) + " items"@
}

/// The notes on what the scan could not see, in a fixed order.
pub open spec fn notes(result: &ScanResult) -> Seq<Seq<char>> {
    let a: Seq<Seq<char>> = if result.error_count > 0 { seq![decimal(result.error_count as nat) + " errors"@] } else { Seq::empty() };
    let b: Seq<Seq<char>> = if result.restricted_count > 0 { seq![decimal(result.restricted_count as nat) + " paths restricted"@] } else { Seq::empty() };
    let c: Seq<Seq<char>> = if result.skipped_mounts > 0 { seq![decimal(result.skipped_mounts as nat) + " mount points skipped"@] } else { Seq::empty() };
    let d: Seq<Seq<char>> = if result.estimated_count > 0 { seq![decimal(result.estimated_count as nat) + " entries estimated (too many files)"@] } else { Seq::empty() };
    a + b + c + d
}

/// The pieces of `parts` separated by `", "`.
pub open spec fn joined(parts: Seq<Seq<char>>) -> Seq<char>
    decreases parts.len(),
{
    if parts.len() == 0 {
        Seq::empty()
    } else if parts.len() == 1 {
        parts[0]
    } else {
        joined(parts.drop_last()) + ", "@ + parts.last()
    }
}

/// The notes line, when there is anything to note.
pub open spec fn notes_row(result: &ScanResult) -> Option<Seq<char>> {
    if notes(result).len() == 0 {
        None
    } else {
        Some("  ["@ + joined(notes(result)) + "]"@)
    }
}

fn row_paints_exec(e: &DisplayEntry, color: bool) -> (r: (Paint, Paint, Paint, Paint, Paint, Paint))
    ensures
        r == row_paints(*e, color),
{
    if !color {
        (Paint::Plain, Paint::Plain, Paint::Plain, Paint::Plain, Paint::Plain, Paint::Plain)
    } else if e.is_symlink {
        (Paint::Magenta, Paint::Dim, Paint::Dim, Paint::Dim, Paint::Dim, Paint::Yellow)
    } else if e.share.heavy {
        (Paint::CyanBold, Paint::Bold, Paint::Bold, Paint::Dim, Paint::Plain, Paint::Yellow)
    } else if e.share.light {
        (Paint::Dim, Paint::Dim, Paint::Dim, Paint::Dim, Paint::Dim, Paint::Dim)
    } else {
        (Paint::Plain, Paint::Plain, Paint::Plain, Paint::Dim, Paint::Plain, Paint::Yellow)
    }
}

fn size_cell_exec(number: &str, unit: &str) -> (r: String)
    ensures
        r@ == size_cell(number@, unit@),
{
    let ulen = crate::text::chars_of(unit).len();
    let width = if ulen < SIZE_COL_WIDTH { SIZE_COL_WIDTH - (ulen + 1) } else { 0 };
    pad_left_string(number, width)
}

fn percent_cell_exec(p: u64) -> (r: String)
    ensures
        r@ == percent_cell(p as nat),
{
    let d = decimal_string(p);
    let mut r = pad_left_string(d.as_str(), 3);
    push_char(&mut r, '%');
    r
}

/// Appends `sep` and then `piece` with the look `p`.
fn push_painted(s: &mut String, sep: &str, p: Paint, piece: &str)
    ensures
        final(s)@ == old(s)@ + sep@ + painted(p, piece@),
{
    push_str(s, sep);
    let t = paint(p, piece);
    push_str(s, t.as_str());
}

/// The terminal line of one entry.
pub fn tty_row(e: &DisplayEntry, l: &TtyLayout, spark: bool, color: bool) -> (r: String)
    ensures
        r@ == entry_row(*e, *l, spark, color),
{
    let p = row_paints_exec(e, color);
    let shown = if e.is_symlink {
        let mut n = String::new();
        push_char(&mut n, '@');
        push_str(&mut n, e.name.as_str());
        n
    } else {
        e.name.clone()
    };
    assert(shown@ =~= shown_name(*e));
    let fitted = truncate_name(shown.as_str(), l.name_width);
    let name = pad_right_string(fitted.as_str(), l.name_width);
    let bar_text = if spark { make_sparkline(e.share.spark_level) } else { make_bar(e.share.bar_cells, l.bar_width) };
    let (raw, unit) = format_size(e.size);
    let mut number = String::new();
    if e.is_estimate {
        push_char(&mut number, '~');
    }
    push_str(&mut number, raw.as_str());
    assert(number@ =~= size_number(e.is_estimate, e.size as nat));
    let size = size_cell_exec(number.as_str(), unit.as_str());
    let pct = percent_cell_exec(e.share.percent);
    let mut s = String::new();
    push_painted(&mut s, "  ", p.0, name.as_str());
    push_painted(&mut s, "  ", p.1, bar_text.as_str());
    push_painted(&mut s, "  ", p.2, size.as_str());
    push_painted(&mut s, " ", p.3, unit.as_str());
    push_painted(&mut s, "  ", p.4, pct.as_str());
    let ghost head = s@;
    if e.is_hidden {
        let m = paint(p.5, "  (!)");
        push_str(&mut s, m.as_str());
    }
    assert(s@ =~= entry_row(*e, *l, spark, color));
    s
}

/// The hidden line of the listing.
pub fn aggregate_line(count: usize, bytes: u64, percent: u64, l: &TtyLayout, color: bool) -> (r: String)
    ensures
        r@ == aggregate_row(count as nat, bytes as nat, percent as nat, *l, color),
{
    let d = if color { Paint::Dim } else { Paint::Plain };
    let mut label = String::from_str("... ");
    push_decimal(&mut label, count as u64);
    push_str(&mut label, " hidden items");
    assert(label@ =~= aggregate_label(count as nat));
    let padded = pad_right_string(label.as_str(), l.name_width);
    let (num, unit) = format_size(bytes);
    let size = size_cell_exec(num.as_str(), unit.as_str());
    let pct = percent_cell_exec(percent);
    let mut s = String::new();
    push_painted(&mut s, "  ", d, padded.as_str());
    push_str(&mut s, "  ");
    push_repeat(&mut s, ' ', l.bar_width);
    push_painted(&mut s, "  ", d, size.as_str());
    push_painted(&mut s, " ", d, unit.as_str());
    push_painted(&mut s, "  ", d, pct.as_str());
    assert(s@ =~= aggregate_row(count as nat, bytes as nat, percent as nat, *l, color));
    s
}

/// The footer of the listing.
pub fn footer_line(total: u64, items: usize) -> (r: String)
    ensures
        r@ == footer_row(total as nat, items as nat),
{
    let (num, unit) = format_size(total);
    let mut s = String::from_str("  Total: ");
    push_str(&mut s, num.as_str());
    push_str(&mut s, " ");
    push_str(&mut s, unit.as_str());
    push_str(&mut s, " across ");
    push_grouped(&mut s, items as u64);
    push_str(&mut s, " items");
    assert(s@ =~= footer_row(total as nat, items as nat));
    s
}

fn push_note(acc: &mut Vec<String>, n: u32, text: &str)
    ensures
        final(acc)@.len() == old(acc)@.len() + if n > 0 { 1int } else { 0 },
        forall|k: int| 0 <= k < old(acc)@.len() ==> final(acc)@[k] == old(acc)@[k],
        n > 0 ==> final(acc)@.last()@ == decimal(n as nat) + text@,
{
    if n > 0 {
        let mut s = decimal_string(n as u64);
        push_str(&mut s, text);
        acc.push(s);
    }
}

/// The notes line of the listing, when there is anything to note.
pub fn notes_line(result: &ScanResult) -> (r: Option<String>)
    ensures
        r is None <==> notes_row(result) is None,
        r is Some ==> r->0@ == notes_row(result)->0,
{
    let mut parts: Vec<String> = Vec::new();
    push_note(&mut parts, result.error_count, " errors");
    push_note(&mut parts, result.restricted_count, " paths restricted");
    push_note(&mut parts, result.skipped_mounts, " mount points skipped");
    push_note(&mut parts, result.estimated_count, " entries estimated (too many files)");
    let ghost views = parts@.map_values(|p: String| p@);
    assert(views =~= notes(result));
    if parts.len() == 0 {
        return None;
    }
    let mut s = String::from_str("  [");
    let ghost head = s@;
    let mut i: usize = 0;
    while i < parts.len()
        invariant
            i <= parts.len(),
            parts.len() > 0,
            views == parts@.map_values(|p: String| p@),
            s@ == head + joined(views.take(i as int)),
        decreases parts.len() - i,
    {
        assert(views.take(i as int + 1).drop_last() =~= views.take(i as int));
        if i > 0 {
            push_str(&mut s, ", ");
        }
        push_str(&mut s, parts[i].as_str());
        i = i + 1;
        assert(s@ =~= head + joined(views.take(i as int)));
    }
    assert(views.take(i as int) =~= views);
    push_str(&mut s, "]");
    assert(s@ =~= notes_row(result)->0);
    Some(s)
}

} // verus!

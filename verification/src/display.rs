//! Turning a scan result into output lines.
//!
//! Ratios of an entry's size to the total are floating-point quantities in
//! the viewer; the caller computes them and hands the outcome in as a
//! [`Share`] per entry (and a promotion flag per hidden entry). Everything
//! else about the lines is decided here.

use vstd::prelude::*;
use crate::types::{Config, EntryInfo, ScanResult};

verus! {

/// Width of the size column, unit included.
pub const SIZE_COL_WIDTH: usize = 9;
/// Narrowest bar before the name column gives way.
pub const MIN_BAR_WIDTH: usize = 10;
/// Widest name column.
pub const MAX_NAME_WIDTH: usize = 30;

/// Where an entry's size stands against the total, as the caller measured
/// it with the entry's ratio `r` of the total.
#[derive(Debug, Clone, Copy)]
pub struct Share {
    /// `r` in percent, rounded down.
    pub percent: u64,
    /// `r` times the bar width, rounded to the nearest cell.
    pub bar_cells: usize,
    /// `r` times seven, rounded: the sparkline level.
    pub spark_level: usize,
    /// `r` is above a quarter: the entry is drawn highlighted.
    pub heavy: bool,
    /// `r` is below two percent: the entry is drawn muted.
    pub light: bool,
}

/// What the terminal view needs beyond the scan result.
pub struct TtyFrame {
    /// Columns of the terminal, when it could be asked.
    pub term_cols: Option<usize>,
    /// Whether escape-coded colours are written.
    pub color: bool,
    /// For each hidden entry: its ratio is above five percent, so it is
    /// listed on its own instead of being folded into the hidden line.
    pub promoted: Vec<bool>,
    /// One share for each visible entry.
    pub visible: Vec<Share>,
    /// One share for each hidden entry.
    pub hidden: Vec<Share>,
    /// The folded hidden entries' percent of the total.
    pub aggregate_percent: u64,
}

/// One line of the terminal listing, before layout.
#[derive(Debug)]
pub struct DisplayEntry {
    pub name: String,
    pub size: u64,
    /// A hidden entry listed on its own; it carries the `(!)` marker.
    pub is_hidden: bool,
    pub is_estimate: bool,
    pub is_symlink: bool,
    pub share: Share,
}

/// The column widths of the terminal listing.
#[derive(Debug, Clone, Copy)]
pub struct TtyLayout {
    pub term_width: usize,
    pub name_width: usize,
    pub bar_width: usize,
}

/// The frame fits the result: one share and one flag per entry.
pub open spec fn frame_fits(result: &ScanResult, frame: &TtyFrame) -> bool {
    &&& frame.promoted@.len() == result.hidden_entries@.len()
    &&& frame.visible@.len() == result.entries@.len()
    &&& frame.hidden@.len() == result.hidden_entries@.len()
}

/// The listing line of `e`, marked as a listed hidden entry or not.
pub open spec fn display_of(e: EntryInfo, marked: bool, share: Share) -> DisplayEntry {
    DisplayEntry {
        name: e.name,
        size: e.size,
        is_hidden: marked,
        is_estimate: e.is_estimate,
        is_symlink: e.is_symlink,
        share: share,
    }
}

/// The lines of `entries`, unmarked, in order.
pub open spec fn plain_lines(entries: Seq<EntryInfo>, shares: Seq<Share>) -> Seq<DisplayEntry> {
    Seq::new(entries.len(), |i: int| display_of(entries[i], false, shares[i]))
}

/// The lines of the promoted entries among the first `n` hidden ones,
/// marked, in order.
pub open spec fn promoted_lines(hidden: Seq<EntryInfo>, shares: Seq<Share>, promoted: Seq<bool>, n: nat) -> Seq<DisplayEntry>
    decreases n,
{
    if n == 0 {
        Seq::empty()
    } else {
        let before = promoted_lines(hidden, shares, promoted, (n - 1) as nat);
        if promoted[n - 1] {
            before.push(display_of(hidden[n - 1], true, shares[n - 1]))
        } else {
            before
        }
    }
}

/// How many of the first `n` hidden entries are folded, and their total size.
pub open spec fn folded(hidden: Seq<EntryInfo>, promoted: Seq<bool>, n: nat) -> (nat, nat)
    decreases n,
{
    if n == 0 {
        (0, 0)
    } else {
        let before = folded(hidden, promoted, (n - 1) as nat);
        if promoted[n - 1] {
            before
        } else {
            (before.0 + 1, before.1 + hidden[n - 1].size as nat)
        }
    }
}

/// The hidden line: `None` when hidden entries are shown or none is folded,
/// else the count and total size of the folded ones.
pub open spec fn aggregate_spec(result: &ScanResult, config: &Config, promoted: Seq<bool>) -> Option<(usize, u64)> {
    let f = folded(result.hidden_entries@, promoted, result.hidden_entries@.len());
    if config.show_hidden || f.0 == 0 {
        None
    } else {
        Some((f.0 as usize, f.1 as u64))
    }
}

/// The folded sizes add up without overflow.
pub open spec fn aggregate_fits(result: &ScanResult, promoted: Seq<bool>) -> bool {
    folded(result.hidden_entries@, promoted, result.hidden_entries@.len()).1 <= u64::MAX
}

/// The lines of the listing, before sorting.
pub open spec fn listing_spec(result: &ScanResult, config: &Config, frame: &TtyFrame) -> Seq<DisplayEntry> {
    plain_lines(result.entries@, frame.visible@) + if config.show_hidden {
        plain_lines(result.hidden_entries@, frame.hidden@)
    } else {
        promoted_lines(result.hidden_entries@, frame.hidden@, frame.promoted@, result.hidden_entries@.len())
    }
}

proof fn lemma_folded_step(hidden: Seq<EntryInfo>, promoted: Seq<bool>, n: nat)
    requires
        n < hidden.len(),
    ensures
        folded(hidden, promoted, n + 1).0 == folded(hidden, promoted, n).0 + (if promoted[n as int] { 0nat } else { 1nat }),
        folded(hidden, promoted, n + 1).1 == folded(hidden, promoted, n).1 + (if promoted[n as int] { 0nat } else { hidden[n as int].size as nat }),
        folded(hidden, promoted, n).0 <= n,
    decreases n,
{
    if n > 0 {
        lemma_folded_step(hidden, promoted, (n - 1) as nat);
    }
}

proof fn lemma_folded_monotone(hidden: Seq<EntryInfo>, promoted: Seq<bool>, n: nat, m: nat)
    requires
        n <= m <= hidden.len(),
    ensures
        folded(hidden, promoted, n).1 <= folded(hidden, promoted, m).1,
    decreases m - n,
{
    if n < m {
        lemma_folded_step(hidden, promoted, (m - 1) as nat);
        lemma_folded_monotone(hidden, promoted, n, (m - 1) as nat);
    }
}

/// The hidden line of the listing: how many hidden entries are folded into
/// it and their total size.
pub fn hidden_aggregate(result: &ScanResult, config: &Config, promoted: &Vec<bool>) -> (r: Option<(usize, u64)>)
    requires
        promoted@.len() == result.hidden_entries@.len(),
        aggregate_fits(result, promoted@),
    ensures
        r == aggregate_spec(result, config, promoted@),
{
    if config.show_hidden {
        return None;
    }
    let hidden = &result.hidden_entries;
    let ghost n = hidden@.len();
    let mut agg_size: u64 = 0;
    let mut agg_count: usize = 0;
    let mut i: usize = 0;
    while i < hidden.len()
        invariant
            i <= hidden.len(),
            promoted@.len() == hidden@.len(),
            hidden == &result.hidden_entries,
            aggregate_fits(result, promoted@),
            agg_count == folded(hidden@, promoted@, i as nat).0,
            agg_size == folded(hidden@, promoted@, i as nat).1,
        decreases hidden.len() - i,
    {
        proof {
            lemma_folded_step(hidden@, promoted@, i as nat);
            lemma_folded_monotone(hidden@, promoted@, (i + 1) as nat, hidden@.len());
        }
        if !promoted[i] {
            agg_size = agg_size + hidden[i].size;
            agg_count = agg_count + 1;
        }
        i = i + 1;
    }
    if agg_count > 0 {
        Some((agg_count, agg_size))
    } else {
        None
    }
}

fn display_entry(e: &EntryInfo, marked: bool, share: Share) -> (r: DisplayEntry)
    ensures
        r == display_of(*e, marked, share),
{
    DisplayEntry {
        name: e.name.clone(),
        size: e.size,
        is_hidden: marked,
        is_estimate: e.is_estimate,
        is_symlink: e.is_symlink,
        share: share,
    }
}

/// The lines of the terminal listing, in directory order (visible entries
/// first), and the hidden line.
pub fn prepare_entries(result: &ScanResult, config: &Config, frame: &TtyFrame) -> (r: (Vec<DisplayEntry>, Option<(usize, u64)>))
    requires
        frame_fits(result, frame),
        aggregate_fits(result, frame.promoted@),
    ensures
        r.0@ == listing_spec(result, config, frame),
        r.1 == aggregate_spec(result, config, frame.promoted@),
{
    let mut entries: Vec<DisplayEntry> = Vec::new();
    let mut i: usize = 0;
    while i < result.entries.len()
        invariant
            i <= result.entries.len(),
            frame_fits(result, frame),
            entries@ == plain_lines(result.entries@, frame.visible@).take(i as int),
        decreases result.entries.len() - i,
    {
        entries.push(display_entry(&result.entries[i], false, frame.visible[i]));
        i = i + 1;
        assert(entries@ =~= plain_lines(result.entries@, frame.visible@).take(i as int));
    }
    assert(plain_lines(result.entries@, frame.visible@).take(i as int) =~= plain_lines(result.entries@, frame.visible@));
    let ghost head = entries@;
    let hidden = &result.hidden_entries;
    let mut j: usize = 0;
    if config.show_hidden {
        while j < hidden.len()
            invariant
                j <= hidden.len(),
                frame_fits(result, frame),
                hidden == &result.hidden_entries,
                entries@ == head + plain_lines(hidden@, frame.hidden@).take(j as int),
            decreases hidden.len() - j,
        {
            entries.push(display_entry(&hidden[j], false, frame.hidden[j]));
            j = j + 1;
            assert(entries@ =~= head + plain_lines(hidden@, frame.hidden@).take(j as int));
        }
        assert(plain_lines(hidden@, frame.hidden@).take(j as int) =~= plain_lines(hidden@, frame.hidden@));
    } else {
        while j < hidden.len()
            invariant
                j <= hidden.len(),
                frame_fits(result, frame),
                hidden == &result.hidden_entries,
                entries@ == head + promoted_lines(hidden@, frame.hidden@, frame.promoted@, j as nat),
            decreases hidden.len() - j,
        {
            if frame.promoted[j] {
                entries.push(display_entry(&hidden[j], true, frame.hidden[j]));
            }
            j = j + 1;
            assert(entries@ =~= head + promoted_lines(hidden@, frame.hidden@, frame.promoted@, j as nat));
        }
    }
    let aggregate = hidden_aggregate(result, config, &frame.promoted);
    (entries, aggregate)
}

/// The column widths for a terminal of `term_cols` columns (80 when
/// unknown, never below 40). `marked` is set when a listed hidden entry
/// needs room for its marker.
pub open spec fn layout_spec(term_cols: Option<usize>, sparkline: bool, marked: bool) -> TtyLayout {
    let tw: int = match term_cols {
        Some(c) => if c >= 40 { c as int } else { 40 },
        None => 80,
    };
    let overhead: int = 2 + 2 + 2 + SIZE_COL_WIDTH + 2 + 4 + if marked { 5int } else { 0 };
    let nw0: int = if MAX_NAME_WIDTH <= tw / 3 { MAX_NAME_WIDTH as int } else { tw / 3 };
    let rem0: int = if tw >= nw0 + overhead { tw - (nw0 + overhead) } else { 0 };
    let nw: int = if !sparkline && rem0 < MIN_BAR_WIDTH {
        let deficit = MIN_BAR_WIDTH - rem0;
        if nw0 >= deficit { nw0 - deficit } else { 0 }
    } else {
        nw0
    };
    let rem: int = if tw >= nw + overhead { tw - (nw + overhead) } else { 0 };
    TtyLayout {
        term_width: tw as usize,
        name_width: nw as usize,
        bar_width: if sparkline { 3 } else { rem as usize },
    }
}

/// The column widths of the terminal listing.
pub fn tty_layout(term_cols: Option<usize>, sparkline: bool, marked: bool) -> (l: TtyLayout)
    ensures
        l == layout_spec(term_cols, sparkline, marked),
{
    let tw: usize = match term_cols {
        Some(c) => if c >= 40 { c } else { 40 },
        None => 80,
    };
    let overhead: usize = 2 + 2 + 2 + SIZE_COL_WIDTH + 2 + 4 + if marked { 5 } else { 0 };
    let mut name_width: usize = if MAX_NAME_WIDTH <= tw / 3 { MAX_NAME_WIDTH } else { tw / 3 };
    let mut remaining: usize = tw.saturating_sub(name_width + overhead);
    if !sparkline && remaining < MIN_BAR_WIDTH {
        let deficit = MIN_BAR_WIDTH - remaining;
        name_width = name_width.saturating_sub(deficit);
        remaining = tw.saturating_sub(name_width + overhead);
    }
    let bar_width: usize = if sparkline { 3 } else { remaining };
    TtyLayout { term_width: tw, name_width, bar_width }
}

/// Some hidden entry is listed on its own with a marker.
pub open spec fn has_promoted_spec(config: &Config, promoted: Seq<bool>) -> bool {
    !config.show_hidden && exists|i: int| 0 <= i < promoted.len() && #[trigger] promoted[i]
}

/// Whether a listed hidden entry needs room for its marker.
pub fn has_promoted_hidden(config: &Config, promoted: &Vec<bool>) -> (r: bool)
    ensures
        r == has_promoted_spec(config, promoted@),
{
    if config.show_hidden {
        return false;
    }
    let mut i: usize = 0;
    while i < promoted.len()
        invariant
            i <= promoted.len(),
            !config.show_hidden,
            forall|k: int| 0 <= k < i ==> !promoted@[k],
        decreases promoted.len() - i,
    {
        if promoted[i] {
            assert(exists|k: int| 0 <= k < promoted@.len() && #[trigger] promoted@[k]) by {
                assert(promoted@[i as int]);
            }
            return true;
        }
        i = i + 1;
    }
    false
}

} // verus!

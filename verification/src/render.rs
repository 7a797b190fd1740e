//! The three output modes.

use vstd::prelude::*;
use crate::display::{
    aggregate_fits, aggregate_spec, frame_fits, has_promoted_hidden, has_promoted_spec,
    layout_spec, listing_spec, prepare_entries, tty_layout, DisplayEntry, TtyFrame,
};
use crate::order::{size_order, size_order_of};
use crate::select::{kept, select_entries};
use crate::rows::{aggregate_line, aggregate_row, entry_row, footer_line, footer_row, notes_line, notes_row, tty_row};
use crate::text::{decimal, push_char, push_decimal, push_decimal_wide, push_str};
use crate::json::{json_escaped, push_json_escaped};
use crate::types::{Config, DisplayMode, EntryInfo, ScanResult};

verus! {

/// The texts of a list of strings.
pub open spec fn texts(v: Seq<String>) -> Seq<Seq<char>> {
    v.map_values(|s: String| s@)
}

/// The sizes of the listing lines.
pub open spec fn listing_sizes(listing: Seq<DisplayEntry>) -> Seq<u64> {
    Seq::new(listing.len(), |i: int| listing[i].size)
}

/// The terminal output: the listing by size, largest first, then the
/// hidden line, the footer and the notes line, each when there is one.
pub open spec fn tty_spec(result: &ScanResult, config: &Config, frame: &TtyFrame) -> Seq<Seq<char>> {
    let listing = listing_spec(result, config, frame);
    let order = size_order_of(listing_sizes(listing));
    let l = layout_spec(frame.term_cols, config.sparkline, has_promoted_spec(config, frame.promoted@));
    let rows = Seq::new(listing.len(), |k: int| entry_row(listing[order[k] as int], l, config.sparkline, frame.color));
    let agg: Seq<Seq<char>> = match aggregate_spec(result, config, frame.promoted@) {
        Some((count, bytes)) => seq![aggregate_row(count as nat, bytes as nat, frame.aggregate_percent as nat, l, frame.color)],
        None => Seq::empty(),
    };
    let items = result.entries@.len() + result.hidden_entries@.len();
    let notes: Seq<Seq<char>> = match notes_row(result) {
        Some(n) => seq![n],
        None => Seq::empty(),
    };
    rows + agg + seq![footer_row(result.total_size as nat, items)] + notes
}

/// The terminal output of `result`.
pub fn render_tty(result: &ScanResult, config: &Config, frame: &TtyFrame) -> (r: Vec<String>)
    requires
        frame_fits(result, frame),
        aggregate_fits(result, frame.promoted@),
        result.entries@.len() + result.hidden_entries@.len() <= usize::MAX,
    ensures
        texts(r@) == tty_spec(result, config, frame),
{
    let (listing, aggregate) = prepare_entries(result, config, frame);
    let marked = has_promoted_hidden(config, &frame.promoted);
    let l = tty_layout(frame.term_cols, config.sparkline, marked);
    let mut sizes: Vec<u64> = Vec::new();
    let mut i: usize = 0;
    while i < listing.len()
        invariant
            i <= listing.len(),
            sizes@ == listing_sizes(listing@).take(i as int),
        decreases listing.len() - i,
    {
        sizes.push(listing[i].size);
        i = i + 1;
        assert(sizes@ =~= listing_sizes(listing@).take(i as int));
    }
    assert(sizes@ =~= listing_sizes(listing@));
    let order = size_order(&sizes);
    let ghost rows = Seq::new(listing@.len(), |k: int| entry_row(listing@[order@[k] as int], l, config.sparkline, frame.color));
    let mut out: Vec<String> = Vec::new();
    let mut k: usize = 0;
    while k < order.len()
        invariant
            k <= order.len(),
            order.len() == listing.len(),
            forall|j: int| 0 <= j < order.len() ==> #[trigger] order@[j] < listing.len(),
            rows == Seq::new(listing@.len(), |k: int| entry_row(listing@[order@[k] as int], l, config.sparkline, frame.color)),
            texts(out@) == rows.take(k as int),
        decreases order.len() - k,
    {
        let line = tty_row(&listing[order[k]], &l, config.sparkline, frame.color);
        let ghost prev = texts(out@);
        let ghost lv = line@;
        out.push(line);
        assert(texts(out@) =~= prev.push(lv));
        assert(rows.take(k as int + 1) =~= rows.take(k as int).push(rows[k as int]));
        k = k + 1;
        assert(texts(out@) =~= rows.take(k as int));
    }
    assert(rows.take(k as int) =~= rows);
    let ghost before_tail = texts(out@);
    match aggregate {
        Some((count, bytes)) => {
            out.push(aggregate_line(count, bytes, frame.aggregate_percent, &l, frame.color));
        },
        None => {},
    }
    let items = result.entries.len() + result.hidden_entries.len();
    out.push(footer_line(result.total_size, items));
    match notes_line(result) {
        Some(n) => {
            out.push(n);
        },
        None => {},
    }
    assert(texts(out@) =~= tty_spec(result, config, frame));
    out
}

/// Every entry that is written in the raw and JSON modes: the visible ones,
/// then the hidden ones when they are shown.
pub open spec fn written_entries(result: &ScanResult, config: &Config) -> Seq<EntryInfo> {
    result.entries@ + if config.show_hidden { result.hidden_entries@ } else { Seq::empty() }
}

/// The sizes of a list of entries.
pub open spec fn entry_sizes(entries: Seq<EntryInfo>) -> Seq<u64> {
    Seq::new(entries.len(), |i: int| entries[i].size)
}

/// The raw line of an entry: `~` for an estimate, the byte count, a tab and
/// the name.
pub open spec fn pipe_row(e: EntryInfo) -> Seq<char> {
    (if e.is_estimate { seq!['~'] } else { Seq::empty() }) + decimal(e.size as nat) + seq!['\t'] + e.name@
}

/// The raw output: one line per written entry, largest first.
pub open spec fn pipe_spec(result: &ScanResult, config: &Config) -> Seq<Seq<char>> {
    let all = written_entries(result, config);
    let order = size_order_of(entry_sizes(all));
    Seq::new(all.len(), |k: int| pipe_row(all[order[k] as int]))
}

/// The written entries, in directory order, as references.
fn collect_written<'a>(result: &'a ScanResult, config: &Config) -> (r: Vec<&'a EntryInfo>)
    ensures
        r@.len() == written_entries(result, config).len(),
        forall|i: int| 0 <= i < r@.len() ==> *#[trigger] r@[i] == written_entries(result, config)[i],
{
    let mut all: Vec<&EntryInfo> = Vec::new();
    let mut i: usize = 0;
    while i < result.entries.len()
        invariant
            i <= result.entries.len(),
            all@.len() == i,
            forall|j: int| 0 <= j < i ==> *#[trigger] all@[j] == result.entries@[j],
        decreases result.entries.len() - i,
    {
        all.push(&result.entries[i]);
        i = i + 1;
    }
    if config.show_hidden {
        let mut j: usize = 0;
        while j < result.hidden_entries.len()
            invariant
                j <= result.hidden_entries.len(),
                all@.len() == result.entries@.len() + j,
                forall|k: int| 0 <= k < result.entries@.len() ==> *#[trigger] all@[k] == result.entries@[k],
                forall|k: int| 0 <= k < j ==> *#[trigger] all@[result.entries@.len() + k] == result.hidden_entries@[k],
            decreases result.hidden_entries.len() - j,
        {
            all.push(&result.hidden_entries[j]);
            j = j + 1;
        }
    }
    assert forall|i: int| 0 <= i < all@.len() implies *#[trigger] all@[i] == written_entries(result, config)[i] by {
        if i >= result.entries@.len() {
            assert(*all@[result.entries@.len() + (i - result.entries@.len())] == result.hidden_entries@[i - result.entries@.len()]);
        }
    }
    all
}

/// The sizes of the written entries.
fn written_sizes(all: &Vec<&EntryInfo>) -> (sizes: Vec<u64>)
    ensures
        sizes@ == Seq::new(all@.len(), |i: int| all@[i].size),
{
    let mut sizes: Vec<u64> = Vec::new();
    let mut i: usize = 0;
    while i < all.len()
        invariant
            i <= all.len(),
            sizes@ == Seq::new(all@.len(), |i: int| all@[i].size).take(i as int),
        decreases all.len() - i,
    {
        sizes.push(all[i].size);
        i = i + 1;
        assert(sizes@ =~= Seq::new(all@.len(), |i: int| all@[i].size).take(i as int));
    }
    assert(sizes@ =~= Seq::new(all@.len(), |i: int| all@[i].size));
    sizes
}

/// The sizes of the written entries, and the order to write them in.
fn written_order(all: &Vec<&EntryInfo>) -> (p: Vec<usize>)
    ensures
        p@ == size_order_of(Seq::new(all@.len(), |i: int| all@[i].size)),
        p@.len() == all@.len(),
        forall|j: int| 0 <= j < p@.len() ==> #[trigger] p@[j] < all@.len(),
{
    let sizes = written_sizes(all);
    size_order(&sizes)
}

/// The total that percentages are taken of: the result's total, at least 1.
pub open spec fn share_total(result: &ScanResult) -> nat {
    if result.total_size >= 1 { result.total_size as nat } else { 1 }
}

/// The indices of the written entries that the text and JSON outputs keep,
/// largest first.
pub open spec fn kept_written(result: &ScanResult, config: &Config) -> Seq<usize> {
    kept(entry_sizes(written_entries(result, config)), share_total(result), config.threshold_pct, config.top)
}

/// The raw line of one entry.
fn pipe_line(e: &EntryInfo) -> (r: String)
    ensures
        r@ == pipe_row(*e),
{
    let mut s = String::new();
    if e.is_estimate {
        push_char(&mut s, '~');
    }
    push_decimal(&mut s, e.size);
    push_char(&mut s, '\t');
    push_str(&mut s, e.name.as_str());
    assert(s@ =~= pipe_row(*e));
    s
}

/// The raw output of `result`: byte counts and names, largest first.
pub fn render_pipe(result: &ScanResult, config: &Config) -> (r: Vec<String>)
    ensures
        texts(r@) == pipe_spec(result, config),
{
    let all = collect_written(result, config);
    let order = written_order(&all);
    let ghost w = written_entries(result, config);
    assert(Seq::new(all@.len(), |i: int| all@[i].size) =~= entry_sizes(w));
    let mut out: Vec<String> = Vec::new();
    let mut k: usize = 0;
    while k < order.len()
        invariant
            k <= order.len(),
            order.len() == all.len(),
            all@.len() == w.len(),
            forall|i: int| 0 <= i < all@.len() ==> *#[trigger] all@[i] == w[i],
            forall|j: int| 0 <= j < order.len() ==> #[trigger] order@[j] < all.len(),
            order@ == size_order_of(entry_sizes(w)),
            w == written_entries(result, config),
            texts(out@) == pipe_spec(result, config).take(k as int),
        decreases order.len() - k,
    {
        let line = pipe_line(all[order[k]]);
        let ghost prev = texts(out@);
        let ghost lv = line@;
        out.push(line);
        assert(texts(out@) =~= prev.push(lv));
        assert(pipe_spec(result, config).take(k as int + 1) =~= pipe_spec(result, config).take(k as int).push(pipe_spec(result, config)[k as int]));
        k = k + 1;
        assert(texts(out@) =~= pipe_spec(result, config).take(k as int));
    }
    assert(pipe_spec(result, config).take(k as int) =~= pipe_spec(result, config));
    out
}

/// `true` or `false`.
pub open spec fn json_bool(b: bool) -> Seq<char> {
    if b { "true"@ } else { "false"@ }
}

/// The JSON object of an entry, its percentage written as given.
pub open spec fn json_row(e: EntryInfo, percentage: Seq<char>) -> Seq<char> {
    "{\"name\":\""@ + json_escaped(e.name@)
        + "\",\"size\":"@ + decimal(e.size as nat)
        + ",\"is_dir\":"@ + json_bool(e.is_dir)
        + ",\"is_hidden\":"@ + json_bool(e.is_hidden)
        + ",\"is_estimate\":"@ + json_bool(e.is_estimate)
        + ",\"percentage\":"@ + percentage
        + "}"@
}

/// The percentage texts of the written entries, in the same order.
pub open spec fn written_percentages(config: &Config, visible: Seq<String>, hidden: Seq<String>) -> Seq<Seq<char>> {
    texts(visible) + if config.show_hidden { texts(hidden) } else { Seq::empty() }
}

/// The JSON output: one object per kept entry, largest first.
pub open spec fn json_spec(result: &ScanResult, config: &Config, visible: Seq<String>, hidden: Seq<String>) -> Seq<Seq<char>> {
    let all = written_entries(result, config);
    let pct = written_percentages(config, visible, hidden);
    let keep = kept_written(result, config);
    Seq::new(keep.len(), |k: int| json_row(all[keep[k] as int], pct[keep[k] as int]))
}

fn push_json_bool(s: &mut String, b: bool)
    ensures
        final(s)@ == old(s)@ + json_bool(b),
{
    if b {
        push_str(s, "true");
    } else {
        push_str(s, "false");
    }
}

/// The JSON object of one entry.
fn json_line(e: &EntryInfo, percentage: &str) -> (r: String)
    ensures
        r@ == json_row(*e, percentage@),
{
    let mut s = String::new();
    push_str(&mut s, "{\"name\":\"");
    push_json_escaped(&mut s, e.name.as_str());
    push_str(&mut s, "\",\"size\":");
    push_decimal(&mut s, e.size);
    push_str(&mut s, ",\"is_dir\":");
    push_json_bool(&mut s, e.is_dir);
    push_str(&mut s, ",\"is_hidden\":");
    push_json_bool(&mut s, e.is_hidden);
    push_str(&mut s, ",\"is_estimate\":");
    push_json_bool(&mut s, e.is_estimate);
    push_str(&mut s, ",\"percentage\":");
    push_str(&mut s, percentage);
    push_str(&mut s, "}");
    assert(s@ =~= json_row(*e, percentage@));
    s
}

/// The JSON output of `result`. `visible` and `hidden` hold the
/// percentage text of each visible and each hidden entry.
pub fn render_json(result: &ScanResult, config: &Config, visible: &Vec<String>, hidden: &Vec<String>) -> (r: Vec<String>)
    requires
        visible@.len() == result.entries@.len(),
        hidden@.len() == result.hidden_entries@.len(),
    ensures
        texts(r@) == json_spec(result, config, visible@, hidden@),
{
    let all = collect_written(result, config);
    let keep = kept_indices(result, config, &all);
    let ghost w = written_entries(result, config);
    let ghost pct = written_percentages(config, visible@, hidden@);
    let mut out: Vec<String> = Vec::new();
    let mut k: usize = 0;
    while k < keep.len()
        invariant
            k <= keep.len(),
            all@.len() == w.len(),
            visible@.len() == result.entries@.len(),
            hidden@.len() == result.hidden_entries@.len(),
            forall|i: int| 0 <= i < all@.len() ==> *#[trigger] all@[i] == w[i],
            forall|j: int| 0 <= j < keep.len() ==> #[trigger] keep@[j] < all.len(),
            keep@ == kept_written(result, config),
            w == written_entries(result, config),
            pct == written_percentages(config, visible@, hidden@),
            texts(out@) == json_spec(result, config, visible@, hidden@).take(k as int),
        decreases keep.len() - k,
    {
        let idx = keep[k];
        let text = if idx < visible.len() { &visible[idx] } else { &hidden[idx - visible.len()] };
        assert(text@ == pct[idx as int]);
        let line = json_line(all[idx], text.as_str());
        let ghost prev = texts(out@);
        let ghost lv = line@;
        out.push(line);
        assert(texts(out@) =~= prev.push(lv));
        assert(json_spec(result, config, visible@, hidden@).take(k as int + 1) =~= json_spec(result, config, visible@, hidden@).take(k as int).push(json_spec(result, config, visible@, hidden@)[k as int]));
        k = k + 1;
        assert(texts(out@) =~= json_spec(result, config, visible@, hidden@).take(k as int));
    }
    assert(json_spec(result, config, visible@, hidden@).take(k as int) =~= json_spec(result, config, visible@, hidden@));
    out
}

/// The indices of the written entries to keep, largest first.
fn kept_indices(result: &ScanResult, config: &Config, all: &Vec<&EntryInfo>) -> (keep: Vec<usize>)
    requires
        all@.len() == written_entries(result, config).len(),
        forall|i: int| 0 <= i < all@.len() ==> *#[trigger] all@[i] == written_entries(result, config)[i],
    ensures
        keep@ == kept_written(result, config),
        forall|j: int| 0 <= j < keep@.len() ==> #[trigger] keep@[j] < all@.len(),
{
    let sizes = written_sizes(all);
    assert(sizes@ =~= entry_sizes(written_entries(result, config)));
    let total: u64 = if result.total_size >= 1 { result.total_size } else { 1 };
    select_entries(&sizes, total, config.threshold_pct, config.top)
}

/// The text output of a size: whole units of B, K, M, G, T, P or E
/// (powers of 1024), rounded down.
pub open spec fn compact_size(b: nat) -> Seq<char> {
    if b < 0x400 {
        decimal(b) + seq!['B']
    } else if b < 0x10_0000 {
        decimal(b / 0x400) + seq!['K']
    } else if b < 0x4000_0000 {
        decimal(b / 0x10_0000) + seq!['M']
    } else if b < 0x100_0000_0000 {
        decimal(b / 0x4000_0000) + seq!['G']
    } else if b < 0x4_0000_0000_0000 {
        decimal(b / 0x100_0000_0000) + seq!['T']
    } else if b < 0x1000_0000_0000_0000 {
        decimal(b / 0x4_0000_0000_0000) + seq!['P']
    } else {
        decimal(b / 0x1000_0000_0000_0000) + seq!['E']
    }
}

/// The text line of an entry: compact size, percentage of `total` (rounded
/// down) and name, separated by tabs; directories end with `/`.
pub open spec fn llm_row(e: EntryInfo, total: nat) -> Seq<char> {
    compact_size(e.size as nat) + seq!['\t'] + decimal(e.size as nat * 100 / total) + seq!['%', '\t'] + e.name@
        + if e.is_dir { seq!['/'] } else { Seq::empty() }
}

/// The header of the text output: the path, the total, the number of
/// written entries and, when fewer are kept, how many are shown.
pub open spec fn llm_header(path: Seq<char>, total: nat, items: nat, shown: nat) -> Seq<char> {
    path + " ("@ + compact_size(total) + ", "@ + decimal(items) + " items"@
        + (if shown < items { ", "@ + decimal(shown) + " shown"@ } else { Seq::empty() })
        + ")"@
}

/// The note written when a threshold keeps none of the entries.
pub open spec fn llm_nothing_kept(items: nat, pct: nat) -> Seq<char> {
    "(all "@ + decimal(items) + " items below "@ + decimal(pct) + "% threshold)"@
}

/// The text output: the header, the note when a threshold kept nothing,
/// then one line per kept entry, largest first.
pub open spec fn llm_spec(result: &ScanResult, config: &Config, path: Seq<char>) -> Seq<Seq<char>> {
    let all = written_entries(result, config);
    let keep = kept_written(result, config);
    let note: Seq<Seq<char>> = match config.threshold_pct {
        Some(p) => if keep.len() == 0 && all.len() > 0 { seq![llm_nothing_kept(all.len(), p as nat)] } else { Seq::empty() },
        None => Seq::empty(),
    };
    seq![llm_header(path, result.total_size as nat, all.len(), keep.len())] + note
        + Seq::new(keep.len(), |k: int| llm_row(all[keep[k] as int], share_total(result)))
}

fn push_compact_size(s: &mut String, b: u64)
    ensures
        final(s)@ == old(s)@ + compact_size(b as nat),
{
    if b < 0x400 {
        push_decimal(s, b);
        push_char(s, 'B');
    } else if b < 0x10_0000 {
        push_decimal(s, b / 0x400);
        push_char(s, 'K');
    } else if b < 0x4000_0000 {
        push_decimal(s, b / 0x10_0000);
        push_char(s, 'M');
    } else if b < 0x100_0000_0000 {
        push_decimal(s, b / 0x4000_0000);
        push_char(s, 'G');
    } else if b < 0x4_0000_0000_0000 {
        push_decimal(s, b / 0x100_0000_0000);
        push_char(s, 'T');
    } else if b < 0x1000_0000_0000_0000 {
        push_decimal(s, b / 0x4_0000_0000_0000);
        push_char(s, 'P');
    } else {
        push_decimal(s, b / 0x1000_0000_0000_0000);
        push_char(s, 'E');
    }
    assert(s@ =~= old(s)@ + compact_size(b as nat));
}

/// The text line of one entry.
fn llm_line(e: &EntryInfo, total: u64) -> (r: String)
    requires
        total >= 1,
    ensures
        r@ == llm_row(*e, total as nat),
{
    let mut s = String::new();
    push_compact_size(&mut s, e.size);
    push_char(&mut s, '\t');
    let pct: u128 = (e.size as u128) * 100 / (total as u128);
    push_decimal_wide(&mut s, pct);
    push_char(&mut s, '%');
    push_char(&mut s, '\t');
    push_str(&mut s, e.name.as_str());
    if e.is_dir {
        push_char(&mut s, '/');
    }
    assert(s@ =~= llm_row(*e, total as nat));
    s
}

/// The text output of `result`, headed by `path`.
pub fn render_llm(result: &ScanResult, config: &Config, path: &str) -> (r: Vec<String>)
    ensures
        texts(r@) == llm_spec(result, config, path@),
{
    let all = collect_written(result, config);
    let keep = kept_indices(result, config, &all);
    let total: u64 = if result.total_size >= 1 { result.total_size } else { 1 };
    let ghost w = written_entries(result, config);
    let mut out: Vec<String> = Vec::new();
    let mut header = String::from_str(path);
    push_str(&mut header, " (");
    push_compact_size(&mut header, result.total_size);
    push_str(&mut header, ", ");
    push_decimal(&mut header, all.len() as u64);
    push_str(&mut header, " items");
    if keep.len() < all.len() {
        push_str(&mut header, ", ");
        push_decimal(&mut header, keep.len() as u64);
        push_str(&mut header, " shown");
    }
    push_str(&mut header, ")");
    assert(header@ =~= llm_header(path@, result.total_size as nat, w.len(), keep@.len()));
    out.push(header);
    match config.threshold_pct {
        Some(p) => {
            if keep.len() == 0 && all.len() > 0 {
                let mut note = String::from_str("(all ");
                push_decimal(&mut note, all.len() as u64);
                push_str(&mut note, " items below ");
                push_decimal(&mut note, p);
                push_str(&mut note, "% threshold)");
                assert(note@ =~= llm_nothing_kept(w.len(), p as nat));
                out.push(note);
            }
        },
        None => {},
    }
    let ghost head = texts(out@);
    let ghost rows = Seq::new(keep@.len(), |k: int| llm_row(w[keep@[k] as int], share_total(result)));
    let mut k: usize = 0;
    while k < keep.len()
        invariant
            k <= keep.len(),
            all@.len() == w.len(),
            total as nat == share_total(result),
            forall|i: int| 0 <= i < all@.len() ==> *#[trigger] all@[i] == w[i],
            forall|j: int| 0 <= j < keep.len() ==> #[trigger] keep@[j] < all.len(),
            rows == Seq::new(keep@.len(), |k: int| llm_row(w[keep@[k] as int], share_total(result))),
            texts(out@) == head + rows.take(k as int),
        decreases keep.len() - k,
    {
        let line = llm_line(all[keep[k]], total);
        let ghost prev = texts(out@);
        let ghost lv = line@;
        out.push(line);
        assert(texts(out@) =~= prev.push(lv));
        assert(rows.take(k as int + 1) =~= rows.take(k as int).push(rows[k as int]));
        k = k + 1;
    }
    assert(rows.take(k as int) =~= rows);
    assert(texts(out@) =~= llm_spec(result, config, path@));
    out
}

/// What the renderer needs beyond the scan result: the terminal frame, the
/// path for the text header, and the percentage text of each entry for JSON.
pub struct Frame {
    pub tty: TtyFrame,
    /// The scanned path as the text output's header shows it.
    pub path_text: String,
    pub visible_percent: Vec<String>,
    pub hidden_percent: Vec<String>,
}

/// The frame holds what `mode` reads.
pub open spec fn frame_ready(result: &ScanResult, mode: DisplayMode, frame: &Frame) -> bool {
    match mode {
        DisplayMode::Tty => {
            &&& frame_fits(result, &frame.tty)
            &&& aggregate_fits(result, frame.tty.promoted@)
            &&& result.entries@.len() + result.hidden_entries@.len() <= usize::MAX
        },
        DisplayMode::Pipe => true,
        DisplayMode::Llm => true,
        DisplayMode::Json => {
            &&& frame.visible_percent@.len() == result.entries@.len()
            &&& frame.hidden_percent@.len() == result.hidden_entries@.len()
        },
    }
}

/// The output of `mode`.
pub open spec fn render_spec(result: &ScanResult, config: &Config, mode: DisplayMode, frame: &Frame) -> Seq<Seq<char>> {
    match mode {
        DisplayMode::Tty => tty_spec(result, config, &frame.tty),
        DisplayMode::Pipe => pipe_spec(result, config),
        DisplayMode::Json => json_spec(result, config, frame.visible_percent@, frame.hidden_percent@),
        DisplayMode::Llm => llm_spec(result, config, frame.path_text@),
    }
}

/// The lines that show `result` in `mode`.
pub fn render(result: &ScanResult, config: &Config, mode: DisplayMode, frame: &Frame) -> (r: Vec<String>)
    requires
        frame_ready(result, mode, frame),
    ensures
        texts(r@) == render_spec(result, config, mode, frame),
{
    match mode {
        DisplayMode::Tty => render_tty(result, config, &frame.tty),
        DisplayMode::Pipe => render_pipe(result, config),
        DisplayMode::Json => render_json(result, config, &frame.visible_percent, &frame.hidden_percent),
        DisplayMode::Llm => render_llm(result, config, frame.path_text.as_str()),
    }
}

} // verus!

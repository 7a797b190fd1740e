//! Properties of the viewer that span its functions.

use vstd::prelude::*;
use crate::display::{
    aggregate_fits, aggregate_spec, display_of, folded, frame_fits, layout_spec, listing_spec,
    plain_lines, promoted_lines, DisplayEntry, Share, TtyFrame, TtyLayout, MAX_NAME_WIDTH,
    MIN_BAR_WIDTH, SIZE_COL_WIDTH,
};
use crate::glyphs::{bar, shortened, sparkline};
use crate::order::{is_size_order, law_size_order, size_order_of};
use crate::paint::{painted, Paint};
use crate::render::{
    entry_sizes, json_spec, listing_sizes, pipe_row, pipe_spec, render_spec, tty_spec, written_entries,
    Frame,
};
use crate::rows::{entry_row, row_paints};
use crate::scanner::{
    child_sizes, count_estimates, entry_of, estimated, hidden_name, inode_key, merged_sizes, picked,
    lemma_merged_len, sum_errors, sum_restricted, sum_skipped, Child, DirScan, DirWalk, WalkEvent,
};
use crate::types::{sum_sizes, Config, DisplayMode, EntryInfo, ScanResult};

verus! {

/// The sum of the sizes of listing lines.
pub open spec fn listed_sum(s: Seq<DisplayEntry>) -> nat
    decreases s.len(),
{
    if s.len() == 0 { 0 } else { listed_sum(s.drop_last()) + s.last().size as nat }
}

/// The sum of a sequence of sizes.
pub open spec fn sum_u64(s: Seq<u64>) -> nat
    decreases s.len(),
{
    if s.len() == 0 { 0 } else { sum_u64(s.drop_last()) + s.last() as nat }
}

/// Folding hidden entries loses none: every hidden entry is either listed
/// on its own or counted in the hidden line, and the sizes of both add up
/// to the hidden total.
pub proof fn law_hidden_conserved(hidden: Seq<EntryInfo>, shares: Seq<Share>, promoted: Seq<bool>, n: nat)
    requires
        n <= hidden.len(),
        n <= promoted.len(),
        n <= shares.len(),
    ensures
        promoted_lines(hidden, shares, promoted, n).len() + folded(hidden, promoted, n).0 == n,
        listed_sum(promoted_lines(hidden, shares, promoted, n)) + folded(hidden, promoted, n).1 == sum_sizes(hidden.take(n as int)),
    decreases n,
{
    if n > 0 {
        law_hidden_conserved(hidden, shares, promoted, (n - 1) as nat);
        assert(hidden.take(n as int).drop_last() =~= hidden.take(n - 1));
        let before = promoted_lines(hidden, shares, promoted, (n - 1) as nat);
        if promoted[n - 1] {
            let e = display_of(hidden[n - 1], true, shares[n - 1]);
            assert(before.push(e).drop_last() =~= before);
        }
    }
}

/// A fitted name never takes more than the column: it is exactly as long
/// as the shorter of the name and the column, and a name that fits is
/// kept whole.
pub proof fn law_fitted_name(name: Seq<char>, max_width: nat)
    ensures
        shortened(name, max_width).len() == if name.len() <= max_width { name.len() } else { max_width },
        name.len() <= max_width ==> shortened(name, max_width) == name,
{
}

/// A bar is exactly as wide as asked, and a sparkline three glyphs wide.
pub proof fn law_bar_width(filled: nat, width: nat, level: nat)
    ensures
        bar(filled, width).len() == width,
        sparkline(level).len() == 3,
{
}

/// Two files share a key only when they share device and inode.
pub proof fn law_inode_key_injective(d1: u64, i1: u64, d2: u64, i2: u64)
    ensures
        inode_key(d1, i1) == inode_key(d2, i2) ==> d1 == d2 && i1 == i2,
{
    let b: int = 0x1_0000_0000_0000_0000;
    let k1 = d1 as int * b + i1 as int;
    let k2 = d2 as int * b + i2 as int;
    assert(0 <= k1 < b * b) by (nonlinear_arith)
        requires k1 == d1 as int * b + i1 as int, 0 <= d1 < b, 0 <= i1 < b, b > 0;
    assert(0 <= k2 < b * b) by (nonlinear_arith)
        requires k2 == d2 as int * b + i2 as int, 0 <= d2 < b, 0 <= i2 < b, b > 0;
    assert(b * b == 0x1_0000_0000_0000_0000_0000_0000_0000_0000);
    assert(inode_key(d1, i1) as int == k1);
    assert(inode_key(d2, i2) as int == k2);
    if k1 == k2 {
        assert(d1 == d2 && i1 == i2) by (nonlinear_arith)
            requires k1 == d1 as int * b + i1 as int, k2 == d2 as int * b + i2 as int, k1 == k2,
                0 <= i1 < b, 0 <= i2 < b, b > 0;
    }
}

/// A file with several links adds its length once: once its key is seen,
/// meeting it again through another link counts nothing.
pub proof fn law_linked_file_counted_once(w: DirWalk, dev: u64, ino: u64, nlink: u64, len: u64, root_dev: Option<u64>)
    requires
        nlink > 1,
        w.seen_keys().contains(inode_key(dev, ino)),
    ensures
        !w.counts(WalkEvent::File { dev, ino, nlink, len }, root_dev),
{
}

/// The walk stays on one device: a file on another device than the root
/// adds nothing to the size, and a directory on another device is a
/// skipped mount point.
pub proof fn law_other_device_not_counted(w: DirWalk, dev: u64, ino: u64, nlink: u64, len: u64, root: u64)
    requires
        dev != root,
    ensures
        !w.counts(WalkEvent::File { dev, ino, nlink, len }, Some(root)),
        DirWalk::foreign(WalkEvent::File { dev, ino, nlink, len }, Some(root)),
        DirWalk::foreign(WalkEvent::Directory { dev }, Some(root)),
        !w.counts(WalkEvent::Directory { dev }, Some(root)),
{
}

/// Splitting the children into visible and hidden entries loses none and
/// repeats none: the two lists together are as long as the children, and
/// their sizes add up to the sum of all the children's sizes.
pub proof fn law_children_split(children: Seq<Child>, outs: Seq<DirScan>, n: nat)
    requires
        n <= children.len(),
        merged_sizes(child_sizes(children), outs).len() == children.len(),
    ensures
        picked(children, outs, false, n).len() + picked(children, outs, true, n).len() == n,
        sum_sizes(picked(children, outs, false, n)) + sum_sizes(picked(children, outs, true, n))
            == sum_u64(merged_sizes(child_sizes(children), outs).take(n as int)),
    decreases n,
{
    if n > 0 {
        law_children_split(children, outs, (n - 1) as nat);
        let m = merged_sizes(child_sizes(children), outs);
        assert(m.take(n as int).drop_last() =~= m.take(n - 1));
        let e = entry_of(children, outs, n - 1);
        let h = children[n - 1].is_hidden;
        assert(picked(children, outs, h, n) == picked(children, outs, h, (n - 1) as nat).push(e));
        assert(picked(children, outs, h, (n - 1) as nat).push(e).drop_last() =~= picked(children, outs, h, (n - 1) as nat));
        assert(picked(children, outs, !h, n) == picked(children, outs, !h, (n - 1) as nat));
    }
}

/// Hidden means named with a leading dot: when every child was classified
/// by its name, the hidden entries are exactly the dot-named ones.
pub proof fn law_hidden_by_name(children: Seq<Child>, outs: Seq<DirScan>, n: nat)
    requires
        n <= children.len(),
        forall|i: int| 0 <= i < children.len() ==> #[trigger] children[i].is_hidden == hidden_name(children[i].name@),
    ensures
        forall|k: int| 0 <= k < picked(children, outs, true, n).len() ==> hidden_name(#[trigger] picked(children, outs, true, n)[k].name@),
        forall|k: int| 0 <= k < picked(children, outs, false, n).len() ==> !hidden_name(#[trigger] picked(children, outs, false, n)[k].name@),
    decreases n,
{
    if n > 0 {
        law_hidden_by_name(children, outs, (n - 1) as nat);
        assert(children[n - 1].is_hidden == hidden_name(children[n - 1].name@));
        let e = entry_of(children, outs, n - 1);
        assert(e.name == children[n - 1].name);
        let ph = picked(children, outs, true, (n - 1) as nat);
        let pv = picked(children, outs, false, (n - 1) as nat);
        assert forall|k: int| 0 <= k < picked(children, outs, true, n).len() implies hidden_name(#[trigger] picked(children, outs, true, n)[k].name@) by {
            if children[n - 1].is_hidden && k == ph.len() {
                assert(picked(children, outs, true, n)[k] == e);
            } else {
                assert(picked(children, outs, true, n)[k] == ph[k]);
            }
        }
        assert forall|k: int| 0 <= k < picked(children, outs, false, n).len() implies !hidden_name(#[trigger] picked(children, outs, false, n)[k].name@) by {
            if !children[n - 1].is_hidden && k == pv.len() {
                assert(picked(children, outs, false, n)[k] == e);
            } else {
                assert(picked(children, outs, false, n)[k] == pv[k]);
            }
        }
    }
}

/// Without sparklines the columns fill the terminal exactly: name column,
/// bar and the fixed columns add up to the terminal width, the name column
/// never exceeds its maximum and the bar never gets narrower than its
/// minimum.
pub proof fn law_layout_fills_width(term_cols: Option<usize>, marked: bool)
    ensures
        ({
            let l = layout_spec(term_cols, false, marked);
            let overhead = 2 + 2 + 2 + SIZE_COL_WIDTH + 2 + 4 + if marked { 5int } else { 0 };
            &&& l.name_width + l.bar_width + overhead == l.term_width
            &&& l.bar_width >= MIN_BAR_WIDTH
            &&& l.name_width <= MAX_NAME_WIDTH
            &&& l.term_width >= 40
        }),
{
}

/// The raw output lists every written entry exactly once, largest first:
/// line `k` shows the entry at position `k` of an order that lists every
/// entry once, by size, largest first, ties in directory order.
pub proof fn law_raw_output_complete(result: &ScanResult, config: &Config)
    requires
        written_entries(result, config).len() <= usize::MAX,
    ensures
        pipe_spec(result, config).len() == written_entries(result, config).len(),
        is_size_order(entry_sizes(written_entries(result, config)), size_order_of(entry_sizes(written_entries(result, config)))),
        forall|k: int| 0 <= k < pipe_spec(result, config).len() ==> #[trigger] pipe_spec(result, config)[k]
            == pipe_row(written_entries(result, config)[size_order_of(entry_sizes(written_entries(result, config)))[k] as int]),
{
    law_size_order(entry_sizes(written_entries(result, config)), Seq::empty());
}

/// A hidden entry listed on its own ends its line with the `(!)` marker,
/// in yellow (dimmed when muted) when coloured.
pub proof fn law_marker_on_listed_hidden(e: DisplayEntry, l: TtyLayout, spark: bool, color: bool)
    ensures
        e.is_hidden ==> entry_row(e, l, spark, color).len() >= painted(row_paints(e, color).5, "  (!)"@).len()
            && entry_row(e, l, spark, color).skip(entry_row(e, l, spark, color).len() - painted(row_paints(e, color).5, "  (!)"@).len())
                == painted(row_paints(e, color).5, "  (!)"@),
        e.is_hidden && !color ==> row_paints(e, color).5 == Paint::Plain,
        !e.is_hidden ==> crate::rows::marker_part(e, color) == Seq::<char>::empty(),
{
    let r = entry_row(e, l, spark, color);
    let m = painted(row_paints(e, color).5, "  (!)"@);
    if e.is_hidden {
        assert(r.skip(r.len() - m.len()) =~= m);
    }
}

proof fn lemma_listed_sum_concat(a: Seq<DisplayEntry>, b: Seq<DisplayEntry>)
    ensures
        listed_sum(a + b) == listed_sum(a) + listed_sum(b),
    decreases b.len(),
{
    if b.len() > 0 {
        lemma_listed_sum_concat(a, b.drop_last());
        assert((a + b).drop_last() =~= a + b.drop_last());
    } else {
        assert(a + b =~= a);
    }
}

proof fn lemma_listed_sum_plain(entries: Seq<EntryInfo>, shares: Seq<Share>)
    requires
        shares.len() == entries.len(),
    ensures
        listed_sum(plain_lines(entries, shares)) == sum_sizes(entries),
    decreases entries.len(),
{
    if entries.len() > 0 {
        let n = entries.len() - 1;
        lemma_listed_sum_plain(entries.drop_last(), shares.drop_last());
        assert(plain_lines(entries, shares).drop_last() =~= plain_lines(entries.drop_last(), shares.drop_last()));
    }
}

proof fn lemma_folded_none(hidden: Seq<EntryInfo>, promoted: Seq<bool>, n: nat)
    requires
        n <= hidden.len(),
    ensures
        folded(hidden, promoted, n).0 <= n,
        folded(hidden, promoted, n).0 == 0 ==> folded(hidden, promoted, n).1 == 0,
    decreases n,
{
    if n > 0 {
        lemma_folded_none(hidden, promoted, (n - 1) as nat);
    }
}

/// The terminal listing accounts for every entry and every byte exactly
/// once: the listed lines together with the hidden line hold as many
/// entries as the result, and their sizes add up to its sizes.
pub proof fn law_listing_accounts_for_every_entry(result: &ScanResult, config: &Config, frame: &TtyFrame)
    requires
        frame_fits(result, frame),
        aggregate_fits(result, frame.promoted@),
        result.hidden_entries@.len() <= usize::MAX,
    ensures
        ({
            let listing = listing_spec(result, config, frame);
            let (n, bytes): (nat, nat) = match aggregate_spec(result, config, frame.promoted@) {
                Some((c, b)) => (c as nat, b as nat),
                None => (0, 0),
            };
            &&& listing.len() + n == result.entries@.len() + result.hidden_entries@.len()
            &&& listed_sum(listing) + bytes == sum_sizes(result.entries@) + sum_sizes(result.hidden_entries@)
        }),
{
    let e = result.entries@;
    let h = result.hidden_entries@;
    lemma_listed_sum_plain(e, frame.visible@);
    assert(h.take(h.len() as int) =~= h);
    if config.show_hidden {
        lemma_listed_sum_plain(h, frame.hidden@);
        lemma_listed_sum_concat(plain_lines(e, frame.visible@), plain_lines(h, frame.hidden@));
    } else {
        law_hidden_conserved(h, frame.hidden@, frame.promoted@, h.len());
        lemma_folded_none(h, frame.promoted@, h.len());
        lemma_listed_sum_concat(plain_lines(e, frame.visible@), promoted_lines(h, frame.hidden@, frame.promoted@, h.len()));
    }
}

/// The entry lines of the terminal output are the listing lines, each
/// written once, in an order by size, largest first, ties in listing
/// order; the hidden line, the footer and the notes line follow them.
pub proof fn law_tty_rows_follow_listing(result: &ScanResult, config: &Config, frame: &TtyFrame)
    requires
        listing_spec(result, config, frame).len() <= usize::MAX,
    ensures
        ({
            let listing = listing_spec(result, config, frame);
            let order = size_order_of(listing_sizes(listing));
            let l = layout_spec(frame.term_cols, config.sparkline, crate::display::has_promoted_spec(config, frame.promoted@));
            &&& is_size_order(listing_sizes(listing), order)
            &&& tty_spec(result, config, frame).len() > listing.len()
            &&& forall|k: int| 0 <= k < listing.len() ==> #[trigger] tty_spec(result, config, frame)[k]
                == entry_row(listing[order[k] as int], l, config.sparkline, frame.color)
        }),
{
    let listing = listing_spec(result, config, frame);
    law_size_order(listing_sizes(listing), Seq::empty());
}

/// Each mode writes exactly what its own renderer writes.
pub proof fn law_render_dispatch(result: &ScanResult, config: &Config, frame: &Frame)
    ensures
        render_spec(result, config, DisplayMode::Tty, frame) == tty_spec(result, config, &frame.tty),
        render_spec(result, config, DisplayMode::Pipe, frame) == pipe_spec(result, config),
        render_spec(result, config, DisplayMode::Json, frame) == json_spec(result, config, frame.visible_percent@, frame.hidden_percent@),
        render_spec(result, config, DisplayMode::Llm, frame) == crate::render::llm_spec(result, config, frame.path_text@),
{
}

proof fn lemma_decimal_len(n: nat)
    ensures
        crate::text::decimal(n).len() >= 1,
        n < 10 ==> crate::text::decimal(n).len() == 1,
        n < 100 ==> crate::text::decimal(n).len() <= 2,
        n < 1000 ==> crate::text::decimal(n).len() <= 3,
        n < 10000 ==> crate::text::decimal(n).len() <= 4,
    decreases n,
{
    if n >= 10 {
        lemma_decimal_len(n / 10);
    }
}

/// Sizes in the text output are compact: at most five characters.
pub proof fn law_compact_size_short(b: u64)
    ensures
        crate::render::compact_size(b as nat).len() <= 5,
{
    let n = b as nat;
    let q: nat = if n < 0x400 { n } else if n < 0x10_0000 { n / 0x400 } else if n < 0x4000_0000 { n / 0x10_0000 }
        else if n < 0x100_0000_0000 { n / 0x4000_0000 } else if n < 0x4_0000_0000_0000 { n / 0x100_0000_0000 }
        else if n < 0x1000_0000_0000_0000 { n / 0x4_0000_0000_0000 } else { n / 0x1000_0000_0000_0000 };
    assert(q < 10000) by (nonlinear_arith)
        requires q == (if n < 0x400 { n } else if n < 0x10_0000 { n / 0x400 } else if n < 0x4000_0000 { n / 0x10_0000 }
        else if n < 0x100_0000_0000 { n / 0x4000_0000 } else if n < 0x4_0000_0000_0000 { n / 0x100_0000_0000 }
        else if n < 0x1000_0000_0000_0000 { n / 0x4_0000_0000_0000 } else { n / 0x1000_0000_0000_0000 }),
            n < 0x1_0000_0000_0000_0000;
    lemma_decimal_len(q);
}

proof fn lemma_sum_errors_split(x: Seq<DirScan>, y: Seq<DirScan>)
    ensures
        sum_errors(x + y) == sum_errors(x) + sum_errors(y),
    decreases y.len(),
{
    if y.len() > 0 {
        lemma_sum_errors_split(x, y.drop_last());
        assert((x + y).drop_last() =~= x + y.drop_last());
    } else {
        assert(x + y =~= x);
    }
}

proof fn lemma_sum_skipped_split(x: Seq<DirScan>, y: Seq<DirScan>)
    ensures
        sum_skipped(x + y) == sum_skipped(x) + sum_skipped(y),
    decreases y.len(),
{
    if y.len() > 0 {
        lemma_sum_skipped_split(x, y.drop_last());
        assert((x + y).drop_last() =~= x + y.drop_last());
    } else {
        assert(x + y =~= x);
    }
}

proof fn lemma_sum_restricted_split(x: Seq<DirScan>, y: Seq<DirScan>)
    ensures
        sum_restricted(x + y) == sum_restricted(x) + sum_restricted(y),
    decreases y.len(),
{
    if y.len() > 0 {
        lemma_sum_restricted_split(x, y.drop_last());
        assert((x + y).drop_last() =~= x + y.drop_last());
    } else {
        assert(x + y =~= x);
    }
}

proof fn lemma_count_estimates_split(x: Seq<DirScan>, y: Seq<DirScan>)
    ensures
        count_estimates(x + y) == count_estimates(x) + count_estimates(y),
    decreases y.len(),
{
    if y.len() > 0 {
        lemma_count_estimates_split(x, y.drop_last());
        assert((x + y).drop_last() =~= x + y.drop_last());
    } else {
        assert(x + y =~= x);
    }
}

proof fn lemma_merged_split(sizes: Seq<u64>, x: Seq<DirScan>, y: Seq<DirScan>)
    ensures
        merged_sizes(sizes, x + y) == merged_sizes(merged_sizes(sizes, x), y),
    decreases y.len(),
{
    if y.len() > 0 {
        lemma_merged_split(sizes, x, y.drop_last());
        assert((x + y).drop_last() =~= x + y.drop_last());
    } else {
        assert(x + y =~= x);
    }
}

/// The scans name distinct children, all of them in range.
pub open spec fn distinct_scans(children: Seq<Child>, outs: Seq<DirScan>) -> bool {
    &&& forall|k: int| 0 <= k < outs.len() ==> #[trigger] outs[k].index < children.len()
    &&& forall|k: int, l: int| 0 <= k < l < outs.len() ==> #[trigger] outs[k].index != #[trigger] outs[l].index
}

/// `outs` with the scans at `k` and `k + 1` exchanged.
pub open spec fn swapped(outs: Seq<DirScan>, k: int) -> Seq<DirScan> {
    outs.update(k, outs[k + 1]).update(k + 1, outs[k])
}

proof fn lemma_picked_same(children: Seq<Child>, a: Seq<DirScan>, b: Seq<DirScan>, h: bool, n: nat)
    requires
        n <= children.len(),
        merged_sizes(child_sizes(children), a) == merged_sizes(child_sizes(children), b),
        forall|i: int| 0 <= i < children.len() ==> estimated(a, i) == estimated(b, i),
    ensures
        picked(children, a, h, n) == picked(children, b, h, n),
    decreases n,
{
    if n > 0 {
        lemma_picked_same(children, a, b, h, (n - 1) as nat);
        assert(entry_of(children, a, n - 1) == entry_of(children, b, n - 1));
    }
}

/// The scan result does not depend on the order in which the
/// subdirectory scans come in: exchanging two neighbouring scans of
/// different children leaves the merged sizes, the entries, the estimate
/// flags and every counter as they were.
pub proof fn law_scan_order_irrelevant(children: Seq<Child>, outs: Seq<DirScan>, k: int)
    requires
        0 <= k,
        k + 1 < outs.len(),
        outs[k].index != outs[k + 1].index,
        forall|j: int| 0 <= j < outs.len() ==> #[trigger] outs[j].index < children.len(),
    ensures
        merged_sizes(child_sizes(children), swapped(outs, k)) == merged_sizes(child_sizes(children), outs),
        forall|i: int| 0 <= i < children.len() ==> estimated(swapped(outs, k), i) == estimated(outs, i),
        picked(children, swapped(outs, k), false, children.len()) == picked(children, outs, false, children.len()),
        picked(children, swapped(outs, k), true, children.len()) == picked(children, outs, true, children.len()),
        sum_errors(swapped(outs, k)) == sum_errors(outs),
        sum_skipped(swapped(outs, k)) == sum_skipped(outs),
        sum_restricted(swapped(outs, k)) == sum_restricted(outs),
        count_estimates(swapped(outs, k)) == count_estimates(outs),
{
    let o2 = swapped(outs, k);
    let a = outs[k];
    let b = outs[k + 1];
    let pre = outs.take(k);
    let post = outs.skip(k + 2);
    assert(outs =~= pre + seq![a, b] + post);
    assert(o2 =~= pre + seq![b, a] + post);
    let sz = child_sizes(children);
    lemma_merged_split(sz, pre + seq![a, b], post);
    lemma_merged_split(sz, pre + seq![b, a], post);
    lemma_merged_split(sz, pre, seq![a, b]);
    lemma_merged_split(sz, pre, seq![b, a]);
    let m = merged_sizes(sz, pre);
    assert forall|j: int| 0 <= j < pre.len() implies #[trigger] pre[j].index < sz.len() by {
        assert(pre[j] == outs[j]);
    }
    lemma_merged_len(sz, pre);
    lemma_pair(m, a, b);
    lemma_pair(m, b, a);
    assert(m.update(a.index as int, a.size).update(b.index as int, b.size)
        =~= m.update(b.index as int, b.size).update(a.index as int, a.size));
    assert forall|i: int| 0 <= i < children.len() implies estimated(o2, i) == estimated(outs, i) by {
        if estimated(outs, i) {
            let w = choose|w: int| 0 <= w < outs.len() && outs[w].index == i && #[trigger] outs[w].is_estimate;
            let w2 = if w == k { k + 1 } else if w == k + 1 { k } else { w };
            assert(o2[w2] == outs[w]);
        }
        if estimated(o2, i) {
            let w = choose|w: int| 0 <= w < o2.len() && o2[w].index == i && #[trigger] o2[w].is_estimate;
            let w2 = if w == k { k + 1 } else if w == k + 1 { k } else { w };
            assert(outs[w2] == o2[w]);
        }
    }
    lemma_picked_same(children, o2, outs, false, children.len());
    lemma_picked_same(children, o2, outs, true, children.len());
    lemma_sum_errors_split(pre + seq![a, b], post);
    lemma_sum_errors_split(pre + seq![b, a], post);
    lemma_sum_errors_split(pre, seq![a, b]);
    lemma_sum_errors_split(pre, seq![b, a]);
    lemma_sum_skipped_split(pre + seq![a, b], post);
    lemma_sum_skipped_split(pre + seq![b, a], post);
    lemma_sum_skipped_split(pre, seq![a, b]);
    lemma_sum_skipped_split(pre, seq![b, a]);
    lemma_sum_restricted_split(pre + seq![a, b], post);
    lemma_sum_restricted_split(pre + seq![b, a], post);
    lemma_sum_restricted_split(pre, seq![a, b]);
    lemma_sum_restricted_split(pre, seq![b, a]);
    lemma_count_estimates_split(pre + seq![a, b], post);
    lemma_count_estimates_split(pre + seq![b, a], post);
    lemma_count_estimates_split(pre, seq![a, b]);
    lemma_count_estimates_split(pre, seq![b, a]);
}

proof fn lemma_pair(m: Seq<u64>, a: DirScan, b: DirScan)
    ensures
        merged_sizes(m, seq![a, b]) == m.update(a.index as int, a.size).update(b.index as int, b.size),
        sum_errors(seq![a, b]) == a.errors + b.errors,
        sum_skipped(seq![a, b]) == a.skipped + b.skipped,
        sum_restricted(seq![a, b]) == a.restricted + b.restricted,
        count_estimates(seq![a, b]) == (if a.is_estimate { 1int } else { 0 }) + (if b.is_estimate { 1int } else { 0 }),
{
    let one = seq![a];
    let two = seq![a, b];
    assert(two.drop_last() =~= one);
    assert(one.drop_last() =~= Seq::<DirScan>::empty());
    assert(merged_sizes(m, Seq::<DirScan>::empty()) == m);
    assert(merged_sizes(m, one) == m.update(a.index as int, a.size));
    let none = Seq::<DirScan>::empty();
    assert(sum_errors(none) == 0 && sum_skipped(none) == 0 && sum_restricted(none) == 0 && count_estimates(none) == 0);
    assert(sum_errors(one) == a.errors);
    assert(sum_skipped(one) == a.skipped);
    assert(sum_restricted(one) == a.restricted);
    assert(count_estimates(one) == if a.is_estimate { 1nat } else { 0 });
}

proof fn lemma_flagged_empty(outs: Seq<DirScan>, n: nat)
    requires
        outs.len() == 0,
    ensures
        flagged(outs, n) == 0,
    decreases n,
{
    if n > 0 {
        lemma_flagged_empty(outs, (n - 1) as nat);
    }
}

/// How many of the first `n` children are flagged as estimates.
pub open spec fn flagged(outs: Seq<DirScan>, n: nat) -> nat
    decreases n,
{
    if n == 0 { 0 } else { flagged(outs, (n - 1) as nat) + if estimated(outs, n - 1) { 1nat } else { 0 } }
}

proof fn lemma_flagged_last(outs: Seq<DirScan>, n: nat)
    requires
        outs.len() > 0,
        forall|k: int| 0 <= k < outs.len() - 1 ==> #[trigger] outs[k].index != outs.last().index,
    ensures
        flagged(outs, n) == flagged(outs.drop_last(), n)
            + if outs.last().is_estimate && outs.last().index < n { 1nat } else { 0 },
    decreases n,
{
    let pre = outs.drop_last();
    let o = outs.last();
    if n > 0 {
        lemma_flagged_last(outs, (n - 1) as nat);
        let i = n - 1;
        if estimated(pre, i) {
            let w = choose|w: int| 0 <= w < pre.len() && pre[w].index == i && #[trigger] pre[w].is_estimate;
            assert(outs[w] == pre[w]);
        }
        if estimated(outs, i) && !(o.index == i && o.is_estimate) {
            let w = choose|w: int| 0 <= w < outs.len() && outs[w].index == i && #[trigger] outs[w].is_estimate;
            assert(w < pre.len());
            assert(pre[w] == outs[w]);
        }
        if o.index == i && o.is_estimate {
            assert(outs[outs.len() - 1].is_estimate);
            if estimated(pre, i) {
                let w = choose|w: int| 0 <= w < pre.len() && pre[w].index == i && #[trigger] pre[w].is_estimate;
                assert(outs[w].index == o.index);
            }
        }
    }
}

/// When the scans name distinct children, the estimated count is the
/// number of children flagged as estimates.
pub proof fn law_estimated_count(children: Seq<Child>, outs: Seq<DirScan>)
    requires
        distinct_scans(children, outs),
    ensures
        count_estimates(outs) == flagged(outs, children.len()),
    decreases outs.len(),
{
    if outs.len() > 0 {
        let pre = outs.drop_last();
        assert(distinct_scans(children, pre)) by {
            assert forall|k: int, l: int| 0 <= k < l < pre.len() implies #[trigger] pre[k].index != #[trigger] pre[l].index by {
                assert(pre[k] == outs[k] && pre[l] == outs[l]);
            }
            assert forall|k: int| 0 <= k < pre.len() implies #[trigger] pre[k].index < children.len() by {
                assert(pre[k] == outs[k]);
            }
        }
        law_estimated_count(children, pre);
        assert forall|k: int| 0 <= k < outs.len() - 1 implies #[trigger] outs[k].index != outs.last().index by {
            assert(outs[k].index != outs[outs.len() - 1].index);
        }
        lemma_flagged_last(outs, children.len());
        assert(outs[outs.len() - 1].index < children.len());
    } else {
        lemma_flagged_empty(outs, children.len());
    }
}

} // verus!

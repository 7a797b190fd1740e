//! Properties of how values are spelled and classified, each stated over
//! the plain meaning of the value rather than over the code that spells it.

use vstd::prelude::*;
use crate::json::json_char;
use crate::json::json_escaped;
use crate::render::compact_size;
use crate::scanner::{
    child_sizes, classify_spec, classify_tally, entry_of, estimated, hidden_name, merged_sizes, picked,
    Child, ChildMeta, DirScan, ScanTally,
};
use crate::types::EntryInfo;
use crate::text::{decimal, digit_char, grouped, three_digits};

verus! {

/// `s` with every comma taken out.
pub open spec fn without_commas(s: Seq<char>) -> Seq<char>
    decreases s.len(),
{
    if s.len() == 0 {
        Seq::empty()
    } else {
        without_commas(s.drop_last()) + if s.last() == ',' { Seq::empty() } else { seq![s.last()] }
    }
}

/// `1024` to the power `k`.
pub open spec fn pow1024(k: nat) -> nat
    decreases k,
{
    if k == 0 { 1 } else { 1024 * pow1024((k - 1) as nat) }
}

/// A printable character other than the backslash and the double quote
/// stands for itself in a JSON string; those two are written `\\` and `\"`.
pub proof fn law_json_printable_kept(c: char)
    ensures
        (c as u32) >= 0x20 && c != '\\' && c != '"' ==> json_char(c) == seq![c],
        json_char('\\') == seq!['\\', '\\'],
        json_char('"') == seq!['\\', '"'],
{
}

/// A name made only of printable characters, none of them a backslash or
/// a double quote, is written into JSON exactly as it is.
pub proof fn law_json_plain_name_unchanged(s: Seq<char>)
    requires
        forall|i: int| 0 <= i < s.len() ==> (#[trigger] s[i] as u32) >= 0x20 && s[i] != '\\' && s[i] != '"',
    ensures
        json_escaped(s) == s,
    decreases s.len(),
{
    if s.len() > 0 {
        let p = s.drop_last();
        assert forall|i: int| 0 <= i < p.len() implies (#[trigger] p[i] as u32) >= 0x20 && p[i] != '\\' && p[i] != '"' by {
            assert(p[i] == s[i]);
        }
        law_json_plain_name_unchanged(p);
        assert(s.last() == s[s.len() - 1]);
        law_json_printable_kept(s.last());
        assert(p + seq![s.last()] =~= s);
    }
}

/// A compact size names the power of 1024 it was divided by: a size at
/// least `1024^k` (any size when `k` is 0) and below `1024^(k+1)` (no upper
/// bound for the exabytes) is written as the size divided by `1024^k`,
/// rounded down, followed by the `k`-th of the letters B, K, M, G, T, P, E.
pub proof fn law_compact_size_unit(b: nat, k: nat)
    requires
        k <= 6,
        k == 0 || pow1024(k) <= b,
        k < 6 ==> b < pow1024(k + 1),
    ensures
        compact_size(b) == decimal(b / pow1024(k)) + seq!["BKMGTPE"@[k as int]],
{
    reveal_strlit("BKMGTPE");
    let units = "BKMGTPE"@;
    assert(units.len() == 7);
    assert(pow1024(0) == 1);
    assert(pow1024(1) == 0x400);
    assert(pow1024(2) == 0x10_0000);
    assert(pow1024(3) == 0x4000_0000);
    assert(pow1024(4) == 0x100_0000_0000);
    assert(pow1024(5) == 0x4_0000_0000_0000);
    assert(pow1024(6) == 0x1000_0000_0000_0000);
    assert(pow1024(7) == 0x40_0000_0000_0000_0000);
    if k == 0 {
        assert(units[0] == 'B');
        assert(b / 1 == b);
    } else if k == 1 {
        assert(units[1] == 'K');
    } else if k == 2 {
        assert(units[2] == 'M');
    } else if k == 3 {
        assert(units[3] == 'G');
    } else if k == 4 {
        assert(units[4] == 'T');
    } else if k == 5 {
        assert(units[5] == 'P');
    } else {
        assert(units[6] == 'E');
    }
}

/// Classifying a directory: it is scanned unless a root device is given
/// and the directory lies on another one, in which case it is left at
/// size zero and counted once as a skipped mount; without a root device
/// (walking across mounts) every directory is scanned and nothing is
/// counted. Its name, hiddenness by a leading dot and kind are kept.
pub proof fn law_classify_directory(name: String, m: ChildMeta, root_dev: Option<u64>, t: ScanTally)
    requires
        m.is_dir,
        t.skipped_mounts < u32::MAX,
    ensures
        ({
            let c = classify_spec(name, Ok(m), root_dev);
            let foreign = root_dev is Some && root_dev.unwrap() != m.dev;
            &&& c is Some
            &&& c.unwrap().name == name
            &&& c.unwrap().is_dir && !c.unwrap().is_symlink
            &&& c.unwrap().is_hidden == hidden_name(name@)
            &&& c.unwrap().size == 0
            &&& c.unwrap().needs_scan == !foreign
            &&& classify_tally(t, Ok(m), root_dev).skipped_mounts == t.skipped_mounts + if foreign { 1int } else { 0 }
            &&& classify_tally(t, Ok(m), root_dev).error_count == t.error_count
            &&& classify_tally(t, Ok(m), root_dev).restricted_count == t.restricted_count
        }),
        classify_tally(t, Ok(m), None) == t,
        classify_spec(name, Ok(m), None).unwrap().needs_scan,
{
}

/// Classifying a file or a link that is not a directory: it keeps its own
/// length and kind, is never scanned, and counts nothing, whatever the
/// device.
pub proof fn law_classify_file(name: String, m: ChildMeta, root_dev: Option<u64>, t: ScanTally)
    requires
        !m.is_dir,
        m.is_file || m.is_symlink,
    ensures
        ({
            let c = classify_spec(name, Ok(m), root_dev);
            &&& c is Some
            &&& c.unwrap().name == name
            &&& !c.unwrap().is_dir
            &&& c.unwrap().is_symlink == m.is_symlink
            &&& c.unwrap().is_hidden == hidden_name(name@)
            &&& c.unwrap().size == m.len
            &&& !c.unwrap().needs_scan
        }),
        classify_tally(t, Ok(m), root_dev) == t,
{
}

/// Entry `e` is child `i` (among the first `n`, on the side `hidden`):
/// same name, kind, hiddenness, its merged size and its estimate flag.
pub open spec fn is_child_entry(e: EntryInfo, children: Seq<Child>, outs: Seq<DirScan>, hidden: bool, n: nat, i: int) -> bool {
    &&& 0 <= i < n
    &&& children[i].is_hidden == hidden
    &&& e.name == children[i].name
    &&& e.is_dir == children[i].is_dir
    &&& e.is_symlink == children[i].is_symlink
    &&& e.is_hidden == children[i].is_hidden
    &&& e.size == merged_sizes(child_sizes(children), outs)[i]
    &&& e.is_estimate == estimated(outs, i)
}

proof fn lemma_child_of_entry(children: Seq<Child>, outs: Seq<DirScan>, hidden: bool, n: nat, j: int) -> (i: int)
    requires
        n <= children.len(),
        0 <= j < picked(children, outs, hidden, n).len(),
    ensures
        is_child_entry(picked(children, outs, hidden, n)[j], children, outs, hidden, n, i),
    decreases n,
{
    let m = (n - 1) as nat;
    let before = picked(children, outs, hidden, m);
    if j < before.len() {
        let i = lemma_child_of_entry(children, outs, hidden, m, j);
        assert(picked(children, outs, hidden, n)[j] == before[j]);
        i
    } else {
        assert(children[n - 1].is_hidden == hidden);
        assert(picked(children, outs, hidden, n)[j] == entry_of(children, outs, n - 1));
        n - 1
    }
}

/// Every assembled entry is one of the children it was picked from: it has
/// that child's name, kind (directory or link), hiddenness and its merged
/// size, and the estimate flag of that child's scans.
pub proof fn law_entries_keep_their_child(children: Seq<Child>, outs: Seq<DirScan>, hidden: bool, n: nat, j: int)
    requires
        n <= children.len(),
        0 <= j < picked(children, outs, hidden, n).len(),
    ensures
        exists|i: int| #[trigger] is_child_entry(picked(children, outs, hidden, n)[j], children, outs, hidden, n, i),
{
    let i = lemma_child_of_entry(children, outs, hidden, n, j);
    assert(is_child_entry(picked(children, outs, hidden, n)[j], children, outs, hidden, n, i));
}

proof fn lemma_without_commas_add(a: Seq<char>, b: Seq<char>)
    ensures
        without_commas(a + b) == without_commas(a) + without_commas(b),
    decreases b.len(),
{
    if b.len() == 0 {
        assert(a + b =~= a);
        assert(without_commas(a) + without_commas(b) =~= without_commas(a));
    } else {
        lemma_without_commas_add(a, b.drop_last());
        assert((a + b).drop_last() =~= a + b.drop_last());
        assert((a + b).last() == b.last());
    }
}

proof fn lemma_digit_not_comma(d: nat)
    ensures
        digit_char(d) != ',',
{
}

proof fn lemma_decimal_has_no_comma(n: nat)
    ensures
        without_commas(decimal(n)) == decimal(n),
    decreases n,
{
    lemma_digit_not_comma(n % 10);
    lemma_digit_not_comma(n);
    assert(without_commas(Seq::<char>::empty()) == Seq::<char>::empty());
    let s = decimal(n);
    if n < 10 {
        assert(s.drop_last() =~= Seq::<char>::empty());
        assert(Seq::<char>::empty() + seq![s.last()] =~= s);
    } else {
        lemma_decimal_has_no_comma(n / 10);
        assert(s.drop_last() =~= decimal(n / 10));
        assert(decimal(n / 10) + seq![s.last()] =~= s);
    }
}

proof fn lemma_decimal_split(n: nat)
    requires
        n >= 1000,
    ensures
        decimal(n) == decimal(n / 1000) + three_digits(n % 1000),
{
    let r = n % 1000;
    assert(n / 10 / 10 == n / 100 && n / 100 / 10 == n / 1000) by (nonlinear_arith)
        requires n >= 1000;
    assert((n / 10) % 10 == (r / 10) % 10 && (n / 100) % 10 == r / 100 && n % 10 == r % 10) by (nonlinear_arith)
        requires r == n % 1000;
    assert(decimal(n) == decimal(n / 10).push(digit_char(n % 10)));
    assert(decimal(n / 10) == decimal(n / 100).push(digit_char((n / 10) % 10)));
    assert(decimal(n / 100) == decimal(n / 1000).push(digit_char((n / 100) % 10)));
    assert(decimal(n) =~= decimal(n / 1000) + three_digits(r));
}

/// The grouped spelling of a count is its decimal spelling with commas
/// put in: taking the commas out gives the plain digits back, so every
/// group after the first has all three of its digits.
pub proof fn law_grouped_digits(n: nat)
    ensures
        without_commas(grouped(n)) == decimal(n),
    decreases n,
{
    if n < 1000 {
        lemma_decimal_has_no_comma(n);
    } else {
        law_grouped_digits(n / 1000);
        let r = n % 1000;
        lemma_without_commas_add(grouped(n / 1000) + seq![','], three_digits(r));
        lemma_without_commas_add(grouped(n / 1000), seq![',']);
        let c = seq![','];
        assert(c.drop_last() =~= Seq::<char>::empty());
        assert(without_commas(Seq::<char>::empty()) == Seq::<char>::empty());
        assert(without_commas(c) =~= Seq::<char>::empty());
        lemma_digit_not_comma(r / 100);
        lemma_digit_not_comma((r / 10) % 10);
        lemma_digit_not_comma(r % 10);
        let t = three_digits(r);
        assert(t.drop_last().drop_last().drop_last() =~= Seq::<char>::empty());
        assert(without_commas(t.drop_last().drop_last().drop_last()) == Seq::<char>::empty());
        assert(without_commas(t.drop_last().drop_last()) =~= seq![t[0]]);
        assert(without_commas(t.drop_last()) =~= seq![t[0], t[1]]);
        assert(without_commas(t) =~= t);
        lemma_decimal_split(n);
        assert(without_commas(grouped(n)) =~= decimal(n / 1000) + t);
    }
}

} // verus!

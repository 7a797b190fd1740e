//! The data that flows from the scanner to the renderer.

use vstd::prelude::*;
use std::path::PathBuf;

verus! {

/// A path on disk; the library only carries it through.
#[verifier::external_type_specification]
#[verifier::external_body]
pub struct ExPathBuf(PathBuf);

/// One immediate child of the scanned directory.
#[derive(Debug)]
pub struct EntryInfo {
    pub name: String,
    /// Bytes: the file's length, or the sum of the files below a directory.
    pub size: u64,
    pub is_dir: bool,
    /// The name starts with a dot.
    pub is_hidden: bool,
    /// The directory held more files than the scanner counts; `size` is a
    /// lower bound.
    pub is_estimate: bool,
    pub is_symlink: bool,
}

/// What a scan of one directory found.
#[derive(Debug)]
pub struct ScanResult {
    /// Children whose names do not start with a dot, in directory order.
    pub entries: Vec<EntryInfo>,
    /// Children whose names start with a dot, in directory order.
    pub hidden_entries: Vec<EntryInfo>,
    pub total_size: u64,
    pub error_count: u32,
    pub skipped_mounts: u32,
    pub restricted_count: u32,
    pub estimated_count: u32,
}

/// How the result is written out.
#[derive(Debug, Clone, Copy, PartialEq, Eq, Structural)]
pub enum DisplayMode {
    /// Columns, bars and colours for a terminal.
    Tty,
    /// Raw byte counts and names, one per line, for other programs.
    Pipe,
    /// One JSON object per line.
    Json,
    /// A header line, then tab-separated compact size, percentage and name
    /// per entry, for language models and other readers of plain text.
    Llm,
}

/// The options of one run.
#[derive(Debug)]
pub struct Config {
    pub path: PathBuf,
    pub show_hidden: bool,
    pub json: bool,
    pub llm: bool,
    /// Keep only the entries that take at least this percentage of the
    /// total (in the text and JSON outputs).
    pub threshold_pct: Option<u64>,
    /// Keep the largest entries, this many (in the text and JSON outputs);
    /// together with a threshold, the entries that meet either are kept.
    pub top: Option<usize>,
    pub sparkline: bool,
    pub across_mounts: bool,
    pub jobs: Option<usize>,
    pub no_color: bool,
}

/// The sum of the sizes of `s`.
pub open spec fn sum_sizes(s: Seq<EntryInfo>) -> nat
    decreases s.len(),
{
    if s.len() == 0 {
        0
    } else {
        sum_sizes(s.drop_last()) + s.last().size as nat
    }
}

/// The sum of the sizes of the first `n` entries of `s` is the running sum.
pub proof fn lemma_sum_sizes_prefix(s: Seq<EntryInfo>, n: int)
    requires
        0 <= n < s.len(),
    ensures
        sum_sizes(s.take(n + 1)) == sum_sizes(s.take(n)) + s[n].size,
        sum_sizes(s.take(n)) <= sum_sizes(s),
    decreases s.len(),
{
    assert(s.take(n + 1).drop_last() =~= s.take(n));
    if n + 1 < s.len() {
        lemma_sum_sizes_prefix(s.drop_last(), n);
        assert(s.drop_last().take(n) =~= s.take(n));
        assert(s.drop_last().take(n + 1) =~= s.take(n + 1));
    } else {
        assert(s.take(n + 1) =~= s);
    }
}

/// Sums the sizes of `v`.
pub(crate) fn total_of(v: &Vec<EntryInfo>) -> (r: u64)
    requires
        sum_sizes(v@) <= u64::MAX,
    ensures
        r == sum_sizes(v@),
{
    let mut total: u64 = 0;
    let mut i: usize = 0;
    while i < v.len()
        invariant
            i <= v.len(),
            sum_sizes(v@) <= u64::MAX,
            total == sum_sizes(v@.take(i as int)),
        decreases v.len() - i,
    {
        proof {
            lemma_sum_sizes_prefix(v@, i as int);
            if i + 1 < v.len() {
                lemma_sum_sizes_prefix(v@, i as int + 1);
            } else {
                assert(v@.take(i as int + 1) =~= v@);
            }
        }
        total = total + v[i].size;
        i = i + 1;
    }
    assert(v@.take(v.len() as int) =~= v@);
    total
}

impl ScanResult {
    /// The sum of the sizes of the hidden entries.
    pub fn hidden_total_size(&self) -> (r: u64)
        requires
            sum_sizes(self.hidden_entries@) <= u64::MAX,
        ensures
            r == sum_sizes(self.hidden_entries@),
    {
        total_of(&self.hidden_entries)
    }

    /// The sum of the sizes of the visible entries.
    pub fn visible_total_size(&self) -> (r: u64)
        requires
            sum_sizes(self.entries@) <= u64::MAX,
        ensures
            r == sum_sizes(self.entries@),
    {
        total_of(&self.entries)
    }
}

} // verus!

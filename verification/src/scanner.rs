//! The decisions of the scanner.
//!
//! The caller reads the directory and walks each subdirectory; here each
//! thing it meets is classified and tallied, and the children are
//! assembled into a [`ScanResult`].

use vstd::prelude::*;
use std::collections::HashSet;
use crate::types::{sum_sizes, total_of, EntryInfo, ScanResult};

verus! {

broadcast use vstd::std_specs::hash::group_hash_axioms;

/// A subtree stops being counted after this many files; its size is then an
/// estimate.
pub const MAX_FILES_PER_SUBTREE: u64 = 10_000_000;

/// Why the metadata of something could not be read.
#[derive(Debug, Clone, Copy, PartialEq, Eq, Structural)]
pub enum Failure {
    /// The operating system denied access.
    PermissionDenied,
    /// Any other error.
    Other,
}

/// The metadata of an immediate child, read without following links.
#[derive(Debug, Clone, Copy)]
pub struct ChildMeta {
    pub is_dir: bool,
    pub is_file: bool,
    pub is_symlink: bool,
    pub len: u64,
    /// The device the child lives on.
    pub dev: u64,
}

/// An immediate child as the scanner keeps it.
#[derive(Debug)]
pub struct Child {
    pub name: String,
    pub is_dir: bool,
    pub is_hidden: bool,
    pub size: u64,
    /// A directory whose size is still to be summed.
    pub needs_scan: bool,
    pub is_symlink: bool,
}

/// The counts of what could not be read or was left out.
#[derive(Debug, Clone, Copy)]
pub struct ScanTally {
    pub error_count: u32,
    pub skipped_mounts: u32,
    pub restricted_count: u32,
}

/// A name that starts with a dot is hidden.
pub open spec fn hidden_name(name: Seq<char>) -> bool {
    name.len() > 0 && name[0] == '.'
}

/// Whether a child with this name is hidden.
pub fn is_hidden_name(name: &str) -> (r: bool)
    ensures
        r == hidden_name(name@),
{
    let cs = crate::text::chars_of(name);
    cs.len() > 0 && cs[0] == '.'
}

/// The tally after one failure of kind `f`.
pub open spec fn tally_after(t: ScanTally, f: Failure) -> ScanTally {
    match f {
        Failure::PermissionDenied => ScanTally { restricted_count: (t.restricted_count + 1) as u32, ..t },
        Failure::Other => ScanTally { error_count: (t.error_count + 1) as u32, ..t },
    }
}

/// There is room to count one more failure of kind `f`.
pub open spec fn room_for(t: ScanTally, f: Failure) -> bool {
    match f {
        Failure::PermissionDenied => t.restricted_count < u32::MAX,
        Failure::Other => t.error_count < u32::MAX,
    }
}

impl ScanTally {
    /// Nothing counted yet.
    pub fn new() -> (t: ScanTally)
        ensures
            t.error_count == 0,
            t.skipped_mounts == 0,
            t.restricted_count == 0,
    {
        ScanTally { error_count: 0, skipped_mounts: 0, restricted_count: 0 }
    }

    /// Counts a failure: a denied permission as a restricted path, anything
    /// else as an error.
    pub fn note_failure(&mut self, f: Failure)
        requires
            room_for(*old(self), f),
        ensures
            *final(self) == tally_after(*old(self), f),
    {
        match f {
            Failure::PermissionDenied => {
                self.restricted_count = self.restricted_count + 1;
            },
            Failure::Other => {
                self.error_count = self.error_count + 1;
            },
        }
    }
}

/// What becomes of an immediate child named `name` with metadata `meta`:
/// nothing when its metadata fails or it is neither a directory, a file
/// nor a symbolic link; a directory on another device than `root_dev` is
/// kept with size zero and not scanned; other directories are scanned;
/// files and links keep their own length.
pub open spec fn classify_spec(name: String, meta: Result<ChildMeta, Failure>, root_dev: Option<u64>) -> Option<Child> {
    let hidden = hidden_name(name@);
    match meta {
        Err(_) => None,
        Ok(m) => {
            if m.is_dir {
                let other_device = match root_dev { Some(rd) => m.dev != rd, None => false };
                Some(Child { name, is_dir: true, is_hidden: hidden, size: 0, needs_scan: !other_device, is_symlink: false })
            } else if m.is_file || m.is_symlink {
                Some(Child { name, is_dir: false, is_hidden: hidden, size: m.len, needs_scan: false, is_symlink: m.is_symlink })
            } else {
                None
            }
        },
    }
}

/// The tally after classifying a child with metadata `meta`.
pub open spec fn classify_tally(t: ScanTally, meta: Result<ChildMeta, Failure>, root_dev: Option<u64>) -> ScanTally {
    match meta {
        Err(f) => tally_after(t, f),
        Ok(m) => {
            if m.is_dir && (match root_dev { Some(rd) => m.dev != rd, None => false }) {
                ScanTally { skipped_mounts: (t.skipped_mounts + 1) as u32, ..t }
            } else {
                t
            }
        },
    }
}

/// There is room to count whatever classifying `meta` counts.
pub open spec fn classify_room(t: ScanTally, meta: Result<ChildMeta, Failure>) -> bool {
    match meta {
        Err(f) => room_for(t, f),
        Ok(m) => m.is_dir ==> t.skipped_mounts < u32::MAX,
    }
}

/// Classifies one immediate child (see [`classify_spec`]) and tallies
/// what it costs.
pub fn classify_child(tally: &mut ScanTally, name: String, meta: Result<ChildMeta, Failure>, root_dev: Option<u64>) -> (r: Option<Child>)
    requires
        classify_room(*old(tally), meta),
    ensures
        r == classify_spec(name, meta, root_dev),
        *final(tally) == classify_tally(*old(tally), meta, root_dev),
{
    let is_hidden = is_hidden_name(name.as_str());
    match meta {
        Err(f) => {
            tally.note_failure(f);
            None
        },
        Ok(m) => {
            if m.is_dir {
                let other_device = match root_dev {
                    Some(rd) => m.dev != rd,
                    None => false,
                };
                if other_device {
                    tally.skipped_mounts = tally.skipped_mounts + 1;
                }
                Some(Child { name, is_dir: true, is_hidden, size: 0, needs_scan: !other_device, is_symlink: false })
            } else if m.is_file || m.is_symlink {
                Some(Child { name, is_dir: false, is_hidden, size: m.len, needs_scan: false, is_symlink: m.is_symlink })
            } else {
                None
            }
        },
    }
}

/// One thing met while walking a subdirectory.
#[derive(Debug, Clone, Copy)]
pub enum WalkEvent {
    /// The walker or the metadata read failed.
    Failed(Failure),
    /// A directory, with the device it lives on; its files come as their
    /// own events unless the walk skips it.
    Directory { dev: u64 },
    /// Anything else, with its metadata.
    File { dev: u64, ino: u64, nlink: u64, len: u64 },
}

/// Whether the walk goes on.
#[derive(Debug, Clone, Copy, PartialEq, Eq, Structural)]
pub enum WalkStep {
    Continue,
    /// The directory just met is a mount point of another file system: do
    /// not descend into it.
    SkipDirectory,
    /// The file limit was reached: stop, the size is an estimate.
    Estimate,
}

/// The running totals of the walk of one subdirectory.
pub struct DirWalk {
    pub size: u64,
    pub errors: u32,
    pub skipped_mounts: u32,
    pub restricted: u32,
    pub file_count: u64,
    /// The (device, inode) keys of the multiply linked files counted.
    pub seen: HashSet<u128>,
}

/// The key of a file: its device and inode number together.
pub open spec fn inode_key(dev: u64, ino: u64) -> u128 {
    (dev as nat * 0x1_0000_0000_0000_0000 + ino as nat) as u128
}

impl DirWalk {
    /// The keys of the multiply linked files counted so far.
    pub open spec fn seen_keys(&self) -> Set<u128> {
        self.seen@
    }

    /// The walk can take another event.
    pub open spec fn open(&self) -> bool {
        self.file_count < MAX_FILES_PER_SUBTREE
    }

    /// A walk that has counted nothing.
    pub fn new() -> (w: DirWalk)
        ensures
            w.size == 0,
            w.errors == 0,
            w.skipped_mounts == 0,
            w.restricted == 0,
            w.file_count == 0,
            w.seen_keys() == Set::<u128>::empty(),
    {
        DirWalk { size: 0, errors: 0, skipped_mounts: 0, restricted: 0, file_count: 0, seen: HashSet::new() }
    }

    /// The event is a file or a directory on another device than `root_dev`.
    pub open spec fn foreign(ev: WalkEvent, root_dev: Option<u64>) -> bool {
        match (ev, root_dev) {
            (WalkEvent::File { dev, .. }, Some(rd)) => dev != rd,
            (WalkEvent::Directory { dev }, Some(rd)) => dev != rd,
            _ => false,
        }
    }

    /// The event is a multiply linked file already counted.
    pub open spec fn repeat_link(&self, ev: WalkEvent) -> bool {
        match ev {
            WalkEvent::File { dev, ino, nlink, .. } => nlink > 1 && self.seen_keys().contains(inode_key(dev, ino)),
            _ => false,
        }
    }

    /// The event is a file that adds to the size.
    pub open spec fn counts(&self, ev: WalkEvent, root_dev: Option<u64>) -> bool {
        &&& ev is File
        &&& !Self::foreign(ev, root_dev)
        &&& !self.repeat_link(ev)
    }

    /// There is room in the counter that `ev` raises.
    pub open spec fn room(&self, ev: WalkEvent, root_dev: Option<u64>) -> bool {
        match ev {
            WalkEvent::Failed(Failure::PermissionDenied) => self.restricted < u32::MAX,
            WalkEvent::Failed(Failure::Other) => self.errors < u32::MAX,
            WalkEvent::Directory { .. } => Self::foreign(ev, root_dev) ==> self.skipped_mounts < u32::MAX,
            WalkEvent::File { len, .. } => {
                &&& Self::foreign(ev, root_dev) ==> self.skipped_mounts < u32::MAX
                &&& self.counts(ev, root_dev) ==> self.size + len <= u64::MAX
            },
        }
    }

    /// Whether there is room in the counter that `ev` raises.
    pub fn has_room(&self, ev: WalkEvent, root_dev: Option<u64>) -> (r: bool)
        ensures
            r == self.room(ev, root_dev),
    {
        match ev {
            WalkEvent::Failed(Failure::PermissionDenied) => self.restricted < u32::MAX,
            WalkEvent::Failed(Failure::Other) => self.errors < u32::MAX,
            WalkEvent::Directory { dev } => {
                let foreign = match root_dev { Some(rd) => dev != rd, None => false };
                !foreign || self.skipped_mounts < u32::MAX
            },
            WalkEvent::File { dev, ino, nlink, len } => {
                let foreign = match root_dev { Some(rd) => dev != rd, None => false };
                if foreign {
                    return self.skipped_mounts < u32::MAX;
                }
                if nlink > 1 {
                    let key: u128 = (dev as u128) * 0x1_0000_0000_0000_0000 + (ino as u128);
                    assert(key == inode_key(dev, ino));
                    if self.seen.contains(&key) {
                        return true;
                    }
                }
                len <= u64::MAX - self.size
            },
        }
    }

    /// Takes one event of the walk. A failure is counted as restricted
    /// (denied permission) or as an error; a directory on another device
    /// than `root_dev` is counted once as a skipped mount and not entered,
    /// other directories are passed over; a file on another device than `root_dev` is counted as a skipped
    /// mount; a multiply linked file already counted is passed over;
    /// any other file adds its length and counts one more file, and the
    /// walk stops as an estimate when the file limit is reached.
    pub fn step(&mut self, ev: WalkEvent, root_dev: Option<u64>) -> (r: WalkStep)
        requires
            old(self).open(),
            old(self).room(ev, root_dev),
        ensures
            final(self).size == old(self).size + (if old(self).counts(ev, root_dev) { ev->len as int } else { 0 }),
            final(self).file_count == old(self).file_count + (if old(self).counts(ev, root_dev) { 1int } else { 0 }),
            final(self).errors == old(self).errors + (if ev == WalkEvent::Failed(Failure::Other) { 1int } else { 0 }),
            final(self).restricted == old(self).restricted + (if ev == WalkEvent::Failed(Failure::PermissionDenied) { 1int } else { 0 }),
            final(self).skipped_mounts == old(self).skipped_mounts + (if Self::foreign(ev, root_dev) { 1int } else { 0 }),
            final(self).seen_keys() == (match ev {
                WalkEvent::File { dev, ino, nlink, .. } =>
                    if old(self).counts(ev, root_dev) && nlink > 1 { old(self).seen_keys().insert(inode_key(dev, ino)) } else { old(self).seen_keys() },
                _ => old(self).seen_keys(),
            }),
            r == (if ev is Directory && Self::foreign(ev, root_dev) { WalkStep::SkipDirectory }
                else if final(self).open() { WalkStep::Continue } else { WalkStep::Estimate }),
            final(self).file_count <= MAX_FILES_PER_SUBTREE,
    {
        match ev {
            WalkEvent::Failed(Failure::PermissionDenied) => {
                self.restricted = self.restricted + 1;
                WalkStep::Continue
            },
            WalkEvent::Failed(Failure::Other) => {
                self.errors = self.errors + 1;
                WalkStep::Continue
            },
            WalkEvent::Directory { dev } => {
                let foreign = match root_dev {
                    Some(rd) => dev != rd,
                    None => false,
                };
                if foreign {
                    self.skipped_mounts = self.skipped_mounts + 1;
                    WalkStep::SkipDirectory
                } else {
                    WalkStep::Continue
                }
            },
            WalkEvent::File { dev, ino, nlink, len } => {
                let foreign = match root_dev {
                    Some(rd) => dev != rd,
                    None => false,
                };
                if foreign {
                    self.skipped_mounts = self.skipped_mounts + 1;
                    return WalkStep::Continue;
                }
                if nlink > 1 {
                    let key: u128 = (dev as u128) * 0x1_0000_0000_0000_0000 + (ino as u128);
                    assert(key == inode_key(dev, ino));
                    if !self.seen.insert(key) {
                        return WalkStep::Continue;
                    }
                }
                self.size = self.size + len;
                self.file_count = self.file_count + 1;
                if self.file_count >= MAX_FILES_PER_SUBTREE {
                    WalkStep::Estimate
                } else {
                    WalkStep::Continue
                }
            },
        }
    }
}

/// What the walk of one subdirectory found, for the child at `index`.
#[derive(Debug, Clone, Copy)]
pub struct DirScan {
    pub index: usize,
    pub size: u64,
    pub errors: u32,
    pub skipped: u32,
    pub restricted: u32,
    pub is_estimate: bool,
}

/// The children's sizes after the scans in `outs` are written in, a later
/// scan of the same child overwriting an earlier one.
pub open spec fn merged_sizes(sizes: Seq<u64>, outs: Seq<DirScan>) -> Seq<u64>
    decreases outs.len(),
{
    if outs.len() == 0 {
        sizes
    } else {
        merged_sizes(sizes, outs.drop_last()).update(outs.last().index as int, outs.last().size)
    }
}

/// Some scan of child `i` ended as an estimate.
pub open spec fn estimated(outs: Seq<DirScan>, i: int) -> bool {
    exists|k: int| 0 <= k < outs.len() && outs[k].index == i && #[trigger] outs[k].is_estimate
}

/// The sum of one counter over the scans.
pub open spec fn sum_errors(outs: Seq<DirScan>) -> nat
    decreases outs.len(),
{
    if outs.len() == 0 { 0 } else { sum_errors(outs.drop_last()) + outs.last().errors as nat }
}

/// The sum of the skipped mounts over the scans.
pub open spec fn sum_skipped(outs: Seq<DirScan>) -> nat
    decreases outs.len(),
{
    if outs.len() == 0 { 0 } else { sum_skipped(outs.drop_last()) + outs.last().skipped as nat }
}

/// The sum of the restricted paths over the scans.
pub open spec fn sum_restricted(outs: Seq<DirScan>) -> nat
    decreases outs.len(),
{
    if outs.len() == 0 { 0 } else { sum_restricted(outs.drop_last()) + outs.last().restricted as nat }
}

/// How many scans ended as estimates.
pub open spec fn count_estimates(outs: Seq<DirScan>) -> nat
    decreases outs.len(),
{
    if outs.len() == 0 { 0 } else { count_estimates(outs.drop_last()) + if outs.last().is_estimate { 1nat } else { 0 } }
}

/// The sizes of the children before merging.
pub open spec fn child_sizes(children: Seq<Child>) -> Seq<u64> {
    Seq::new(children.len(), |i: int| children[i].size)
}

/// The entry of child `i` once its scan is merged in.
pub open spec fn entry_of(children: Seq<Child>, outs: Seq<DirScan>, i: int) -> EntryInfo {
    EntryInfo {
        name: children[i].name,
        size: merged_sizes(child_sizes(children), outs)[i],
        is_dir: children[i].is_dir,
        is_hidden: children[i].is_hidden,
        is_estimate: estimated(outs, i),
        is_symlink: children[i].is_symlink,
    }
}

/// The entries of the first `n` children that are hidden (or not), in order.
pub open spec fn picked(children: Seq<Child>, outs: Seq<DirScan>, hidden: bool, n: nat) -> Seq<EntryInfo>
    decreases n,
{
    if n == 0 {
        Seq::empty()
    } else {
        let before = picked(children, outs, hidden, (n - 1) as nat);
        if children[n - 1].is_hidden == hidden {
            before.push(entry_of(children, outs, n - 1))
        } else {
            before
        }
    }
}

/// The scans name children that exist.
pub open spec fn scans_fit(children: Seq<Child>, outs: Seq<DirScan>) -> bool {
    forall|k: int| 0 <= k < outs.len() ==> #[trigger] outs[k].index < children.len()
}

/// The counters and the total fit their types.
pub open spec fn assembly_fits(children: Seq<Child>, outs: Seq<DirScan>, tally: ScanTally) -> bool {
    &&& tally.error_count + sum_errors(outs) <= u32::MAX
    &&& tally.skipped_mounts + sum_skipped(outs) <= u32::MAX
    &&& tally.restricted_count + sum_restricted(outs) <= u32::MAX
    &&& count_estimates(outs) <= u32::MAX
    &&& sum_sizes(picked(children, outs, false, children.len())) + sum_sizes(picked(children, outs, true, children.len())) <= u64::MAX
}

fn entry_from(children: &Vec<Child>, outs: Ghost<Seq<DirScan>>, sizes: &Vec<u64>, flags: &Vec<bool>, i: usize) -> (e: EntryInfo)
    requires
        i < children@.len(),
        scans_fit(children@, outs@),
        sizes@ == merged_sizes(child_sizes(children@), outs@),
        flags@.len() == children@.len(),
        forall|j: int| 0 <= j < flags@.len() ==> flags@[j] == estimated(outs@, j),
    ensures
        e == entry_of(children@, outs@, i as int),
{
    proof {
        lemma_merged_len(child_sizes(children@), outs@);
    }
    let c = &children[i];
    EntryInfo {
        name: c.name.clone(),
        size: sizes[i],
        is_dir: c.is_dir,
        is_hidden: c.is_hidden,
        is_estimate: flags[i],
        is_symlink: c.is_symlink,
    }
}

pub(crate) proof fn lemma_merged_len(sizes: Seq<u64>, outs: Seq<DirScan>)
    requires
        forall|k: int| 0 <= k < outs.len() ==> #[trigger] outs[k].index < sizes.len(),
    ensures
        merged_sizes(sizes, outs).len() == sizes.len(),
    decreases outs.len(),
{
    if outs.len() > 0 {
        assert(outs.last() == outs[outs.len() - 1]);
        lemma_merged_len(sizes, outs.drop_last());
    }
}

proof fn lemma_picked_sum_le(children: Seq<Child>, outs: Seq<DirScan>, hidden: bool, n: nat, m: nat)
    requires
        n <= m <= children.len(),
    ensures
        sum_sizes(picked(children, outs, hidden, n)) <= sum_sizes(picked(children, outs, hidden, m)),
    decreases m - n,
{
    if n < m {
        lemma_picked_sum_le(children, outs, hidden, n, (m - 1) as nat);
        let before = picked(children, outs, hidden, (m - 1) as nat);
        if children[m - 1].is_hidden == hidden {
            assert(before.push(entry_of(children, outs, m - 1)).drop_last() =~= before);
        }
    }
}

/// Builds the scan result from the classified children, the scans of
/// their subdirectories and the tally: each scan's size is written into
/// its child, hidden children are listed apart, the counters add up and
/// the total is the sum of all sizes.
pub fn assemble_scan(children: Vec<Child>, outs: &Vec<DirScan>, tally: ScanTally) -> (r: ScanResult)
    requires
        scans_fit(children@, outs@),
        assembly_fits(children@, outs@, tally),
    ensures
        r.entries@ == picked(children@, outs@, false, children@.len()),
        r.hidden_entries@ == picked(children@, outs@, true, children@.len()),
        r.total_size == sum_sizes(r.entries@) + sum_sizes(r.hidden_entries@),
        r.error_count == tally.error_count + sum_errors(outs@),
        r.skipped_mounts == tally.skipped_mounts + sum_skipped(outs@),
        r.restricted_count == tally.restricted_count + sum_restricted(outs@),
        r.estimated_count == count_estimates(outs@),
{
    let n = children.len();
    let mut sizes: Vec<u64> = Vec::new();
    let mut flags: Vec<bool> = Vec::new();
    let mut i: usize = 0;
    while i < n
        invariant
            i <= n,
            n == children@.len(),
            sizes@ == child_sizes(children@).take(i as int),
            flags@.len() == i,
            forall|j: int| 0 <= j < i ==> flags@[j] == false,
        decreases n - i,
    {
        sizes.push(children[i].size);
        flags.push(false);
        i = i + 1;
        assert(sizes@ =~= child_sizes(children@).take(i as int));
    }
    assert(sizes@ =~= child_sizes(children@));
    let mut errors: u32 = tally.error_count;
    let mut skipped: u32 = tally.skipped_mounts;
    let mut restricted: u32 = tally.restricted_count;
    let mut estimates: u32 = 0;
    let mut k: usize = 0;
    while k < outs.len()
        invariant
            k <= outs.len(),
            n == children@.len(),
            scans_fit(children@, outs@),
            assembly_fits(children@, outs@, tally),
            sizes@ == merged_sizes(child_sizes(children@), outs@.take(k as int)),
            flags@.len() == n,
            forall|j: int| 0 <= j < n ==> flags@[j] == estimated(outs@.take(k as int), j),
            errors == tally.error_count + sum_errors(outs@.take(k as int)),
            skipped == tally.skipped_mounts + sum_skipped(outs@.take(k as int)),
            restricted == tally.restricted_count + sum_restricted(outs@.take(k as int)),
            estimates == count_estimates(outs@.take(k as int)),
        decreases outs.len() - k,
    {
        let o = outs[k];
        let ghost pre = outs@.take(k as int);
        let ghost post = outs@.take(k as int + 1);
        assert(post.drop_last() =~= pre);
        assert(post.last() == o);
        proof {
            assert forall|w: int| 0 <= w < pre.len() implies #[trigger] pre[w].index < child_sizes(children@).len() by {
                assert(pre[w] == outs@[w]);
            }
            lemma_merged_len(child_sizes(children@), pre);
            lemma_counter_prefix(outs@, k as int + 1);
        }
        sizes.set(o.index, o.size);
        errors = errors + o.errors;
        skipped = skipped + o.skipped;
        restricted = restricted + o.restricted;
        if o.is_estimate {
            flags.set(o.index, true);
            estimates = estimates + 1;
        }
        assert forall|j: int| 0 <= j < n implies flags@[j] == estimated(post, j) by {
            if estimated(pre, j) {
                let w = choose|w: int| 0 <= w < pre.len() && pre[w].index == j && #[trigger] pre[w].is_estimate;
                assert(post[w] == pre[w]);
            }
            if estimated(post, j) && !(o.is_estimate && o.index == j) {
                let w = choose|w: int| 0 <= w < post.len() && post[w].index == j && #[trigger] post[w].is_estimate;
                assert(w < pre.len());
                assert(pre[w] == post[w]);
            }
            if o.is_estimate && o.index == j {
                assert(post[k as int].is_estimate);
            }
        }
        k = k + 1;
    }
    assert(outs@.take(k as int) =~= outs@);
    let ghost og = outs@;
    let mut entries: Vec<EntryInfo> = Vec::new();
    let mut hidden_entries: Vec<EntryInfo> = Vec::new();
    let mut c: usize = 0;
    while c < n
        invariant
            c <= n,
            n == children@.len(),
            og == outs@,
            scans_fit(children@, og),
            sizes@ == merged_sizes(child_sizes(children@), og),
            flags@.len() == n,
            forall|j: int| 0 <= j < flags@.len() ==> flags@[j] == estimated(og, j),
            entries@ == picked(children@, og, false, c as nat),
            hidden_entries@ == picked(children@, og, true, c as nat),
        decreases n - c,
    {
        let e = entry_from(&children, Ghost(og), &sizes, &flags, c);
        if children[c].is_hidden {
            hidden_entries.push(e);
        } else {
            entries.push(e);
        }
        c = c + 1;
    }
    proof {
        lemma_picked_sum_le(children@, og, false, n as nat, n as nat);
    }
    let visible_sum = total_of(&entries);
    let hidden_sum = total_of(&hidden_entries);
    ScanResult {
        entries,
        hidden_entries,
        total_size: visible_sum + hidden_sum,
        error_count: errors,
        skipped_mounts: skipped,
        restricted_count: restricted,
        estimated_count: estimates,
    }
}

/// The counters over a prefix of the scans never exceed those over all.
proof fn lemma_counter_prefix(outs: Seq<DirScan>, k: int)
    requires
        0 <= k <= outs.len(),
    ensures
        sum_errors(outs.take(k)) <= sum_errors(outs),
        sum_skipped(outs.take(k)) <= sum_skipped(outs),
        sum_restricted(outs.take(k)) <= sum_restricted(outs),
        count_estimates(outs.take(k)) <= count_estimates(outs),
    decreases outs.len() - k,
{
    if k < outs.len() {
        lemma_counter_prefix(outs, k + 1);
        assert(outs.take(k + 1).drop_last() =~= outs.take(k));
    } else {
        assert(outs.take(k) =~= outs);
    }
}

} // verus!

//! The entries of a directory walk, and the byte totals of the files in it.
//!
//! A walk lists a tree depth-first, each directory before what it holds: the
//! entries under a directory are those that follow it, up to the next entry
//! that is not deeper than the directory itself. Several walks may stand one
//! after the other in one listing.

use vstd::prelude::*;
use crate::text::text_of;

verus! {

/// What kind of node an entry is. A symbolic link is `Other`: it is never
/// followed and counts for no bytes.
#[derive(Debug, Clone, Copy, PartialEq, Eq, Structural)]
pub enum EntryKind {
    Directory,
    File,
    Other,
}

/// The kind of a node, from what its file type says: a directory, else a
/// regular file, else something other.
pub open spec fn kind_of(is_dir: bool, is_file: bool) -> EntryKind {
    if is_dir {
        EntryKind::Directory
    } else if is_file {
        EntryKind::File
    } else {
        EntryKind::Other
    }
}

impl EntryKind {
    /// The kind of a node whose file type answers `is_dir` and `is_file`.
    pub fn of(is_dir: bool, is_file: bool) -> (kind: EntryKind)
        ensures
            kind == kind_of(is_dir, is_file),
    {
        if is_dir {
            EntryKind::Directory
        } else if is_file {
            EntryKind::File
        } else {
            EntryKind::Other
        }
    }
}

/// One node seen during a walk.
#[derive(Debug, Clone)]
pub struct Entry {
    /// Full path of the node.
    pub path: String,
    /// Last component of the path.
    pub name: String,
    pub kind: EntryKind,
    /// Distance from the root of the walk; a direct child of the root is at 1.
    pub depth: usize,
    /// Byte length of a file, 0 where it could not be read.
    pub size: u64,
    /// Path of the directory that holds the node.
    pub parent: Option<String>,
}

/// The mathematical value of an `Entry`.
pub struct EntryView {
    pub path: Seq<char>,
    pub name: Seq<char>,
    pub kind: EntryKind,
    pub depth: usize,
    pub size: u64,
    pub parent: Option<Seq<char>>,
}

impl View for Entry {
    type V = EntryView;

    open spec fn view(&self) -> EntryView {
        EntryView {
            path: self.path@,
            name: self.name@,
            kind: self.kind,
            depth: self.depth,
            size: self.size,
            parent: text_of(self.parent),
        }
    }
}

/// The values of a sequence of entries.
pub open spec fn entry_views(entries: Seq<Entry>) -> Seq<EntryView> {
    Seq::new(entries.len(), |i: int| entries[i]@)
}

/// The bytes an entry counts for by itself: its length if it is a file.
pub open spec fn file_bytes(e: EntryView) -> nat {
    if e.kind == EntryKind::File {
        e.size as nat
    } else {
        0
    }
}

/// The sum of the lengths of the files among `entries`.
pub open spec fn total_file_bytes(entries: Seq<EntryView>) -> nat
    decreases entries.len(),
{
    if entries.len() == 0 {
        0
    } else {
        total_file_bytes(entries.drop_last()) + file_bytes(entries.last())
    }
}

/// Index just past the run of entries deeper than `depth` that starts at `from`.
pub open spec fn run_end(entries: Seq<EntryView>, depth: usize, from: int) -> int
    decreases entries.len() - from,
{
    if 0 <= from < entries.len() && entries[from].depth > depth {
        run_end(entries, depth, from + 1)
    } else {
        from
    }
}

/// Index just past the entries under entry `i`.
pub open spec fn subtree_end(entries: Seq<EntryView>, i: int) -> int {
    run_end(entries, entries[i].depth, i + 1)
}

/// The sum of the lengths of the files under entry `i`, at any depth.
pub open spec fn subtree_bytes(entries: Seq<EntryView>, i: int) -> nat {
    total_file_bytes(entries.subrange(i + 1, subtree_end(entries, i)))
}

/// The size reported for entry `i`: its own length for a file, the total of
/// the files under it otherwise.
pub open spec fn entry_bytes(entries: Seq<EntryView>, i: int) -> nat {
    if entries[i].kind == EntryKind::File {
        entries[i].size as nat
    } else {
        subtree_bytes(entries, i)
    }
}

/// The total of two runs of entries is the sum of their totals.
pub proof fn lemma_total_of_concat(a: Seq<EntryView>, b: Seq<EntryView>)
    ensures
        total_file_bytes(a + b) == total_file_bytes(a) + total_file_bytes(b),
    decreases b.len(),
{
    if b.len() == 0 {
        assert(a + b =~= a);
    } else {
        lemma_total_of_concat(a, b.drop_last());
        assert((a + b).drop_last() =~= a + b.drop_last());
        assert((a + b).last() == b.last());
    }
}

/// A stretch of a walk holds no more bytes than the whole walk.
pub proof fn lemma_range_within_total(entries: Seq<EntryView>, lo: int, hi: int)
    requires
        0 <= lo <= hi <= entries.len(),
    ensures
        total_file_bytes(entries.subrange(lo, hi)) <= total_file_bytes(entries),
{
    let head = entries.subrange(0, lo);
    let mid = entries.subrange(lo, hi);
    let tail = entries.subrange(hi, entries.len() as int);
    lemma_total_of_concat(head, mid);
    lemma_total_of_concat(head + mid, tail);
    assert(head + mid + tail =~= entries);
}

/// The end of the run that starts at `from` lies between `from` and the end
/// of the walk.
pub proof fn lemma_run_end_bounds(entries: Seq<EntryView>, depth: usize, from: int)
    requires
        0 <= from <= entries.len(),
    ensures
        from <= run_end(entries, depth, from) <= entries.len(),
    decreases entries.len() - from,
{
    if from < entries.len() && entries[from].depth > depth {
        lemma_run_end_bounds(entries, depth, from + 1);
    }
}

/// `next` may follow `prev` in a depth-first walk: it is at most one level
/// deeper, and deeper only if `prev` is a directory, which it then lies in.
pub open spec fn may_follow(prev: EntryView, next: EntryView) -> bool {
    &&& next.depth <= prev.depth + 1
    &&& next.depth > prev.depth ==> prev.kind == EntryKind::Directory
}

/// The entries are in the order of a depth-first walk.
pub open spec fn is_depth_first(entries: Seq<EntryView>) -> bool {
    forall|i: int| 0 < i < entries.len() ==> may_follow(entries[i - 1], #[trigger] entries[i])
}

/// What a `Listing` holds: a depth-first walk short enough to index, whose
/// files total no more than `u64::MAX` bytes.
pub open spec fn is_listing(entries: Seq<EntryView>) -> bool {
    &&& entries.len() <= usize::MAX
    &&& is_depth_first(entries)
    &&& total_file_bytes(entries) <= u64::MAX
}

/// Only a directory has entries under it: after a file or a link the walk
/// goes on at the same depth or above.
pub proof fn lemma_only_directories_hold_entries(entries: Seq<EntryView>, i: int)
    requires
        is_listing(entries),
        0 <= i < entries.len(),
        entries[i].kind != EntryKind::Directory,
    ensures
        subtree_end(entries, i) == i + 1,
        subtree_bytes(entries, i) == 0,
{
    if i + 1 < entries.len() {
        assert(may_follow(entries[i + 1 - 1], entries[i + 1]));
    }
    assert(entries.subrange(i + 1, i + 1) =~= Seq::<EntryView>::empty());
}

/// In a listing the size reported for an entry fits a `u64`.
pub proof fn lemma_entry_bytes_fit(entries: Seq<EntryView>, i: int)
    requires
        is_listing(entries),
        0 <= i < entries.len(),
    ensures
        entry_bytes(entries, i) <= u64::MAX,
{
    lemma_run_end_bounds(entries, entries[i].depth, i + 1);
    lemma_range_within_total(entries, i + 1, subtree_end(entries, i));
}

/// Removing one entry lowers the total by what that entry counts for.
proof fn lemma_total_without(entries: Seq<EntryView>, i: int)
    requires
        0 <= i < entries.len(),
    ensures
        total_file_bytes(entries) == total_file_bytes(entries.remove(i)) + file_bytes(entries[i]),
{
    let head = entries.subrange(0, i);
    let one = entries.subrange(i, i + 1);
    let tail = entries.subrange(i + 1, entries.len() as int);
    lemma_total_of_concat(head, one);
    lemma_total_of_concat(head + one, tail);
    lemma_total_of_concat(head, tail);
    assert(head + one + tail =~= entries);
    assert(head + tail =~= entries.remove(i));
    assert(one.drop_last() =~= Seq::<EntryView>::empty());
    assert(total_file_bytes(one.drop_last()) == 0);
    assert(one.last() == entries[i]);
}

/// The total does not depend on the order in which the entries are listed:
/// two listings of the same entries hold the same number of bytes.
pub proof fn lemma_total_is_order_independent(a: Seq<EntryView>, b: Seq<EntryView>)
    requires
        a.to_multiset() == b.to_multiset(),
    ensures
        total_file_bytes(a) == total_file_bytes(b),
    decreases a.len(),
{
    vstd::seq_lib::to_multiset_len(a);
    vstd::seq_lib::to_multiset_len(b);
    if a.len() > 0 {
        let x = a.last();
        let last: int = a.len() - 1;
        assert(a[last] == x);
        vstd::seq_lib::to_multiset_contains(a, x);
        vstd::seq_lib::to_multiset_contains(b, x);
        let j: int = choose|j: int| 0 <= j < b.len() && b[j] == x;
        vstd::seq_lib::to_multiset_remove(a, last);
        vstd::seq_lib::to_multiset_remove(b, j);
        assert(a.remove(last) =~= a.drop_last());
        lemma_total_is_order_independent(a.drop_last(), b.remove(j));
        lemma_total_without(b, j);
    }
}

/// The entries of a depth-first walk whose files total no more than
/// `u64::MAX` bytes, so that every size computed from it fits a `u64`.
pub struct Listing {
    entries: Vec<Entry>,
}

impl View for Listing {
    type V = Seq<EntryView>;

    closed spec fn view(&self) -> Seq<EntryView> {
        entry_views(self.entries@)
    }
}

impl Listing {
    #[verifier::type_invariant]
    spec fn well_formed(self) -> bool {
        is_listing(self@)
    }

    /// Wraps the entries of a walk, given in the order the walk produced
    /// them. `None` when that is not the order of a depth-first walk, or
    /// when the files total more than `u64::MAX` bytes.
    pub fn new(entries: Vec<Entry>) -> (walk: Option<Listing>)
        ensures
            walk is Some <==> is_listing(entry_views(entries@)),
            walk matches Some(w) ==> w@ == entry_views(entries@),
    {
        let ghost all = entry_views(entries@);
        let mut total: u64 = 0;
        let mut i: usize = 0;
        while i < entries.len()
            invariant
                i <= entries.len(),
                all == entry_views(entries@),
                total == total_file_bytes(all.subrange(0, i as int)),
                forall|k: int| 0 < k < i ==> may_follow(all[k - 1], #[trigger] all[k]),
            decreases entries.len() - i,
        {
            proof {
                assert(all.subrange(0, i + 1).drop_last() =~= all.subrange(0, i as int));
                assert(all.subrange(0, i + 1).last() == entries[i as int]@);
                lemma_range_within_total(all, 0, i + 1);
            }
            if i > 0 {
                let prev = &entries[i - 1];
                let deeper = entries[i].depth > prev.depth;
                let is_directory = match prev.kind {
                    EntryKind::Directory => true,
                    _ => false,
                };
                if deeper && (entries[i].depth - prev.depth > 1 || !is_directory) {
                    assert(!may_follow(all[i - 1], all[i as int]));
                    return None;
                }
            }
            match entries[i].kind {
                EntryKind::File => {
                    let size: u64 = entries[i].size;
                    if size > u64::MAX - total {
                        return None;
                    }
                    total = total + size;
                },
                _ => {},
            }
            i += 1;
        }
        proof {
            assert(all.subrange(0, i as int) =~= all);
        }
        Some(Listing { entries })
    }

    /// Number of entries.
    pub fn len(&self) -> (n: usize)
        ensures
            n == self@.len(),
    {
        self.entries.len()
    }

    /// The entry at `index`.
    pub(crate) fn entry(&self, index: usize) -> (entry: &Entry)
        requires
            index < self@.len(),
        ensures
            entry@ == self@[index as int],
    {
        &self.entries[index]
    }

    /// The entry at `index`, if there is one.
    pub fn get(&self, index: usize) -> (entry: Option<&Entry>)
        ensures
            index < self@.len() ==> (entry matches Some(e) && e@ == self@[index as int]),
            index >= self@.len() ==> entry is None,
    {
        if index < self.entries.len() {
            Some(&self.entries[index])
        } else {
            None
        }
    }
}

/// The total size of what was walked: the sum of the lengths of all files in
/// the walk. Directories and links count for nothing by themselves.
pub fn get_total_size(walk: &Listing) -> (size: u64)
    ensures
        size == total_file_bytes(walk@),
{
    proof {
        use_type_invariant(walk);
    }
    let ghost all = walk@;
    let mut total: u64 = 0;
    let mut i: usize = 0;
    while i < walk.entries.len()
        invariant
            i <= walk.entries.len(),
            all == entry_views(walk.entries@),
            total_file_bytes(all) <= u64::MAX,
            total == total_file_bytes(all.subrange(0, i as int)),
        decreases walk.entries.len() - i,
    {
        proof {
            assert(all.subrange(0, i + 1).drop_last() =~= all.subrange(0, i as int));
            assert(all.subrange(0, i + 1).last() == walk.entries[i as int]@);
            lemma_range_within_total(all, 0, i + 1);
        }
        match walk.entries[i].kind {
            EntryKind::File => {
                total = total + walk.entries[i].size;
            },
            _ => {},
        }
        i += 1;
    }
    proof {
        assert(all.subrange(0, i as int) =~= all);
    }
    total
}

/// The sum of the lengths of the files under the entry at `index`, at any
/// depth; 0 where the walk has no such entry.
pub fn calculate_folder_size(walk: &Listing, index: usize) -> (size: u64)
    ensures
        index < walk@.len() ==> size == subtree_bytes(walk@, index as int),
        index >= walk@.len() ==> size == 0,
{
    if index >= walk.entries.len() {
        return 0;
    }
    proof {
        use_type_invariant(walk);
    }
    let ghost all = walk@;
    let depth: usize = walk.entries[index].depth;
    let first: usize = index + 1;
    let mut total: u64 = 0;
    let mut j: usize = first;
    while j < walk.entries.len() && walk.entries[j].depth > depth
        invariant
            first <= j <= walk.entries.len(),
            all == entry_views(walk.entries@),
            total_file_bytes(all) <= u64::MAX,
            run_end(all, depth, first as int) == run_end(all, depth, j as int),
            total == total_file_bytes(all.subrange(first as int, j as int)),
        decreases walk.entries.len() - j,
    {
        proof {
            assert(all.subrange(first as int, j + 1).drop_last() =~= all.subrange(
                first as int,
                j as int,
            ));
            assert(all.subrange(first as int, j + 1).last() == walk.entries[j as int]@);
            lemma_range_within_total(all, first as int, j + 1);
        }
        match walk.entries[j].kind {
            EntryKind::File => {
                total = total + walk.entries[j].size;
            },
            _ => {},
        }
        j += 1;
    }
    total
}

/// The size reported for the entry at `index`: its own length for a file,
/// the total of the files under it otherwise; 0 where the walk has no such
/// entry.
pub fn entry_size(walk: &Listing, index: usize) -> (size: u64)
    ensures
        index < walk@.len() ==> size == entry_bytes(walk@, index as int),
        index >= walk@.len() ==> size == 0,
{
    if index >= walk.entries.len() {
        return 0;
    }
    match walk.entries[index].kind {
        EntryKind::File => walk.entries[index].size,
        _ => calculate_folder_size(walk, index),
    }
}

} // verus!

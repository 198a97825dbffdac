//! Deleting a batch of paths: in what order the paths are taken, what is
//! done to each, and how the outcomes add up.

use vstd::prelude::*;
use crate::order::{
    arranged, descending_order, descending_order_of, is_descending_order,
    lemma_descending_order_exists, lemma_ranking_is_permutation, precedes,
};
use crate::text::{chars_of, join_text, text_views};
use crate::walk::{EntryKind, EntryView, Listing};

pub use crate::walk::get_total_size;

verus! {

/// How often `separator` occurs in `path`.
pub open spec fn separator_count(path: Seq<char>, separator: char) -> nat
    decreases path.len(),
{
    if path.len() == 0 {
        0
    } else {
        separator_count(path.drop_last(), separator) + if path.last() == separator {
            1nat
        } else {
            0nat
        }
    }
}

/// A path has at most as many separators as characters.
pub proof fn lemma_separator_count_bound(path: Seq<char>, separator: char)
    ensures
        separator_count(path, separator) <= path.len(),
    decreases path.len(),
{
    if path.len() > 0 {
        lemma_separator_count_bound(path.drop_last(), separator);
    }
}

/// The separators of two joined texts are those of the one and of the other.
pub proof fn lemma_separator_count_concat(a: Seq<char>, b: Seq<char>, separator: char)
    ensures
        separator_count(a + b, separator) == separator_count(a, separator) + separator_count(
            b,
            separator,
        ),
    decreases b.len(),
{
    if b.len() == 0 {
        assert(a + b =~= a);
    } else {
        lemma_separator_count_concat(a, b.drop_last(), separator);
        assert((a + b).drop_last() =~= a + b.drop_last());
        assert((a + b).last() == b.last());
    }
}

/// The depth of a path: the number of separators in it.
pub fn path_depth(path: &str, separator: char) -> (depth: usize)
    ensures
        depth == separator_count(path@, separator),
{
    let chars = chars_of(path);
    let mut depth: usize = 0;
    let mut i: usize = 0;
    while i < chars.len()
        invariant
            i <= chars.len(),
            depth <= i,
            depth == separator_count(chars@.take(i as int), separator),
        decreases chars.len() - i,
    {
        proof {
            assert(chars@.take(i + 1).drop_last() =~= chars@.take(i as int));
            assert(chars@.take(i + 1).last() == chars[i as int]);
        }
        if chars[i] == separator {
            depth += 1;
        }
        i += 1;
    }
    proof {
        assert(chars@.take(i as int) =~= chars@);
    }
    depth
}

/// `child` lies inside the folder `parent`: it is `parent`, a separator, and
/// more.
pub open spec fn is_under(child: Seq<char>, parent: Seq<char>, separator: char) -> bool {
    &&& child.len() > parent.len()
    &&& child.subrange(0, parent.len() as int) == parent
    &&& child[parent.len() as int] == separator
}

/// A path inside a folder is deeper than the folder.
pub proof fn lemma_nested_path_is_deeper(child: Seq<char>, parent: Seq<char>, separator: char)
    requires
        is_under(child, parent, separator),
    ensures
        separator_count(child, separator) > separator_count(parent, separator),
{
    let rest = child.subrange(parent.len() as int, child.len() as int);
    let tail = rest.subrange(1, rest.len() as int);
    let mark = rest.subrange(0, 1);
    assert(child =~= parent + rest);
    assert(rest =~= mark + tail);
    lemma_separator_count_concat(parent, rest, separator);
    lemma_separator_count_concat(mark, tail, separator);
    assert(mark.drop_last() =~= Seq::<char>::empty());
    assert(separator_count(mark.drop_last(), separator) == 0);
    assert(mark.last() == separator);
}

/// What a vector of strings can hold: texts short enough to index.
pub open spec fn are_paths(paths: Seq<Seq<char>>) -> bool {
    &&& paths.len() <= usize::MAX
    &&& forall|i: int| 0 <= i < paths.len() ==> (#[trigger] paths[i]).len() <= usize::MAX
}

/// The depth of each path, as a key to rank by.
pub open spec fn depth_keys(paths: Seq<Seq<char>>, separator: char) -> Seq<u64> {
    Seq::new(paths.len(), |i: int| separator_count(paths[i], separator) as u64)
}

/// The paths in the order in which they are deleted: deepest first, paths of
/// equal depth in the order given.
pub open spec fn in_deletion_order(paths: Seq<Seq<char>>, separator: char) -> Seq<Seq<char>> {
    arranged(paths, descending_order_of(depth_keys(paths, separator)))
}

/// In deletion order no path is shallower than a path after it.
pub proof fn lemma_deletion_order_is_deepest_first(paths: Seq<Seq<char>>, separator: char)
    requires
        are_paths(paths),
    ensures
        forall|a: int, b: int|
            0 <= a <= b < paths.len() ==> separator_count(
                #[trigger] in_deletion_order(paths, separator)[a],
                separator,
            ) >= separator_count(#[trigger] in_deletion_order(paths, separator)[b], separator),
{
    let keys = depth_keys(paths, separator);
    let ranking = descending_order_of(keys);
    let order = in_deletion_order(paths, separator);
    lemma_descending_order_exists(keys);
    assert forall|a: int, b: int| 0 <= a <= b < paths.len() implies separator_count(
        #[trigger] order[a],
        separator,
    ) >= separator_count(#[trigger] order[b], separator) by {
        let x = ranking[a];
        let y = ranking[b];
        assert(x < paths.len() && y < paths.len());
        lemma_separator_count_bound(paths[x as int], separator);
        lemma_separator_count_bound(paths[y as int], separator);
        assert(keys[x as int] == separator_count(paths[x as int], separator));
        assert(keys[y as int] == separator_count(paths[y as int], separator));
    }
}

/// The deletion order leaves no path out and adds none: it holds each path
/// as often as the batch does.
pub proof fn lemma_deletion_order_is_permutation(paths: Seq<Seq<char>>, separator: char)
    requires
        are_paths(paths),
    ensures
        in_deletion_order(paths, separator).to_multiset() == paths.to_multiset(),
{
    lemma_ranking_is_permutation(depth_keys(paths, separator), paths);
}

/// The path at index `first` of the batch is deleted before the path at
/// index `second`: its place in the deletion order is the earlier one.
pub open spec fn is_deleted_before(
    paths: Seq<Seq<char>>,
    separator: char,
    first: int,
    second: int,
) -> bool {
    let ranking = descending_order_of(depth_keys(paths, separator));
    exists|a: int, b: int|
        0 <= a < b < paths.len() && #[trigger] ranking[a] == first && #[trigger] ranking[b]
            == second
}

/// A path inside a folder of the same batch is deleted before the folder.
pub proof fn lemma_nested_path_comes_first(
    paths: Seq<Seq<char>>,
    separator: char,
    child: int,
    parent: int,
)
    requires
        are_paths(paths),
        0 <= child < paths.len(),
        0 <= parent < paths.len(),
        is_under(paths[child], paths[parent], separator),
    ensures
        is_deleted_before(paths, separator, child, parent),
{
    let keys = depth_keys(paths, separator);
    let ranking = descending_order_of(keys);
    lemma_descending_order_exists(keys);
    lemma_nested_path_is_deeper(paths[child], paths[parent], separator);
    lemma_separator_count_bound(paths[child], separator);
    lemma_separator_count_bound(paths[parent], separator);
    assert(keys[child] > keys[parent]);
    assert(ranking.contains(child as usize));
    let a: int = choose|a: int| 0 <= a < ranking.len() && ranking[a] == child as usize;
    assert(ranking.contains(parent as usize));
    let b: int = choose|b: int| 0 <= b < ranking.len() && ranking[b] == parent as usize;
    if b < a {
        assert(precedes(keys, ranking[b] as int, ranking[a] as int));
    }
    assert(0 <= a < b < paths.len() && ranking[a] == child && ranking[b] == parent);
}

/// The paths of a batch in the order in which to delete them: deepest first,
/// so that what lies inside a folder goes before the folder; paths of equal
/// depth keep the order given. Depth is the number of separators in the path
/// as written, so the order is meant for paths written alike below one root.
pub fn deletion_order(paths: &Vec<String>, separator: char) -> (order: Vec<String>)
    ensures
        text_views(order@) == in_deletion_order(text_views(paths@), separator),
{
    let ghost texts = text_views(paths@);
    let mut keys: Vec<u64> = Vec::new();
    let mut i: usize = 0;
    while i < paths.len()
        invariant
            i <= paths.len(),
            texts == text_views(paths@),
            keys.len() == i,
            forall|k: int|
                0 <= k < i ==> (#[trigger] keys[k]) == separator_count(texts[k], separator) as u64,
        decreases paths.len() - i,
    {
        let depth: usize = path_depth(paths[i].as_str(), separator);
        keys.push(depth as u64);
        i += 1;
    }
    assert(keys@ =~= depth_keys(texts, separator));
    let ranking = descending_order(&keys);
    let mut order: Vec<String> = Vec::new();
    let mut k: usize = 0;
    while k < ranking.len()
        invariant
            k <= ranking.len(),
            ranking.len() == paths.len(),
            texts == text_views(paths@),
            is_descending_order(keys@, ranking@),
            keys.len() == paths.len(),
            order.len() == k,
            forall|j: int| 0 <= j < k ==> (#[trigger] order[j])@ == texts[ranking@[j] as int],
        decreases ranking.len() - k,
    {
        let at: usize = ranking[k];
        order.push(paths[at].clone());
        k += 1;
    }
    assert(text_views(order@) =~= in_deletion_order(texts, separator));
    order
}

/// What a probe of a path found.
#[derive(Debug, Clone, Copy, PartialEq, Eq, Structural)]
pub enum PathKind {
    /// Nothing exists at the path.
    Missing,
    File,
    Folder,
}

/// The kind of a path, from what probing it gave: missing if nothing exists
/// there, else a file if it is one, else a folder.
pub open spec fn path_kind_of(exists: bool, is_file: bool) -> PathKind {
    if !exists {
        PathKind::Missing
    } else if is_file {
        PathKind::File
    } else {
        PathKind::Folder
    }
}

impl PathKind {
    /// The kind of a path of which the filesystem says whether it exists
    /// and whether it is a file.
    pub fn of(exists: bool, is_file: bool) -> (kind: PathKind)
        ensures
            kind == path_kind_of(exists, is_file),
    {
        if !exists {
            PathKind::Missing
        } else if is_file {
            PathKind::File
        } else {
            PathKind::Folder
        }
    }
}

/// Which removal a path calls for.
#[derive(Debug, Clone, Copy, PartialEq, Eq, Structural)]
pub enum Removal {
    /// Remove the one file.
    File,
    /// Remove the folder with all it holds.
    Folder,
}

/// What to do with a path that exists.
#[derive(Debug, Clone, Copy, PartialEq, Eq, Structural)]
pub struct RemovalPlan {
    /// Clear the read-only mark first: of the file itself, or of every file
    /// in the folder. Clearing is best effort; the removal is tried in any
    /// case and reports what went wrong.
    pub clear_read_only: bool,
    pub removal: Removal,
}

/// The plan for a path of the given kind: none for a missing path; for the
/// others the matching removal, preceded by clearing read-only marks where
/// such a mark blocks deletion.
pub open spec fn planned_removal(kind: PathKind, read_only_blocks_delete: bool) -> Option<
    RemovalPlan,
> {
    match kind {
        PathKind::Missing => None,
        PathKind::File => Some(
            RemovalPlan { clear_read_only: read_only_blocks_delete, removal: Removal::File },
        ),
        PathKind::Folder => Some(
            RemovalPlan { clear_read_only: read_only_blocks_delete, removal: Removal::Folder },
        ),
    }
}

/// Decides what to do with a path after probing it. `read_only_blocks_delete`
/// says whether the platform refuses to delete what is marked read-only.
pub fn plan_removal(kind: PathKind, read_only_blocks_delete: bool) -> (plan: Option<RemovalPlan>)
    ensures
        plan == planned_removal(kind, read_only_blocks_delete),
{
    match kind {
        PathKind::Missing => None,
        PathKind::File => Some(
            RemovalPlan { clear_read_only: read_only_blocks_delete, removal: Removal::File },
        ),
        PathKind::Folder => Some(
            RemovalPlan { clear_read_only: read_only_blocks_delete, removal: Removal::Folder },
        ),
    }
}

/// The paths of the files among the first `n` entries, in walk order.
pub open spec fn file_paths_upto(entries: Seq<EntryView>, n: int) -> Seq<Seq<char>>
    decreases n,
{
    if n <= 0 {
        Seq::empty()
    } else if entries[n - 1].kind == EntryKind::File {
        file_paths_upto(entries, n - 1).push(entries[n - 1].path)
    } else {
        file_paths_upto(entries, n - 1)
    }
}

/// The files whose read-only mark is cleared before a folder is removed:
/// every file in the walk of the folder, in walk order.
pub fn read_only_targets(walk: &Listing) -> (targets: Vec<String>)
    ensures
        text_views(targets@) == file_paths_upto(walk@, walk@.len() as int),
{
    let mut targets: Vec<String> = Vec::new();
    let mut i: usize = 0;
    while i < walk.len()
        invariant
            i <= walk@.len(),
            text_views(targets@) == file_paths_upto(walk@, i as int),
        decreases walk@.len() - i,
    {
        let ghost before = text_views(targets@);
        let e = walk.entry(i);
        match e.kind {
            EntryKind::File => {
                targets.push(e.path.clone());
                assert(text_views(targets@) =~= before.push(walk@[i as int].path));
            },
            _ => {},
        }
        i += 1;
    }
    targets
}

/// How the attempt to delete one path ended.
#[derive(Debug, Clone)]
pub enum Outcome {
    /// The path did not exist, and nothing was removed.
    Missing,
    Removed,
    /// The removal failed, for the reason given.
    Failed(String),
}

/// The mathematical value of an `Outcome`.
pub enum OutcomeView {
    Missing,
    Removed,
    Failed(Seq<char>),
}

impl View for Outcome {
    type V = OutcomeView;

    open spec fn view(&self) -> OutcomeView {
        match self {
            Outcome::Missing => OutcomeView::Missing,
            Outcome::Removed => OutcomeView::Removed,
            Outcome::Failed(reason) => OutcomeView::Failed(reason@),
        }
    }
}

/// One path of a batch with the outcome of deleting it.
#[derive(Debug, Clone)]
pub struct Attempt {
    pub path: String,
    pub outcome: Outcome,
}

/// The mathematical value of an `Attempt`.
pub struct AttemptView {
    pub path: Seq<char>,
    pub outcome: OutcomeView,
}

impl View for Attempt {
    type V = AttemptView;

    open spec fn view(&self) -> AttemptView {
        AttemptView { path: self.path@, outcome: self.outcome@ }
    }
}

/// The values of a sequence of attempts.
pub open spec fn attempt_views(attempts: Seq<Attempt>) -> Seq<AttemptView> {
    Seq::new(attempts.len(), |i: int| attempts[i]@)
}

/// A path that could not be deleted, and why.
#[derive(Debug, Clone)]
pub struct FailedItem {
    pub path: String,
    pub error: String,
}

/// The mathematical value of a `FailedItem`.
pub struct FailedItemView {
    pub path: Seq<char>,
    pub error: Seq<char>,
}

impl View for FailedItem {
    type V = FailedItemView;

    open spec fn view(&self) -> FailedItemView {
        FailedItemView { path: self.path@, error: self.error@ }
    }
}

/// The values of a sequence of failed items.
pub open spec fn item_views(items: Seq<FailedItem>) -> Seq<FailedItemView> {
    Seq::new(items.len(), |i: int| items[i]@)
}

/// The result of deleting a batch: how many paths were removed, how many
/// were not, and the latter with their reasons.
#[derive(Debug, Clone)]
pub struct DeleteResult {
    pub success: usize,
    pub failed: usize,
    pub failed_items: Vec<FailedItem>,
}

/// The mathematical value of a `DeleteResult`.
pub struct DeleteResultView {
    pub success: nat,
    pub failed: nat,
    pub failed_items: Seq<FailedItemView>,
}

impl View for DeleteResult {
    type V = DeleteResultView;

    open spec fn view(&self) -> DeleteResultView {
        DeleteResultView {
            success: self.success as nat,
            failed: self.failed as nat,
            failed_items: item_views(self.failed_items@),
        }
    }
}

/// The reason recorded for a path that does not exist.
pub open spec fn missing_path_text() -> Seq<char> {
    "경로가 존재하지 않습니다"@
}

/// The reason recorded for a removal that failed with `reason`.
pub open spec fn removal_failed_text(reason: Seq<char>) -> Seq<char> {
    "삭제 실패: "@ + reason
}

/// The failure that an attempt stands for, if it is one.
pub open spec fn failure_of(attempt: AttemptView) -> Option<FailedItemView> {
    match attempt.outcome {
        OutcomeView::Removed => None,
        OutcomeView::Missing => Some(
            FailedItemView { path: attempt.path, error: missing_path_text() },
        ),
        OutcomeView::Failed(reason) => Some(
            FailedItemView { path: attempt.path, error: removal_failed_text(reason) },
        ),
    }
}

/// The result of no attempts.
pub open spec fn empty_tally() -> DeleteResultView {
    DeleteResultView { success: 0, failed: 0, failed_items: Seq::empty() }
}

/// A result with one more attempt counted in.
pub open spec fn tally_with(tally: DeleteResultView, attempt: AttemptView) -> DeleteResultView {
    match failure_of(attempt) {
        None => DeleteResultView { success: tally.success + 1, ..tally },
        Some(item) => DeleteResultView {
            failed: tally.failed + 1,
            failed_items: tally.failed_items.push(item),
            ..tally
        },
    }
}

/// The result of a batch of attempts: each attempt counted once, as a
/// success if the path was removed, else as a failure with its reason, the
/// failures in the order of the attempts.
pub open spec fn tally(attempts: Seq<AttemptView>) -> DeleteResultView
    decreases attempts.len(),
{
    if attempts.len() == 0 {
        empty_tally()
    } else {
        tally_with(tally(attempts.drop_last()), attempts.last())
    }
}

/// Two results taken together.
pub open spec fn tally_sum(a: DeleteResultView, b: DeleteResultView) -> DeleteResultView {
    DeleteResultView {
        success: a.success + b.success,
        failed: a.failed + b.failed,
        failed_items: a.failed_items + b.failed_items,
    }
}

/// The result of two batches in a row is the two results taken together.
pub proof fn lemma_tally_of_concat(a: Seq<AttemptView>, b: Seq<AttemptView>)
    ensures
        tally(a + b) == tally_sum(tally(a), tally(b)),
    decreases b.len(),
{
    if b.len() == 0 {
        assert(a + b =~= a);
        assert(tally(a).failed_items + Seq::<FailedItemView>::empty() =~= tally(a).failed_items);
    } else {
        lemma_tally_of_concat(a, b.drop_last());
        assert((a + b).drop_last() =~= a + b.drop_last());
        assert((a + b).last() == b.last());
        let front = tally(b.drop_last());
        match failure_of(b.last()) {
            None => {},
            Some(item) => {
                assert(tally(a).failed_items + front.failed_items.push(item) =~= (tally(
                    a,
                ).failed_items + front.failed_items).push(item));
            },
        }
    }
}

/// No path is dropped: successes and failures add up to the number of
/// attempts, and each failure has its entry.
pub proof fn lemma_tally_accounts_for_every_path(attempts: Seq<AttemptView>)
    ensures
        tally(attempts).success + tally(attempts).failed == attempts.len(),
        tally(attempts).failed_items.len() == tally(attempts).failed,
    decreases attempts.len(),
{
    if attempts.len() > 0 {
        lemma_tally_accounts_for_every_path(attempts.drop_last());
    }
}

/// Taking one attempt out of a batch takes its share out of the result and
/// leaves the rest as it is.
pub proof fn lemma_tally_without(attempts: Seq<AttemptView>, i: int)
    requires
        0 <= i < attempts.len(),
    ensures
        match failure_of(attempts[i]) {
            None => {
                &&& tally(attempts).success == tally(attempts.remove(i)).success + 1
                &&& tally(attempts).failed == tally(attempts.remove(i)).failed
                &&& tally(attempts).failed_items.to_multiset() == tally(
                    attempts.remove(i),
                ).failed_items.to_multiset()
            },
            Some(item) => {
                &&& tally(attempts).success == tally(attempts.remove(i)).success
                &&& tally(attempts).failed == tally(attempts.remove(i)).failed + 1
                &&& tally(attempts).failed_items.to_multiset() == tally(
                    attempts.remove(i),
                ).failed_items.to_multiset().insert(item)
            },
        },
{
    broadcast use vstd::multiset::group_multiset_axioms;

    let head = attempts.subrange(0, i);
    let one = attempts.subrange(i, i + 1);
    let tail = attempts.subrange(i + 1, attempts.len() as int);
    lemma_tally_of_concat(head, one);
    lemma_tally_of_concat(head + one, tail);
    lemma_tally_of_concat(head, tail);
    assert(head + one + tail =~= attempts);
    assert(head + tail =~= attempts.remove(i));
    assert(one.drop_last() =~= Seq::<AttemptView>::empty());
    assert(tally(one.drop_last()) == empty_tally());
    assert(one.last() == attempts[i]);
    let front = tally(head).failed_items;
    let back = tally(tail).failed_items;
    vstd::seq_lib::lemma_multiset_commutative(front, back);
    match failure_of(attempts[i]) {
        None => {
            assert(tally(one).failed_items =~= Seq::<FailedItemView>::empty());
            assert(front + tally(one).failed_items =~= front);
        },
        Some(item) => {
            assert(tally(one).failed_items =~= seq![item]);
            assert(front + seq![item] =~= front.push(item));
            vstd::seq_lib::to_multiset_build(front, item);
            vstd::seq_lib::lemma_multiset_commutative(front.push(item), back);
            let ahead = front.to_multiset();
            let behind = back.to_multiset();
            assert(ahead.insert(item).add(behind) =~= ahead.add(behind).insert(item));
        },
    }
}

/// The result of a batch does not depend on the order of the attempts, but
/// for the order in which the failures are listed.
pub proof fn lemma_tally_is_order_independent(a: Seq<AttemptView>, b: Seq<AttemptView>)
    requires
        a.to_multiset() == b.to_multiset(),
    ensures
        tally(a).success == tally(b).success,
        tally(a).failed == tally(b).failed,
        tally(a).failed_items.to_multiset() == tally(b).failed_items.to_multiset(),
    decreases a.len(),
{
    vstd::seq_lib::to_multiset_len(a);
    vstd::seq_lib::to_multiset_len(b);
    if a.len() > 0 {
        let x = a.last();
        let last: int = a.len() - 1;
        assert(a[last] == x);
        vstd::seq_lib::to_multiset_contains(a, x);
        vstd::seq_lib::to_multiset_contains(b, x);
        let j: int = choose|j: int| 0 <= j < b.len() && b[j] == x;
        vstd::seq_lib::to_multiset_remove(a, last);
        vstd::seq_lib::to_multiset_remove(b, j);
        lemma_tally_is_order_independent(a.remove(last), b.remove(j));
        lemma_tally_without(a, last);
        lemma_tally_without(b, j);
    }
}

/// The paths of a batch of attempts.
pub open spec fn attempt_paths(attempts: Seq<AttemptView>) -> Seq<Seq<char>> {
    Seq::new(attempts.len(), |i: int| attempts[i].path)
}

/// The attempts in deletion order: deepest path first, attempts on paths of
/// equal depth in the order given.
pub open spec fn in_attempt_order(attempts: Seq<AttemptView>, separator: char) -> Seq<AttemptView> {
    arranged(attempts, descending_order_of(depth_keys(attempt_paths(attempts), separator)))
}

/// The result of deleting a batch: the attempts counted in deletion order.
pub open spec fn delete_outcome(attempts: Seq<AttemptView>, separator: char) -> DeleteResultView {
    tally(in_attempt_order(attempts, separator))
}

/// The attempts are counted in the order in which `in_deletion_order` lists
/// their paths.
pub proof fn lemma_attempts_follow_deletion_order(attempts: Seq<AttemptView>, separator: char)
    requires
        are_paths(attempt_paths(attempts)),
    ensures
        attempt_paths(in_attempt_order(attempts, separator)) == in_deletion_order(
            attempt_paths(attempts),
            separator,
        ),
{
    lemma_descending_order_exists(depth_keys(attempt_paths(attempts), separator));
    assert(attempt_paths(in_attempt_order(attempts, separator)) =~= in_deletion_order(
        attempt_paths(attempts),
        separator,
    ));
}

/// No path is dropped and none is counted twice: successes and failures add
/// up to the number of attempts, each failure has its entry, and the counts
/// and the failures are those of the attempts whatever their order.
pub proof fn lemma_delete_counts_every_attempt(attempts: Seq<AttemptView>, separator: char)
    requires
        are_paths(attempt_paths(attempts)),
    ensures
        delete_outcome(attempts, separator).success + delete_outcome(attempts, separator).failed
            == attempts.len(),
        delete_outcome(attempts, separator).failed_items.len() == delete_outcome(
            attempts,
            separator,
        ).failed,
        delete_outcome(attempts, separator).success == tally(attempts).success,
        delete_outcome(attempts, separator).failed == tally(attempts).failed,
        delete_outcome(attempts, separator).failed_items.to_multiset() == tally(
            attempts,
        ).failed_items.to_multiset(),
{
    lemma_ranking_is_permutation(depth_keys(attempt_paths(attempts), separator), attempts);
    lemma_tally_is_order_independent(in_attempt_order(attempts, separator), attempts);
    lemma_tally_accounts_for_every_path(attempts);
    vstd::seq_lib::to_multiset_len(delete_outcome(attempts, separator).failed_items);
    vstd::seq_lib::to_multiset_len(tally(attempts).failed_items);
}

/// A path that does not exist is a failure of its own and of nothing else:
/// it is listed under its own path as missing, and the counts for the rest
/// of the batch are what they would be without that path.
pub proof fn lemma_missing_path_fails_alone(attempts: Seq<AttemptView>, separator: char, i: int)
    requires
        are_paths(attempt_paths(attempts)),
        0 <= i < attempts.len(),
        attempts[i].outcome is Missing,
    ensures
        delete_outcome(attempts, separator).failed_items.contains(
            FailedItemView { path: attempts[i].path, error: missing_path_text() },
        ),
        delete_outcome(attempts, separator).success == delete_outcome(
            attempts.remove(i),
            separator,
        ).success,
        delete_outcome(attempts, separator).failed == delete_outcome(
            attempts.remove(i),
            separator,
        ).failed + 1,
{
    broadcast use vstd::multiset::group_multiset_axioms;

    let item = FailedItemView { path: attempts[i].path, error: missing_path_text() };
    let rest = attempts.remove(i);
    assert(are_paths(attempt_paths(rest))) by {
        assert forall|k: int| 0 <= k < rest.len() implies (#[trigger] attempt_paths(rest)[k]).len()
            <= usize::MAX by {
            if k < i {
                assert(attempt_paths(rest)[k] == attempt_paths(attempts)[k]);
            } else {
                assert(attempt_paths(rest)[k] == attempt_paths(attempts)[k + 1]);
            }
        }
    }
    lemma_delete_counts_every_attempt(attempts, separator);
    lemma_delete_counts_every_attempt(rest, separator);
    lemma_tally_without(attempts, i);
    let listed = delete_outcome(attempts, separator).failed_items;
    assert(listed.to_multiset().count(item) > 0);
    vstd::seq_lib::to_multiset_contains(listed, item);
}

fn missing_path_message() -> (message: String)
    ensures
        message@ == missing_path_text(),
{
    String::from_str("경로가 존재하지 않습니다")
}

fn removal_failed_message(reason: &str) -> (message: String)
    ensures
        message@ == removal_failed_text(reason@),
{
    join_text("삭제 실패: ", reason)
}

/// Gives the result of deleting a batch. `attempts` holds each path of the
/// batch with the outcome of deleting it. The attempts are counted in
/// deletion order, deepest path first (the order in which `deletion_order`
/// lists the paths, and in which the caller is to make the attempts). The
/// call never fails as a whole: every path is counted, as removed or as
/// failed with its reason, and one path's failure changes nothing for the
/// others.
pub fn delete_paths(attempts: Vec<Attempt>, separator: char) -> (result: Result<
    DeleteResult,
    String,
>)
    ensures
        result matches Ok(r) && r@ == delete_outcome(attempt_views(attempts@), separator),
{
    let ghost all = attempt_views(attempts@);
    let mut keys: Vec<u64> = Vec::new();
    let mut n: usize = 0;
    while n < attempts.len()
        invariant
            n <= attempts.len(),
            all == attempt_views(attempts@),
            keys.len() == n,
            forall|k: int|
                0 <= k < n ==> (#[trigger] keys[k]) == separator_count(
                    all[k].path,
                    separator,
                ) as u64,
        decreases attempts.len() - n,
    {
        let depth: usize = path_depth(attempts[n].path.as_str(), separator);
        keys.push(depth as u64);
        n += 1;
    }
    assert(keys@ =~= depth_keys(attempt_paths(all), separator));
    let ranking = descending_order(&keys);
    let ghost taken = arranged(all, ranking@);
    let mut success: usize = 0;
    let mut failed: usize = 0;
    let mut failed_items: Vec<FailedItem> = Vec::new();
    let mut i: usize = 0;
    while i < ranking.len()
        invariant
            i <= ranking.len(),
            ranking.len() == attempts.len(),
            all == attempt_views(attempts@),
            taken == arranged(all, ranking@),
            is_descending_order(keys@, ranking@),
            keys.len() == attempts.len(),
            success + failed == i,
            success == tally(taken.subrange(0, i as int)).success,
            failed == tally(taken.subrange(0, i as int)).failed,
            item_views(failed_items@) =~= tally(taken.subrange(0, i as int)).failed_items,
        decreases ranking.len() - i,
    {
        let ghost before = item_views(failed_items@);
        let attempt = &attempts[ranking[i]];
        proof {
            assert(taken.subrange(0, i + 1).drop_last() =~= taken.subrange(0, i as int));
            assert(taken.subrange(0, i + 1).last() == attempt@);
        }
        match &attempt.outcome {
            Outcome::Removed => {
                success += 1;
            },
            Outcome::Missing => {
                failed += 1;
                failed_items.push(
                    FailedItem { path: attempt.path.clone(), error: missing_path_message() },
                );
                assert(item_views(failed_items@) =~= before.push(failure_of(attempt@).unwrap()));
            },
            Outcome::Failed(reason) => {
                failed += 1;
                failed_items.push(
                    FailedItem {
                        path: attempt.path.clone(),
                        error: removal_failed_message(reason.as_str()),
                    },
                );
                assert(item_views(failed_items@) =~= before.push(failure_of(attempt@).unwrap()));
            },
        }
        i += 1;
    }
    proof {
        assert(taken.subrange(0, i as int) =~= taken);
    }
    Ok(DeleteResult { success, failed, failed_items })
}

/// The message of `move_to_trash`.
pub open spec fn trash_disabled_text() -> Seq<char> {
    "휴지통 기능은 현재 비활성화되어 있습니다"@
}

/// Moving to the trash is not offered: the call fails for every batch.
pub fn move_to_trash(_paths: Vec<String>) -> (result: Result<DeleteResult, String>)
    ensures
        result matches Err(message) && message@ == trash_disabled_text(),
{
    Err(String::from_str("휴지통 기능은 현재 비활성화되어 있습니다"))
}

/// What copying does with one entry of the source walk.
#[derive(Debug, Clone, Copy, PartialEq, Eq, Structural)]
pub enum CopyAction {
    /// Create the folder at the matching place under the target.
    CreateFolder,
    /// Create the folder that will hold the file, then copy the file.
    CopyFile,
}

/// The action for an entry: a directory is created, anything else is copied
/// as a file.
pub open spec fn copy_action_of(entry: EntryView) -> CopyAction {
    if entry.kind == EntryKind::Directory {
        CopyAction::CreateFolder
    } else {
        CopyAction::CopyFile
    }
}

/// The actions for a whole walk, entry by entry.
pub open spec fn copy_actions(entries: Seq<EntryView>) -> Seq<CopyAction> {
    Seq::new(entries.len(), |i: int| copy_action_of(entries[i]))
}

/// The message for a source that does not exist.
pub open spec fn source_missing_text() -> Seq<char> {
    "소스 폴더가 존재하지 않습니다"@
}

/// The message for a source that is not a folder.
pub open spec fn source_not_folder_text() -> Seq<char> {
    "소스가 폴더가 아닙니다"@
}

/// Plans the copy of a folder: checks the source, and says for each entry of
/// its walk, in walk order, what to do with it. The copy fails at once when
/// the source is missing or is no folder. The caller carries the actions out
/// in order and stops at the first that fails (see `copy_failure_message`).
pub fn copy_folder(source: PathKind, walk: &Listing) -> (plan: Result<Vec<CopyAction>, String>)
    ensures
        source is Missing ==> (plan matches Err(message) && message@ == source_missing_text()),
        source is File ==> (plan matches Err(message) && message@ == source_not_folder_text()),
        source is Folder ==> (plan matches Ok(actions) && actions@ == copy_actions(walk@)),
{
    match source {
        PathKind::Missing => Err(String::from_str("소스 폴더가 존재하지 않습니다")),
        PathKind::File => Err(String::from_str("소스가 폴더가 아닙니다")),
        PathKind::Folder => {
            let mut actions: Vec<CopyAction> = Vec::new();
            let mut i: usize = 0;
            while i < walk.len()
                invariant
                    i <= walk@.len(),
                    actions.len() == i,
                    forall|k: int|
                        0 <= k < i ==> (#[trigger] actions[k]) == copy_action_of(walk@[k]),
                decreases walk@.len() - i,
            {
                let action = match walk.entry(i).kind {
                    EntryKind::Directory => CopyAction::CreateFolder,
                    _ => CopyAction::CopyFile,
                };
                actions.push(action);
                i += 1;
            }
            assert(actions@ =~= copy_actions(walk@));
            Ok(actions)
        },
    }
}

/// The step of a copy that failed, with what the filesystem said.
#[derive(Debug, Clone)]
pub enum CopyFailure {
    /// The destination folder could not be created.
    Destination(String),
    /// The source has no folder name to copy under.
    FolderName,
    /// The folder for the copy inside the destination could not be created.
    Target(String),
    /// An entry's path could not be taken relative to the source.
    RelativePath(String),
    /// A folder of the copy could not be created.
    Folder { path: String, reason: String },
    /// The folder that should hold a copied file could not be created.
    ParentFolder(String),
    /// A file could not be copied.
    File { path: String, reason: String },
}

/// The mathematical value of a `CopyFailure`.
pub enum CopyFailureView {
    Destination(Seq<char>),
    FolderName,
    Target(Seq<char>),
    RelativePath(Seq<char>),
    Folder { path: Seq<char>, reason: Seq<char> },
    ParentFolder(Seq<char>),
    File { path: Seq<char>, reason: Seq<char> },
}

impl View for CopyFailure {
    type V = CopyFailureView;

    open spec fn view(&self) -> CopyFailureView {
        match self {
            CopyFailure::Destination(reason) => CopyFailureView::Destination(reason@),
            CopyFailure::FolderName => CopyFailureView::FolderName,
            CopyFailure::Target(reason) => CopyFailureView::Target(reason@),
            CopyFailure::RelativePath(reason) => CopyFailureView::RelativePath(reason@),
            CopyFailure::Folder { path, reason } => CopyFailureView::Folder {
                path: path@,
                reason: reason@,
            },
            CopyFailure::ParentFolder(reason) => CopyFailureView::ParentFolder(reason@),
            CopyFailure::File { path, reason } => CopyFailureView::File {
                path: path@,
                reason: reason@,
            },
        }
    }
}

/// The message of a failed copy.
pub open spec fn copy_failure_text(failure: CopyFailureView) -> Seq<char> {
    match failure {
        CopyFailureView::Destination(reason) => "대상 폴더 생성 실패: "@ + reason,
        CopyFailureView::FolderName => "폴더 이름을 가져올 수 없습니다"@,
        CopyFailureView::Target(reason) => "타겟 폴더 생성 실패: "@ + reason,
        CopyFailureView::RelativePath(reason) => "경로 처리 실패: "@ + reason,
        CopyFailureView::Folder { path, reason } => "폴더 생성 실패 "@ + path + ": "@ + reason,
        CopyFailureView::ParentFolder(reason) => "부모 폴더 생성 실패: "@ + reason,
        CopyFailureView::File { path, reason } => "파일 복사 실패 "@ + path + ": "@ + reason,
    }
}

/// The message with which a copy ends when one of its steps has failed.
pub fn copy_failure_message(failure: &CopyFailure) -> (message: String)
    ensures
        message@ == copy_failure_text(failure@),
{
    match failure {
        CopyFailure::Destination(reason) => join_text("대상 폴더 생성 실패: ", reason.as_str()),
        CopyFailure::FolderName => String::from_str("폴더 이름을 가져올 수 없습니다"),
        CopyFailure::Target(reason) => join_text("타겟 폴더 생성 실패: ", reason.as_str()),
        CopyFailure::RelativePath(reason) => join_text("경로 처리 실패: ", reason.as_str()),
        CopyFailure::Folder { path, reason } => {
            let mut message = join_text("폴더 생성 실패 ", path.as_str());
            message.append(": ");
            message.append(reason.as_str());
            message
        },
        CopyFailure::ParentFolder(reason) => join_text("부모 폴더 생성 실패: ", reason.as_str()),
        CopyFailure::File { path, reason } => {
            let mut message = join_text("파일 복사 실패 ", path.as_str());
            message.append(": ");
            message.append(reason.as_str());
            message
        },
    }
}

} // verus!

//! The scan report: which entries of a walk are listed, with what size, and
//! in what order.

use vstd::prelude::*;
use crate::order::{
    arranged, descending_order, descending_order_of, is_descending_order,
    lemma_descending_order_exists, lemma_ranking_is_permutation,
};
use crate::text::{copy_optional_text, join_text, text_of, text_views};
use crate::walk::{
    calculate_folder_size, entry_bytes, entry_size, is_listing, lemma_entry_bytes_fit,
    subtree_bytes, EntryKind, EntryView, Listing,
};

verus! {

/// One line of a scan report: an entry of the walk with its computed size.
#[derive(Debug, Clone)]
pub struct FolderInfo {
    pub path: String,
    pub name: String,
    /// Bytes of the file itself, or of all files under the directory.
    pub size: u64,
    pub is_file: bool,
    /// Depth of the entry below the scanned root.
    pub level: usize,
    pub parent: Option<String>,
}

/// The mathematical value of a `FolderInfo`.
pub struct FolderInfoView {
    pub path: Seq<char>,
    pub name: Seq<char>,
    pub size: u64,
    pub is_file: bool,
    pub level: usize,
    pub parent: Option<Seq<char>>,
}

impl View for FolderInfo {
    type V = FolderInfoView;

    open spec fn view(&self) -> FolderInfoView {
        FolderInfoView {
            path: self.path@,
            name: self.name@,
            size: self.size,
            is_file: self.is_file,
            level: self.level,
            parent: text_of(self.parent),
        }
    }
}

/// A snapshot of how far a scan has come.
#[derive(Debug, Clone)]
pub struct ScanProgress {
    pub current_path: String,
    pub scanned_count: usize,
    pub total_size: u64,
}

/// The mathematical value of a `ScanProgress`.
pub struct ScanProgressView {
    pub current_path: Seq<char>,
    pub scanned_count: usize,
    pub total_size: u64,
}

impl View for ScanProgress {
    type V = ScanProgressView;

    open spec fn view(&self) -> ScanProgressView {
        ScanProgressView {
            current_path: self.current_path@,
            scanned_count: self.scanned_count,
            total_size: self.total_size,
        }
    }
}

/// The values of a sequence of report lines.
pub open spec fn info_views(infos: Seq<FolderInfo>) -> Seq<FolderInfoView> {
    Seq::new(infos.len(), |i: int| infos[i]@)
}

/// The depth value that stands for "no bound".
pub const UNBOUNDED_DEPTH: usize = 999;

/// The deepest level a scan with the given `depth` argument reaches.
pub open spec fn depth_limit(depth: usize) -> usize {
    if depth == UNBOUNDED_DEPTH {
        usize::MAX
    } else {
        depth
    }
}

/// An entry is a candidate when it lies within the depth bound below the
/// root and is a directory, or a file while files are asked for.
pub open spec fn is_candidate(e: EntryView, depth: usize, show_files: bool) -> bool {
    &&& 1 <= e.depth <= depth_limit(depth)
    &&& (e.kind == EntryKind::Directory || (show_files && e.kind == EntryKind::File))
}

/// Entry `i` is listed in the report: it is a candidate whose size reaches
/// the threshold.
pub open spec fn is_reported(
    entries: Seq<EntryView>,
    i: int,
    depth: usize,
    show_files: bool,
    min_size: u64,
) -> bool {
    is_candidate(entries[i], depth, show_files) && entry_bytes(entries, i) >= min_size
}

/// The candidates among the first `n` entries, in walk order.
pub open spec fn candidates_upto(
    entries: Seq<EntryView>,
    n: int,
    depth: usize,
    show_files: bool,
) -> Seq<usize>
    decreases n,
{
    if n <= 0 {
        Seq::empty()
    } else if is_candidate(entries[n - 1], depth, show_files) {
        candidates_upto(entries, n - 1, depth, show_files).push((n - 1) as usize)
    } else {
        candidates_upto(entries, n - 1, depth, show_files)
    }
}

/// Those of `indices` whose entry reaches the threshold, in the same order.
pub open spec fn reaching(entries: Seq<EntryView>, indices: Seq<usize>, min_size: u64) -> Seq<
    usize,
>
    decreases indices.len(),
{
    if indices.len() == 0 {
        Seq::empty()
    } else if entry_bytes(entries, indices.last() as int) >= min_size {
        reaching(entries, indices.drop_last(), min_size).push(indices.last())
    } else {
        reaching(entries, indices.drop_last(), min_size)
    }
}

/// The indices of the entries listed among the first `n`, in walk order.
pub open spec fn reported_upto(
    entries: Seq<EntryView>,
    n: int,
    depth: usize,
    show_files: bool,
    min_size: u64,
) -> Seq<usize>
    decreases n,
{
    if n <= 0 {
        Seq::empty()
    } else if is_reported(entries, n - 1, depth, show_files, min_size) {
        reported_upto(entries, n - 1, depth, show_files, min_size).push((n - 1) as usize)
    } else {
        reported_upto(entries, n - 1, depth, show_files, min_size)
    }
}

/// The indices of all entries listed in the report, in walk order.
pub open spec fn reported(
    entries: Seq<EntryView>,
    depth: usize,
    show_files: bool,
    min_size: u64,
) -> Seq<usize> {
    reported_upto(entries, entries.len() as int, depth, show_files, min_size)
}

/// The report line of entry `i`.
pub open spec fn info_of(entries: Seq<EntryView>, i: int) -> FolderInfoView {
    FolderInfoView {
        path: entries[i].path,
        name: entries[i].name,
        size: entry_bytes(entries, i) as u64,
        is_file: entries[i].kind == EntryKind::File,
        level: entries[i].depth,
        parent: entries[i].parent,
    }
}

/// The sizes of the entries at `indices`.
pub open spec fn sizes_at(entries: Seq<EntryView>, indices: Seq<usize>) -> Seq<u64> {
    Seq::new(indices.len(), |k: int| entry_bytes(entries, indices[k] as int) as u64)
}

/// The report lines of the entries at `indices`, in the same order.
pub open spec fn lines_at(entries: Seq<EntryView>, indices: Seq<usize>) -> Seq<FolderInfoView> {
    Seq::new(indices.len(), |k: int| info_of(entries, indices[k] as int))
}

/// The report of a scan: the lines of the listed entries, largest first,
/// entries of equal size in walk order.
pub open spec fn scan_report(
    entries: Seq<EntryView>,
    depth: usize,
    show_files: bool,
    min_size: u64,
) -> Seq<FolderInfoView> {
    let picks = reported(entries, depth, show_files, min_size);
    arranged(lines_at(entries, picks), descending_order_of(sizes_at(entries, picks)))
}

/// Entry `i` is an empty folder: a directory within the depth bound with no
/// file bytes under it.
pub open spec fn is_empty_folder(entries: Seq<EntryView>, i: int, depth: usize) -> bool {
    is_candidate(entries[i], depth, false) && subtree_bytes(entries, i) == 0
}

/// The paths of the empty folders among the first `n` entries, in walk order.
pub open spec fn empty_folders_upto(entries: Seq<EntryView>, n: int, depth: usize) -> Seq<
    Seq<char>,
>
    decreases n,
{
    if n <= 0 {
        Seq::empty()
    } else if is_empty_folder(entries, n - 1, depth) {
        empty_folders_upto(entries, n - 1, depth).push(entries[n - 1].path)
    } else {
        empty_folders_upto(entries, n - 1, depth)
    }
}

/// The message of a scan whose root does not exist.
pub open spec fn root_missing_text(root_path: Seq<char>) -> Seq<char> {
    "경로가 존재하지 않습니다: "@ + root_path
}

/// Keeping the candidates that reach the threshold gives the listed entries.
pub proof fn lemma_reaching_candidates(
    entries: Seq<EntryView>,
    n: int,
    depth: usize,
    show_files: bool,
    min_size: u64,
)
    requires
        0 <= n <= entries.len(),
        entries.len() <= usize::MAX,
    ensures
        reaching(entries, candidates_upto(entries, n, depth, show_files), min_size)
            == reported_upto(entries, n, depth, show_files, min_size),
    decreases n,
{
    if n > 0 {
        lemma_reaching_candidates(entries, n - 1, depth, show_files, min_size);
        let before = candidates_upto(entries, n - 1, depth, show_files);
        if is_candidate(entries[n - 1], depth, show_files) {
            assert(before.push((n - 1) as usize).drop_last() =~= before);
        }
    }
}

/// The listed indices are exactly the indices of the entries that are
/// candidates and reach the threshold, each once and in walk order.
pub proof fn lemma_reported_exact(
    entries: Seq<EntryView>,
    n: int,
    depth: usize,
    show_files: bool,
    min_size: u64,
)
    requires
        0 <= n <= entries.len(),
        entries.len() <= usize::MAX,
    ensures
        forall|k: int|
            0 <= k < reported_upto(entries, n, depth, show_files, min_size).len() ==> {
                let i = #[trigger] reported_upto(entries, n, depth, show_files, min_size)[k];
                i < n && is_reported(entries, i as int, depth, show_files, min_size)
            },
        forall|a: int, b: int|
            0 <= a < b < reported_upto(entries, n, depth, show_files, min_size).len()
                ==> reported_upto(entries, n, depth, show_files, min_size)[a] < reported_upto(
                entries,
                n,
                depth,
                show_files,
                min_size,
            )[b],
        forall|i: usize|
            i < n && is_reported(entries, i as int, depth, show_files, min_size)
                ==> #[trigger] reported_upto(entries, n, depth, show_files, min_size).contains(i),
    decreases n,
{
    if n > 0 {
        lemma_reported_exact(entries, n - 1, depth, show_files, min_size);
        let before = reported_upto(entries, n - 1, depth, show_files, min_size);
        let now = reported_upto(entries, n, depth, show_files, min_size);
        assert forall|i: usize|
            i < n && is_reported(
                entries,
                i as int,
                depth,
                show_files,
                min_size,
            ) implies #[trigger] now.contains(i) by {
            if i == n - 1 {
                assert(now[now.len() - 1] == i);
            } else {
                assert(before.contains(i));
                let k: int = choose|k: int| 0 <= k < before.len() && before[k] == i;
                assert(now[k] == i);
            }
        }
    }
}

/// How a report is laid out: line `k` is the line of the listed entry that
/// the ranking of the sizes puts at place `k`.
proof fn lemma_report_layout(
    entries: Seq<EntryView>,
    depth: usize,
    show_files: bool,
    min_size: u64,
)
    requires
        is_listing(entries),
    ensures
        ({
            let picks = reported(entries, depth, show_files, min_size);
            let ranking = descending_order_of(sizes_at(entries, picks));
            let report = scan_report(entries, depth, show_files, min_size);
            &&& is_descending_order(sizes_at(entries, picks), ranking)
            &&& report.len() == picks.len()
            &&& picks.len() <= entries.len()
            &&& forall|k: int|
                0 <= k < picks.len() ==> {
                    &&& (#[trigger] picks[k]) < entries.len()
                    &&& is_reported(entries, picks[k] as int, depth, show_files, min_size)
                    &&& sizes_at(entries, picks)[k] == entry_bytes(entries, picks[k] as int)
                }
            &&& forall|k: int|
                0 <= k < report.len() ==> #[trigger] report[k] == info_of(
                    entries,
                    picks[ranking[k] as int] as int,
                )
            &&& forall|i: usize|
                i < entries.len() && is_reported(entries, i as int, depth, show_files, min_size)
                    ==> #[trigger] picks.contains(i)
        }),
{
    let picks = reported(entries, depth, show_files, min_size);
    lemma_reported_exact(entries, entries.len() as int, depth, show_files, min_size);
    assert(picks.len() <= entries.len()) by {
        lemma_reported_length(entries, entries.len() as int, depth, show_files, min_size);
    }
    lemma_descending_order_exists(sizes_at(entries, picks));
    assert forall|k: int| 0 <= k < picks.len() implies sizes_at(entries, picks)[k] == entry_bytes(
        entries,
        (#[trigger] picks[k]) as int,
    ) by {
        lemma_entry_bytes_fit(entries, picks[k] as int);
    }
}

proof fn lemma_reported_length(
    entries: Seq<EntryView>,
    n: int,
    depth: usize,
    show_files: bool,
    min_size: u64,
)
    requires
        0 <= n,
    ensures
        reported_upto(entries, n, depth, show_files, min_size).len() <= n,
    decreases n,
{
    if n > 0 {
        lemma_reported_length(entries, n - 1, depth, show_files, min_size);
    }
}

/// A report holds the lines of the listed entries and nothing else, each
/// line as often as the walk gives rise to it: ranking only moves lines.
pub proof fn lemma_report_is_permutation(
    entries: Seq<EntryView>,
    depth: usize,
    show_files: bool,
    min_size: u64,
)
    requires
        is_listing(entries),
    ensures
        scan_report(entries, depth, show_files, min_size).to_multiset() == lines_at(
            entries,
            reported(entries, depth, show_files, min_size),
        ).to_multiset(),
{
    let picks = reported(entries, depth, show_files, min_size);
    lemma_reported_length(entries, entries.len() as int, depth, show_files, min_size);
    lemma_ranking_is_permutation(sizes_at(entries, picks), lines_at(entries, picks));
}

/// A report is sorted by size: no line is smaller than a line after it.
pub proof fn lemma_report_is_sorted(
    entries: Seq<EntryView>,
    depth: usize,
    show_files: bool,
    min_size: u64,
)
    requires
        is_listing(entries),
    ensures
        forall|a: int, b: int|
            0 <= a <= b < scan_report(entries, depth, show_files, min_size).len() ==> (
            #[trigger] scan_report(entries, depth, show_files, min_size)[a]).size >= (
            #[trigger] scan_report(entries, depth, show_files, min_size)[b]).size,
{
    lemma_report_layout(entries, depth, show_files, min_size);
    let picks = reported(entries, depth, show_files, min_size);
    let sizes = sizes_at(entries, picks);
    let ranking = descending_order_of(sizes);
    let report = scan_report(entries, depth, show_files, min_size);
    assert forall|a: int, b: int| 0 <= a <= b < report.len() implies (#[trigger] report[a]).size
        >= (#[trigger] report[b]).size by {
        let x = ranking[a];
        let y = ranking[b];
        assert(x < picks.len() && y < picks.len());
        assert(report[a].size == sizes[x as int]) by {
            assert(picks[x as int] < entries.len());
        }
        assert(report[b].size == sizes[y as int]) by {
            assert(picks[y as int] < entries.len());
        }
    }
}

/// `line` is the report line of some candidate of the walk.
pub open spec fn is_candidate_line(
    entries: Seq<EntryView>,
    depth: usize,
    show_files: bool,
    line: FolderInfoView,
) -> bool {
    exists|i: int|
        0 <= i < entries.len() && is_candidate(entries[i], depth, show_files) && #[trigger] info_of(
            entries,
            i,
        ) == line
}

/// A report holds the entries that reach the threshold and no others: no
/// line is below `min_size`, every line is that of a candidate of the walk,
/// and every candidate whose size is at least `min_size` has its line.
pub proof fn lemma_report_keeps_threshold(
    entries: Seq<EntryView>,
    depth: usize,
    show_files: bool,
    min_size: u64,
)
    requires
        is_listing(entries),
    ensures
        forall|k: int|
            0 <= k < scan_report(entries, depth, show_files, min_size).len() ==> (
            #[trigger] scan_report(entries, depth, show_files, min_size)[k]).size >= min_size,
        forall|k: int|
            0 <= k < scan_report(entries, depth, show_files, min_size).len() ==> is_candidate_line(
                entries,
                depth,
                show_files,
                #[trigger] scan_report(entries, depth, show_files, min_size)[k],
            ),
        forall|i: int|
            0 <= i < entries.len() && is_candidate(entries[i], depth, show_files) && entry_bytes(
                entries,
                i,
            ) >= min_size ==> scan_report(entries, depth, show_files, min_size).contains(
                #[trigger] info_of(entries, i),
            ),
{
    lemma_report_layout(entries, depth, show_files, min_size);
    let picks = reported(entries, depth, show_files, min_size);
    let sizes = sizes_at(entries, picks);
    let ranking = descending_order_of(sizes);
    let report = scan_report(entries, depth, show_files, min_size);
    assert forall|k: int| 0 <= k < report.len() implies (#[trigger] report[k]).size >= min_size
        && is_candidate_line(entries, depth, show_files, report[k]) by {
        let x = ranking[k];
        assert(x < picks.len());
        let i = picks[x as int];
        assert(i < entries.len());
        assert(sizes[x as int] == entry_bytes(entries, i as int));
        assert(info_of(entries, i as int) == report[k]);
    }
    assert forall|i: int|
        0 <= i < entries.len() && is_candidate(entries[i], depth, show_files) && entry_bytes(
            entries,
            i,
        ) >= min_size implies report.contains(#[trigger] info_of(entries, i)) by {
        assert(picks.contains(i as usize));
        let p: int = choose|p: int| 0 <= p < picks.len() && picks[p] == i as usize;
        assert(ranking.contains(p as usize));
        let k: int = choose|k: int| 0 <= k < ranking.len() && ranking[k] == p as usize;
        assert(ranking[k] as int == p);
        assert(picks[p] as int == i);
        assert(report[k] == info_of(entries, picks[ranking[k] as int] as int));
    }
}

/// With no threshold and files asked for, nothing is left out: every
/// directory and every file of the walk within the depth bound has its line.
pub proof fn lemma_report_is_complete(entries: Seq<EntryView>, depth: usize)
    requires
        is_listing(entries),
    ensures
        forall|i: int|
            0 <= i < entries.len() && 1 <= entries[i].depth <= depth_limit(depth) && (
            entries[i].kind == EntryKind::Directory || entries[i].kind == EntryKind::File)
                ==> scan_report(entries, depth, true, 0).contains(#[trigger] info_of(entries, i)),
{
    lemma_report_keeps_threshold(entries, depth, true, 0);
}

fn limit_of(depth: usize) -> (limit: usize)
    ensures
        limit == depth_limit(depth),
{
    if depth == UNBOUNDED_DEPTH {
        usize::MAX
    } else {
        depth
    }
}

fn candidate_at(walk: &Listing, index: usize, depth: usize, show_files: bool) -> (yes: bool)
    requires
        index < walk@.len(),
    ensures
        yes == is_candidate(walk@[index as int], depth, show_files),
{
    let limit: usize = limit_of(depth);
    let e = walk.entry(index);
    let wanted = match e.kind {
        EntryKind::Directory => true,
        EntryKind::File => show_files,
        EntryKind::Other => false,
    };
    1 <= e.depth && e.depth <= limit && wanted
}

fn report_line(walk: &Listing, index: usize, size: u64) -> (line: FolderInfo)
    requires
        index < walk@.len(),
        size == entry_bytes(walk@, index as int),
    ensures
        line@ == info_of(walk@, index as int),
{
    let e = walk.entry(index);
    let is_file = match e.kind {
        EntryKind::File => true,
        _ => false,
    };
    FolderInfo {
        path: e.path.clone(),
        name: e.name.clone(),
        size,
        is_file,
        level: e.depth,
        parent: copy_optional_text(&e.parent),
    }
}

/// The lines of the entries at `picks`, largest first.
fn ranked_report(walk: &Listing, picks: &Vec<usize>, sizes: &Vec<u64>) -> (report: Vec<FolderInfo>)
    requires
        picks.len() == sizes.len(),
        forall|k: int| 0 <= k < picks.len() ==> (#[trigger] picks[k]) < walk@.len(),
        forall|k: int|
            0 <= k < picks.len() ==> (#[trigger] sizes[k]) == entry_bytes(walk@, picks[k] as int),
    ensures
        info_views(report@) == arranged(
            lines_at(walk@, picks@),
            descending_order_of(sizes_at(walk@, picks@)),
        ),
{
    assert(sizes@ =~= sizes_at(walk@, picks@));
    let ranking = descending_order(sizes);
    let mut report: Vec<FolderInfo> = Vec::new();
    let mut k: usize = 0;
    while k < ranking.len()
        invariant
            k <= ranking.len(),
            ranking.len() == picks.len(),
            picks.len() == sizes.len(),
            is_descending_order(sizes@, ranking@),
            forall|j: int| 0 <= j < picks.len() ==> (#[trigger] picks[j]) < walk@.len(),
            forall|j: int|
                0 <= j < picks.len() ==> (#[trigger] sizes[j]) == entry_bytes(
                    walk@,
                    picks[j] as int,
                ),
            report.len() == k,
            forall|j: int|
                0 <= j < k ==> (#[trigger] report[j])@ == info_of(
                    walk@,
                    picks@[ranking@[j] as int] as int,
                ),
        decreases ranking.len() - k,
    {
        let at: usize = ranking[k];
        report.push(report_line(walk, picks[at], sizes[at]));
        k += 1;
    }
    assert(info_views(report@) =~= arranged(
        lines_at(walk@, picks@),
        descending_order_of(sizes_at(walk@, picks@)),
    ));
    report
}

fn root_missing(root_path: &str) -> (message: String)
    ensures
        message@ == root_missing_text(root_path@),
{
    join_text("경로가 존재하지 않습니다: ", root_path)
}

/// Reports the entries of a walk in one pass: each candidate is sized as it
/// is met and kept if it reaches `min_size`; the kept lines are then ranked
/// by size, largest first. `walk` is `None` when the root does not exist,
/// and the scan then fails.
pub fn scan_folder_simple(
    root_path: &str,
    walk: Option<&Listing>,
    depth: usize,
    show_files: bool,
    min_size: u64,
) -> (report: Result<Vec<FolderInfo>, String>)
    ensures
        walk is None ==> (report matches Err(message) && message@ == root_missing_text(
            root_path@,
        )),
        walk matches Some(w) ==> (report matches Ok(lines) && info_views(lines@) == scan_report(
            w@,
            depth,
            show_files,
            min_size,
        )),
{
    let walk = match walk {
        Some(w) => w,
        None => {
            return Err(root_missing(root_path));
        },
    };
    let mut picks: Vec<usize> = Vec::new();
    let mut sizes: Vec<u64> = Vec::new();
    let mut i: usize = 0;
    while i < walk.len()
        invariant
            i <= walk@.len(),
            picks@ == reported_upto(walk@, i as int, depth, show_files, min_size),
            picks.len() == sizes.len(),
            forall|k: int| 0 <= k < picks.len() ==> (#[trigger] picks[k]) < walk@.len(),
            forall|k: int|
                0 <= k < picks.len() ==> (#[trigger] sizes[k]) == entry_bytes(
                    walk@,
                    picks[k] as int,
                ),
        decreases walk@.len() - i,
    {
        if candidate_at(walk, i, depth, show_files) {
            let size: u64 = entry_size(walk, i);
            if size >= min_size {
                picks.push(i);
                sizes.push(size);
            }
        }
        i += 1;
    }
    Ok(ranked_report(walk, &picks, &sizes))
}

/// Reports the entries of a walk in two phases: the candidates are collected
/// first, then each is sized on its own and kept if it reaches `min_size`;
/// the kept lines are ranked by size, largest first. The report is the same
/// as that of `scan_folder_simple`. `walk` is `None` when the root does not
/// exist, and the scan then fails.
pub fn scan_folder_parallel(
    root_path: &str,
    walk: Option<&Listing>,
    depth: usize,
    show_files: bool,
    min_size: u64,
) -> (report: Result<Vec<FolderInfo>, String>)
    ensures
        walk is None ==> (report matches Err(message) && message@ == root_missing_text(
            root_path@,
        )),
        walk matches Some(w) ==> (report matches Ok(lines) && info_views(lines@) == scan_report(
            w@,
            depth,
            show_files,
            min_size,
        )),
{
    let walk = match walk {
        Some(w) => w,
        None => {
            return Err(root_missing(root_path));
        },
    };
    let mut candidates: Vec<usize> = Vec::new();
    let mut i: usize = 0;
    while i < walk.len()
        invariant
            i <= walk@.len(),
            candidates@ == candidates_upto(walk@, i as int, depth, show_files),
            forall|k: int| 0 <= k < candidates.len() ==> (#[trigger] candidates[k]) < walk@.len(),
        decreases walk@.len() - i,
    {
        if candidate_at(walk, i, depth, show_files) {
            candidates.push(i);
        }
        i += 1;
    }
    let mut picks: Vec<usize> = Vec::new();
    let mut sizes: Vec<u64> = Vec::new();
    let mut c: usize = 0;
    while c < candidates.len()
        invariant
            c <= candidates.len(),
            forall|k: int| 0 <= k < candidates.len() ==> (#[trigger] candidates[k]) < walk@.len(),
            picks@ == reaching(walk@, candidates@.take(c as int), min_size),
            picks.len() == sizes.len(),
            forall|k: int| 0 <= k < picks.len() ==> (#[trigger] picks[k]) < walk@.len(),
            forall|k: int|
                0 <= k < picks.len() ==> (#[trigger] sizes[k]) == entry_bytes(
                    walk@,
                    picks[k] as int,
                ),
        decreases candidates.len() - c,
    {
        let index: usize = candidates[c];
        let size: u64 = entry_size(walk, index);
        proof {
            assert(candidates@.take(c + 1).drop_last() =~= candidates@.take(c as int));
            assert(candidates@.take(c + 1).last() == index);
        }
        if size >= min_size {
            picks.push(index);
            sizes.push(size);
        }
        c += 1;
    }
    proof {
        assert(candidates@.take(c as int) =~= candidates@);
        lemma_reaching_candidates(walk@, walk@.len() as int, depth, show_files, min_size);
    }
    Ok(ranked_report(walk, &picks, &sizes))
}

/// The paths of the directories within the depth bound that hold no file
/// bytes at any depth, in walk order. `walk` is `None` when the root does
/// not exist, and the search then fails.
pub fn find_empty_folders(root_path: &str, walk: Option<&Listing>, depth: usize) -> (found: Result<
    Vec<String>,
    String,
>)
    ensures
        walk is None ==> (found matches Err(message) && message@ == root_missing_text(
            root_path@,
        )),
        walk matches Some(w) ==> (found matches Ok(paths) && text_views(paths@)
            == empty_folders_upto(w@, w@.len() as int, depth)),
{
    let walk = match walk {
        Some(w) => w,
        None => {
            return Err(root_missing(root_path));
        },
    };
    let mut paths: Vec<String> = Vec::new();
    let mut i: usize = 0;
    while i < walk.len()
        invariant
            i <= walk@.len(),
            text_views(paths@) == empty_folders_upto(walk@, i as int, depth),
        decreases walk@.len() - i,
    {
        let ghost before = text_views(paths@);
        if candidate_at(walk, i, depth, false) && calculate_folder_size(walk, i) == 0 {
            paths.push(walk.entry(i).path.clone());
            assert(text_views(paths@) =~= before.push(walk@[i as int].path));
        }
        i += 1;
    }
    Ok(paths)
}

} // verus!

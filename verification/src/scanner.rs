//! Finding the files of a playlist.

use vstd::prelude::*;
use vstd::relations::*;
use vstd::seq_lib::*;
use vstd::string::*;

use crate::models::{scanned_views, ScannedTrack, ScannedView};
use crate::order::{
    arrange, as_numbers, lemma_all_numbers, lemma_rank_total, lemma_stable_order,
    lemma_stable_order_distinct, path_less, pick, rank_less, rank_views, sort_numbers,
    stable_order, stays_before, Rank, RankValue,
};
use crate::path::{
    ends_in_mp3, file_name, has_mp3_extension, lemma_mp3, parts, plain_name, same_path, FilePath,
};
use crate::text::lossy_text;

verus! {

/// Something that was met in a directory.
pub struct DirItem {
    pub path: FilePath,
    pub is_file: bool,
}

/// What the system says of a file.
#[derive(Clone, Copy, PartialEq, Eq, Debug)]
pub struct FileStat {
    pub size: u64,
    /// When it was last changed, in whole seconds since the Unix epoch, where that is known.
    pub modified: Option<i64>,
}

/// What the system says of this file could not be read.
pub struct ScanError {
    pub path: FilePath,
}

impl ScanError {
    /// What is said of the error.
    pub fn message(&self) -> (text: String)
        ensures
            text@ == "read metadata for "@ + lossy_text(self.path@),
    {
        let mut text = "read metadata for ".to_owned();
        text.append(self.path.lossy().as_str());
        text
    }
}

/// The paths of the MP3 files among the items, as they were met.
pub open spec fn track_paths(items: Seq<DirItem>) -> Seq<Seq<u8>>
    decreases items.len(),
{
    if items.len() == 0 {
        seq![]
    } else if items.last().is_file && has_mp3_extension(items.last().path@) {
        track_paths(items.drop_last()).push(items.last().path@)
    } else {
        track_paths(items.drop_last())
    }
}

/// The paths that a list stands for.
pub open spec fn path_views(list: Seq<FilePath>) -> Seq<Seq<u8>> {
    list.map_values(|p: FilePath| p@)
}

/// Takes the MP3 files from what was met in a directory.
pub fn select_tracks(items: &Vec<DirItem>) -> (paths: Vec<FilePath>)
    ensures
        path_views(paths@) == track_paths(items@),
        forall|i: int|
            0 <= i < items@.len() && is_track(#[trigger] items@[i]) ==> path_views(
                paths@,
            ).contains(items@[i].path@),
{
    let mut paths: Vec<FilePath> = Vec::new();
    let mut i: usize = 0;
    assert(path_views(paths@) =~= track_paths(items@.take(0)));
    while i < items.len()
        invariant
            i <= items@.len(),
            path_views(paths@) == track_paths(items@.take(i as int)),
        decreases items@.len() - i,
    {
        let ghost before = paths@;
        let item = &items[i];
        assert(items@.take(i + 1).drop_last() =~= items@.take(i as int));
        if item.is_file && item.path.is_mp3() {
            paths.push(item.path.clone());
            assert(path_views(paths@) =~= path_views(before).push(item.path@));
        }
        i = i + 1;
    }
    assert(items@.take(i as int) =~= items@);
    proof {
        let _ = lemma_files_taken(items@);
    }
    paths
}

/// The files of a playlist: a file by itself, whatever it is called, or else the MP3 files that
/// were met in the directory.
pub fn playlist_paths(root: &FilePath, root_is_file: bool, items: &Vec<DirItem>) -> (paths: Vec<
    FilePath,
>)
    ensures
        path_views(paths@) == (if root_is_file {
            seq![root@]
        } else {
            track_paths(items@)
        }),
{
    if root_is_file {
        let mut paths: Vec<FilePath> = Vec::new();
        paths.push(root.clone());
        assert(path_views(paths@) =~= seq![root@]);
        paths
    } else {
        select_tracks(items)
    }
}

/// When a file was last changed, as it is kept: where that is not known, or lies before the Unix
/// epoch, zero.
pub open spec fn kept_time(modified: Option<i64>) -> u64 {
    match modified {
        Some(t) => if t >= 0 {
            t as u64
        } else {
            0
        },
        None => 0,
    }
}

/// What is kept of the file at `path`.
pub open spec fn scanned_file(path: Seq<u8>, stat: FileStat) -> ScannedView {
    ScannedView {
        path,
        size: stat.size,
        modified_unix_secs: kept_time(stat.modified),
    }
}

/// Makes what is kept of the file at `path` from what the system says of it, if it could be
/// read.
pub fn scan_track(path: &FilePath, stat: Option<FileStat>) -> (track: Result<
    ScannedTrack,
    ScanError,
>)
    ensures
        track is Ok <==> stat is Some,
        track matches Ok(t) ==> t@ == scanned_file(path@, stat->0),
        track matches Err(e) ==> e.path@ == path@,
{
    match stat {
        Some(stat) => {
            let modified_unix_secs: u64 = match stat.modified {
                Some(t) => if t >= 0 {
                    t as u64
                } else {
                    0
                },
                None => 0,
            };
            Ok(ScannedTrack { path: path.clone(), size: stat.size, modified_unix_secs })
        },
        None => Err(ScanError { path: path.clone() }),
    }
}

/// What is kept of the files, as they were met.
pub open spec fn scanned_files(paths: Seq<Seq<u8>>, stats: Seq<Option<FileStat>>) -> Seq<
    ScannedView,
> {
    Seq::new(paths.len(), |i: int| scanned_file(paths[i], stats[i]->0))
}

/// What the files are sorted by: their paths.
pub open spec fn scan_ranks(list: Seq<ScannedView>) -> Seq<Rank> {
    list.map_values(|s: ScannedView| Rank::Path(parts(s.path)))
}

/// The files sorted by their paths.
pub open spec fn sorted_scan(list: Seq<ScannedView>) -> Seq<ScannedView> {
    pick(list, stable_order(scan_ranks(list)))
}

/// Whether the stat of every file could be read, up to number `n`.
pub open spec fn all_read(stats: Seq<Option<FileStat>>, n: int) -> bool {
    forall|i: int| 0 <= i < n ==> #[trigger] stats[i] is Some
}

/// Makes the list of the files of a playlist, sorted by their paths. `stats` holds what the
/// system says of each file, if it could be read.
pub fn scan_playlist(paths: &Vec<FilePath>, stats: &Vec<Option<FileStat>>) -> (list: Result<
    Vec<ScannedTrack>,
    ScanError,
>)
    requires
        stats@.len() == paths@.len(),
    ensures
        list is Ok <==> all_read(stats@, stats@.len() as int),
        list is Ok <==> forall|i: int| 0 <= i < stats@.len() ==> #[trigger] stats@[i] is Some,
        list matches Ok(l) ==> scanned_views(l@) == sorted_scan(
            scanned_files(path_views(paths@), stats@),
        ),
        list matches Err(e) ==> exists|i: int|
            0 <= i < paths@.len() && all_read(stats@, i) && stats@[i] is None && e.path@ == (
            #[trigger] paths@[i])@,
        list matches Err(e) ==> exists|i: int|
            0 <= i < paths@.len() && (forall|k: int|
                0 <= k < i ==> #[trigger] stats@[k] is Some) && stats@[i] is None && e.path@ == (
            #[trigger] paths@[i])@,
{
    let mut scanned: Vec<ScannedTrack> = Vec::new();
    let mut ranks: Vec<RankValue> = Vec::new();
    let ghost files = scanned_files(path_views(paths@), stats@);
    let ghost want = scan_ranks(files);
    let mut i: usize = 0;
    while i < paths.len()
        invariant
            i <= paths@.len(),
            stats@.len() == paths@.len(),
            files == scanned_files(path_views(paths@), stats@),
            want == scan_ranks(files),
            all_read(stats@, i as int),
            scanned@.len() == i,
            ranks@.len() == i,
            forall|k: int| 0 <= k < i ==> (#[trigger] scanned@[k])@ == files[k],
            forall|k: int| 0 <= k < i ==> (#[trigger] ranks@[k])@ == want[k],
        decreases paths@.len() - i,
    {
        match scan_track(&paths[i], stats[i]) {
            Ok(track) => {
                ranks.push(RankValue::Path(track.path.path_parts()));
                scanned.push(track);
            },
            Err(e) => {
                assert(paths@[i as int]@ == e.path@);
                return Err(e);
            },
        }
        i = i + 1;
    }
    assert(rank_views(ranks@) =~= want);
    assert(scanned_views(scanned@) =~= files);
    let order = sort_numbers(&ranks);
    let ghost held = scanned@;
    let sorted = arrange(scanned, &order, false);
    proof {
        lemma_stable_order(want);
        assert forall|k: int| 0 <= k < order@.len() implies scanned_views(sorted@)[k] == pick(
            files,
            as_numbers(order@),
        )[k] by {
            assert(order@[k] < held.len());
            assert(files[order@[k] as int] == held[order@[k] as int]@);
        }
        assert(scanned_views(sorted@) =~= sorted_scan(files));
    }
    Ok(sorted)
}

/// No file of the playlist was found.
#[derive(Clone, Copy, PartialEq, Eq, Structural, Debug)]
pub struct NoTracks;

/// Refuses a playlist without files.
pub fn require_tracks(list: &Vec<ScannedTrack>) -> (found: Result<(), NoTracks>)
    ensures
        found is Err <==> list@.len() == 0,
{
    if list.len() == 0 {
        Err(NoTracks)
    } else {
        Ok(())
    }
}

/// Whether no two files of the list have the same path.
pub open spec fn paths_differ(list: Seq<ScannedView>) -> bool {
    forall|i: int, j: int|
        #![trigger list[i], list[j]]
        0 <= i < j < list.len() ==> !same_path(list[i].path, list[j].path)
}

/// Scanning lists every file that was met, once, in the order of their paths.
pub proof fn lemma_scan_sorted(list: Seq<ScannedView>)
    ensures
        sorted_scan(list).len() == list.len(),
        forall|s: ScannedView| #[trigger] sorted_scan(list).contains(s) <==> list.contains(s),
        forall|i: int, j: int|
            #![trigger sorted_scan(list)[i], sorted_scan(list)[j]]
            0 <= i < j < list.len() ==> path_less(
                parts(sorted_scan(list)[i].path),
                parts(sorted_scan(list)[j].path),
            ) || same_path(sorted_scan(list)[i].path, sorted_scan(list)[j].path),
        paths_differ(list) ==> paths_differ(sorted_scan(list)),
{
    let ranks = scan_ranks(list);
    let order = stable_order(ranks);
    let sorted = sorted_scan(list);
    lemma_stable_order(ranks);
    lemma_stable_order_distinct(ranks);
    lemma_all_numbers(order);
    assert forall|s: ScannedView| #[trigger] sorted.contains(s) <==> list.contains(s) by {
        if sorted.contains(s) {
            let i = choose|i: int| 0 <= i < sorted.len() && sorted[i] == s;
            assert(list[order[i]] == s);
        }
        if list.contains(s) {
            let k = choose|k: int| 0 <= k < list.len() && list[k] == s;
            assert(order.contains(k));
            let i = choose|i: int| 0 <= i < order.len() && order[i] == k;
            assert(sorted[i] == s);
        }
    }
    assert forall|i: int, j: int|
        #![trigger sorted[i], sorted[j]]
        0 <= i < j < list.len() implies path_less(parts(sorted[i].path), parts(sorted[j].path))
        || same_path(sorted[i].path, sorted[j].path) by {
        assert(stays_before(ranks, order[i], order[j]));
    }
    if paths_differ(list) {
        assert forall|i: int, j: int|
            #![trigger sorted[i], sorted[j]]
            0 <= i < j < sorted.len() implies !same_path(sorted[i].path, sorted[j].path) by {
            let p = order[i];
            let q = order[j];
            assert(sorted[i] == list[p] && sorted[j] == list[q]);
            if p < q {
                assert(!same_path(list[p].path, list[q].path));
            } else {
                assert(!same_path(list[q].path, list[p].path));
            }
        }
    }
}

/// What the sorted files are sorted by: no two the same, each no lower than the one before.
proof fn lemma_scan_ranks(list: Seq<ScannedView>)
    requires
        paths_differ(list),
    ensures
        scan_ranks(sorted_scan(list)).no_duplicates(),
        sorted_by(
            scan_ranks(sorted_scan(list)),
            |a: Rank, b: Rank| rank_less(a, b) || a == b,
        ),
{
    lemma_scan_sorted(list);
    let sorted = sorted_scan(list);
    let ranks = scan_ranks(sorted);
    let leq = |a: Rank, b: Rank| rank_less(a, b) || a == b;
    assert forall|i: int, j: int| 0 <= i < j < ranks.len() implies #[trigger] leq(
        ranks[i],
        ranks[j],
    ) by {
        assert(path_less(parts(sorted[i].path), parts(sorted[j].path)) || same_path(
            sorted[i].path,
            sorted[j].path,
        ));
    }
    assert forall|i: int, j: int| 0 <= i < ranks.len() && 0 <= j < ranks.len() && i != j implies
        ranks[i] != ranks[j] by {
        if i < j {
            assert(!same_path(sorted[i].path, sorted[j].path));
        } else {
            assert(!same_path(sorted[j].path, sorted[i].path));
        }
    }
}

/// It does not matter in what order the files are met: the same files give the same list.
pub proof fn lemma_scan_any_order(a: Seq<ScannedView>, b: Seq<ScannedView>)
    requires
        paths_differ(a),
        paths_differ(b),
        forall|s: ScannedView| #[trigger] a.contains(s) <==> b.contains(s),
    ensures
        sorted_scan(a) == sorted_scan(b),
{
    broadcast use group_to_multiset_ensures;

    let sa = sorted_scan(a);
    let sb = sorted_scan(b);
    let ra = scan_ranks(sa);
    let rb = scan_ranks(sb);
    lemma_scan_sorted(a);
    lemma_scan_sorted(b);
    lemma_scan_ranks(a);
    lemma_scan_ranks(b);
    assert forall|s: ScannedView| #[trigger] sa.contains(s) <==> sb.contains(s) by {
        assert(a.contains(s) <==> b.contains(s));
    }
    assert forall|r: Rank| ra.contains(r) <==> #[trigger] rb.contains(r) by {
        if ra.contains(r) {
            let i = choose|i: int| 0 <= i < ra.len() && ra[i] == r;
            assert(sa.contains(sa[i]));
            assert(sb.contains(sa[i]));
            let j = choose|j: int| 0 <= j < sb.len() && sb[j] == sa[i];
            assert(rb[j] == r);
        }
        if rb.contains(r) {
            let i = choose|i: int| 0 <= i < rb.len() && rb[i] == r;
            assert(sb.contains(sb[i]));
            assert(sa.contains(sb[i]));
            let j = choose|j: int| 0 <= j < sa.len() && sa[j] == sb[i];
            assert(ra[j] == r);
        }
    }
    ra.lemma_multiset_has_no_duplicates();
    rb.lemma_multiset_has_no_duplicates();
    assert forall|r: Rank| ra.to_multiset().count(r) == rb.to_multiset().count(r) by {
        assert(ra.contains(r) <==> rb.contains(r));
    }
    assert(ra.to_multiset() =~= rb.to_multiset());
    lemma_rank_total();
    let less = |x: Rank, y: Rank| rank_less(x, y);
    let leq = |x: Rank, y: Rank| rank_less(x, y) || x == y;
    assert(total_ordering(leq)) by {
        assert forall|x: Rank, y: Rank, z: Rank| #[trigger] leq(x, y) && #[trigger] leq(
            y,
            z,
        ) implies leq(x, z) by {
            assert(less(x, y) && less(y, z) ==> less(x, z));
        }
        assert forall|x: Rank, y: Rank| #[trigger] leq(x, y) && #[trigger] leq(y, x) implies x
            == y by {
            assert(less(x, y) && less(y, x) ==> x == y);
        }
        assert forall|x: Rank, y: Rank| #[trigger] leq(x, y) || #[trigger] leq(y, x) by {
            assert(x != y ==> less(x, y) || less(y, x));
        }
    }
    lemma_sorted_unique(ra, rb, leq);
    assert(sa.len() == ra.len() && sb.len() == rb.len());
    assert forall|i: int| 0 <= i < sa.len() implies sa[i] == sb[i] by {
        assert(ra[i] == rb[i]);
        assert(sb.contains(sb[i]));
        assert(sa.contains(sb[i]));
        let j = choose|j: int| 0 <= j < sa.len() && sa[j] == sb[i];
        assert(ra[j] == ra[i]);
    }
    assert(sa =~= sb);
}

/// Whether an item is a file whose name ends in `.mp3`.
pub open spec fn is_track(item: DirItem) -> bool {
    item.is_file && (file_name(item.path@) matches Some(name) && ends_in_mp3(name))
}

/// The files of a playlist are the items that are files with a name that ends in `.mp3`, however
/// deep in the tree: all of them, no others, each once, and in the order they were met. The
/// result is which items they are.
pub proof fn lemma_files_taken(items: Seq<DirItem>) -> (taken: Seq<int>)
    ensures
        taken.len() == track_paths(items).len(),
        forall|j: int|
            0 <= j < taken.len() ==> 0 <= #[trigger] taken[j] < items.len() && is_track(
                items[taken[j]],
            ) && track_paths(items)[j] == items[taken[j]].path@,
        forall|j: int, k: int|
            0 <= j < k < taken.len() ==> #[trigger] taken[j] < #[trigger] taken[k],
        forall|i: int|
            0 <= i < items.len() && is_track(#[trigger] items[i]) ==> taken.contains(i),
        forall|i: int|
            0 <= i < items.len() && is_track(#[trigger] items[i]) ==> track_paths(items).contains(
                items[i].path@,
            ),
    decreases items.len(),
{
    if items.len() == 0 {
        seq![]
    } else {
        let before = items.drop_last();
        let held = lemma_files_taken(before);
        let last = items.len() - 1;
        lemma_mp3(items.last().path@, seq![], seq![]);
        assert(items.last() == items[last]);
        let taken = if is_track(items.last()) {
            held.push(last)
        } else {
            held
        };
        assert forall|i: int| 0 <= i < items.len() && is_track(#[trigger] items[i]) implies
            taken.contains(i) by {
            if i < last {
                assert(before[i] == items[i]);
                assert(held.contains(i));
                let j = choose|j: int| 0 <= j < held.len() && held[j] == i;
                assert(taken[j] == i);
            } else {
                assert(taken[taken.len() - 1] == i);
            }
        }
        assert forall|j: int| 0 <= j < taken.len() implies 0 <= #[trigger] taken[j] < items.len()
            && is_track(items[taken[j]]) && track_paths(items)[j] == items[taken[j]].path@ by {
            if j < held.len() {
                assert(taken[j] == held[j]);
                assert(before[held[j]] == items[held[j]]);
            }
        }
        assert forall|i: int| 0 <= i < items.len() && is_track(#[trigger] items[i]) implies
            track_paths(items).contains(items[i].path@) by {
            assert(taken.contains(i));
            let j = choose|j: int| 0 <= j < taken.len() && taken[j] == i;
            assert(track_paths(items)[j] == items[i].path@);
        }
        taken
    }
}

/// A file called `name` in any directory is in the playlist if and only if its name ends in
/// `.mp3`; a directory of that name never is.
pub proof fn lemma_file_taken(dir: Seq<u8>, name: Seq<u8>, item: DirItem)
    requires
        plain_name(name),
        item.path@ == dir + seq![47u8] + name || item.path@ == name,
    ensures
        is_track(item) <==> item.is_file && ends_in_mp3(name),
        track_paths(seq![item]) == (if item.is_file && ends_in_mp3(name) {
            seq![item.path@]
        } else {
            seq![]
        }),
{
    lemma_mp3(item.path@, dir, name);
    let one = seq![item];
    assert(one.drop_last() =~= seq![]);
    assert(track_paths(one.drop_last()) =~= seq![]);
    assert(one.last() == item);
    if item.is_file && ends_in_mp3(name) {
        assert(track_paths(one) =~= seq![item.path@]);
    }
}

/// What is met in two parts of a tree gives the files of the one and then those of the other.
pub proof fn lemma_files_concat(a: Seq<DirItem>, b: Seq<DirItem>)
    ensures
        track_paths(a + b) == track_paths(a) + track_paths(b),
    decreases b.len(),
{
    if b.len() == 0 {
        assert(a + b =~= a);
        assert(track_paths(a) + track_paths(b) =~= track_paths(a));
    } else {
        assert((a + b).drop_last() =~= a + b.drop_last());
        assert((a + b).last() == b.last());
        lemma_files_concat(a, b.drop_last());
        assert(track_paths(a + b) =~= track_paths(a) + track_paths(b));
    }
}

/// Of a file its path and its size are kept, and when it was last changed, in seconds: zero where
/// that is not known or lies before the epoch, and otherwise the very second.
pub proof fn lemma_scanned_file(path: Seq<u8>, stat: FileStat)
    ensures
        ({
            let kept = scanned_file(path, stat);
            &&& kept.path == path
            &&& kept.size == stat.size
            &&& stat.modified is None ==> kept.modified_unix_secs == 0
            &&& stat.modified matches Some(t) ==> {
                &&& t < 0 ==> kept.modified_unix_secs == 0
                &&& t >= 0 ==> kept.modified_unix_secs == t
            }
        }),
{
}

/// The scanned files are the files that were met, each once, with what is kept of them. The
/// result is, for each place of the list, which file stands there.
pub proof fn lemma_scan_places(
    paths: Seq<Seq<u8>>,
    stats: Seq<Option<FileStat>>,
) -> (from: Seq<int>)
    ensures
        ({
            let list = sorted_scan(scanned_files(paths, stats));
            &&& list.len() == paths.len()
            &&& from.len() == paths.len()
            &&& from.no_duplicates()
            &&& forall|i: int|
                0 <= i < from.len() ==> {
                    &&& 0 <= #[trigger] from[i] < paths.len()
                    &&& list[i].path == paths[from[i]]
                    &&& list[i] == scanned_file(paths[from[i]], stats[from[i]]->0)
                }
            &&& forall|k: int| 0 <= k < paths.len() ==> #[trigger] from.contains(k)
        }),
{
    let files = scanned_files(paths, stats);
    let ranks = scan_ranks(files);
    let from = stable_order(ranks);
    lemma_stable_order(ranks);
    lemma_stable_order_distinct(ranks);
    lemma_all_numbers(from);
    from
}

/// A list of paths stands for its paths, one by one.
pub proof fn lemma_path_list(list: Seq<FilePath>)
    ensures
        path_views(list).len() == list.len(),
        forall|i: int| 0 <= i < list.len() ==> #[trigger] path_views(list)[i] == list[i].bytes@,
{
}

/// All files up to number `n` could be read if and only if none of them could not.
pub proof fn lemma_all_read(stats: Seq<Option<FileStat>>, n: int)
    ensures
        !all_read(stats, n) <==> exists|i: int| 0 <= i < n && #[trigger] stats[i] is None,
{
}

} // verus!

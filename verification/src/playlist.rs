//! Finding tracks of a playlist by their paths.

use vstd::prelude::*;

use crate::models::{track_views, Track, TrackView};
use crate::path::{part_views, parts, same_parts, same_path, FilePath, PathPart};

verus! {

/// The first track at `path`, from position `from` on.
pub open spec fn position_from(tracks: Seq<TrackView>, path: Seq<u8>, from: int) -> Option<int>
    decreases tracks.len() - from,
{
    if from < 0 || from >= tracks.len() {
        None
    } else if same_path(tracks[from].path, path) {
        Some(from)
    } else {
        position_from(tracks, path, from + 1)
    }
}

/// The first track at `path`.
pub open spec fn position_of(tracks: Seq<TrackView>, path: Seq<u8>) -> Option<int> {
    position_from(tracks, path, 0)
}

proof fn lemma_position_from(tracks: Seq<TrackView>, path: Seq<u8>, from: int)
    requires
        0 <= from <= tracks.len(),
    ensures
        position_from(tracks, path, from) matches Some(i) ==> {
            &&& from <= i < tracks.len()
            &&& same_path(tracks[i].path, path)
            &&& forall|k: int| from <= k < i ==> !same_path(#[trigger] tracks[k].path, path)
        },
        position_from(tracks, path, from) is None ==> forall|k: int|
            from <= k < tracks.len() ==> !same_path(#[trigger] tracks[k].path, path),
    decreases tracks.len() - from,
{
    if from < tracks.len() {
        lemma_position_from(tracks, path, from + 1);
    }
}

/// The position that is found is that of the first track at `path`; none is found where there
/// is none.
pub proof fn lemma_position_of(tracks: Seq<TrackView>, path: Seq<u8>)
    ensures
        position_of(tracks, path) matches Some(i) ==> {
            &&& 0 <= i < tracks.len()
            &&& same_path(tracks[i].path, path)
            &&& forall|k: int| 0 <= k < i ==> !same_path(#[trigger] tracks[k].path, path)
        },
        position_of(tracks, path) is None <==> forall|k: int|
            0 <= k < tracks.len() ==> !same_path(#[trigger] tracks[k].path, path),
{
    lemma_position_from(tracks, path, 0);
}

/// No two tracks are at the same path.
pub open spec fn tracks_differ(tracks: Seq<TrackView>) -> bool {
    forall|i: int, j: int|
        0 <= i < j < tracks.len() ==> !same_path(
            (#[trigger] tracks[i]).path,
            (#[trigger] tracks[j]).path,
        )
}

/// Where no two tracks are at the same path, a track is found where it stands.
pub proof fn lemma_position_known(tracks: Seq<TrackView>, i: int)
    requires
        tracks_differ(tracks),
        0 <= i < tracks.len(),
    ensures
        position_of(tracks, tracks[i].path) == Some(i),
{
    lemma_position_of(tracks, tracks[i].path);
    let found = position_of(tracks, tracks[i].path);
    assert(same_path(tracks[i].path, tracks[i].path));
    assert(found is Some);
    assert(found->0 < i ==> !same_path(tracks[found->0].path, tracks[i].path));
}

/// Finds the first track at `path`.
pub fn find_track(tracks: &Vec<Track>, path: &FilePath) -> (found: Option<usize>)
    ensures
        found is Some <==> position_of(track_views(tracks@), path@) is Some,
        found matches Some(i) ==> position_of(track_views(tracks@), path@) == Some(i as int) && i
            < tracks@.len(),
{
    let wanted = path.path_parts();
    let ghost views = track_views(tracks@);
    let mut i: usize = 0;
    while i < tracks.len()
        invariant
            i <= tracks@.len(),
            views == track_views(tracks@),
            part_views(wanted@) == parts(path@),
            position_of(views, path@) == position_from(views, path@, i as int),
        decreases tracks@.len() - i,
    {
        let held = tracks[i].path.path_parts();
        assert(views[i as int].path == tracks@[i as int].path@);
        if same_parts(&held, &wanted) {
            return Some(i);
        }
        i = i + 1;
    }
    None
}

/// The parts of the paths of all tracks.
pub fn track_parts(tracks: &Vec<Track>) -> (list: Vec<Vec<PathPart>>)
    ensures
        list@.len() == tracks@.len(),
        forall|i: int|
            0 <= i < list@.len() ==> part_views(#[trigger] list@[i]@) == parts(tracks@[i].path@),
{
    let mut list: Vec<Vec<PathPart>> = Vec::new();
    let mut i: usize = 0;
    while i < tracks.len()
        invariant
            i <= tracks@.len(),
            list@.len() == i,
            forall|k: int|
                0 <= k < i ==> part_views(#[trigger] list@[k]@) == parts(tracks@[k].path@),
        decreases tracks@.len() - i,
    {
        list.push(tracks[i].path.path_parts());
        i = i + 1;
    }
    list
}

/// Finds the first track at `path` by the parts of the paths, which are in `list`.
pub fn find_parts(
    tracks: &Vec<Track>,
    list: &Vec<Vec<PathPart>>,
    path: &FilePath,
) -> (found: Option<usize>)
    requires
        list@.len() == tracks@.len(),
        forall|i: int|
            0 <= i < list@.len() ==> part_views(#[trigger] list@[i]@) == parts(tracks@[i].path@),
    ensures
        found is Some <==> position_of(track_views(tracks@), path@) is Some,
        found matches Some(i) ==> position_of(track_views(tracks@), path@) == Some(i as int) && i
            < tracks@.len(),
{
    let wanted = path.path_parts();
    let ghost views = track_views(tracks@);
    let mut i: usize = 0;
    while i < list.len()
        invariant
            i <= tracks@.len(),
            list@.len() == tracks@.len(),
            forall|k: int|
                0 <= k < list@.len() ==> part_views(#[trigger] list@[k]@) == parts(
                    tracks@[k].path@,
                ),
            views == track_views(tracks@),
            part_views(wanted@) == parts(path@),
            position_of(views, path@) == position_from(views, path@, i as int),
        decreases tracks@.len() - i,
    {
        assert(part_views(list@[i as int]@) == parts(tracks@[i as int].path@));
        assert(views[i as int].path == tracks@[i as int].path@);
        if same_parts(&list[i], &wanted) {
            return Some(i);
        }
        i = i + 1;
    }
    None
}

} // verus!

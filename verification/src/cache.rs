//! What the player remembers between runs: where it keeps it, and when it still holds.

use vstd::prelude::*;
use vstd::string::*;
use vstd::utf8::*;

use crate::metadata::{
    lemma_sort_moves, scanned_tracks, sort_tracks, sorted_from, sorted_tracks, times,
};
use crate::models::{
    copy_opt_bytes, copy_text, opt_bytes, scanned_views, track_views, Args, PlayerState, PlayerView,
    ScannedTrack, ScannedView, SortKey, TagView, Track, TrackView,
};
use crate::path::{
    joined, lemma_joined, part_views, parts, plain_name, same_path, FilePath, Part, SLASH,
};
use crate::playlist::{find_parts, find_track, lemma_position_of, position_of, track_parts};
use crate::records::{
    cache_bytes, cache_of, entry_views, lemma_cache_round_trip, lemma_resume_round_trip,
    lemma_storable_cache, lemma_storable_resume, resume_bytes, resume_of, CacheView, CachedTrack,
    EntryView, PlaylistCache, ResumeState, ResumeView, CACHE_VERSION, RESUME_STATE_VERSION,
};
use crate::scanner::paths_differ;
use crate::text::{lossy_text, same_text};

verus! {

/// What came of reading the cache file.
pub enum CacheFile {
    /// There is none.
    Missing,
    /// It is there and could not be read.
    Unreadable,
    /// What it holds.
    Bytes(Vec<u8>),
}

/// The cache file at this path is there and could not be read.
pub struct CacheUnreadable {
    pub path: FilePath,
}

impl CacheUnreadable {
    /// What is said of the error.
    pub fn message(&self) -> (text: String)
        ensures
            text@ == "read cache "@ + lossy_text(self.path@),
    {
        let mut text = "read cache ".to_owned();
        text.append(self.path.lossy().as_str());
        text
    }
}

/// Whether the entry `e` is still true of the file `s`: its path, its size and the time of its
/// last change are the same.
pub open spec fn still_true(e: EntryView, s: ScannedView) -> bool {
    &&& e.path == lossy_text(s.path)
    &&& e.size == s.size
    &&& e.modified_unix_secs == s.modified_unix_secs
}

/// Whether a cache is of this format, and true of exactly the files of the scan.
pub open spec fn fresh(c: CacheView, scanned: Seq<ScannedView>) -> bool {
    &&& c.version == CACHE_VERSION
    &&& c.entries.len() == scanned.len()
    &&& forall|i: int|
        0 <= i < scanned.len() ==> still_true(#[trigger] c.entries[i], scanned[i])
}

/// The track that an entry describes.
pub open spec fn entry_track(e: EntryView) -> TrackView {
    TrackView {
        path: encode_utf8(e.path),
        title: e.title,
        artist: e.artist,
        album: e.album,
        lyrics: e.lyrics,
        art_png: e.art_png,
    }
}

/// The tracks that the bytes of a cache file give for a scan, as they were scanned; none where
/// the file is no cache or out of date.
pub open spec fn cached_tracks(bytes: Seq<u8>, scanned: Seq<ScannedView>) -> Option<
    Seq<TrackView>,
> {
    match cache_of(bytes) {
        Some(c) => if fresh(c, scanned) {
            Some(c.entries.map_values(|e: EntryView| entry_track(e)))
        } else {
            None
        },
        None => None,
    }
}

/// Whether the cache is of this format, and true of exactly the files of the scan.
fn is_fresh(cache: &PlaylistCache, scanned: &Vec<ScannedTrack>) -> (is: bool)
    ensures
        is == fresh(cache@, scanned_views(scanned@)),
{
    if cache.version != CACHE_VERSION {
        return false;
    }
    if cache.entries.len() != scanned.len() {
        return false;
    }
    let ghost entries = cache@.entries;
    let ghost files = scanned_views(scanned@);
    let mut i: usize = 0;
    while i < scanned.len()
        invariant
            i <= scanned@.len(),
            cache.entries@.len() == scanned@.len(),
            entries == entry_views(cache.entries@),
            files == scanned_views(scanned@),
            forall|k: int| 0 <= k < i ==> still_true(#[trigger] entries[k], files[k]),
        decreases scanned@.len() - i,
    {
        let entry = &cache.entries[i];
        let file = &scanned[i];
        assert(entries[i as int] == cache.entries@[i as int]@);
        assert(files[i as int] == scanned@[i as int]@);
        if !same_text(entry.path.as_str(), file.path.lossy().as_str()) || entry.size != file.size
            || entry.modified_unix_secs != file.modified_unix_secs {
            assert(!still_true(entries[i as int], files[i as int]));
            return false;
        }
        i = i + 1;
    }
    true
}

/// What was found of the tracks of a playlist.
pub open spec fn opt_tracks(tracks: Option<Vec<Track>>) -> Option<Seq<TrackView>> {
    match tracks {
        Some(t) => Some(track_views(t@)),
        None => None,
    }
}

/// Takes the tracks of the scanned files from the cache file, provided that it still holds, and
/// sorts them. `cache_path` is where the file is, and `modified` holds when each scanned file was
/// last changed.
pub fn load_cached_tracks(
    cache_path: &FilePath,
    file: &CacheFile,
    args: &Args,
    scanned: &Vec<ScannedTrack>,
    modified: &Vec<i128>,
) -> (tracks: Result<Option<Vec<Track>>, CacheUnreadable>)
    requires
        args.sort == SortKey::Mtime ==> modified@.len() == scanned@.len(),
    ensures
        tracks is Err <==> *file is Unreadable,
        tracks matches Err(e) ==> e.path@ == cache_path@,
        *file is Missing ==> tracks matches Ok(None),
        *file matches CacheFile::Bytes(bytes) ==> {
            &&& tracks matches Ok(found)
            &&& opt_tracks(found) == (match cached_tracks(bytes@, scanned_views(scanned@)) {
                Some(list) => Some(
                    sorted_tracks(list, args.sort, args.reverse, times(modified@)),
                ),
                None => None,
            })
        },
{
    match file {
        CacheFile::Missing => Ok(None),
        CacheFile::Unreadable => Err(CacheUnreadable { path: cache_path.clone() }),
        CacheFile::Bytes(bytes) => {
            let cache = match PlaylistCache::decode(bytes.as_slice()) {
                Some(cache) => cache,
                None => {
                    return Ok(None);
                },
            };
            if !is_fresh(&cache, scanned) {
                return Ok(None);
            }
            let mut tracks: Vec<Track> = Vec::new();
            let ghost want = cache@.entries.map_values(|e: EntryView| entry_track(e));
            let mut i: usize = 0;
            while i < cache.entries.len()
                invariant
                    i <= cache.entries@.len(),
                    want == cache@.entries.map_values(|e: EntryView| entry_track(e)),
                    tracks@.len() == i,
                    forall|k: int| 0 <= k < i ==> (#[trigger] tracks@[k])@ == want[k],
                decreases cache.entries@.len() - i,
            {
                let entry = &cache.entries[i];
                assert(cache@.entries[i as int] == entry@);
                tracks.push(
                    Track {
                        path: FilePath::from_text(entry.path.as_str()),
                        title: copy_text(&entry.title),
                        artist: copy_text(&entry.artist),
                        album: copy_text(&entry.album),
                        lyrics: copy_text(&entry.lyrics),
                        art_png: copy_opt_bytes(&entry.art_png),
                    },
                );
                i = i + 1;
            }
            assert(track_views(tracks@) =~= want);
            sort_tracks(&mut tracks, args.sort, args.reverse, modified);
            Ok(Some(tracks))
        },
    }
}

/// The entry for the file `s` with the track `t`.
pub open spec fn entry_for(s: ScannedView, t: TrackView) -> EntryView {
    EntryView {
        path: lossy_text(s.path),
        size: s.size,
        modified_unix_secs: s.modified_unix_secs,
        title: t.title,
        artist: t.artist,
        album: t.album,
        lyrics: t.lyrics,
        art_png: t.art_png,
    }
}

/// The cache for a scan and the tracks that were made of it.
pub open spec fn cache_for(
    playlist: Seq<u8>,
    scanned: Seq<ScannedView>,
    tracks: Seq<TrackView>,
) -> CacheView {
    CacheView {
        version: CACHE_VERSION,
        playlist: lossy_text(playlist),
        entries: Seq::new(
            scanned.len(),
            |i: int| entry_for(scanned[i], tracks[position_of(tracks, scanned[i].path)->0]),
        ),
    }
}

/// Makes the bytes of the cache file for a scan and the tracks that were made of it.
pub fn save_playlist_cache(
    playlist_path: &FilePath,
    scanned: &Vec<ScannedTrack>,
    tracks: &Vec<Track>,
) -> (bytes: Vec<u8>)
    requires
        forall|i: int|
            0 <= i < scanned@.len() ==> position_of(
                track_views(tracks@),
                (#[trigger] scanned@[i]).path@,
            ) is Some,
    ensures
        bytes@ == cache_bytes(
            cache_for(playlist_path@, scanned_views(scanned@), track_views(tracks@)),
        ),
{
    let list = track_parts(tracks);
    let ghost files = scanned_views(scanned@);
    let ghost views = track_views(tracks@);
    let ghost want = cache_for(playlist_path@, files, views).entries;
    let mut entries: Vec<CachedTrack> = Vec::new();
    let mut i: usize = 0;
    while i < scanned.len()
        invariant
            i <= scanned@.len(),
            list@.len() == tracks@.len(),
            forall|k: int|
                0 <= k < list@.len() ==> part_views(#[trigger] list@[k]@)
                    == parts(tracks@[k].path@),
            forall|k: int|
                0 <= k < scanned@.len() ==> position_of(
                    track_views(tracks@),
                    (#[trigger] scanned@[k]).path@,
                ) is Some,
            files == scanned_views(scanned@),
            views == track_views(tracks@),
            want == cache_for(playlist_path@, files, views).entries,
            entries@.len() == i,
            forall|k: int| 0 <= k < i ==> (#[trigger] entries@[k])@ == want[k],
        decreases scanned@.len() - i,
    {
        let file = &scanned[i];
        assert(files[i as int] == scanned@[i as int]@);
        match find_parts(tracks, &list, &file.path) {
            Some(at) => {
                let track = &tracks[at];
                assert(views[at as int] == track@);
                entries.push(
                    CachedTrack {
                        path: file.path.lossy(),
                        size: file.size,
                        modified_unix_secs: file.modified_unix_secs,
                        title: copy_text(&track.title),
                        artist: copy_text(&track.artist),
                        album: copy_text(&track.album),
                        lyrics: copy_text(&track.lyrics),
                        art_png: copy_opt_bytes(&track.art_png),
                    },
                );
            },
            None => {
                assert(false);
            },
        }
        i = i + 1;
    }
    let cache = PlaylistCache {
        version: CACHE_VERSION,
        playlist: playlist_path.lossy(),
        entries,
    };
    assert(entry_views(cache.entries@) =~= want);
    cache.encode()
}

/// The directories that the system names for files such as the cache.
pub struct SystemDirs {
    pub xdg_cache_home: Option<FilePath>,
    pub home: Option<FilePath>,
    pub temp_dir: FilePath,
}

/// The directory for caches: the one that is named for it, or else `.cache` in the home
/// directory, or else the directory for temporary files.
pub open spec fn root_of(dirs: SystemDirs) -> Seq<u8> {
    match dirs.xdg_cache_home {
        Some(dir) => dir@,
        None => match dirs.home {
            Some(home) => joined(home@, encode_utf8(".cache"@)),
            None => dirs.temp_dir@,
        },
    }
}

/// The directory for caches.
pub fn cache_root(dirs: &SystemDirs) -> (root: FilePath)
    ensures
        root@ == root_of(*dirs),
{
    match &dirs.xdg_cache_home {
        Some(dir) => dir.clone(),
        None => match &dirs.home {
            Some(home) => home.join(&FilePath::from_text(".cache")),
            None => dirs.temp_dir.clone(),
        },
    }
}

/// The hexadecimal digit `d`.
pub open spec fn hex_digit(d: int) -> char {
    if d < 10 {
        (48 + d) as char
    } else {
        (87 + d) as char
    }
}

/// `bytes` in hexadecimal, two digits to a byte.
pub open spec fn hex(bytes: Seq<u8>) -> Seq<char> {
    Seq::new(
        2 * bytes.len(),
        |i: int|
            hex_digit(
                if i % 2 == 0 {
                    bytes[i / 2] as int / 16
                } else {
                    bytes[i / 2] as int % 16
                },
            ),
    )
}

/// The path that `path` is known by: the canonical one, where the system could tell it.
pub open spec fn known_path(path: Seq<u8>, canonical: Option<FilePath>) -> Seq<u8> {
    match canonical {
        Some(c) => c@,
        None => path,
    }
}

/// What the files kept for the playlist at `path` are named after.
pub open spec fn cache_key(path: Seq<u8>, canonical: Option<FilePath>) -> Seq<char> {
    hex(encode_utf8(lossy_text(known_path(path, canonical))))
}

/// Writes a hexadecimal digit.
fn hex_char(d: u8) -> (c: char)
    requires
        d < 16,
    ensures
        c == hex_digit(d as int),
{
    if d < 10 {
        (48 + d) as char
    } else {
        (87 + d) as char
    }
}

/// What the files kept for the playlist at `path` are named after. `canonical` is the canonical
/// form of the path, where the system could tell it.
pub fn encode_cache_key(path: &FilePath, canonical: &Option<FilePath>) -> (key: String)
    ensures
        key@ == cache_key(path@, *canonical),
{
    let known = match canonical {
        Some(c) => c.lossy(),
        None => path.lossy(),
    };
    let bytes = known.as_str().as_bytes();
    let mut out = String::new();
    let mut i: usize = 0;
    while i < bytes.len()
        invariant
            i <= bytes@.len(),
            out@ == hex(bytes@).take(2 * i),
        decreases bytes@.len() - i,
    {
        let b: u8 = bytes[i];
        out.push(hex_char(b / 16));
        out.push(hex_char(b % 16));
        i = i + 1;
        assert(hex(bytes@).take(2 * i) =~= hex(bytes@).take(2 * i - 2).push(
            hex_digit(b as int / 16),
        ).push(hex_digit(b as int % 16)));
    }
    assert(hex(bytes@).take(2 * i) =~= hex(bytes@));
    out
}

/// The directory of the player's own files.
pub open spec fn app_dir(dirs: SystemDirs) -> Seq<u8> {
    joined(root_of(dirs), encode_utf8("bu-rust-mp3"@))
}

/// Where the cache of the playlist at `path` is kept.
pub open spec fn cache_file(path: Seq<u8>, canonical: Option<FilePath>, dirs: SystemDirs) -> Seq<
    u8,
> {
    joined(app_dir(dirs), encode_utf8(cache_key(path, canonical) + ".pb"@))
}

/// Where it is kept which track of the playlist at `path` was played last.
pub open spec fn resume_file(path: Seq<u8>, canonical: Option<FilePath>, dirs: SystemDirs) -> Seq<
    u8,
> {
    joined(app_dir(dirs), encode_utf8(cache_key(path, canonical) + ".resume.pb"@))
}

/// Where the cache of the playlist at `path` is kept.
pub fn playlist_cache_path(
    path: &FilePath,
    canonical: &Option<FilePath>,
    dirs: &SystemDirs,
) -> (file: FilePath)
    ensures
        file@ == cache_file(path@, *canonical, *dirs),
{
    let mut name = encode_cache_key(path, canonical);
    name.append(".pb");
    cache_root(dirs).join(&FilePath::from_text("bu-rust-mp3")).join(
        &FilePath::from_text(name.as_str()),
    )
}

/// Where it is kept which track of the playlist at `path` was played last.
pub fn resume_state_path(
    path: &FilePath,
    canonical: &Option<FilePath>,
    dirs: &SystemDirs,
) -> (file: FilePath)
    ensures
        file@ == resume_file(path@, *canonical, *dirs),
{
    let mut name = encode_cache_key(path, canonical);
    name.append(".resume.pb");
    cache_root(dirs).join(&FilePath::from_text("bu-rust-mp3")).join(
        &FilePath::from_text(name.as_str()),
    )
}

/// The track that the bytes of a resume file point at, if they point at one.
pub open spec fn resumed_index(bytes: Seq<u8>, tracks: Seq<TrackView>) -> Option<int> {
    match resume_of(bytes) {
        Some(r) => if r.version == RESUME_STATE_VERSION {
            position_of(tracks, encode_utf8(r.last_track_path))
        } else {
            None
        },
        None => None,
    }
}

/// The player once it has gone to the track that it was left at, if that can be told.
pub open spec fn restored(s: PlayerView, file: Option<Seq<u8>>) -> PlayerView {
    match file {
        Some(bytes) => match resumed_index(bytes, s.tracks) {
            Some(i) => PlayerView { current: i, selected: i, ..s },
            None => s,
        },
        None => s,
    }
}

/// Goes to the track that the playlist was left at. `file` is what the resume file holds, where
/// it could be read.
pub fn restore_last_played_index(state: &mut PlayerState, file: &Option<Vec<u8>>)
    ensures
        final(state)@ == restored(old(state)@, opt_bytes(*file)),
{
    let bytes = match file {
        Some(bytes) => bytes,
        None => {
            return;
        },
    };
    let resume = match ResumeState::decode(bytes.as_slice()) {
        Some(resume) => resume,
        None => {
            return;
        },
    };
    if resume.version != RESUME_STATE_VERSION {
        return;
    }
    let last = FilePath::from_text(resume.last_track_path.as_str());
    match find_track(&state.tracks, &last) {
        Some(index) => {
            state.current = index;
            state.selected = index;
        },
        None => {},
    }
}

/// What is kept of the player, so that it can go on from here.
pub open spec fn resume_for(s: PlayerView) -> ResumeView {
    ResumeView {
        version: RESUME_STATE_VERSION,
        playlist: lossy_text(s.playlist_path),
        last_track_path: lossy_text(s.tracks[s.current].path),
    }
}

/// Makes the bytes of the resume file.
pub fn save_resume_state(state: &PlayerState) -> (bytes: Vec<u8>)
    requires
        state.current < state.tracks@.len(),
    ensures
        bytes@ == resume_bytes(resume_for(state@)),
{
    let resume = ResumeState {
        version: RESUME_STATE_VERSION,
        playlist: state.playlist_path.lossy(),
        last_track_path: state.tracks[state.current].path.lossy(),
    };
    assert(state@.tracks[state@.current] == state.tracks@[state.current as int]@);
    resume.encode()
}

/// Where no two files have the same path, the track that is found for a file in the sorted list
/// is the one that was made of it.
pub proof fn lemma_tracks_found(
    scanned: Seq<ScannedView>,
    made: Seq<TrackView>,
    sort: SortKey,
    reverse: bool,
    modified: Seq<int>,
)
    requires
        paths_differ(scanned),
        made.len() == scanned.len(),
        forall|i: int| 0 <= i < made.len() ==> (#[trigger] made[i]).path == scanned[i].path,
    ensures
        forall|i: int|
            0 <= i < scanned.len() ==> {
                let tracks = sorted_tracks(made, sort, reverse, modified);
                &&& position_of(tracks, (#[trigger] scanned[i]).path) matches Some(at)
                &&& tracks[at] == made[i]
            },
{
    let tracks = sorted_tracks(made, sort, reverse, modified);
    lemma_sort_moves(made, sort, reverse, modified);
    let from = sorted_from(made, sort, reverse, modified);
    assert forall|i: int| 0 <= i < scanned.len() implies {
        &&& position_of(tracks, (#[trigger] scanned[i]).path) matches Some(at)
        &&& tracks[at] == made[i]
    } by {
        let path = scanned[i].path;
        lemma_position_of(tracks, path);
        assert(from.contains(i));
        let at = choose|at: int| 0 <= at < from.len() && from[at] == i;
        assert(tracks[at] == made[i]);
        assert(tracks[at].path == path);
        let found = position_of(tracks, path)->0;
        let k = from[found];
        assert(tracks[found] == made[k]);
        assert(made[k].path == scanned[k].path);
        if k < i {
            assert(!same_path(scanned[k].path, scanned[i].path));
        } else if i < k {
            assert(!same_path(scanned[i].path, scanned[k].path));
        }
    }
}

/// What the cache gives back of a file and its track: the track, at the path of the file as text.
pub open spec fn kept_track(s: ScannedView, t: TrackView) -> TrackView {
    TrackView { path: encode_utf8(lossy_text(s.path)), ..t }
}

/// What was saved of a playlist comes back: of the same files, scanned again, the cache gives,
/// in the order of the scan, the track that was found for each file.
pub proof fn lemma_cache_reload(
    playlist: Seq<u8>,
    scanned: Seq<ScannedView>,
    tracks: Seq<TrackView>,
)
    requires
        forall|i: int|
            0 <= i < scanned.len() ==> position_of(tracks, (#[trigger] scanned[i]).path) is Some,
        cache_bytes(cache_for(playlist, scanned, tracks)).len() <= u64::MAX,
    ensures
        cached_tracks(cache_bytes(cache_for(playlist, scanned, tracks)), scanned) == Some(
            Seq::new(
                scanned.len(),
                |i: int|
                    kept_track(scanned[i], tracks[position_of(tracks, scanned[i].path)->0]),
            ),
        ),
{
    let cache = cache_for(playlist, scanned, tracks);
    let kept = Seq::new(
        scanned.len(),
        |i: int| kept_track(scanned[i], tracks[position_of(tracks, scanned[i].path)->0]),
    );
    lemma_storable_cache(cache);
    lemma_cache_round_trip(cache);
    assert forall|i: int| 0 <= i < scanned.len() implies still_true(
        #[trigger] cache.entries[i],
        scanned[i],
    ) by {}
    assert(fresh(cache, scanned));
    assert(cache.entries.map_values(|e: EntryView| entry_track(e)) =~= kept);
}

/// What was saved of a playlist that was just made, and sorted, comes back as it was made. The
/// files have different paths, and paths that are text: the cache holds paths as text.
pub proof fn lemma_made_reload(
    playlist: Seq<u8>,
    scanned: Seq<ScannedView>,
    tags: Seq<Option<TagView>>,
    sort: SortKey,
    reverse: bool,
    modified: Seq<int>,
)
    requires
        forall|i: int| 0 <= i < scanned.len() ==> valid_utf8((#[trigger] scanned[i]).path),
        paths_differ(scanned),
        cache_bytes(
            cache_for(
                playlist,
                scanned,
                sorted_tracks(scanned_tracks(scanned, tags), sort, reverse, modified),
            ),
        ).len() <= u64::MAX,
    ensures
        ({
            let made = scanned_tracks(scanned, tags);
            let tracks = sorted_tracks(made, sort, reverse, modified);
            cached_tracks(cache_bytes(cache_for(playlist, scanned, tracks)), scanned) == Some(made)
        }),
{
    broadcast use decode_utf8_encode_utf8;

    let made = scanned_tracks(scanned, tags);
    let tracks = sorted_tracks(made, sort, reverse, modified);
    lemma_tracks_found(scanned, made, sort, reverse, modified);
    lemma_cache_reload(playlist, scanned, tracks);
    let kept = Seq::new(
        scanned.len(),
        |i: int| kept_track(scanned[i], tracks[position_of(tracks, scanned[i].path)->0]),
    );
    assert forall|i: int| 0 <= i < scanned.len() implies kept[i] == made[i] by {
        assert(valid_utf8(scanned[i].path));
        assert(position_of(tracks, scanned[i].path) is Some);
    }
    assert(kept =~= made);
}

/// A cache is taken if and only if it is of this format and holds, for every file of the scan
/// and in the same order, the very path, size and second of the last change. The tracks are then
/// those that it holds.
pub proof fn lemma_cache_taken(bytes: Seq<u8>, scanned: Seq<ScannedView>, c: CacheView)
    requires
        cache_of(bytes) == Some(c),
    ensures
        cached_tracks(bytes, scanned) is Some <==> {
            &&& c.version == 3
            &&& c.entries.len() == scanned.len()
            &&& forall|i: int|
                0 <= i < scanned.len() ==> {
                    &&& (#[trigger] c.entries[i]).path == lossy_text(scanned[i].path)
                    &&& c.entries[i].size == scanned[i].size
                    &&& c.entries[i].modified_unix_secs == scanned[i].modified_unix_secs
                }
        },
        cached_tracks(bytes, scanned) matches Some(list) ==> {
            &&& list.len() == c.entries.len()
            &&& forall|i: int|
                0 <= i < list.len() ==> {
                    &&& (#[trigger] list[i]).path == encode_utf8(c.entries[i].path)
                    &&& list[i].title == c.entries[i].title
                    &&& list[i].artist == c.entries[i].artist
                    &&& list[i].album == c.entries[i].album
                    &&& list[i].lyrics == c.entries[i].lyrics
                    &&& list[i].art_png == c.entries[i].art_png
                }
        },
{
}

/// One file that is not what it was, one more or one less, and the cache is not taken: the tags
/// are read anew. Nor is a file taken that is no cache.
pub proof fn lemma_cache_stale(bytes: Seq<u8>, scanned: Seq<ScannedView>, c: CacheView, i: int)
    requires
        cache_of(bytes) == Some(c),
    ensures
        c.version != 3 ==> cached_tracks(bytes, scanned) is None,
        c.entries.len() != scanned.len() ==> cached_tracks(bytes, scanned) is None,
        0 <= i < scanned.len() && c.entries[i].path != lossy_text(scanned[i].path)
            ==> cached_tracks(bytes, scanned) is None,
        0 <= i < scanned.len() && c.entries[i].size != scanned[i].size ==> cached_tracks(
            bytes,
            scanned,
        ) is None,
        0 <= i < scanned.len() && c.entries[i].modified_unix_secs
            != scanned[i].modified_unix_secs ==> cached_tracks(bytes, scanned) is None,
{
}

/// Bytes that hold no cache give no tracks.
pub proof fn lemma_no_cache(bytes: Seq<u8>, scanned: Seq<ScannedView>)
    requires
        cache_of(bytes) is None,
    ensures
        cached_tracks(bytes, scanned) is None,
{
}

/// What is written of a playlist is, in order, for each file its path as text, its size and the
/// second of its last change as they were scanned, and the texts and the art of the track that
/// is at that path.
pub proof fn lemma_cache_written(
    playlist: Seq<u8>,
    scanned: Seq<ScannedView>,
    tracks: Seq<TrackView>,
)
    requires
        cache_bytes(cache_for(playlist, scanned, tracks)).len() <= u64::MAX,
    ensures
        cache_of(cache_bytes(cache_for(playlist, scanned, tracks))) matches Some(c) && {
            &&& c.version == 3
            &&& c.playlist == lossy_text(playlist)
            &&& c.entries.len() == scanned.len()
            &&& forall|i: int|
                0 <= i < scanned.len() ==> {
                    let e = #[trigger] c.entries[i];
                    let t = tracks[position_of(tracks, scanned[i].path)->0];
                    &&& e.path == lossy_text(scanned[i].path)
                    &&& e.size == scanned[i].size
                    &&& e.modified_unix_secs == scanned[i].modified_unix_secs
                    &&& e.title == t.title
                    &&& e.artist == t.artist
                    &&& e.album == t.album
                    &&& e.lyrics == t.lyrics
                    &&& e.art_png == t.art_png
                }
        },
{
    let cache = cache_for(playlist, scanned, tracks);
    lemma_storable_cache(cache);
    lemma_cache_round_trip(cache);
}

/// The cache of one start is taken at the next if and only if the same files are found, each
/// with the size and the second of the last change that it had: touching, replacing, adding,
/// removing or renaming a file makes it out of date.
pub proof fn lemma_rescan(
    playlist: Seq<u8>,
    scanned: Seq<ScannedView>,
    tracks: Seq<TrackView>,
    later: Seq<ScannedView>,
)
    requires
        cache_bytes(cache_for(playlist, scanned, tracks)).len() <= u64::MAX,
    ensures
        cached_tracks(cache_bytes(cache_for(playlist, scanned, tracks)), later) is Some <==> {
            &&& later.len() == scanned.len()
            &&& forall|i: int|
                0 <= i < later.len() ==> {
                    &&& lossy_text((#[trigger] later[i]).path) == lossy_text(scanned[i].path)
                    &&& later[i].size == scanned[i].size
                    &&& later[i].modified_unix_secs == scanned[i].modified_unix_secs
                }
        },
{
    let cache = cache_for(playlist, scanned, tracks);
    lemma_storable_cache(cache);
    lemma_cache_round_trip(cache);
    lemma_cache_taken(cache_bytes(cache), later, cache);
    if later.len() == scanned.len() && (forall|i: int|
        0 <= i < later.len() ==> {
            &&& lossy_text((#[trigger] later[i]).path) == lossy_text(scanned[i].path)
            &&& later[i].size == scanned[i].size
            &&& later[i].modified_unix_secs == scanned[i].modified_unix_secs
        }) {
        assert forall|i: int| 0 <= i < later.len() implies {
            &&& (#[trigger] cache.entries[i]).path == lossy_text(later[i].path)
            &&& cache.entries[i].size == later[i].size
            &&& cache.entries[i].modified_unix_secs == later[i].modified_unix_secs
        } by {
            assert(lossy_text(later[i].path) == lossy_text(scanned[i].path));
        }
    }
    if cached_tracks(cache_bytes(cache), later) is Some {
        assert forall|i: int| 0 <= i < later.len() implies {
            &&& lossy_text((#[trigger] later[i]).path) == lossy_text(scanned[i].path)
            &&& later[i].size == scanned[i].size
            &&& later[i].modified_unix_secs == scanned[i].modified_unix_secs
        } by {
            assert(cache.entries[i].path == lossy_text(later[i].path));
        }
    }
}

/// What is written of the player is the playlist and the track that it is at, as text.
pub proof fn lemma_resume_written(s: PlayerView)
    requires
        resume_bytes(resume_for(s)).len() <= u64::MAX,
    ensures
        resume_of(resume_bytes(resume_for(s))) matches Some(r) && {
            &&& r.version == 1
            &&& r.playlist == lossy_text(s.playlist_path)
            &&& r.last_track_path == lossy_text(s.tracks[s.current].path)
        },
{
    lemma_storable_resume(resume_for(s));
    lemma_resume_round_trip(resume_for(s));
}

/// The player goes to the first track at the path that is stored, with the cursor, and nothing
/// else of it changes. It stays where it is where nothing is stored, where what is stored is of
/// another format, and where there is no such track.
pub proof fn lemma_restored(s: PlayerView, bytes: Seq<u8>, i: int)
    ensures
        restored(s, None) == s,
        resume_of(bytes) is None ==> restored(s, Some(bytes)) == s,
        resume_of(bytes) matches Some(r) ==> {
            let path = encode_utf8(r.last_track_path);
            &&& r.version != 1 ==> restored(s, Some(bytes)) == s
            &&& (forall|k: int|
                0 <= k < s.tracks.len() ==> !same_path(#[trigger] s.tracks[k].path, path))
                ==> restored(s, Some(bytes)) == s
            &&& r.version == 1 && 0 <= i < s.tracks.len() && same_path(s.tracks[i].path, path) && (
            forall|k: int| 0 <= k < i ==> !same_path(#[trigger] s.tracks[k].path, path))
                ==> restored(s, Some(bytes)) == (PlayerView { current: i, selected: i, ..s })
        },
{
    if resume_of(bytes) is Some {
        let path = encode_utf8(resume_of(bytes)->0.last_track_path);
        lemma_position_of(s.tracks, path);
        let found = position_of(s.tracks, path);
        if found is Some && 0 <= i < s.tracks.len() && same_path(s.tracks[i].path, path) {
            let at = found->0;
            if at < i {
                assert(same_path(s.tracks[at].path, path));
            }
        }
    }
}

/// The player goes on where it was left: what was saved of it takes any playlist that still has
/// the track, in whatever order, to that track, and changes nothing else. The path of the track
/// is text: that is how it is stored.
pub proof fn lemma_resume(s: PlayerView, later: PlayerView)
    requires
        s.has_current(),
        valid_utf8(s.tracks[s.current].path),
        resume_bytes(resume_for(s)).len() <= u64::MAX,
        position_of(later.tracks, s.tracks[s.current].path) is Some,
    ensures
        ({
            let path = s.tracks[s.current].path;
            let resumed = restored(later, Some(resume_bytes(resume_for(s))));
            let at = position_of(later.tracks, path)->0;
            &&& resumed == (PlayerView { current: at, selected: at, ..later })
            &&& resumed.wf()
            &&& same_path(resumed.tracks[resumed.current].path, path)
        }),
{
    broadcast use decode_utf8_encode_utf8;

    lemma_storable_resume(resume_for(s));
    lemma_resume_round_trip(resume_for(s));
    lemma_position_of(later.tracks, s.tracks[s.current].path);
}

/// Hexadecimal digits are what they are called.
pub proof fn lemma_hex_chars(bytes: Seq<u8>)
    ensures
        forall|i: int|
            0 <= i < hex(bytes).len() ==> {
                let c = #[trigger] hex(bytes)[i];
                '0' <= c <= '9' || 'a' <= c <= 'f'
            },
{
    assert forall|i: int| 0 <= i < hex(bytes).len() implies {
        let c = #[trigger] hex(bytes)[i];
        '0' <= c <= '9' || 'a' <= c <= 'f'
    } by {
        let b = bytes[i / 2] as int;
        assert(0 <= b / 16 < 16 && 0 <= b % 16 < 16);
    }
}

/// Bytes can be told from their hexadecimal digits.
pub proof fn lemma_hex_injective(a: Seq<u8>, b: Seq<u8>)
    requires
        hex(a) == hex(b),
    ensures
        a == b,
{
    assert(hex(a).len() == 2 * a.len() && hex(b).len() == 2 * b.len());
    assert forall|i: int| 0 <= i < a.len() implies a[i] == b[i] by {
        let x = a[i] as int;
        let y = b[i] as int;
        assert((2 * i) / 2 == i && (2 * i) % 2 == 0);
        assert((2 * i + 1) / 2 == i && (2 * i + 1) % 2 == 1);
        assert(hex(a)[2 * i] == hex_digit(x / 16) && hex(b)[2 * i] == hex_digit(y / 16));
        assert(hex(a)[2 * i + 1] == hex_digit(x % 16) && hex(b)[2 * i + 1] == hex_digit(y % 16));
        assert(0 <= x / 16 < 16 && 0 <= x % 16 < 16 && 0 <= y / 16 < 16 && 0 <= y % 16 < 16);
        assert(x == 16 * (x / 16) + x % 16);
        assert(y == 16 * (y / 16) + y % 16);
        lemma_hex_digit(x / 16, y / 16);
        lemma_hex_digit(x % 16, y % 16);
    }
    assert(a =~= b);
}

proof fn lemma_hex_digit(d: int, e: int)
    requires
        0 <= d < 16,
        0 <= e < 16,
        hex_digit(d) == hex_digit(e),
    ensures
        d == e,
{
}

/// A plain file name, joined to a directory, can be told from the path.
pub proof fn lemma_join_name(dir: Seq<u8>, a: Seq<char>, b: Seq<char>)
    requires
        is_ascii_chars(a),
        is_ascii_chars(b),
        a.len() > 0,
        b.len() > 0,
        a[0] != '/',
        b[0] != '/',
        joined(dir, encode_utf8(a)) == joined(dir, encode_utf8(b)),
    ensures
        a == b,
{
    broadcast use encode_utf8_decode_utf8;

    is_ascii_chars_encode_utf8(a);
    is_ascii_chars_encode_utf8(b);
    let x = encode_utf8(a);
    let y = encode_utf8(b);
    assert(x[0] == a[0] as u8 && y[0] == b[0] as u8);
    assert(x[0] != SLASH && y[0] != SLASH);
    let base = if dir.len() == 0 || dir.last() == SLASH {
        dir
    } else {
        dir.push(SLASH)
    };
    assert(joined(dir, x) == base + x);
    assert(joined(dir, y) == base + y);
    assert((base + x).skip(base.len() as int) =~= x);
    assert((base + y).skip(base.len() as int) =~= y);
    assert(decode_utf8(x) == a && decode_utf8(y) == b);
}

/// Two playlists have the same key only if they are known by the same path.
pub proof fn lemma_key_injective(
    a: Seq<u8>,
    canonical_a: Option<FilePath>,
    b: Seq<u8>,
    canonical_b: Option<FilePath>,
)
    requires
        cache_key(a, canonical_a) == cache_key(b, canonical_b),
    ensures
        lossy_text(known_path(a, canonical_a)) == lossy_text(known_path(b, canonical_b)),
{
    broadcast use encode_utf8_decode_utf8;

    let ta = lossy_text(known_path(a, canonical_a));
    let tb = lossy_text(known_path(b, canonical_b));
    lemma_hex_injective(encode_utf8(ta), encode_utf8(tb));
    assert(decode_utf8(encode_utf8(ta)) == decode_utf8(encode_utf8(tb)));
}

/// Every playlist has files of its own: two playlists share a cache file only if they are known
/// by the same path, and likewise a resume file; and no cache file is ever a resume file.
pub proof fn lemma_files_apart(
    a: Seq<u8>,
    canonical_a: Option<FilePath>,
    b: Seq<u8>,
    canonical_b: Option<FilePath>,
    dirs: SystemDirs,
)
    ensures
        cache_file(a, canonical_a, dirs) == cache_file(b, canonical_b, dirs) <==> lossy_text(
            known_path(a, canonical_a),
        ) == lossy_text(known_path(b, canonical_b)),
        resume_file(a, canonical_a, dirs) == resume_file(b, canonical_b, dirs) <==> lossy_text(
            known_path(a, canonical_a),
        ) == lossy_text(known_path(b, canonical_b)),
        cache_file(a, canonical_a, dirs) != resume_file(b, canonical_b, dirs),
{
    reveal_strlit(".pb");
    reveal_strlit(".resume.pb");
    let ta = lossy_text(known_path(a, canonical_a));
    let tb = lossy_text(known_path(b, canonical_b));
    let ka = cache_key(a, canonical_a);
    let kb = cache_key(b, canonical_b);
    lemma_hex_chars(encode_utf8(ta));
    lemma_hex_chars(encode_utf8(tb));
    if ka == kb {
        lemma_key_injective(a, canonical_a, b, canonical_b);
    }
    let dir = app_dir(dirs);
    if cache_file(a, canonical_a, dirs) == cache_file(b, canonical_b, dirs) {
        let x = ka + ".pb"@;
        let y = kb + ".pb"@;
        lemma_join_name(dir, x, y);
        assert(x.len() == y.len());
        assert(x.take(ka.len() as int) =~= ka);
        assert(y.take(kb.len() as int) =~= kb);
        lemma_key_injective(a, canonical_a, b, canonical_b);
    }
    if resume_file(a, canonical_a, dirs) == resume_file(b, canonical_b, dirs) {
        let x = ka + ".resume.pb"@;
        let y = kb + ".resume.pb"@;
        lemma_join_name(dir, x, y);
        assert(x.len() == y.len());
        assert(x.take(ka.len() as int) =~= ka);
        assert(y.take(kb.len() as int) =~= kb);
        lemma_key_injective(a, canonical_a, b, canonical_b);
    }
    if cache_file(a, canonical_a, dirs) == resume_file(b, canonical_b, dirs) {
        let x = ka + ".pb"@;
        let y = kb + ".resume.pb"@;
        lemma_join_name(dir, x, y);
        assert(x.len() == y.len());
        assert(y[kb.len() as int] == '.');
        assert(x[kb.len() as int] == ka[kb.len() as int]);
    }
}

/// The number that a hexadecimal digit stands for.
pub open spec fn hex_value(c: char) -> int {
    if '0' <= c <= '9' {
        c as int - 48
    } else {
        c as int - 87
    }
}

/// The files kept for a playlist are named after the bytes of the path that it is known by: two
/// digits for each byte, the higher one first.
pub proof fn lemma_key_digits(path: Seq<u8>, canonical: Option<FilePath>, i: int)
    requires
        ({
            let known = match canonical {
                Some(c) => c.bytes@,
                None => path,
            };
            0 <= i < encode_utf8(lossy_text(known)).len()
        }),
    ensures
        ({
            let known = match canonical {
                Some(c) => c.bytes@,
                None => path,
            };
            let bytes = encode_utf8(lossy_text(known));
            let key = cache_key(path, canonical);
            &&& key.len() == 2 * bytes.len()
            &&& 16 * hex_value(key[2 * i]) + hex_value(key[2 * i + 1]) == bytes[i]
            &&& 0 <= hex_value(key[2 * i]) < 16
            &&& 0 <= hex_value(key[2 * i + 1]) < 16
        }),
{
    let known = match canonical {
        Some(c) => c.bytes@,
        None => path,
    };
    let bytes = encode_utf8(lossy_text(known));
    let key = cache_key(path, canonical);
    let b = bytes[i] as int;
    assert((2 * i) / 2 == i && (2 * i) % 2 == 0);
    assert((2 * i + 1) / 2 == i && (2 * i + 1) % 2 == 1);
    assert(key[2 * i] == hex_digit(b / 16) && key[2 * i + 1] == hex_digit(b % 16));
    assert(0 <= b / 16 < 16 && 0 <= b % 16 < 16);
    assert(b == 16 * (b / 16) + b % 16);
}

/// Caches are kept in the directory that is named for them; where none is, in `.cache` of the
/// home directory; and where there is none either, in the directory for temporary files.
pub proof fn lemma_cache_root(dirs: SystemDirs)
    ensures
        dirs.xdg_cache_home matches Some(dir) ==> root_of(dirs) == dir.bytes@,
        dirs.xdg_cache_home is None && dirs.home is Some ==> parts(root_of(dirs)) == parts(
            dirs.home->0.bytes@,
        ).push(Part::Name(encode_utf8(".cache"@))),
        dirs.xdg_cache_home is None && dirs.home is None ==> root_of(dirs) == dirs.temp_dir.bytes@,
{
    if dirs.xdg_cache_home is None && dirs.home is Some {
        reveal_strlit(".cache");
        lemma_ascii_name(".cache"@);
        lemma_joined(dirs.home->0.bytes@, encode_utf8(".cache"@));
    }
}

/// A name of ASCII characters that has more than two, and no separator, is the name of a file.
pub proof fn lemma_ascii_name(name: Seq<char>)
    requires
        is_ascii_chars(name),
        name.len() > 2,
        forall|i: int| 0 <= i < name.len() ==> #[trigger] name[i] != '/',
    ensures
        plain_name(encode_utf8(name)),
        encode_utf8(name).len() == name.len(),
{
    is_ascii_chars_encode_utf8(name);
    let bytes = encode_utf8(name);
    assert forall|i: int| 0 <= i < bytes.len() implies #[trigger] bytes[i] != 47 by {
        assert(name[i] != '/');
        assert(bytes[i] == name[i] as u8);
    }
    assert(seq![46u8].len() == 1 && seq![46u8, 46u8].len() == 2);
}

/// The cache of a playlist is in the player's own directory among the caches, under the name of
/// the playlist with the ending `.pb`, and what was played last is beside it, with the ending
/// `.resume.pb`.
pub proof fn lemma_kept_files(path: Seq<u8>, canonical: Option<FilePath>, dirs: SystemDirs)
    ensures
        ({
            let dir = parts(root_of(dirs)).push(Part::Name(encode_utf8("bu-rust-mp3"@)));
            let key = cache_key(path, canonical);
            &&& parts(cache_file(path, canonical, dirs)) == dir.push(
                Part::Name(encode_utf8(key + ".pb"@)),
            )
            &&& parts(resume_file(path, canonical, dirs)) == dir.push(
                Part::Name(encode_utf8(key + ".resume.pb"@)),
            )
            &&& parts(app_dir(dirs)) == dir
        }),
{
    reveal_strlit("bu-rust-mp3");
    reveal_strlit(".pb");
    reveal_strlit(".resume.pb");
    let key = cache_key(path, canonical);
    lemma_hex_chars(encode_utf8(lossy_text(known_path(path, canonical))));
    lemma_ascii_name("bu-rust-mp3"@);
    lemma_joined(root_of(dirs), encode_utf8("bu-rust-mp3"@));
    let a = key + ".pb"@;
    let b = key + ".resume.pb"@;
    assert forall|i: int| 0 <= i < a.len() implies #[trigger] a[i] != '/' by {
        if i < key.len() {
            assert(a[i] == key[i]);
        }
    }
    assert forall|i: int| 0 <= i < b.len() implies #[trigger] b[i] != '/' by {
        if i < key.len() {
            assert(b[i] == key[i]);
        }
    }
    lemma_ascii_name(a);
    lemma_ascii_name(b);
    lemma_joined(app_dir(dirs), encode_utf8(a));
    lemma_joined(app_dir(dirs), encode_utf8(b));
}

/// What was found of a playlist stands for the tracks that it holds.
pub proof fn lemma_found_tracks(tracks: Option<Vec<Track>>)
    ensures
        tracks is None <==> opt_tracks(tracks) is None,
        tracks matches Some(list) ==> opt_tracks(tracks)->0.len() == list@.len(),
        tracks matches Some(list) ==> forall|i: int|
            0 <= i < list@.len() ==> #[trigger] opt_tracks(tracks)->0[i] == list@[i]@,
{
}

} // verus!

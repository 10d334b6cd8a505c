use bu_mp3::cache::{
    cache_root, encode_cache_key, load_cached_tracks, playlist_cache_path,
    restore_last_played_index, resume_state_path, save_playlist_cache, save_resume_state, CacheFile,
    SystemDirs,
};
use bu_mp3::app::start_player;
use bu_mp3::metadata::build_tracks_from_scan;
use bu_mp3::models::{Args, PlayerState, ScannedTrack, SortKey, TagData, Track};
use bu_mp3::path::FilePath;
use bu_mp3::playlist::find_track;
use bu_mp3::records::{CachedTrack, PlaylistCache, ResumeState};
use bu_mp3::wire::{get_fields, put_bytes, put_number, RawValue};

fn path(text: &str) -> FilePath {
    FilePath::from_text(text)
}

fn track(p: &str) -> Track {
    Track { path: path(p), title: None, artist: None, album: None, lyrics: None, art_png: None }
}

fn args(sort: SortKey) -> Args {
    Args { path: path("music"), sort, reverse: false }
}

fn scanned(p: &str, size: u64, modified_unix_secs: u64) -> ScannedTrack {
    ScannedTrack { path: path(p), size, modified_unix_secs }
}

fn player(names: &[&str]) -> PlayerState {
    start_player(&args(SortKey::Path), names.iter().map(|n| track(n)).collect(), false)
}

fn some(text: &str) -> Option<String> {
    Some(text.to_string())
}

fn entry() -> CachedTrack {
    CachedTrack {
        path: "a.mp3".to_string(),
        size: 5,
        modified_unix_secs: 300,
        title: some("T"),
        artist: None,
        album: some(""),
        lyrics: None,
        art_png: Some(vec![0, 255]),
    }
}

const ENTRY: [u8; 21] = [
    0x0a, 5, b'a', b'.', b'm', b'p', b'3', 0x10, 5, 0x18, 0xac, 2, 0x22, 1, b'T', 0x32, 0, 0x42, 2,
    0, 255,
];

#[test]
fn entries_are_written_field_by_field() {
    assert_eq!(entry().encode(), ENTRY);
    let back = CachedTrack::decode(&ENTRY).unwrap();
    assert_eq!(back.path, "a.mp3");
    assert_eq!((back.size, back.modified_unix_secs), (5, 300));
    assert_eq!((back.title, back.artist, back.album), (some("T"), None, some("")));
    assert_eq!((back.lyrics, back.art_png), (None, Some(vec![0, 255])));
}

#[test]
fn caches_are_written_with_their_entries() {
    let cache = PlaylistCache { version: 3, playlist: "p".to_string(), entries: vec![entry()] };
    let mut want = vec![8, 3, 0x12, 1, b'p', 0x1a, 21];
    want.extend_from_slice(&ENTRY);
    assert_eq!(cache.encode(), want);
    let back = PlaylistCache::decode(&want).unwrap();
    assert_eq!((back.version, back.playlist.as_str(), back.entries.len()), (3, "p", 1));
    assert_eq!(back.entries[0].encode(), ENTRY);
}

#[test]
fn resume_states_are_written() {
    let resume = ResumeState {
        version: 1,
        playlist: "p".to_string(),
        last_track_path: "a".to_string(),
    };
    assert_eq!(resume.encode(), [8, 1, 0x12, 1, b'p', 0x1a, 1, b'a']);
    let empty = ResumeState {
        version: 0,
        playlist: String::new(),
        last_track_path: String::new(),
    };
    assert_eq!(empty.encode(), [0u8; 0]);
    let back = ResumeState::decode(&[]).unwrap();
    assert_eq!((back.version, back.playlist.as_str(), back.last_track_path.as_str()), (0, "", ""));
}

#[test]
fn later_fields_win_and_unknown_fields_are_skipped() {
    let bytes = [
        0x1a, 1, b'x', // the path
        0x20, 7, // a field that is not known
        0x2b, 0x08, 1, 0x2c, // a group
        0x35, 1, 2, 3, 4, // four bytes
        0x39, 1, 2, 3, 4, 5, 6, 7, 8, // eight bytes
        0x1a, 1, b'y', // the path again
        8, 0x81, 0x80, 0x80, 0x80, 0x10, // a number of more than 32 bits
    ];
    let back = ResumeState::decode(&bytes).unwrap();
    assert_eq!(back.last_track_path, "y");
    assert_eq!(back.version, 1);
}

#[test]
fn broken_bytes_are_refused() {
    for bytes in [
        &[8u8][..],                       // no value
        &[0x12, 2, b'p'][..],             // too short
        &[0x12, 1, 0xff][..],             // no text
        &[0x0a, 1, 0][..],                // bytes where a number belongs
        &[0x10, 1][..],                   // a number where a text belongs
        &[0, 1][..],                      // field number zero
        &[0x0f, 1][..],                   // no such kind of value
        &[0x2b, 0x08, 1][..],             // a group without an end
        &[0x2c][..],                      // the end of no group
        &[8, 255, 255, 255, 255, 255, 255, 255, 255, 255, 2][..], // more than 64 bits
    ] {
        assert!(ResumeState::decode(bytes).is_none(), "{:?}", bytes);
    }
}

#[test]
fn fields_are_put_and_got() {
    let mut out: Vec<u8> = vec![];
    put_number(1, 300, &mut out);
    put_bytes(2, &[9, 8], &mut out);
    assert_eq!(out, [8, 0xac, 2, 0x12, 2, 9, 8]);
    let fields = get_fields(&out, 100).unwrap();
    assert_eq!(fields.len(), 2);
    assert_eq!((fields[0].tag, fields[1].tag), (1, 2));
    assert!(matches!(fields[0].value, RawValue::Number(300)));
    assert!(matches!(&fields[1].value, RawValue::Bytes(b) if b == &[9, 8]));
    let mut out: Vec<u8> = vec![];
    put_number(1, u64::MAX, &mut out);
    assert_eq!(out, [8, 255, 255, 255, 255, 255, 255, 255, 255, 255, 1]);
    assert!(matches!(get_fields(&out, 100).unwrap()[0].value, RawValue::Number(u64::MAX)));
}

#[test]
fn saved_tracks_come_back() {
    let files = vec![scanned("m/a.mp3", 1, 2), scanned("m/b.mp3", 3, 4)];
    let tags = vec![
        Some(TagData {
            title: some("Zed"),
            artist: some("who"),
            album: some("it"),
            lyrics: vec!["la\nla".to_string()],
            pictures: vec![],
        }),
        None,
    ];
    let tracks = build_tracks_from_scan(&files, &tags, SortKey::Title, false, &vec![]);
    let bytes = save_playlist_cache(&path("m"), &files, &tracks);
    let back = load_cached_tracks(
        &path("c.pb"),
        &CacheFile::Bytes(bytes),
        &args(SortKey::Title),
        &files,
        &vec![],
    );
    let back = back.ok().unwrap().unwrap();
    assert_eq!(back.len(), 2);
    for (a, b) in back.iter().zip(&tracks) {
        assert_eq!(a.path.bytes, b.path.bytes);
        assert_eq!(a.title, b.title);
        assert_eq!(a.artist, b.artist);
        assert_eq!(a.album, b.album);
        assert_eq!(a.lyrics, b.lyrics);
        assert_eq!(a.art_png, b.art_png);
    }
}

#[test]
fn a_cache_gives_back_the_tracks_of_the_scanned_files() {
    let odd = FilePath { bytes: b"c\xff".to_vec() };
    let mut files = vec![scanned("b.mp3", 3, 4), scanned("a.mp3", 1, 2), scanned("x", 5, 6)];
    files[2].path = odd.clone();
    let mut tracks = vec![track("a.mp3"), track("extra.mp3"), track("b.mp3"), track("x")];
    tracks[2].title = some("B");
    tracks[3].path = odd;
    tracks[3].title = some("odd");
    let bytes = save_playlist_cache(&path("m"), &files, &tracks);
    let file = CacheFile::Bytes(bytes);
    let back = load_cached_tracks(&path("c.pb"), &file, &args(SortKey::Path), &files, &vec![]);
    let back = back.ok().unwrap().unwrap();
    let names: Vec<String> = back.iter().map(|t| t.path.lossy()).collect();
    assert_eq!(names, ["a.mp3", "b.mp3", "c\u{fffd}"]);
    assert_eq!(back[2].path.bytes, "c\u{fffd}".as_bytes());
    assert_eq!((&back[0].title, &back[1].title), (&None, &some("B")));
    assert_eq!(back[2].title, some("odd"));
}

#[test]
fn a_cache_of_changed_files_is_not_taken() {
    let files = vec![scanned("a.mp3", 1, 2), scanned("b.mp3", 3, 4)];
    let bytes = save_playlist_cache(&path("m"), &files, &vec![track("b.mp3"), track("a.mp3")]);
    let taken = |files: &Vec<ScannedTrack>, bytes: Vec<u8>| {
        let file = CacheFile::Bytes(bytes);
        load_cached_tracks(&path("c.pb"), &file, &args(SortKey::Path), files, &vec![])
            .ok()
            .unwrap()
            .is_some()
    };
    assert!(taken(&files, bytes.clone()));
    assert!(!taken(&vec![scanned("a.mp3", 1, 2)], bytes.clone()));
    assert!(!taken(&vec![scanned("a.mp3", 9, 2), scanned("b.mp3", 3, 4)], bytes.clone()));
    assert!(!taken(&vec![scanned("a.mp3", 1, 9), scanned("b.mp3", 3, 4)], bytes.clone()));
    assert!(!taken(&vec![scanned("a.mp3", 1, 2), scanned("c.mp3", 3, 4)], bytes.clone()));
    assert!(!taken(&vec![scanned("b.mp3", 3, 4), scanned("a.mp3", 1, 2)], bytes.clone()));
    let mut other = bytes.clone();
    other[1] = 2;
    assert!(!taken(&files, other));
    assert!(!taken(&files, vec![8]));
}

#[test]
fn a_missing_cache_is_no_error_but_an_unreadable_one_is() {
    let files = vec![scanned("a.mp3", 1, 2)];
    let a = args(SortKey::Path);
    let at = path("/x/c.pb");
    assert!(matches!(load_cached_tracks(&at, &CacheFile::Missing, &a, &files, &vec![]), Ok(None)));
    let error = load_cached_tracks(&at, &CacheFile::Unreadable, &a, &files, &vec![]).err().unwrap();
    assert_eq!(error.path.bytes, b"/x/c.pb");
    assert_eq!(error.message(), "read cache /x/c.pb");
    let odd = FilePath { bytes: b"c\xff".to_vec() };
    let error = load_cached_tracks(&odd, &CacheFile::Unreadable, &a, &files, &vec![]).err().unwrap();
    assert_eq!(error.message(), "read cache c\u{fffd}");
}

#[test]
fn cached_tracks_are_sorted_by_time() {
    let files = vec![scanned("a.mp3", 1, 2), scanned("b.mp3", 3, 4)];
    let bytes = save_playlist_cache(&path("m"), &files, &vec![track("a.mp3"), track("b.mp3")]);
    let file = CacheFile::Bytes(bytes);
    let a = args(SortKey::Mtime);
    let tracks = load_cached_tracks(&path("c.pb"), &file, &a, &files, &vec![7, 5]);
    let tracks = tracks.ok().unwrap().unwrap();
    assert_eq!(tracks[0].path.lossy(), "b.mp3");
}

fn dirs(xdg: Option<&str>, home: Option<&str>) -> SystemDirs {
    SystemDirs { xdg_cache_home: xdg.map(path), home: home.map(path), temp_dir: path("/tmp") }
}

#[test]
fn caches_are_kept_where_the_system_says() {
    assert_eq!(cache_root(&dirs(Some("/x"), Some("/h"))).lossy(), "/x");
    assert_eq!(cache_root(&dirs(None, Some("/h"))).lossy(), "/h/.cache");
    assert_eq!(cache_root(&dirs(None, None)).lossy(), "/tmp");
}

#[test]
fn files_are_named_after_the_playlist() {
    assert_eq!(encode_cache_key(&path("/aü"), &None), "2f61c3bc");
    assert_eq!(encode_cache_key(&path("x"), &Some(path("/m"))), "2f6d");
    let d = dirs(Some("/x"), None);
    assert_eq!(playlist_cache_path(&path("a"), &None, &d).lossy(), "/x/bu-rust-mp3/61.pb");
    assert_eq!(resume_state_path(&path("a"), &None, &d).lossy(), "/x/bu-rust-mp3/61.resume.pb");
}

#[test]
fn the_player_goes_on_where_it_was_left() {
    let mut left = player(&["a", "b", "c"]);
    left.current = 1;
    let bytes = save_resume_state(&left);
    let mut later = player(&["c", "x", "b"]);
    restore_last_played_index(&mut later, &Some(bytes.clone()));
    assert_eq!((later.current, later.selected), (2, 2));
    let mut gone = player(&["a", "c"]);
    gone.current = 1;
    restore_last_played_index(&mut gone, &Some(bytes));
    assert_eq!((gone.current, gone.selected), (1, 0));
}

#[test]
fn a_resume_file_that_says_nothing_changes_nothing() {
    let mut state = player(&["a", "b"]);
    restore_last_played_index(&mut state, &None);
    restore_last_played_index(&mut state, &Some(vec![8]));
    let other = ResumeState {
        version: 2,
        playlist: String::new(),
        last_track_path: "b".to_string(),
    };
    restore_last_played_index(&mut state, &Some(other.encode()));
    assert_eq!((state.current, state.selected), (0, 0));
}

#[test]
fn tracks_are_found_by_their_paths() {
    let tracks = vec![track("a/b"), track("x"), track("a//b/")];
    assert_eq!(find_track(&tracks, &path("a/./b")), Some(0));
    assert_eq!(find_track(&tracks, &path("x")), Some(1));
    assert_eq!(find_track(&tracks, &path("y")), None);
}

use bu_mp3::metadata::{
    borrow, build_tracks_from_scan, choose_picture, clean_opt, extract_cover_png, extract_lyrics,
    meta_key, read_meta, sort_key_label, sort_tracks,
};
use bu_mp3::models::{Picture, ScannedTrack, SortKey, TagData, Track};
use bu_mp3::order::{arrange, rank_before, sort_numbers, RankValue};
use bu_mp3::path::FilePath;
use std::path::Path;

fn track(path: &str, title: Option<&str>, artist: Option<&str>, album: Option<&str>) -> Track {
    Track {
        path: FilePath::from_text(path),
        title: title.map(|s| s.to_string()),
        artist: artist.map(|s| s.to_string()),
        album: album.map(|s| s.to_string()),
        lyrics: None,
        art_png: None,
    }
}

fn paths(tracks: &[Track]) -> Vec<String> {
    tracks.iter().map(|t| t.path.lossy()).collect()
}

fn tag() -> TagData {
    TagData { title: None, artist: None, album: None, lyrics: vec![], pictures: vec![] }
}

/// A bitmap of two pixels: blue, then red.
fn bitmap() -> Vec<u8> {
    let mut b: Vec<u8> = vec![b'B', b'M', 62, 0, 0, 0, 0, 0, 0, 0, 54, 0, 0, 0];
    b.extend_from_slice(&[40, 0, 0, 0, 2, 0, 0, 0, 1, 0, 0, 0, 1, 0, 24, 0]);
    b.extend_from_slice(&[0, 0, 0, 0, 8, 0, 0, 0, 0, 0, 0, 0, 0, 0, 0, 0, 0, 0, 0, 0, 0, 0, 0, 0]);
    b.extend_from_slice(&[255, 0, 0, 0, 0, 255, 0, 0]);
    b
}

fn sample() -> Vec<Track> {
    vec![
        track("m/b.mp3", Some("beta"), Some("Zoe"), None),
        track("m/a.mp3", None, Some("amy"), Some("Last")),
        track("k/C.mp3", Some("Alpha"), None, Some("first")),
    ]
}

#[test]
fn tracks_sort_by_each_key() {
    let none: Vec<i128> = vec![];
    for (key, want) in [
        (SortKey::Path, ["k/C.mp3", "m/a.mp3", "m/b.mp3"]),
        (SortKey::Name, ["m/a.mp3", "m/b.mp3", "k/C.mp3"]),
        (SortKey::Title, ["m/a.mp3", "k/C.mp3", "m/b.mp3"]),
        (SortKey::Artist, ["m/a.mp3", "k/C.mp3", "m/b.mp3"]),
        (SortKey::Album, ["m/b.mp3", "k/C.mp3", "m/a.mp3"]),
    ] {
        let mut tracks = sample();
        sort_tracks(&mut tracks, key, false, &none);
        assert_eq!(paths(&tracks), want, "{:?}", key);
        let mut tracks = sample();
        sort_tracks(&mut tracks, key, true, &none);
        let mut back = want.to_vec();
        back.reverse();
        assert_eq!(paths(&tracks), back, "{:?}", key);
    }
}

#[test]
fn tracks_sort_by_time() {
    let mut tracks = sample();
    sort_tracks(&mut tracks, SortKey::Mtime, false, &vec![5, -3, 5]);
    assert_eq!(paths(&tracks), ["m/a.mp3", "m/b.mp3", "k/C.mp3"]);
}

#[test]
fn equal_ranks_stay_as_they_came_and_reversing_turns_them_round() {
    let list = || {
        vec![
            track("1", Some("same"), None, None),
            track("2", Some("SAME"), None, None),
            track("3", Some(" same "), None, None),
        ]
    };
    let none: Vec<i128> = vec![];
    let mut tracks = list();
    sort_tracks(&mut tracks, SortKey::Title, false, &none);
    assert_eq!(paths(&tracks), ["1", "2", "3"]);
    sort_tracks(&mut tracks, SortKey::Title, false, &none);
    assert_eq!(paths(&tracks), ["1", "2", "3"]);
    sort_tracks(&mut tracks, SortKey::Title, true, &none);
    assert_eq!(paths(&tracks), ["3", "2", "1"]);
    sort_tracks(&mut tracks, SortKey::Title, true, &none);
    assert_eq!(paths(&tracks), ["1", "2", "3"]);
}

#[test]
fn sorting_either_way_first_makes_no_difference_with_distinct_ranks() {
    let none: Vec<i128> = vec![];
    let mut once = sample();
    sort_tracks(&mut once, SortKey::Title, false, &none);
    let mut both = sample();
    sort_tracks(&mut both, SortKey::Title, true, &none);
    sort_tracks(&mut both, SortKey::Title, false, &none);
    assert_eq!(paths(&once), paths(&both));
}

#[test]
fn paths_sort_as_the_standard_library_sorts_them() {
    let names = [
        "b", "a/b", "a", "a.b", "a/../c", "/z", "../x", "./y", "a/b/c", "a b", "", "/", "ä", "z",
    ];
    let mut want = names.to_vec();
    want.sort_by(|a, b| Path::new(a).cmp(Path::new(b)));
    let mut tracks: Vec<Track> = names.iter().map(|n| track(n, None, None, None)).collect();
    sort_tracks(&mut tracks, SortKey::Path, false, &vec![]);
    assert_eq!(paths(&tracks), want);
}

#[test]
fn numbers_are_sorted_and_items_arranged() {
    let ranks = vec![
        RankValue::Text(vec!['b']),
        RankValue::Text(vec!['a', 'b']),
        RankValue::Text(vec!['a']),
        RankValue::Text(vec!['b']),
    ];
    assert!(rank_before(&ranks[2], &ranks[1]));
    assert!(!rank_before(&ranks[0], &ranks[3]));
    let order = sort_numbers(&ranks);
    assert_eq!(order, vec![2, 1, 0, 3]);
    assert_eq!(arrange(vec!["w", "x", "y", "z"], &order, false), vec!["y", "x", "w", "z"]);
    assert_eq!(arrange(vec!["w", "x", "y", "z"], &order, true), vec!["z", "w", "x", "y"]);
}

#[test]
fn blank_values_are_dropped() {
    assert_eq!(clean_opt(None), None);
    assert_eq!(clean_opt(Some("")), None);
    assert_eq!(clean_opt(Some(" \t\u{3000}")), None);
    assert_eq!(clean_opt(Some(" a b ")), Some("a b".to_string()));
}

#[test]
fn sort_keys_fall_back_to_the_file_name() {
    let p = FilePath::from_text("x/File NAME.mp3");
    assert_eq!(meta_key(Some(" The Title "), &p), "the title");
    assert_eq!(meta_key(Some("  "), &p), "file name.mp3");
    assert_eq!(meta_key(None, &p), "file name.mp3");
    assert_eq!(meta_key(None, &FilePath::from_text("..")), "");
    assert_eq!(meta_key(None, &FilePath { bytes: vec![0xff] }), "");
}

#[test]
fn sort_keys_have_names() {
    assert_eq!(sort_key_label(SortKey::Path), "path");
    assert_eq!(sort_key_label(SortKey::Name), "name");
    assert_eq!(sort_key_label(SortKey::Mtime), "mtime");
    assert_eq!(sort_key_label(SortKey::Title), "title");
    assert_eq!(sort_key_label(SortKey::Artist), "artist");
    assert_eq!(sort_key_label(SortKey::Album), "album");
}

#[test]
fn the_front_cover_comes_before_the_first_picture() {
    let mut t = tag();
    assert_eq!(choose_picture(&t), None);
    t.pictures = vec![
        Picture { front_cover: false, data: vec![1] },
        Picture { front_cover: false, data: vec![2] },
    ];
    assert_eq!(choose_picture(&t), Some(0));
    t.pictures.push(Picture { front_cover: true, data: vec![3] });
    t.pictures.push(Picture { front_cover: true, data: vec![4] });
    assert_eq!(choose_picture(&t), Some(2));
}

#[test]
fn covers_become_png_files() {
    let mut t = tag();
    assert_eq!(extract_cover_png(&t), None);
    t.pictures = vec![Picture { front_cover: true, data: bitmap() }];
    let png = extract_cover_png(&t).unwrap();
    assert_eq!(&png[..8], b"\x89PNG\r\n\x1a\n");
    let image = image::load_from_memory(&png).unwrap().to_rgb8();
    assert_eq!(image.dimensions(), (2, 1));
    assert_eq!(image.get_pixel(0, 0).0, [0, 0, 255]);
    assert_eq!(image.get_pixel(1, 0).0, [255, 0, 0]);
    t.pictures = vec![Picture { front_cover: true, data: vec![1, 2, 3] }];
    assert_eq!(extract_cover_png(&t), None);
}

#[test]
fn the_first_lyrics_that_are_not_blank() {
    let mut t = tag();
    assert_eq!(extract_lyrics(&t), None);
    t.lyrics = vec!["  ".to_string()];
    assert_eq!(extract_lyrics(&t), None);
    t.lyrics = vec!["  ".to_string(), " one\ntwo ".to_string(), "three".to_string()];
    assert_eq!(extract_lyrics(&t), Some("one\ntwo".to_string()));
}

#[test]
fn tags_are_cleaned() {
    let none = read_meta(&None);
    assert!(none.title.is_none() && none.artist.is_none() && none.album.is_none());
    assert!(none.lyrics.is_none() && none.art_png.is_none());
    let meta = read_meta(&Some(TagData {
        title: Some(" T ".to_string()),
        artist: Some(" ".to_string()),
        album: None,
        lyrics: vec!["la".to_string()],
        pictures: vec![Picture { front_cover: false, data: bitmap() }],
    }));
    assert_eq!(meta.title, Some("T".to_string()));
    assert_eq!(meta.artist, None);
    assert_eq!(meta.album, None);
    assert_eq!(meta.lyrics, Some("la".to_string()));
    assert!(meta.art_png.is_some());
}

#[test]
fn tracks_are_built_and_sorted() {
    let scanned = vec![
        ScannedTrack { path: FilePath::from_text("a.mp3"), size: 1, modified_unix_secs: 2 },
        ScannedTrack { path: FilePath::from_text("b.mp3"), size: 3, modified_unix_secs: 4 },
    ];
    let tags = vec![
        Some(TagData {
            title: Some("Zed".to_string()),
            artist: None,
            album: None,
            lyrics: vec![],
            pictures: vec![],
        }),
        None,
    ];
    let tracks = build_tracks_from_scan(&scanned, &tags, SortKey::Title, false, &vec![]);
    assert_eq!(paths(&tracks), ["b.mp3", "a.mp3"]);
    assert_eq!(borrow(&tracks[1].title), Some("Zed"));
    assert_eq!(tracks[0].title, None);
}

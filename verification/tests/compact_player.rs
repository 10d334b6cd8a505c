use bu_mp3::app::{start_player, Action};
use bu_mp3::cache::SystemDirs;
use bu_mp3::compact::{
    build_tracks_from_scan, draw_now_playing, draw_playlist, extract_cover_png, handle_key,
    load_cached_tracks, playlist_cache_path, playlist_rows, read_meta, resort_playlist,
    save_playlist_cache, square_crop, toggle_reverse, tracks_with_art, CompactFile, Square,
};
use bu_mp3::models::{
    Args, KeyCode, KeyEvent, Picture, PlayerState, ScannedTrack, SortKey, TagData, Track, UiMode,
};
use bu_mp3::path::FilePath;
use bu_mp3::tui::Row;

fn path(text: &str) -> FilePath {
    FilePath::from_text(text)
}

fn args(sort: SortKey) -> Args {
    Args { path: path("m"), sort, reverse: false }
}

fn track(p: &str, title: Option<&str>) -> Track {
    Track {
        path: path(p),
        title: title.map(|t| t.to_string()),
        artist: None,
        album: None,
        lyrics: None,
        art_png: None,
    }
}

fn player() -> PlayerState {
    start_player(&args(SortKey::Path), vec![track("a", Some("Z")), track("b", None)], false)
}

fn scanned(p: &str) -> ScannedTrack {
    ScannedTrack { path: path(p), size: 1, modified_unix_secs: 2 }
}

fn press(s: &mut PlayerState, c: char) -> Action {
    handle_key(s, KeyEvent { code: KeyCode::Char(c), control: false }, 0)
}

/// A bitmap of two pixels: blue, then red.
fn bitmap() -> Vec<u8> {
    let mut b: Vec<u8> = vec![b'B', b'M', 62, 0, 0, 0, 0, 0, 0, 0, 54, 0, 0, 0];
    b.extend_from_slice(&[40, 0, 0, 0, 2, 0, 0, 0, 1, 0, 0, 0, 1, 0, 24, 0]);
    b.extend_from_slice(&[0, 0, 0, 0, 8, 0, 0, 0, 0, 0, 0, 0, 0, 0, 0, 0, 0, 0, 0, 0, 0, 0, 0, 0]);
    b.extend_from_slice(&[255, 0, 0, 0, 0, 255, 0, 0]);
    b
}

fn tag(pictures: Vec<Picture>) -> TagData {
    TagData {
        title: Some(" T ".to_string()),
        artist: None,
        album: Some(" ".to_string()),
        lyrics: vec!["la".to_string()],
        pictures,
    }
}

#[test]
fn the_middle_square_of_an_image() {
    assert_eq!(square_crop(100, 60), Square { x: 20, y: 0, side: 60 });
    assert_eq!(square_crop(60, 101), Square { x: 0, y: 20, side: 60 });
    assert_eq!(square_crop(5, 5), Square { x: 0, y: 0, side: 5 });
    assert_eq!(square_crop(0, 5), Square { x: 0, y: 2, side: 0 });
}

#[test]
fn covers_are_squares_of_one_size() {
    assert_eq!(extract_cover_png(&tag(vec![])), None);
    let broken = Picture { front_cover: true, data: vec![1, 2, 3] };
    assert_eq!(extract_cover_png(&tag(vec![broken])), None);
    let picture = Picture { front_cover: false, data: bitmap() };
    let png = extract_cover_png(&tag(vec![picture])).unwrap();
    let image = image::load_from_memory(&png).unwrap().to_rgb8();
    assert_eq!(image.dimensions(), (400, 400));
    assert_eq!(image.get_pixel(0, 0).0, [0, 0, 255]);
    assert_eq!(image.get_pixel(399, 399).0, [0, 0, 255]);
}

#[test]
fn art_is_made_where_the_picture_can_be_written_as_it_is() {
    let as_it_is = |data: Vec<u8>| {
        let picture = Picture { front_cover: true, data };
        let t = tag(vec![picture]);
        (bu_mp3::metadata::extract_cover_png(&t).is_some(), extract_cover_png(&t).is_some())
    };
    assert_eq!(as_it_is(bitmap()), (true, true));
    let mut tiff: Vec<u8> = Vec::new();
    image::DynamicImage::ImageRgb32F(image::Rgb32FImage::new(2, 2))
        .write_to(&mut std::io::Cursor::new(&mut tiff), image::ImageFormat::Tiff)
        .unwrap();
    assert!(image::load_from_memory(&tiff).is_ok());
    assert_eq!(as_it_is(tiff), (false, false));
    let mut deep: Vec<u8> = Vec::new();
    image::DynamicImage::new_rgba16(3, 2)
        .write_to(&mut std::io::Cursor::new(&mut deep), image::ImageFormat::Png)
        .unwrap();
    assert_eq!(as_it_is(deep), (true, true));
}

#[test]
fn a_middle_square_of_the_right_size_is_taken_as_it_is() {
    let mut wide = image::RgbImage::new(420, 400);
    for (x, y, pixel) in wide.enumerate_pixels_mut() {
        *pixel = image::Rgb([x as u8, y as u8, (x * y) as u8]);
    }
    let wide = image::DynamicImage::ImageRgb8(wide);
    let mut data: Vec<u8> = Vec::new();
    wide.write_to(&mut std::io::Cursor::new(&mut data), image::ImageFormat::Png).unwrap();
    let mut want: Vec<u8> = Vec::new();
    wide.crop_imm(10, 0, 400, 400)
        .write_to(&mut std::io::Cursor::new(&mut want), image::ImageFormat::Png)
        .unwrap();
    let picture = Picture { front_cover: true, data };
    assert_eq!(extract_cover_png(&tag(vec![picture])), Some(want));
}

#[test]
fn every_track_gets_the_art_of_its_own_cover() {
    let cover = |red: u8| {
        let pixels = image::RgbImage::from_pixel(3, 3, image::Rgb([red, 0, 0]));
        let mut data: Vec<u8> = Vec::new();
        image::DynamicImage::ImageRgb8(pixels)
            .write_to(&mut std::io::Cursor::new(&mut data), image::ImageFormat::Png)
            .unwrap();
        Some(tag(vec![Picture { front_cover: true, data }]))
    };
    let files = vec![scanned("a"), scanned("b")];
    let tags = vec![cover(10), cover(200)];
    let tracks = build_tracks_from_scan(&files, &tags, SortKey::Path, false, &vec![]);
    for (track, red) in tracks.iter().zip([10, 200]) {
        let art = image::load_from_memory(track.art_png.as_ref().unwrap()).unwrap().to_rgb8();
        assert_eq!(art.dimensions(), (400, 400));
        assert_eq!(art.get_pixel(200, 200).0, [red, 0, 0]);
    }
}

#[test]
fn compact_tags_have_no_lyrics() {
    let meta = read_meta(&Some(tag(vec![])), Some(vec![7]));
    assert_eq!((meta.title, meta.artist, meta.album), (Some("T".to_string()), None, None));
    assert_eq!((meta.lyrics, meta.art_png), (None, Some(vec![7])));
    let meta = read_meta(&None, Some(vec![7]));
    assert_eq!((meta.title, meta.art_png), (None, None));
}

#[test]
fn compact_tracks_are_built() {
    let files = vec![scanned("a"), scanned("b")];
    let tags = || vec![Some(tag(vec![])), None];
    let tracks = build_tracks_from_scan(&files, &tags(), SortKey::Title, false, &vec![]);
    assert_eq!(tracks[0].path.lossy(), "b");
    assert_eq!(tracks[1].title, Some("T".to_string()));
    let arts = vec![Some(vec![1]), Some(vec![2])];
    let tracks = tracks_with_art(&files, &tags(), &arts, SortKey::Path, true, &vec![]);
    assert_eq!((tracks[0].path.lossy().as_str(), &tracks[0].art_png), ("b", &None));
    assert_eq!(tracks[1].art_png, Some(vec![1]));
}

#[test]
fn compact_caches_come_back() {
    let files = vec![scanned("a"), scanned("b")];
    let mut tracks = vec![track("b", Some("x")), track("a", None)];
    tracks[0].art_png = Some(b"foo".to_vec());
    let cache = save_playlist_cache(&path("m"), &files, &tracks);
    assert_eq!((cache.version, cache.playlist.as_str()), (1, "m"));
    assert_eq!(cache.entries[0].path, "a");
    assert_eq!(cache.entries[0].art_png_base64, None);
    assert_eq!(cache.entries[1].art_png_base64, Some("Zm9v".to_string()));
    let file = CompactFile::Cache(cache);
    let at = path("c.json");
    let back = load_cached_tracks(&at, &file, &args(SortKey::Path), &files, &vec![]);
    let back = back.ok().unwrap().unwrap();
    assert_eq!(back[0].path.lossy(), "a");
    assert_eq!((&back[1].title, &back[1].art_png), (&tracks[0].title, &tracks[0].art_png));
}

#[test]
fn compact_caches_that_are_not_taken() {
    let files = vec![scanned("a")];
    let a = args(SortKey::Path);
    let at = path("/x/c.json");
    let none: Vec<i128> = vec![];
    assert!(matches!(load_cached_tracks(&at, &CompactFile::Missing, &a, &files, &none), Ok(None)));
    assert!(matches!(load_cached_tracks(&at, &CompactFile::NoCache, &a, &files, &none), Ok(None)));
    let error = load_cached_tracks(&at, &CompactFile::Unreadable, &a, &files, &none).err().unwrap();
    assert_eq!(error.message(), "read cache /x/c.json");
    let cache = || save_playlist_cache(&path("m"), &files, &vec![track("a", None)]);
    let mut old = cache();
    old.version = 2;
    let mut other = cache();
    other.entries[0].path = "b".to_string();
    let mut longer = cache();
    longer.entries[0].size = 2;
    let mut newer = cache();
    newer.entries[0].modified_unix_secs = 3;
    let mut empty = cache();
    empty.entries = vec![];
    for c in [old, other, longer, newer, empty] {
        let file = CompactFile::Cache(c);
        assert!(matches!(load_cached_tracks(&at, &file, &a, &files, &none), Ok(None)));
    }
    let mut broken = cache();
    broken.entries[0].art_png_base64 = Some("!".to_string());
    let file = CompactFile::Cache(broken);
    let tracks = load_cached_tracks(&at, &file, &a, &files, &none).ok().unwrap().unwrap();
    assert_eq!(tracks[0].art_png, None);
}

#[test]
fn compact_caches_have_files_of_their_own() {
    let dirs = SystemDirs { xdg_cache_home: Some(path("/x")), home: None, temp_dir: path("/t") };
    assert_eq!(playlist_cache_path(&path("a"), &None, &dirs).lossy(), "/x/bu-rust-mp3/61.json");
}

#[test]
fn compact_keys() {
    let mut s = player();
    assert_eq!(press(&mut s, 'q'), Action::Quit);
    assert_eq!(press(&mut s, 'p'), Action::Nothing);
    assert_eq!(press(&mut s, 'n'), Action::LoadTrack);
    assert_eq!(press(&mut s, 'n'), Action::Nothing);
    assert_eq!(press(&mut s, 'p'), Action::LoadTrack);
    assert_eq!(press(&mut s, 'r'), Action::Reverse);
    assert_eq!(press(&mut s, ' '), Action::SetPaused);
    assert!(s.paused);
    assert_eq!(press(&mut s, 't'), Action::Nothing);
    assert_eq!((s.sort_key, s.current), (SortKey::Title, 1));
    press(&mut s, 'a');
    assert_eq!(s.sort_key, SortKey::Artist);
    press(&mut s, 'l');
    assert_eq!(s.sort_key, SortKey::Album);
    press(&mut s, 's');
    assert_eq!((s.sort_key, s.current), (SortKey::Path, 0));
    press(&mut s, 'k');
    assert!(s.force_kitty);
    for c in ['?', '/', 'L', 'R', 'b', '1', '2'] {
        assert_eq!(press(&mut s, c), Action::Nothing);
    }
    assert!(!s.show_help && !s.search_mode && s.ui_mode == UiMode::Playlist);
    handle_key(&mut s, KeyEvent { code: KeyCode::Char('2'), control: true }, 0);
    assert_eq!(s.ui_mode, UiMode::NowPlaying);
    handle_key(&mut s, KeyEvent { code: KeyCode::F(1), control: false }, 0);
    assert_eq!(s.ui_mode, UiMode::Playlist);
    handle_key(&mut s, KeyEvent { code: KeyCode::F(2), control: false }, 0);
    handle_key(&mut s, KeyEvent { code: KeyCode::Char('1'), control: true }, 0);
    assert_eq!(s.ui_mode, UiMode::Playlist);
}

#[test]
fn compact_sorting_needs_no_cursor() {
    let mut s = player();
    s.selected = 7;
    assert_eq!(press(&mut s, 't'), Action::Nothing);
    assert_eq!((s.tracks[0].path.lossy().as_str(), s.current, s.selected), ("b", 1, 7));
    toggle_reverse(&mut s, &vec![]);
    assert_eq!((s.current, s.selected, s.sort_reverse), (0, 7, true));
    resort_playlist(&mut s, SortKey::Mtime, &vec![4, 2]);
    assert_eq!((s.current, s.sort_key), (0, SortKey::Mtime));
    s.selected = 1;
    resort_playlist(&mut s, SortKey::Mtime, &vec![2, 4]);
    assert_eq!((s.current, s.selected), (1, 0));
}

#[test]
fn compact_rows() {
    let rows = [Row::Lines(3), Row::Lines(3), Row::Lines(3), Row::Rest(5), Row::Lines(1)];
    assert_eq!(playlist_rows(), rows);
}

#[test]
fn compact_screens() {
    let mut s = player();
    let p = draw_playlist(&s, 0);
    assert_eq!(p.header, "bu-rust-mp3  |  1 / 2  |  sort: path");
    assert_eq!(p.now_playing, "Playing: Z");
    assert_eq!(p.progress.label, "00:00");
    assert_eq!(p.items, ["▶ Z", "  b"]);
    assert!(p.help.starts_with("Controls: space play/pause | n next | p previous | t title"));
    let n = draw_now_playing(&s, false, 0);
    assert_eq!(
        n.info,
        "Playing\nTitle : Z\nArtist: -\nAlbum : -\nArt   : none | Kitty: off"
    );
    assert!(!n.use_kitty);
    assert!(n.help.contains("| k kitty |"));
    s.tracks[0].art_png = Some(vec![1]);
    assert!(draw_now_playing(&s, true, 0).use_kitty);
    s.force_kitty = true;
    assert!(draw_now_playing(&s, false, 0).use_kitty);
}

use bu_mp3::app::start_player;
use bu_mp3::encoding::{decode_art_png, encode_art_png};
use bu_mp3::models::{Args, ArtViewMode, DrawInfo, PlayerState, Rect, SortKey, Track, UiMode};
use bu_mp3::path::FilePath;
use bu_mp3::terminal_image::{
    ascii_art_lines, clear_kitty_image, env_force_kitty, render_kitty_image, shade_lines,
    supports_kitty, write_kitty_seq, TerminalEnv,
};
use bu_mp3::tui::{
    cell_shape_known, center_rect, display_title, draw_help_popup, draw_info, draw_loading_ui,
    draw_lyrics_popup, draw_ui, fmt_duration, no_tracks_text, now_playing_rows, playlist_rows,
    render_art_fallback, render_progress, search_text, square_rect, ArtText, Row, ScreenView,
    Window, SCREEN_MARGIN,
};

fn track(path: &str, title: Option<&str>) -> Track {
    Track {
        path: FilePath::from_text(path),
        title: title.map(|s| s.to_string()),
        artist: None,
        album: None,
        lyrics: None,
        art_png: None,
    }
}

fn player() -> PlayerState {
    let args = Args { path: FilePath::from_text("m"), sort: SortKey::Path, reverse: false };
    start_player(&args, vec![track("x/a.mp3", None), track("x/b.mp3", Some("Bee"))], false)
}

/// A bitmap of one white and one black pixel, side by side.
fn bitmap() -> Vec<u8> {
    let mut b: Vec<u8> = vec![b'B', b'M', 62, 0, 0, 0, 0, 0, 0, 0, 54, 0, 0, 0];
    b.extend_from_slice(&[40, 0, 0, 0, 2, 0, 0, 0, 1, 0, 0, 0, 1, 0, 24, 0]);
    b.extend_from_slice(&[0, 0, 0, 0, 8, 0, 0, 0, 0, 0, 0, 0, 0, 0, 0, 0, 0, 0, 0, 0, 0, 0, 0, 0]);
    b.extend_from_slice(&[255, 255, 255, 0, 0, 0, 0, 0]);
    b
}

const AREA: Rect = Rect { x: 0, y: 0, width: 100, height: 40 };

const S: u128 = 1_000_000_000;

#[test]
fn screens_are_split_into_rows() {
    let box_of_one = Row::Lines(3);
    let help = Row::Lines(1);
    assert_eq!(
        playlist_rows(),
        [box_of_one, box_of_one, box_of_one, box_of_one, Row::Rest(5), help]
    );
    assert_eq!(now_playing_rows(), [box_of_one, Row::Lines(5), Row::Rest(5), box_of_one, help]);
    assert_eq!(SCREEN_MARGIN, 1);
}

#[test]
fn spans_are_shown_in_minutes_and_seconds() {
    assert_eq!(fmt_duration(0), "00:00");
    assert_eq!(fmt_duration(59 * S + 999_999_999), "00:59");
    assert_eq!(fmt_duration(61 * S), "01:01");
    assert_eq!(fmt_duration(6005 * S), "100:05");
}

#[test]
fn loading_and_finding_nothing() {
    let p = FilePath::from_text("/music");
    let popup = draw_loading_ui(AREA, &p, 12);
    assert_eq!(
        popup.text,
        "Loading playlist...\n/music\nScanning 12 track(s) and building cache"
    );
    assert_eq!(popup.area, Rect { x: 22, y: 16, width: 56, height: 7 });
    assert_eq!(no_tracks_text(&p), "No .mp3 files found in /music");
}

#[test]
fn tracks_are_called_by_title_or_file_name() {
    assert_eq!(display_title(&track("x/a.mp3", Some("T"))), "T");
    assert_eq!(display_title(&track("x/a.mp3", None)), "a.mp3");
    assert_eq!(display_title(&track("..", None)), "?");
}

#[test]
fn the_playlist_screen() {
    let mut s = player();
    s.current = 1;
    s.sort_reverse = true;
    let screen = draw_ui(&s, AREA, false, 0);
    assert!(screen.help.is_none() && screen.lyrics.is_none());
    let p = match &screen.view {
        ScreenView::Playlist(p) => p,
        ScreenView::NowPlaying(_) => panic!(),
    };
    assert_eq!(p.header, "bu-rust-mp3  |  2 / 2  |  sort: path (rev)");
    assert_eq!(p.now_playing, "Playing: Bee");
    assert_eq!(p.progress.label, "00:00");
    assert_eq!(p.search, "Search: /");
    assert_eq!(p.items, ["  a.mp3", "▶ Bee  [playing]"]);
    assert_eq!(p.selected, 0);
    assert_eq!(p.help, "Controls: space play/pause | p prev | n next | ? help");
    let rect = Rect { x: 0, y: 0, width: 1, height: 1 };
    assert_eq!(draw_info(&screen.view, Some(rect)), DrawInfo::default());
}

#[test]
fn the_now_playing_screen() {
    let mut s = player();
    s.ui_mode = UiMode::NowPlaying;
    s.paused = true;
    s.tracks[0].artist = Some("Who".to_string());
    let screen = draw_ui(&s, AREA, true, 0);
    let n = match &screen.view {
        ScreenView::NowPlaying(n) => n,
        ScreenView::Playlist(_) => panic!(),
    };
    assert_eq!(n.header, "bu-rust-mp3  |  1 / 2  |  sort: path");
    assert_eq!(
        n.info,
        "Paused\nTitle : a.mp3\nArtist: Who\nAlbum : -\nArt   : none | View: album art | Kitty: on"
    );
    assert!(!n.use_kitty);
    assert_eq!(n.help, "Controls: space play/pause | p prev | n next | b art/ascii | ? help");
    s.tracks[0].art_png = Some(vec![1]);
    s.force_kitty = true;
    let screen = draw_ui(&s, AREA, false, 0);
    let rect = Rect { x: 1, y: 2, width: 3, height: 4 };
    assert_eq!(
        draw_info(&screen.view, Some(rect)),
        DrawInfo { art_rect: Some(rect), use_kitty: true }
    );
    if let ScreenView::NowPlaying(n) = &screen.view {
        assert!(n.info.ends_with("Art   : embedded | View: album art | Kitty: on (forced)"));
    }
    s.art_view_mode = ArtViewMode::AsciiArt;
    s.force_kitty = false;
    let screen = draw_ui(&s, AREA, false, 0);
    if let ScreenView::NowPlaying(n) = &screen.view {
        assert!(!n.use_kitty);
        assert!(n.info.ends_with("Art   : embedded | View: ascii | Kitty: off"));
    }
}

#[test]
fn progress_with_and_without_an_end() {
    let mut s = player();
    s.started_at = Some(10 * S);
    s.elapsed_before_pause = 2 * S;
    let p = render_progress(&s, 75 * S);
    assert_eq!((p.elapsed, p.total, p.label.as_str()), (67 * S, None, "01:07"));
    s.total_duration = Some(120 * S);
    assert_eq!(render_progress(&s, 75 * S).label, "01:07 / 02:00");
}

#[test]
fn the_search_box_shows_what_is_typed() {
    let mut s = player();
    s.search_query = "ab".to_string();
    assert_eq!(search_text(&s), "Search: ab");
    s.search_mode = true;
    assert_eq!(search_text(&s), "Search: ab_");
    s.search_query = String::new();
    assert_eq!(search_text(&s), "Search: _");
}

#[test]
fn popups() {
    let mut s = player();
    s.show_help = true;
    s.show_lyrics = true;
    s.lyrics_scroll = 4;
    let screen = draw_ui(&s, AREA, false, 0);
    let help = screen.help.unwrap();
    assert_eq!(help.area, Rect { x: 20, y: 9, width: 60, height: 22 });
    assert_eq!(help.text, draw_help_popup(AREA).text);
    assert_eq!(help.text.lines().count(), 23);
    assert_eq!(help.text.lines().nth(2), Some("space  play / pause"));
    let popup = screen.lyrics.unwrap();
    assert_eq!((popup.title.as_str(), popup.scroll), ("Lyrics | a.mp3", 4));
    assert_eq!(popup.area, Rect { x: 8, y: 6, width: 84, height: 28 });
    assert_eq!(popup.content, "No lyrics found in MP3 metadata.");
    s.tracks[0].lyrics = Some("la".to_string());
    assert_eq!(draw_lyrics_popup(&s, AREA).content, "la");
}

#[test]
fn areas_are_centered() {
    let area = Rect { x: 10, y: 20, width: 80, height: 25 };
    let want = Rect { x: 22, y: 29, width: 56, height: 7 };
    assert_eq!(center_rect(area, 56, 7), want);
    assert_eq!(center_rect(area, 100, 100), area);
    let want = Rect { x: 37, y: 20, width: 25, height: 25 };
    assert_eq!(square_rect(area), want);
    let none = Rect { x: 5, y: 5, width: 0, height: 0 };
    assert_eq!(center_rect(none, 3, 3), none);
}

#[test]
fn the_shape_of_cells_needs_a_size() {
    let w = Window { columns: 80, rows: 25, width: 800, height: 500 };
    assert!(cell_shape_known(&w));
    assert!(!cell_shape_known(&Window { columns: 0, ..w }));
    assert!(!cell_shape_known(&Window { rows: 0, ..w }));
    assert!(!cell_shape_known(&Window { width: 0, ..w }));
    assert!(!cell_shape_known(&Window { height: 0, ..w }));
}

#[test]
fn letters_for_art() {
    assert_eq!(shade_lines(&vec![0, 255, 128, 28, 29, 254], 3, 2), [" @=", " .%"]);
    assert_eq!(shade_lines(&vec![], 0, 0), Vec::<String>::new());
    assert_eq!(ascii_art_lines(&bitmap(), 0, 1), None);
    assert_eq!(ascii_art_lines(&bitmap(), 1, 0), None);
    assert_eq!(ascii_art_lines(&vec![1, 2, 3], 2, 1), None);
    let lines = ascii_art_lines(&bitmap(), 4, 2).unwrap();
    assert_eq!(lines, ["@@  ", "@@  "]);
}

#[test]
fn what_stands_in_for_art() {
    let mut s = player();
    assert!(matches!(render_art_fallback(&s, 2, 1, false), ArtText::Note(n) if n == "No art"));
    s.tracks[0].art_png = Some(bitmap());
    let art = render_art_fallback(&s, 2, 1, false);
    assert!(matches!(
        art,
        ArtText::Message(m)
            if m == "Album art view needs Kitty image support.\nPress b for ASCII art."
    ));
    let art = render_art_fallback(&s, 2, 1, true);
    assert!(matches!(art, ArtText::Message(m) if m == "Album art unavailable"));
    s.art_view_mode = ArtViewMode::AsciiArt;
    let art = render_art_fallback(&s, 2, 1, true);
    assert!(matches!(art, ArtText::Lines(l) if l == ["@ "]));
    let art = render_art_fallback(&s, 0, 1, true);
    assert!(matches!(art, ArtText::Note(n) if n == "No art"));
}

fn env() -> TerminalEnv {
    TerminalEnv {
        bu_mp3_kitty: None,
        kitty_window_id: false,
        term: None,
        ghostty: false,
        term_program: None,
    }
}

#[test]
fn terminals_that_show_images() {
    assert!(!supports_kitty(&env()));
    assert!(supports_kitty(&TerminalEnv { kitty_window_id: true, ..env() }));
    assert!(supports_kitty(&TerminalEnv { ghostty: true, ..env() }));
    for (term, yes) in [("xterm-kitty", true), ("xterm-ghostty", true), ("xterm", false), ("KITTY", false)] {
        let e = TerminalEnv { term: Some(term.to_string()), ..env() };
        assert_eq!(supports_kitty(&e), yes, "{}", term);
    }
    for (program, yes) in [("Ghostty", true), ("kitty", false)] {
        let e = TerminalEnv { term_program: Some(program.to_string()), ..env() };
        assert_eq!(supports_kitty(&e), yes, "{}", program);
    }
}

#[test]
fn the_user_has_the_last_word_on_images() {
    for (value, on) in [("1", true), ("TRUE", true), ("true", true), ("0", false), ("", false)] {
        let value = Some(value.to_string());
        assert_eq!(env_force_kitty(&value), on);
        let e = TerminalEnv { bu_mp3_kitty: value, kitty_window_id: true, ..env() };
        assert_eq!(supports_kitty(&e), on);
    }
    assert!(!env_force_kitty(&None));
}

#[test]
fn base64_texts() {
    for (bytes, text) in [
        ("", ""),
        ("f", "Zg=="),
        ("fo", "Zm8="),
        ("foo", "Zm9v"),
        ("foobar", "Zm9vYmFy"),
    ] {
        assert_eq!(encode_art_png(&bytes.as_bytes().to_vec()), text);
        assert_eq!(decode_art_png(text), Some(bytes.as_bytes().to_vec()));
    }
    assert_eq!(encode_art_png(&vec![0xfb, 0xff, 0xfe]), "+//+");
    for text in ["Zg", "Zg=", "Zh==", "Zm9=", "Z", "====", "Zm9v\n", "Zm 9v", "Zg==Zg=="] {
        assert_eq!(decode_art_png(text), None, "{}", text);
    }
    let all: Vec<u8> = (0..=255).collect();
    assert_eq!(decode_art_png(&encode_art_png(&all)), Some(all));
}

#[test]
fn images_are_sent_in_pieces() {
    let rect = Rect { x: 7, y: 8, width: 20, height: 10 };
    assert_eq!(render_kitty_image(rect, &vec![], false), "");
    assert_eq!(
        render_kitty_image(rect, &b"foo".to_vec(), false),
        "\x1b_Gf=100,a=T,c=20,r=10,i=1,m=0;Zm9v\x1b\\"
    );
    let one = render_kitty_image(rect, &vec![0; 3072], false);
    assert_eq!(
        one,
        format!("\x1b_Gf=100,a=T,c=20,r=10,i=1,m=0;{}\x1b\\", "A".repeat(4096))
    );
    let three = render_kitty_image(rect, &vec![0; 6145], false);
    assert_eq!(
        three,
        format!(
            "\x1b_Gf=100,a=T,c=20,r=10,i=1,m=1;{}\x1b\\\x1b_Gm=1;{}\x1b\\\x1b_Gm=0;AA==\x1b\\",
            "A".repeat(4096),
            "A".repeat(4096)
        )
    );
}

#[test]
fn sequences_go_through_tmux() {
    assert_eq!(write_kitty_seq("a\x1bb", false), "a\x1bb");
    assert_eq!(write_kitty_seq("a\x1bb", true), "\x1bPtmux;a\x1b\x1bb\x1b\\");
    assert_eq!(clear_kitty_image(false), "\x1b_Ga=d,i=1\x1b\\");
    assert_eq!(clear_kitty_image(true), "\x1bPtmux;\x1b\x1b_Ga=d,i=1\x1b\x1b\\\x1b\\");
    let rect = Rect { x: 0, y: 0, width: 1, height: 1 };
    assert_eq!(
        render_kitty_image(rect, &b"f".to_vec(), true),
        "\x1bPtmux;\x1b\x1b_Gf=100,a=T,c=1,r=1,i=1,m=0;Zg==\x1b\x1b\\\x1b\\"
    );
}

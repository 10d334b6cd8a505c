use bu_mp3::app::{
    end_turn, handle_key, plan_art, poll_timeout, start_player, tick_due, Action, ArtMemory,
    ArtStep, TurnEnd,
};
use bu_mp3::models::{
    Args, ArtViewMode, DrawInfo, KeyCode, KeyEvent, PlayerState, Rect, ScannedTrack, SortKey, Track,
    UiMode,
};
use bu_mp3::path::FilePath;
use bu_mp3::player::{
    advance_if_possible, apply_search_selection, current_elapsed, finish_refresh,
    handle_playlist_search_key, load_track, max_lyrics_scroll, move_playlist_selection, next_track,
    play_selected_track, prev_track, refresh_args, refresh_playlist, resort_playlist, scroll_lyrics,
    toggle_pause, toggle_reverse, track_matches_query, LoadError, SearchStep, TrackLoad,
};
use bu_mp3::records::{PlaylistCache, ResumeState};

fn track(path: &str, title: &str) -> Track {
    Track {
        path: FilePath::from_text(path),
        title: Some(title.to_string()),
        artist: None,
        album: None,
        lyrics: None,
        art_png: None,
    }
}

fn player() -> PlayerState {
    let args = Args { path: FilePath::from_text("m"), sort: SortKey::Path, reverse: false };
    start_player(&args, vec![track("a", "Gamma"), track("b", "Alpha"), track("c", "Beta")], false)
}

fn key(code: KeyCode) -> KeyEvent {
    KeyEvent { code, control: false }
}

fn press(state: &mut PlayerState, c: char) -> Action {
    handle_key(state, key(KeyCode::Char(c)), 0).action
}

fn paths(state: &PlayerState) -> Vec<String> {
    state.tracks.iter().map(|t| t.path.lossy()).collect()
}

#[test]
fn a_player_starts_at_the_first_track() {
    let s = player();
    assert_eq!(s.playlist_path.lossy(), "m");
    assert_eq!((s.current, s.selected, s.lyrics_scroll), (0, 0, 0));
    assert_eq!((s.search_query.as_str(), s.search_mode), ("", false));
    assert!(!s.show_help && !s.show_lyrics && !s.paused && !s.force_kitty);
    assert_eq!((s.started_at, s.elapsed_before_pause, s.total_duration), (None, 0, None));
    assert_eq!((s.sort_key, s.sort_reverse), (SortKey::Path, false));
    assert_eq!((s.ui_mode, s.art_view_mode), (UiMode::Playlist, ArtViewMode::AlbumArt));
}

#[test]
fn loading_a_track_sets_its_clock() {
    let mut s = player();
    s.current = 2;
    s.paused = true;
    s.elapsed_before_pause = 9;
    let resume = load_track(&mut s, 50, &TrackLoad::Playing { total: Some(7) }).unwrap();
    assert_eq!(ResumeState::decode(&resume).unwrap().last_track_path, "c");
    assert_eq!((s.selected, s.paused, s.elapsed_before_pause), (2, false, 0));
    assert_eq!((s.started_at, s.total_duration), (Some(50), Some(7)));
}

#[test]
fn tracks_that_do_not_load() {
    let mut s = player();
    s.paused = true;
    s.elapsed_before_pause = 9;
    s.selected = 1;
    assert_eq!(load_track(&mut s, 50, &TrackLoad::NoOutput), Err(LoadError::NoOutput));
    assert_eq!((s.paused, s.elapsed_before_pause, s.started_at), (true, 9, None));
    assert_eq!(load_track(&mut s, 50, &TrackLoad::Unopened), Err(LoadError::Unopened));
    assert_eq!((s.paused, s.elapsed_before_pause, s.started_at), (false, 0, Some(50)));
    assert_eq!(load_track(&mut s, 60, &TrackLoad::Undecoded), Err(LoadError::Undecoded));
    assert_eq!((s.selected, s.started_at, s.total_duration), (1, Some(60), None));
}

#[test]
fn a_pause_takes_no_time() {
    let mut s = player();
    load_track(&mut s, 100, &TrackLoad::Playing { total: None }).unwrap();
    assert_eq!(current_elapsed(&s, 130), 30);
    assert_eq!(current_elapsed(&s, 90), 0);
    toggle_pause(&mut s, 130);
    assert!(s.paused);
    assert_eq!((s.started_at, s.elapsed_before_pause), (None, 30));
    assert_eq!(current_elapsed(&s, 500), 30);
    toggle_pause(&mut s, 600);
    assert!(!s.paused);
    assert_eq!(current_elapsed(&s, 605), 35);
}

#[test]
fn a_pause_before_anything_plays() {
    let mut s = player();
    assert_eq!(current_elapsed(&s, 5), 0);
    toggle_pause(&mut s, 5);
    assert_eq!((s.paused, s.started_at, s.elapsed_before_pause), (true, None, 0));
}

#[test]
fn stepping_through_the_playlist() {
    let mut s = player();
    assert!(!prev_track(&mut s));
    assert!(next_track(&mut s));
    assert!(next_track(&mut s));
    assert!(!next_track(&mut s));
    assert_eq!(s.current, 2);
    assert!(prev_track(&mut s));
    assert_eq!(s.current, 1);
    assert!(advance_if_possible(&mut s));
    assert!(!advance_if_possible(&mut s));
    assert_eq!(s.current, 2);
}

#[test]
fn the_cursor_stays_in_the_list() {
    let mut s = player();
    move_playlist_selection(&mut s, -1);
    assert_eq!(s.selected, 0);
    move_playlist_selection(&mut s, 2);
    assert_eq!(s.selected, 2);
    move_playlist_selection(&mut s, isize::MAX - 2);
    assert_eq!(s.selected, 2);
    move_playlist_selection(&mut s, isize::MIN);
    assert_eq!(s.selected, 0);
    s.tracks = vec![];
    move_playlist_selection(&mut s, 1);
    assert_eq!(s.selected, 0);
}

#[test]
fn the_selected_track_is_played_once() {
    let mut s = player();
    assert!(!play_selected_track(&mut s));
    s.selected = 2;
    assert!(play_selected_track(&mut s));
    assert_eq!(s.current, 2);
    assert!(!play_selected_track(&mut s));
}

#[test]
fn lyrics_scroll_as_far_as_they_go() {
    let mut s = player();
    assert_eq!(max_lyrics_scroll(&s.tracks[0]), 0);
    s.tracks[0].lyrics = Some("x\n".repeat(24));
    assert_eq!(max_lyrics_scroll(&s.tracks[0]), 0);
    s.tracks[0].lyrics = Some("x\n".repeat(30));
    assert_eq!(max_lyrics_scroll(&s.tracks[0]), 6);
    scroll_lyrics(&mut s, 4);
    assert_eq!(s.lyrics_scroll, 4);
    scroll_lyrics(&mut s, 4);
    assert_eq!(s.lyrics_scroll, 6);
    scroll_lyrics(&mut s, -8);
    assert_eq!(s.lyrics_scroll, 0);
    s.tracks[0].lyrics = Some("\n".repeat(65536 + 24 + 5));
    assert_eq!(max_lyrics_scroll(&s.tracks[0]), 5);
}

#[test]
fn queries_look_at_the_tag_in_any_case() {
    let mut t = track("x", "Hello World");
    t.artist = Some("ABBA".to_string());
    t.album = Some("Waterloo".to_string());
    assert!(track_matches_query(&t, "o wo"));
    assert!(track_matches_query(&t, "abba"));
    assert!(track_matches_query(&t, "LOO"));
    assert!(track_matches_query(&t, ""));
    assert!(!track_matches_query(&t, "x"));
    t.title = None;
    assert!(!track_matches_query(&t, "hello"));
}

#[test]
fn searching_selects_the_first_match() {
    let mut s = player();
    s.search_query = " ETA ".to_string();
    apply_search_selection(&mut s);
    assert_eq!(s.selected, 2);
    s.search_query = "a".to_string();
    apply_search_selection(&mut s);
    assert_eq!(s.selected, 0);
    s.selected = 1;
    s.search_query = "zzz".to_string();
    apply_search_selection(&mut s);
    assert_eq!(s.selected, 1);
    s.search_query = "  ".to_string();
    apply_search_selection(&mut s);
    assert_eq!(s.selected, 1);
}

#[test]
fn the_search_box_takes_keys() {
    let mut s = player();
    let a = key(KeyCode::Char('a'));
    assert_eq!(handle_playlist_search_key(&mut s, a), SearchStep::NotSearching);
    s.search_mode = true;
    for c in ['a', 'l', 'p'] {
        let step = handle_playlist_search_key(&mut s, key(KeyCode::Char(c)));
        assert_eq!(step, SearchStep::Handled);
    }
    assert_eq!((s.search_query.as_str(), s.selected), ("alp", 1));
    let control = KeyEvent { code: KeyCode::Char('x'), control: true };
    assert_eq!(handle_playlist_search_key(&mut s, control), SearchStep::Handled);
    assert_eq!(s.search_query, "alp");
    handle_playlist_search_key(&mut s, key(KeyCode::Char('q')));
    handle_playlist_search_key(&mut s, key(KeyCode::Backspace));
    assert_eq!((s.search_query.as_str(), s.selected), ("alp", 1));
    assert_eq!(handle_playlist_search_key(&mut s, key(KeyCode::Enter)), SearchStep::Handled);
    assert_eq!((s.search_mode, s.current), (false, 0));
    s.search_mode = true;
    assert_eq!(handle_playlist_search_key(&mut s, key(KeyCode::Esc)), SearchStep::Handled);
    assert_eq!((s.search_mode, s.search_query.as_str()), (false, ""));
    s.search_mode = true;
    assert_eq!(handle_playlist_search_key(&mut s, key(KeyCode::Backspace)), SearchStep::Handled);
    assert_eq!(handle_playlist_search_key(&mut s, key(KeyCode::Enter)), SearchStep::LoadTrack);
    assert_eq!((s.search_mode, s.current), (false, 1));
    s.search_mode = true;
    assert_eq!(handle_playlist_search_key(&mut s, key(KeyCode::Enter)), SearchStep::Handled);
}

#[test]
fn sorting_keeps_what_plays_and_what_is_selected() {
    let mut s = player();
    s.selected = 2;
    resort_playlist(&mut s, SortKey::Title, &vec![]);
    assert_eq!(paths(&s), ["b", "c", "a"]);
    assert_eq!((s.current, s.selected, s.sort_key), (2, 1, SortKey::Title));
    toggle_reverse(&mut s, &vec![]);
    assert_eq!(paths(&s), ["a", "c", "b"]);
    assert_eq!((s.current, s.selected, s.sort_reverse), (0, 1, true));
    toggle_reverse(&mut s, &vec![]);
    assert_eq!(paths(&s), ["b", "c", "a"]);
    s.sort_key = SortKey::Mtime;
    toggle_reverse(&mut s, &vec![1, 2, 3]);
    assert_eq!(paths(&s), ["a", "c", "b"]);
}

#[test]
fn reversing_turns_the_list_round_and_back() {
    let mut s = player();
    s.selected = 1;
    toggle_reverse(&mut s, &vec![]);
    assert_eq!(paths(&s), ["c", "b", "a"]);
    assert_eq!((s.current, s.selected, s.sort_reverse), (2, 1, true));
    s.selected = 0;
    toggle_reverse(&mut s, &vec![]);
    assert_eq!(paths(&s), ["a", "b", "c"]);
    assert_eq!((s.current, s.selected, s.sort_reverse), (0, 2, false));
}

fn scanned(names: &[&str]) -> Vec<ScannedTrack> {
    names
        .iter()
        .map(|n| ScannedTrack {
            path: FilePath::from_text(n),
            size: 1,
            modified_unix_secs: 2,
        })
        .collect()
}

#[test]
fn refreshing_keeps_what_plays() {
    let mut s = player();
    s.current = 1;
    s.selected = 2;
    let a = refresh_args(&s);
    assert_eq!((a.path.lossy().as_str(), a.sort, a.reverse), ("m", SortKey::Path, false));
    let step = refresh_playlist(&mut s, &scanned(&["0", "b", "c"]), &vec![None, None, None], &vec![]);
    let step = step.ok().unwrap();
    assert!(!step.load);
    assert_eq!(step.selected_path.as_ref().unwrap().lossy(), "c");
    assert_eq!(PlaylistCache::decode(&step.cache).unwrap().entries.len(), 3);
    assert_eq!(s.current, 1);
    let resume = finish_refresh(&mut s, &step.selected_path);
    assert_eq!(s.selected, 2);
    assert_eq!(ResumeState::decode(&resume).unwrap().last_track_path, "b");
}

#[test]
fn refreshing_without_the_track_that_plays() {
    let mut s = player();
    s.current = 0;
    s.selected = 2;
    let step = refresh_playlist(&mut s, &scanned(&["x", "y"]), &vec![None, None], &vec![]);
    let step = step.ok().unwrap();
    assert!(step.load);
    assert_eq!(s.current, 1);
    load_track(&mut s, 5, &TrackLoad::Playing { total: None }).unwrap();
    finish_refresh(&mut s, &step.selected_path);
    assert_eq!((s.current, s.selected), (1, 1));
}

#[test]
fn refreshing_an_empty_playlist_is_an_error() {
    let mut s = player();
    assert!(refresh_playlist(&mut s, &vec![], &vec![], &vec![]).is_err());
    assert_eq!(s.tracks.len(), 3);
}

#[test]
fn letters_do_what_the_help_says() {
    let mut s = player();
    assert_eq!(press(&mut s, 'q'), Action::Quit);
    assert_eq!(press(&mut s, 'p'), Action::Nothing);
    assert_eq!(press(&mut s, 'n'), Action::LoadTrack);
    assert_eq!(press(&mut s, 'p'), Action::LoadTrack);
    assert_eq!(press(&mut s, 'r'), Action::Reverse);
    assert_eq!(press(&mut s, 'R'), Action::Refresh);
    assert_eq!(handle_key(&mut s, key(KeyCode::F(5)), 0).action, Action::Refresh);
    assert_eq!(press(&mut s, ' '), Action::SetPaused);
    assert!(s.paused);
    for (c, order) in [('t', "bca"), ('s', "abc"), ('a', "abc"), ('L', "abc")] {
        assert_eq!(press(&mut s, c), Action::Nothing);
        assert_eq!(paths(&s).concat(), order);
    }
    assert_eq!(s.sort_key, SortKey::Album);
    press(&mut s, 'k');
    assert!(s.force_kitty);
    press(&mut s, 'b');
    assert_eq!(s.art_view_mode, ArtViewMode::AlbumArt);
    press(&mut s, '2');
    assert_eq!(s.ui_mode, UiMode::Playlist);
    handle_key(&mut s, KeyEvent { code: KeyCode::Char('2'), control: true }, 0);
    assert_eq!(s.ui_mode, UiMode::NowPlaying);
    press(&mut s, 'b');
    assert_eq!(s.art_view_mode, ArtViewMode::AsciiArt);
    press(&mut s, 'b');
    assert_eq!(s.art_view_mode, ArtViewMode::AlbumArt);
    press(&mut s, '/');
    assert!(!s.search_mode);
    handle_key(&mut s, KeyEvent { code: KeyCode::Char('1'), control: true }, 0);
    assert_eq!(s.ui_mode, UiMode::Playlist);
    handle_key(&mut s, key(KeyCode::F(2)), 0);
    assert_eq!(s.ui_mode, UiMode::NowPlaying);
    handle_key(&mut s, key(KeyCode::F(1)), 0);
    press(&mut s, '/');
    assert!(s.search_mode && s.ui_mode == UiMode::Playlist);
}

#[test]
fn arrows_and_enter_work_in_the_playlist() {
    let mut s = player();
    handle_key(&mut s, key(KeyCode::Down), 0);
    handle_key(&mut s, key(KeyCode::Down), 0);
    handle_key(&mut s, key(KeyCode::Up), 0);
    assert_eq!(s.selected, 1);
    let turn = handle_key(&mut s, key(KeyCode::Enter), 0);
    assert_eq!((turn.action, turn.ends, s.current), (Action::LoadTrack, false, 1));
    assert_eq!(handle_key(&mut s, key(KeyCode::Enter), 0).action, Action::Nothing);
    s.ui_mode = UiMode::NowPlaying;
    s.selected = 2;
    handle_key(&mut s, key(KeyCode::Up), 0);
    assert_eq!(s.selected, 2);
    assert_eq!(handle_key(&mut s, key(KeyCode::Enter), 0).action, Action::Nothing);
}

#[test]
fn the_help_takes_every_key() {
    let mut s = player();
    press(&mut s, '?');
    assert!(s.show_help);
    let turn = handle_key(&mut s, key(KeyCode::Char('q')), 0);
    assert_eq!((turn.action, turn.ends), (Action::Nothing, true));
    for code in [KeyCode::Char('?'), KeyCode::Esc, KeyCode::Enter] {
        s.show_help = true;
        assert!(handle_key(&mut s, key(code), 0).ends);
        assert!(!s.show_help);
    }
}

#[test]
fn the_lyrics_take_every_key() {
    let mut s = player();
    s.tracks[0].lyrics = Some("x\n".repeat(40));
    press(&mut s, 'l');
    assert!(s.show_lyrics);
    for (code, scroll) in [
        (KeyCode::Down, 1),
        (KeyCode::PageDown, 9),
        (KeyCode::Up, 8),
        (KeyCode::PageUp, 0),
        (KeyCode::End, 16),
        (KeyCode::PageDown, 16),
        (KeyCode::Home, 0),
        (KeyCode::Char('q'), 0),
    ] {
        let turn = handle_key(&mut s, key(code), 0);
        assert_eq!((turn.action, turn.ends, s.lyrics_scroll), (Action::Nothing, true, scroll));
    }
    for code in [KeyCode::Char('l'), KeyCode::Esc, KeyCode::Enter] {
        s.show_lyrics = true;
        s.lyrics_scroll = 3;
        handle_key(&mut s, key(code), 0);
        assert_eq!((s.show_lyrics, s.lyrics_scroll), (false, 0));
    }
}

#[test]
fn the_search_box_comes_before_other_keys() {
    let mut s = player();
    s.search_mode = true;
    let turn = handle_key(&mut s, key(KeyCode::Char('q')), 0);
    assert_eq!((turn.action, turn.ends), (Action::Nothing, true));
    assert_eq!(s.search_query, "q");
    s.search_query = String::new();
    s.selected = 1;
    let turn = handle_key(&mut s, key(KeyCode::Enter), 0);
    assert_eq!((turn.action, turn.ends), (Action::LoadTrack, true));
    s.search_mode = true;
    s.ui_mode = UiMode::NowPlaying;
    assert_eq!(press(&mut s, 'q'), Action::Quit);
}

#[test]
fn turns_end_with_the_next_track_or_the_end() {
    let mut s = player();
    assert_eq!(end_turn(&mut s, false), TurnEnd::Next);
    assert_eq!(s.current, 0);
    assert_eq!(end_turn(&mut s, true), TurnEnd::LoadTrack);
    assert_eq!(end_turn(&mut s, true), TurnEnd::LoadTrack);
    assert_eq!(end_turn(&mut s, true), TurnEnd::Quit);
    assert_eq!(s.current, 2);
}

#[test]
fn ticks_are_a_tenth_of_a_second_apart() {
    assert_eq!(poll_timeout(0), 100_000_000);
    assert_eq!(poll_timeout(30_000_000), 70_000_000);
    assert_eq!(poll_timeout(200_000_000), 0);
    assert!(!tick_due(99_999_999));
    assert!(tick_due(100_000_000));
}

#[test]
fn art_is_drawn_when_it_changes() {
    let mut s = player();
    s.tracks[0].art_png = Some(vec![1]);
    let rect = Rect { x: 1, y: 2, width: 3, height: 4 };
    let on = DrawInfo { art_rect: Some(rect), use_kitty: true };
    let mut memory = ArtMemory::forget();
    assert_eq!(plan_art(&s, &DrawInfo::default(), &mut memory), ArtStep::Keep);
    assert_eq!(plan_art(&s, &on, &mut memory), ArtStep::Draw(rect));
    assert_eq!(plan_art(&s, &on, &mut memory), ArtStep::Keep);
    let moved = Rect { x: 9, ..rect };
    let info = DrawInfo { art_rect: Some(moved), use_kitty: true };
    assert_eq!(plan_art(&s, &info, &mut memory), ArtStep::Keep);
    let wider = Rect { width: 5, ..rect };
    let info = DrawInfo { art_rect: Some(wider), use_kitty: true };
    assert_eq!(plan_art(&s, &info, &mut memory), ArtStep::Draw(wider));
    s.current = 1;
    assert_eq!(plan_art(&s, &on, &mut memory), ArtStep::Keep);
    s.tracks[1].art_png = Some(vec![2]);
    assert_eq!(plan_art(&s, &on, &mut memory), ArtStep::Draw(rect));
    let nowhere = DrawInfo { art_rect: None, use_kitty: true };
    assert_eq!(plan_art(&s, &nowhere, &mut memory), ArtStep::Keep);
    assert_eq!(plan_art(&s, &DrawInfo::default(), &mut memory), ArtStep::Clear);
    assert_eq!(plan_art(&s, &DrawInfo::default(), &mut memory), ArtStep::Keep);
    assert_eq!(memory, ArtMemory::forget());
}

#[test]
fn switches_switch_back() {
    let mut s = player();
    s.ui_mode = UiMode::NowPlaying;
    for c in ['k', 'b', '?'] {
        press(&mut s, c);
        press(&mut s, c);
    }
    assert!(!s.force_kitty && !s.show_help);
    assert_eq!(s.art_view_mode, ArtViewMode::AlbumArt);
}

#[test]
fn refreshing_with_a_cursor_past_the_new_end() {
    let mut s = player();
    s.selected = 2;
    let step = refresh_playlist(&mut s, &scanned(&["x"]), &vec![None], &vec![]).ok().unwrap();
    assert!(step.load);
    assert_eq!((s.current, s.selected), (0, 2));
    s.paused = true;
    s.elapsed_before_pause = 9;
    load_track(&mut s, 5, &TrackLoad::Playing { total: None }).unwrap();
    assert_eq!((s.paused, s.elapsed_before_pause, s.started_at), (false, 0, Some(5)));
    finish_refresh(&mut s, &step.selected_path);
    assert_eq!((s.current, s.selected), (0, 0));
}

#[test]
fn refreshing_when_nothing_is_selected() {
    let mut s = player();
    s.selected = 9;
    let step = refresh_playlist(&mut s, &scanned(&["0", "a"]), &vec![None, None], &vec![]);
    let step = step.ok().unwrap();
    assert!(!step.load && step.selected_path.is_none());
    finish_refresh(&mut s, &step.selected_path);
    assert_eq!((s.current, s.selected), (1, 1));
}

#[test]
fn popups_take_keys_whatever_the_player_counts() {
    let mut s = player();
    s.tracks = vec![];
    s.selected = usize::MAX;
    s.current = usize::MAX;
    s.started_at = Some(0);
    s.elapsed_before_pause = u128::MAX;
    s.show_help = true;
    for code in [KeyCode::Down, KeyCode::Char(' '), KeyCode::Char('n'), KeyCode::Char('t')] {
        let turn = handle_key(&mut s, key(code), 7);
        assert_eq!((turn.action, turn.ends, s.show_help), (Action::Nothing, true, true));
    }
    s.show_help = false;
    s.show_lyrics = true;
    for code in [KeyCode::Char(' '), KeyCode::Char('q'), KeyCode::Home] {
        let turn = handle_key(&mut s, key(code), 7);
        assert_eq!((turn.action, turn.ends, s.lyrics_scroll), (Action::Nothing, true, 0));
    }
}

//! A run of the player: its start, its keys, and what is done between them.

use vstd::prelude::*;
use vstd::string::*;

use crate::metadata::times;
use crate::models::{
    track_views, Args, ArtSig, ArtViewMode, DrawInfo, KeyCode, KeyEvent, PlayerState,
    PlayerView, Rect, SortKey, Track, TrackView, UiMode,
};
use crate::path::same_path;
use crate::player::{
    advance_if_possible, at_next, at_prev, at_selected, clamped, handle_playlist_search_key,
    has_next, last_position, lemma_resort_keeps, lemma_search_wf, lyrics_range, max_lyrics_scroll,
    move_playlist_selection, next_track, pause_toggled, play_selected_track, played, prev_track,
    resort_playlist, resorted, scroll_lyrics, scrolled, search_key_done, search_key_step,
    toggle_pause, SearchStep, MAX_SPAN,
};

verus! {

/// How long the player waits for a key, in nanoseconds.
pub const TICK: u128 = 100_000_000;

/// The player as it starts: at the first track, not yet playing.
pub open spec fn started(
    path: Seq<u8>,
    tracks: Seq<TrackView>,
    sort: SortKey,
    reverse: bool,
    force_kitty: bool,
) -> PlayerView {
    PlayerView {
        playlist_path: path,
        tracks,
        current: 0,
        selected: 0,
        search_query: seq![],
        search_mode: false,
        show_help: false,
        show_lyrics: false,
        lyrics_scroll: 0,
        paused: false,
        started_at: None,
        elapsed_before_pause: 0,
        total_duration: None,
        sort_key: sort,
        sort_reverse: reverse,
        ui_mode: UiMode::Playlist,
        force_kitty,
        art_view_mode: ArtViewMode::AlbumArt,
    }
}

/// Makes the player for a playlist.
pub fn start_player(args: &Args, tracks: Vec<Track>, force_kitty: bool) -> (state: PlayerState)
    ensures
        state@ == started(
            args.path@,
            track_views(tracks@),
            args.sort,
            args.reverse,
            force_kitty,
        ),
        tracks@.len() > 0 ==> state@.wf(),
{
    PlayerState {
        playlist_path: args.path.clone(),
        tracks,
        current: 0,
        selected: 0,
        search_query: String::new(),
        search_mode: false,
        show_help: false,
        show_lyrics: false,
        lyrics_scroll: 0,
        paused: false,
        started_at: None,
        elapsed_before_pause: 0,
        total_duration: None,
        sort_key: args.sort,
        sort_reverse: args.reverse,
        ui_mode: UiMode::Playlist,
        force_kitty,
        art_view_mode: ArtViewMode::AlbumArt,
    }
}

/// What the player remembers of the image that it has the terminal show.
#[derive(Clone, Copy, PartialEq, Eq, Debug)]
pub struct ArtMemory {
    pub drawn: bool,
    pub last: Option<ArtSig>,
}

/// What is to be done about the image.
#[derive(Clone, Copy, PartialEq, Eq, Structural, Debug)]
pub enum ArtStep {
    /// Nothing.
    Keep,
    /// The art of the playing track is to be drawn in this area.
    Draw(Rect),
    /// The image is to be taken away.
    Clear,
}

impl ArtMemory {
    /// No image is shown.
    pub open spec fn none() -> ArtMemory {
        ArtMemory { drawn: false, last: None }
    }

    /// Starts with no image, or goes back to it.
    pub fn forget() -> (memory: ArtMemory)
        ensures
            memory == ArtMemory::none(),
    {
        ArtMemory { drawn: false, last: None }
    }
}

/// What the art of the track number `index`, drawn in the area `rect`, is known by.
pub open spec fn signature(index: int, rect: Rect) -> ArtSig {
    ArtSig { index: index as usize, width: rect.width, height: rect.height }
}

/// What is to be done about the image once the screen has been drawn: the art of the playing
/// track is drawn where it is another image than the last, or of another size; an image that is
/// not wanted any more is taken away.
pub open spec fn art_step(s: PlayerView, info: DrawInfo, memory: ArtMemory) -> ArtStep {
    if info.use_kitty {
        match info.art_rect {
            Some(rect) => if s.tracks[s.current].art_png is Some && memory.last != Some(
                signature(s.current, rect),
            ) {
                ArtStep::Draw(rect)
            } else {
                ArtStep::Keep
            },
            None => ArtStep::Keep,
        }
    } else if memory.drawn {
        ArtStep::Clear
    } else {
        ArtStep::Keep
    }
}

/// What is remembered of the image once that is done.
pub open spec fn art_remembered(s: PlayerView, step: ArtStep, memory: ArtMemory) -> ArtMemory {
    match step {
        ArtStep::Keep => memory,
        ArtStep::Draw(rect) => ArtMemory { drawn: true, last: Some(signature(s.current, rect)) },
        ArtStep::Clear => ArtMemory::none(),
    }
}

/// Whether two signatures are the same.
fn same_sig(a: &Option<ArtSig>, b: ArtSig) -> (same: bool)
    ensures
        same == (*a == Some(b)),
{
    match a {
        Some(a) => a.index == b.index && a.width == b.width && a.height == b.height,
        None => false,
    }
}

/// Decides what is to be done about the image once the screen has been drawn.
pub fn plan_art(state: &PlayerState, info: &DrawInfo, memory: &mut ArtMemory) -> (step: ArtStep)
    requires
        info.use_kitty && info.art_rect is Some ==> state@.has_current(),
    ensures
        step == art_step(state@, *info, *old(memory)),
        *final(memory) == art_remembered(state@, step, *old(memory)),
{
    if info.use_kitty {
        match info.art_rect {
            Some(rect) => {
                assert(state@.tracks[state@.current] == state.tracks@[state.current as int]@);
                let sig = ArtSig {
                    index: state.current,
                    width: rect.width,
                    height: rect.height,
                };
                if state.tracks[state.current].art_png.is_some() && !same_sig(&memory.last, sig) {
                    memory.drawn = true;
                    memory.last = Some(sig);
                    ArtStep::Draw(rect)
                } else {
                    ArtStep::Keep
                }
            },
            None => ArtStep::Keep,
        }
    } else if memory.drawn {
        memory.drawn = false;
        memory.last = None;
        ArtStep::Clear
    } else {
        ArtStep::Keep
    }
}

/// An image is not drawn twice in a row: while the screen stays as it is, one is enough.
pub proof fn lemma_art_settles(s: PlayerView, info: DrawInfo, memory: ArtMemory)
    ensures
        art_step(s, info, art_remembered(s, art_step(s, info, memory), memory)) is Keep,
{
}

/// What is left to do once a key has been handled.
#[derive(Clone, Copy, PartialEq, Eq, Structural, Debug)]
pub enum Action {
    Nothing,
    /// The player ends.
    Quit,
    /// The track that the player is at is to be loaded.
    LoadTrack,
    /// The sound is to be paused or to go on, as the player now says.
    SetPaused,
    /// The playlist is to be sorted the other way round.
    Reverse,
    /// The playlist is to be read anew, and the image to be taken away.
    Refresh,
}

/// What is left to do once a key has been handled, and whether the turn ends there: if it does,
/// it is not looked at whether the track has ended.
#[derive(Clone, Copy, PartialEq, Eq, Structural, Debug)]
pub struct Turn {
    pub action: Action,
    pub ends: bool,
}

/// The player once the help has got a key.
pub open spec fn help_key_done(s: PlayerView, code: KeyCode) -> PlayerView {
    if code == KeyCode::Char('?') || code is Esc || code is Enter {
        PlayerView { show_help: false, ..s }
    } else {
        s
    }
}

/// The player once the lyrics have got a key.
pub open spec fn lyrics_key_done(s: PlayerView, code: KeyCode) -> PlayerView {
    match code {
        KeyCode::Char(c) => if c == 'l' {
            PlayerView { show_lyrics: false, lyrics_scroll: 0, ..s }
        } else {
            s
        },
        KeyCode::Esc => PlayerView { show_lyrics: false, lyrics_scroll: 0, ..s },
        KeyCode::Enter => PlayerView { show_lyrics: false, lyrics_scroll: 0, ..s },
        KeyCode::Up => scrolled(s, -1),
        KeyCode::Down => scrolled(s, 1),
        KeyCode::PageUp => scrolled(s, -8),
        KeyCode::PageDown => scrolled(s, 8),
        KeyCode::Home => PlayerView { lyrics_scroll: 0, ..s },
        KeyCode::End => PlayerView { lyrics_scroll: lyrics_range(s.tracks[s.current]), ..s },
        _ => s,
    }
}

/// The player with the cursor moved by `delta` tracks.
pub open spec fn cursor_moved(s: PlayerView, delta: int) -> PlayerView {
    PlayerView {
        selected: clamped(s.selected + delta, 0, last_position(s.tracks.len())),
        ..s
    }
}

/// The other way to show album art.
pub open spec fn other_art_view(mode: ArtViewMode) -> ArtViewMode {
    match mode {
        ArtViewMode::AlbumArt => ArtViewMode::AsciiArt,
        ArtViewMode::AsciiArt => ArtViewMode::AlbumArt,
    }
}

/// The player once it has got a letter that nothing in front of it takes.
pub open spec fn letter_done(s: PlayerView, c: char, control: bool, now: int) -> PlayerView {
    if c == '?' {
        PlayerView { show_help: true, ..s }
    } else if c == 'l' {
        PlayerView { show_lyrics: true, lyrics_scroll: 0, ..s }
    } else if c == ' ' {
        pause_toggled(s, now)
    } else if c == '/' && s.ui_mode is Playlist {
        PlayerView { search_mode: true, ..s }
    } else if c == 'n' {
        at_next(s)
    } else if c == 'p' {
        at_prev(s)
    } else if c == 't' {
        resorted(s, SortKey::Title, s.sort_reverse, seq![])
    } else if c == 'a' {
        resorted(s, SortKey::Artist, s.sort_reverse, seq![])
    } else if c == 'L' {
        resorted(s, SortKey::Album, s.sort_reverse, seq![])
    } else if c == 's' {
        resorted(s, SortKey::Path, s.sort_reverse, seq![])
    } else if c == 'k' {
        PlayerView { force_kitty: !s.force_kitty, ..s }
    } else if c == 'b' && s.ui_mode is NowPlaying {
        PlayerView { art_view_mode: other_art_view(s.art_view_mode), ..s }
    } else if c == '1' && control {
        PlayerView { ui_mode: UiMode::Playlist, ..s }
    } else if c == '2' && control {
        PlayerView { ui_mode: UiMode::NowPlaying, ..s }
    } else {
        s
    }
}

/// The player once it has got a key that nothing in front of it takes.
pub open spec fn plain_key_done(s: PlayerView, key: KeyEvent, now: int) -> PlayerView {
    match key.code {
        KeyCode::Char(c) => letter_done(s, c, key.control, now),
        KeyCode::Up => if s.ui_mode is Playlist {
            cursor_moved(s, -1)
        } else {
            s
        },
        KeyCode::Down => if s.ui_mode is Playlist {
            cursor_moved(s, 1)
        } else {
            s
        },
        KeyCode::Enter => if s.ui_mode is Playlist {
            at_selected(s)
        } else {
            s
        },
        KeyCode::F(n) => if n == 1 {
            PlayerView { ui_mode: UiMode::Playlist, ..s }
        } else if n == 2 {
            PlayerView { ui_mode: UiMode::NowPlaying, ..s }
        } else {
            s
        },
        _ => s,
    }
}

/// What is left to do once the player has got a key that nothing in front of it takes.
pub open spec fn plain_key_action(s: PlayerView, key: KeyEvent) -> Action {
    match key.code {
        KeyCode::Char(c) => if c == 'q' {
            Action::Quit
        } else if c == ' ' {
            Action::SetPaused
        } else if c == 'n' && has_next(s) {
            Action::LoadTrack
        } else if c == 'p' && s.current > 0 {
            Action::LoadTrack
        } else if c == 'r' {
            Action::Reverse
        } else if c == 'R' {
            Action::Refresh
        } else {
            Action::Nothing
        },
        KeyCode::Enter => if s.ui_mode is Playlist && s.selected != s.current {
            Action::LoadTrack
        } else {
            Action::Nothing
        },
        KeyCode::F(n) => if n == 5 {
            Action::Refresh
        } else {
            Action::Nothing
        },
        _ => Action::Nothing,
    }
}

/// The player once it has got a key at `now`. The help takes it first, then the lyrics, then
/// the search box of the playlist.
pub open spec fn key_done(s: PlayerView, key: KeyEvent, now: int) -> PlayerView {
    if s.show_help {
        help_key_done(s, key.code)
    } else if s.show_lyrics {
        lyrics_key_done(s, key.code)
    } else if s.ui_mode is Playlist && s.search_mode {
        search_key_done(s, key)
    } else {
        plain_key_done(s, key, now)
    }
}

/// What is left to do once the player has got a key.
pub open spec fn key_turn(s: PlayerView, key: KeyEvent) -> Turn {
    if s.show_help || s.show_lyrics {
        Turn { action: Action::Nothing, ends: true }
    } else if s.ui_mode is Playlist && s.search_mode {
        Turn {
            action: if search_key_step(s, key) is LoadTrack {
                Action::LoadTrack
            } else {
                Action::Nothing
            },
            ends: true,
        }
    } else {
        Turn { action: plain_key_action(s, key), ends: false }
    }
}

/// Whether the lyrics look at the track that plays for this key.
pub open spec fn lyrics_key_scrolls(code: KeyCode) -> bool {
    code is Up || code is Down || code is PageUp || code is PageDown || code is End
}

/// Whether the numbers of the player allow for a letter that nothing in front of it takes: space
/// adds up time, `n` counts tracks, and the keys that sort look at the playing and the selected
/// track.
pub open spec fn letter_fits(s: PlayerView, c: char, now: int) -> bool {
    &&& c == ' ' ==> played(s, now) <= MAX_SPAN
    &&& c == 'n' ==> s.current < usize::MAX
    &&& c == 't' || c == 'a' || c == 'L' || c == 's' ==> s.wf()
}

/// Whether the numbers of the player allow for a key that nothing in front of it takes: the
/// arrows count tracks.
pub open spec fn plain_key_fits(s: PlayerView, code: KeyCode, now: int) -> bool {
    match code {
        KeyCode::Char(c) => letter_fits(s, c, now),
        KeyCode::Up => s.ui_mode is Playlist ==> s.selected <= isize::MAX,
        KeyCode::Down => s.ui_mode is Playlist ==> s.selected < isize::MAX,
        _ => true,
    }
}

/// Whether the numbers of the player allow for a key that is pressed at `now`.
pub open spec fn key_fits(s: PlayerView, key: KeyEvent, now: int) -> bool {
    if s.show_help {
        true
    } else if s.show_lyrics {
        lyrics_key_scrolls(key.code) ==> s.has_current()
    } else if s.ui_mode is Playlist && s.search_mode {
        true
    } else {
        plain_key_fits(s, key.code, now)
    }
}

/// Gives a key to the lyrics.
fn handle_lyrics_key(state: &mut PlayerState, code: KeyCode)
    requires
        lyrics_key_scrolls(code) ==> old(state)@.has_current(),
    ensures
        final(state)@ == lyrics_key_done(old(state)@, code),
        old(state)@.wf() ==> final(state)@.wf(),
{
    match code {
        KeyCode::Char(c) => {
            if c == 'l' {
                state.show_lyrics = false;
                state.lyrics_scroll = 0;
            }
        },
        KeyCode::Esc => {
            state.show_lyrics = false;
            state.lyrics_scroll = 0;
        },
        KeyCode::Enter => {
            state.show_lyrics = false;
            state.lyrics_scroll = 0;
        },
        KeyCode::Up => scroll_lyrics(state, -1),
        KeyCode::Down => scroll_lyrics(state, 1),
        KeyCode::PageUp => scroll_lyrics(state, -8),
        KeyCode::PageDown => scroll_lyrics(state, 8),
        KeyCode::Home => {
            state.lyrics_scroll = 0;
        },
        KeyCode::End => {
            assert(state@.tracks[state@.current] == state.tracks@[state.current as int]@);
            state.lyrics_scroll = max_lyrics_scroll(&state.tracks[state.current]);
        },
        _ => {},
    }
}

/// The action for a track that may have to be loaded.
fn load_if(load: bool) -> (action: Action)
    ensures
        action == (if load {
            Action::LoadTrack
        } else {
            Action::Nothing
        }),
{
    if load {
        Action::LoadTrack
    } else {
        Action::Nothing
    }
}

/// Gives the player a letter that nothing in front of it takes.
fn handle_letter(state: &mut PlayerState, c: char, control: bool, now: u128) -> (action: Action)
    requires
        letter_fits(old(state)@, c, now as int),
    ensures
        final(state)@ == letter_done(old(state)@, c, control, now as int),
        action == plain_key_action(old(state)@, KeyEvent { code: KeyCode::Char(c), control }),
        old(state)@.wf() ==> final(state)@.wf(),
{
    let no_times: Vec<i128> = Vec::new();
    assert(times(no_times@) =~= seq![]);
    if c == 'q' {
        return Action::Quit;
    } else if c == '?' {
        state.show_help = true;
    } else if c == 'l' {
        state.show_lyrics = true;
        state.lyrics_scroll = 0;
    } else if c == ' ' {
        toggle_pause(state, now);
        return Action::SetPaused;
    } else if c == '/' && state.ui_mode == UiMode::Playlist {
        state.search_mode = true;
    } else if c == 'n' {
        return load_if(next_track(state));
    } else if c == 'p' {
        return load_if(prev_track(state));
    } else if c == 't' {
        resort_playlist(state, SortKey::Title, &no_times);
    } else if c == 'a' {
        resort_playlist(state, SortKey::Artist, &no_times);
    } else if c == 'L' {
        resort_playlist(state, SortKey::Album, &no_times);
    } else if c == 's' {
        resort_playlist(state, SortKey::Path, &no_times);
    } else if c == 'r' {
        return Action::Reverse;
    } else if c == 'R' {
        return Action::Refresh;
    } else if c == 'k' {
        state.force_kitty = !state.force_kitty;
    } else if c == 'b' && state.ui_mode == UiMode::NowPlaying {
        state.art_view_mode = match state.art_view_mode {
            ArtViewMode::AlbumArt => ArtViewMode::AsciiArt,
            ArtViewMode::AsciiArt => ArtViewMode::AlbumArt,
        };
    } else if c == '1' && control {
        state.ui_mode = UiMode::Playlist;
    } else if c == '2' && control {
        state.ui_mode = UiMode::NowPlaying;
    }
    Action::Nothing
}

/// Gives the player a key that nothing in front of it takes.
fn handle_plain_key(state: &mut PlayerState, key: KeyEvent, now: u128) -> (action: Action)
    requires
        plain_key_fits(old(state)@, key.code, now as int),
    ensures
        final(state)@ == plain_key_done(old(state)@, key, now as int),
        action == plain_key_action(old(state)@, key),
        old(state)@.wf() ==> final(state)@.wf(),
{
    match key.code {
        KeyCode::Char(c) => handle_letter(state, c, key.control, now),
        KeyCode::Up => {
            if state.ui_mode == UiMode::Playlist {
                move_playlist_selection(state, -1);
            }
            Action::Nothing
        },
        KeyCode::Down => {
            if state.ui_mode == UiMode::Playlist {
                move_playlist_selection(state, 1);
            }
            Action::Nothing
        },
        KeyCode::Enter => {
            if state.ui_mode == UiMode::Playlist {
                load_if(play_selected_track(state))
            } else {
                Action::Nothing
            }
        },
        KeyCode::F(n) => {
            if n == 5 {
                return Action::Refresh;
            } else if n == 1 {
                state.ui_mode = UiMode::Playlist;
            } else if n == 2 {
                state.ui_mode = UiMode::NowPlaying;
            }
            Action::Nothing
        },
        _ => Action::Nothing,
    }
}

/// Gives the player a key that was pressed at `now`.
pub fn handle_key(state: &mut PlayerState, key: KeyEvent, now: u128) -> (turn: Turn)
    requires
        key_fits(old(state)@, key, now as int),
    ensures
        final(state)@ == key_done(old(state)@, key, now as int),
        turn == key_turn(old(state)@, key),
        old(state)@.wf() ==> final(state)@.wf(),
{
    if state.show_help {
        match key.code {
            KeyCode::Char(c) => {
                if c == '?' {
                    state.show_help = false;
                }
            },
            KeyCode::Esc => {
                state.show_help = false;
            },
            KeyCode::Enter => {
                state.show_help = false;
            },
            _ => {},
        }
        return Turn { action: Action::Nothing, ends: true };
    }
    if state.show_lyrics {
        handle_lyrics_key(state, key.code);
        return Turn { action: Action::Nothing, ends: true };
    }
    if state.ui_mode == UiMode::Playlist {
        match handle_playlist_search_key(state, key) {
            SearchStep::NotSearching => {},
            SearchStep::Handled => {
                return Turn { action: Action::Nothing, ends: true };
            },
            SearchStep::LoadTrack => {
                return Turn { action: Action::LoadTrack, ends: true };
            },
        }
    }
    Turn { action: handle_plain_key(state, key, now), ends: false }
}

/// What comes after a turn.
#[derive(Clone, Copy, PartialEq, Eq, Structural, Debug)]
pub enum TurnEnd {
    /// The next turn.
    Next,
    /// The track that the player has gone on to, which is to be loaded, and the next turn.
    LoadTrack,
    /// The end: the last track is over.
    Quit,
}

/// Ends a turn: where the track is over, the player goes on to the next one, or ends.
pub fn end_turn(state: &mut PlayerState, track_over: bool) -> (end: TurnEnd)
    requires
        track_over ==> old(state)@.current < usize::MAX,
    ensures
        final(state)@ == (if track_over {
            at_next(old(state)@)
        } else {
            old(state)@
        }),
        end == (if !track_over {
            TurnEnd::Next
        } else if has_next(old(state)@) {
            TurnEnd::LoadTrack
        } else {
            TurnEnd::Quit
        }),
        old(state)@.wf() ==> final(state)@.wf(),
{
    if !track_over {
        TurnEnd::Next
    } else if advance_if_possible(state) {
        TurnEnd::LoadTrack
    } else {
        TurnEnd::Quit
    }
}

/// How long the player waits for a key, `elapsed` nanoseconds after the last tick.
pub fn poll_timeout(elapsed: u128) -> (timeout: u128)
    ensures
        timeout == (if elapsed < TICK {
            TICK - elapsed
        } else {
            0
        }),
{
    if elapsed < TICK {
        TICK - elapsed
    } else {
        0
    }
}

/// Whether a tick is due, `elapsed` nanoseconds after the last one.
pub fn tick_due(elapsed: u128) -> (due: bool)
    ensures
        due == (elapsed >= TICK),
{
    elapsed >= TICK
}

/// A key never makes the player play a track that it does not load: where the current track is
/// another one after a key, or the same one at another place of a new order, then either the
/// action is to load it, or its path is what it was.
pub proof fn lemma_key_loads(s: PlayerView, key: KeyEvent, now: int)
    requires
        s.wf(),
    ensures
        ({
            let r = key_done(s, key, now);
            r.wf() && (key_turn(s, key).action is LoadTrack || same_path(
                r.tracks[r.current].path,
                s.tracks[s.current].path,
            ))
        }),
{
    lemma_resort_keeps(s, SortKey::Title, s.sort_reverse, seq![]);
    lemma_resort_keeps(s, SortKey::Artist, s.sort_reverse, seq![]);
    lemma_resort_keeps(s, SortKey::Album, s.sort_reverse, seq![]);
    lemma_resort_keeps(s, SortKey::Path, s.sort_reverse, seq![]);
    lemma_search_wf(s, key);
}

/// No key but these ends the player, and not while the help, the lyrics or the search box are
/// open: there every letter is theirs.
pub proof fn lemma_quit_key(s: PlayerView, key: KeyEvent)
    ensures
        key_turn(s, key).action is Quit <==> {
            &&& key.code == KeyCode::Char('q')
            &&& !s.show_help
            &&& !s.show_lyrics
            &&& !(s.ui_mode is Playlist && s.search_mode)
        },
{
}

/// While the help is open, `?`, escape and enter close it and do nothing else, and every other
/// key does nothing at all. No key ends the player, loads a track or needs anything of it.
pub proof fn lemma_help_keys(s: PlayerView, key: KeyEvent, now: int)
    requires
        s.show_help,
    ensures
        key_fits(s, key, now),
        key_turn(s, key) == (Turn { action: Action::Nothing, ends: true }),
        key_done(s, key, now) == (if key.code == KeyCode::Char('?') || key.code is Esc
            || key.code is Enter {
            PlayerView { show_help: false, ..s }
        } else {
            s
        }),
{
}

/// While the lyrics are open, `l`, escape and enter close them; the arrows and the page keys
/// scroll by one line and by eight, home and end to the first line and to the last; and every
/// other key does nothing at all. No key ends the player or loads a track.
pub proof fn lemma_lyrics_keys(s: PlayerView, key: KeyEvent, now: int)
    requires
        s.show_lyrics,
        !s.show_help,
    ensures
        s.has_current() ==> key_fits(s, key, now),
        !lyrics_key_scrolls(key.code) ==> key_fits(s, key, now),
        key_turn(s, key) == (Turn { action: Action::Nothing, ends: true }),
        ({
            let max = lyrics_range(s.tracks[s.current]);
            let r = key_done(s, key, now);
            let at = |n: int| PlayerView { lyrics_scroll: n, ..s };
            match key.code {
                KeyCode::Esc | KeyCode::Enter | KeyCode::Char('l') => r == (PlayerView {
                    show_lyrics: false,
                    ..at(0)
                }),
                KeyCode::Home => r == at(0),
                KeyCode::End => r == at(max),
                KeyCode::Up => r == at(clamped(s.lyrics_scroll - 1, 0, max)),
                KeyCode::Down => r == at(clamped(s.lyrics_scroll + 1, 0, max)),
                KeyCode::PageUp => r == at(clamped(s.lyrics_scroll - 8, 0, max)),
                KeyCode::PageDown => r == at(clamped(s.lyrics_scroll + 8, 0, max)),
                _ => r == s,
            }
        }),
{
}

/// The keys that switch something switch it back when they are pressed again: image mode, the
/// way art is shown, and the help.
pub proof fn lemma_switches(s: PlayerView, now: int)
    requires
        !s.show_help,
        !s.show_lyrics,
        !(s.ui_mode is Playlist && s.search_mode),
    ensures
        ({
            let k = KeyEvent { code: KeyCode::Char('k'), control: false };
            let b = KeyEvent { code: KeyCode::Char('b'), control: false };
            let help = KeyEvent { code: KeyCode::Char('?'), control: false };
            &&& key_done(key_done(s, k, now), k, now) == s
            &&& key_done(key_done(s, b, now), b, now) == s
            &&& key_done(key_done(s, help, now), help, now) == s
        }),
{
}

/// The lyrics never scroll past their range, while they are shown.
pub proof fn lemma_lyrics_in_range(s: PlayerView, key: KeyEvent, now: int)
    requires
        s.wf(),
        s.show_lyrics,
        0 <= s.lyrics_scroll <= lyrics_range(s.tracks[s.current]),
    ensures
        ({
            let r = key_done(s, key, now);
            &&& r.tracks == s.tracks
            &&& r.current == s.current
            &&& 0 <= r.lyrics_scroll <= lyrics_range(r.tracks[r.current])
        }),
{
}

/// The player starts at the first track, with the cursor there, in the order that was asked for.
/// Nothing has been played, nothing is typed, nothing lies over the playlist, and art is shown
/// as an image where that works.
pub proof fn lemma_started(
    path: Seq<u8>,
    tracks: Seq<TrackView>,
    sort: SortKey,
    reverse: bool,
    force_kitty: bool,
    now: int,
)
    ensures
        ({
            let s = started(path, tracks, sort, reverse, force_kitty);
            &&& s.playlist_path == path
            &&& s.tracks == tracks
            &&& s.current == 0
            &&& s.selected == 0
            &&& s.sort_key == sort
            &&& s.sort_reverse == reverse
            &&& s.force_kitty == force_kitty
            &&& !s.paused
            &&& played(s, now) == 0
            &&& s.started_at is None
            &&& s.total_duration is None
            &&& s.search_query.len() == 0
            &&& !s.search_mode
            &&& !s.show_help
            &&& !s.show_lyrics
            &&& s.lyrics_scroll == 0
            &&& s.ui_mode is Playlist
            &&& s.art_view_mode is AlbumArt
        }),
{
}

/// Art is drawn where an image is wanted, there is an area for it and the track has art, unless
/// the last that was drawn is of the same track and of the same width and height. An image is
/// taken away where none is wanted and one is shown. What is remembered is what is shown.
pub proof fn lemma_art_step(s: PlayerView, info: DrawInfo, memory: ArtMemory)
    requires
        0 <= s.current <= usize::MAX,
    ensures
        ({
            let step = art_step(s, info, memory);
            let after = art_remembered(s, step, memory);
            &&& step matches ArtStep::Draw(rect) ==> {
                &&& info.use_kitty
                &&& info.art_rect == Some(rect)
                &&& s.tracks[s.current].art_png is Some
                &&& memory.last is None || memory.last->0.index != s.current
                    || memory.last->0.width != rect.width || memory.last->0.height != rect.height
                &&& after.drawn
                &&& after.last matches Some(sig) && sig.index == s.current && sig.width
                    == rect.width && sig.height == rect.height
            }
            &&& info.use_kitty && info.art_rect is Some && s.tracks[s.current].art_png is Some && (
            memory.last is None || memory.last->0.index != s.current || memory.last->0.width
                != info.art_rect->0.width || memory.last->0.height != info.art_rect->0.height)
                ==> step == ArtStep::Draw(info.art_rect->0)
            &&& step is Clear <==> !info.use_kitty && memory.drawn
            &&& step is Clear ==> !after.drawn && after.last is None
            &&& step is Keep ==> after == memory
        }),
{
    if memory.last is Some && info.art_rect is Some {
        let sig = memory.last->0;
        let rect = info.art_rect->0;
        assert(sig == signature(s.current, rect) <==> sig.index == s.current && sig.width
            == rect.width && sig.height == rect.height);
    }
}

/// What a letter does where nothing lies over the screen and the search box is closed, and what
/// is left to do then. A letter that is not named does nothing.
pub proof fn lemma_letters(s: PlayerView, c: char, control: bool, now: int)
    requires
        !s.show_help,
        !s.show_lyrics,
        !(s.ui_mode is Playlist && s.search_mode),
    ensures
        ({
            let key = KeyEvent { code: KeyCode::Char(c), control };
            let r = key_done(s, key, now);
            let turn = key_turn(s, key);
            let list = s.ui_mode is Playlist;
            let last = s.current >= s.tracks.len() - 1;
            let none = turn.action is Nothing;
            &&& !turn.ends
            &&& c == 'q' ==> r == s && turn.action is Quit
            &&& c == '?' ==> r == (PlayerView { show_help: true, ..s }) && none
            &&& c == 'l' ==> r == (PlayerView { show_lyrics: true, lyrics_scroll: 0, ..s }) && none
            &&& c == ' ' ==> r.paused == !s.paused && played(r, now) == played(s, now) && r
                == pause_toggled(s, now) && turn.action is SetPaused
            &&& c == '/' && list ==> r == (PlayerView { search_mode: true, ..s }) && none
            &&& c == 'n' && !last ==> r == (PlayerView { current: s.current + 1, ..s })
                && turn.action is LoadTrack
            &&& c == 'p' && s.current > 0 ==> r == (PlayerView { current: s.current - 1, ..s })
                && turn.action is LoadTrack
            &&& c == 't' ==> r == resorted(s, SortKey::Title, s.sort_reverse, seq![]) && none
            &&& c == 'a' ==> r == resorted(s, SortKey::Artist, s.sort_reverse, seq![]) && none
            &&& c == 'L' ==> r == resorted(s, SortKey::Album, s.sort_reverse, seq![]) && none
            &&& c == 's' ==> r == resorted(s, SortKey::Path, s.sort_reverse, seq![]) && none
            &&& c == 'r' ==> r == s && turn.action is Reverse
            &&& c == 'R' ==> r == s && turn.action is Refresh
            &&& c == 'k' ==> r == (PlayerView { force_kitty: !s.force_kitty, ..s }) && none
            &&& c == 'b' && !list ==> r == (PlayerView { art_view_mode: r.art_view_mode, ..s })
                && r.art_view_mode != s.art_view_mode && none
            &&& c == '1' && control ==> r == (PlayerView { ui_mode: UiMode::Playlist, ..s }) && none
            &&& c == '2' && control ==> r == (PlayerView { ui_mode: UiMode::NowPlaying, ..s })
                && none
            &&& c == '/' && !list || c == 'n' && last || c == 'p' && s.current <= 0 || c == 'b'
                && list || (c == '1' || c == '2') && !control ==> r == s && none
            &&& !seq![
                'q', '?', 'l', ' ', '/', 'n', 'p', 't', 'a', 'L', 's', 'r', 'R', 'k', 'b', '1', '2',
            ].contains(c) ==> r == s && none
        }),
{
    let all = seq![
        'q', '?', 'l', ' ', '/', 'n', 'p', 't', 'a', 'L', 's', 'r', 'R', 'k', 'b', '1', '2',
    ];
    assert(all[0] == 'q' && all[1] == '?' && all[2] == 'l' && all[3] == ' ' && all[4] == '/');
    assert(all[5] == 'n' && all[6] == 'p' && all[7] == 't' && all[8] == 'a' && all[9] == 'L');
    assert(all[10] == 's' && all[11] == 'r' && all[12] == 'R' && all[13] == 'k' && all[14] == 'b');
    assert(all[15] == '1' && all[16] == '2');
}

/// What the other keys do there: the arrows move the cursor of the playlist by one track, no
/// further than the list goes; enter plays the track at the cursor; F1 and F2 switch the screen,
/// and F5 has the playlist read anew. The arrows and enter do nothing on the other screen.
pub proof fn lemma_other_keys(s: PlayerView, key: KeyEvent, now: int)
    requires
        !s.show_help,
        !s.show_lyrics,
        !(s.ui_mode is Playlist && s.search_mode),
        s.wf(),
        !(key.code is Char),
    ensures
        ({
            let r = key_done(s, key, now);
            let turn = key_turn(s, key);
            let list = s.ui_mode is Playlist;
            &&& !turn.ends
            &&& key.code is Up && list ==> r == (PlayerView {
                selected: if s.selected == 0 {
                    0
                } else {
                    s.selected - 1
                },
                ..s
            })
            &&& key.code is Down && list ==> r == (PlayerView {
                selected: if s.selected + 1 == s.tracks.len() {
                    s.selected
                } else {
                    s.selected + 1
                },
                ..s
            })
            &&& key.code is Enter && list ==> r == (PlayerView { current: s.selected, ..s })
            &&& key.code == KeyCode::F(1) ==> r == (PlayerView { ui_mode: UiMode::Playlist, ..s })
            &&& key.code == KeyCode::F(2) ==> r == (PlayerView { ui_mode: UiMode::NowPlaying, ..s })
            &&& (key.code is Up || key.code is Down || key.code is Enter) && !list ==> r == s
            &&& !(key.code is Up || key.code is Down || key.code is Enter || key.code
                == KeyCode::F(1) || key.code == KeyCode::F(2)) ==> r == s
            &&& turn.action is LoadTrack <==> key.code is Enter && list && s.selected != s.current
            &&& turn.action is Refresh <==> key.code == KeyCode::F(5)
            &&& turn.action is LoadTrack || turn.action is Refresh || turn.action is Nothing
        }),
{
}

/// While the search box is open, and nothing lies over it, every key is its own, and nothing is
/// left to do but to load the track that it plays.
pub proof fn lemma_search_takes_keys(s: PlayerView, key: KeyEvent, now: int)
    requires
        !s.show_help,
        !s.show_lyrics,
        s.ui_mode is Playlist,
        s.search_mode,
    ensures
        key_done(s, key, now) == search_key_done(s, key),
        key_turn(s, key).ends,
        key_turn(s, key).action is LoadTrack <==> search_key_step(s, key) is LoadTrack,
        key_turn(s, key).action is LoadTrack || key_turn(s, key).action is Nothing,
{
}

/// A cursor that is moved goes by as many tracks as it is told, no further than the list goes.
pub proof fn lemma_cursor_moved(s: PlayerView, delta: int)
    requires
        s.tracks.len() > 0,
    ensures
        ({
            let r = cursor_moved(s, delta);
            let to = s.selected + delta;
            &&& 0 <= to < s.tracks.len() ==> r.selected == to
            &&& to < 0 ==> r.selected == 0
            &&& to >= s.tracks.len() ==> r.selected == s.tracks.len() - 1
            &&& r == (PlayerView { selected: r.selected, ..s })
        }),
{
}

/// The player looks at its keys ten times a second.
pub proof fn lemma_tick()
    ensures
        10 * TICK == 1_000_000_000,
{
}

} // verus!

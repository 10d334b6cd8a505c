//! The player: what its controls do to it.

use vstd::prelude::*;
use vstd::string::*;

use crate::cache::{cache_for, resume_for, save_playlist_cache, save_resume_state};
use crate::metadata::{
    build_tracks_from_scan, lemma_sort_direction, lemma_sort_moves, scanned_tracks, sort_tracks,
    sorted_from, sorted_times, sorted_tracks, tag_views, times, track_ranks,
};
use crate::models::{
    opt_text, opt_time, scanned_views, track_views, Args, KeyCode, KeyEvent, PlayerState,
    PlayerView, ScannedTrack, SortKey, TagData, Track, TrackView,
};
use crate::path::{opt_path, same_path, FilePath};
use crate::playlist::{
    find_track, lemma_position_known, lemma_position_of, position_of, tracks_differ,
};
use crate::records::{cache_bytes, resume_bytes};
use crate::scanner::{require_tracks, NoTracks};
use crate::text::{
    contains_text, count_lines, has_text, lemma_has_text, lemma_lower_char, lemma_trimmed,
    line_count, lower, same_letter, spelled_at, to_lower, trim, trimmed,
};

verus! {

/// The longest time that the player can count, in nanoseconds.
pub const MAX_SPAN: u128 = 18_446_744_073_709_551_615_999_999_999;

/// How many lines of lyrics are on the screen at once.
pub const LYRICS_LINES: usize = 24;

/// How much time has passed at `now` since `started`.
pub open spec fn since(started: int, now: int) -> int {
    if started <= now {
        now - started
    } else {
        0
    }
}

/// How long the track has been playing at `now`, without the pauses.
pub open spec fn played(s: PlayerView, now: int) -> int {
    if s.paused {
        s.elapsed_before_pause
    } else {
        match s.started_at {
            Some(started) => s.elapsed_before_pause + since(started, now),
            None => s.elapsed_before_pause,
        }
    }
}

/// How long the track has been playing at `now`, without the pauses.
pub fn current_elapsed(state: &PlayerState, now: u128) -> (elapsed: u128)
    requires
        played(state@, now as int) <= MAX_SPAN,
    ensures
        elapsed == played(state@, now as int),
{
    if state.paused {
        state.elapsed_before_pause
    } else {
        match state.started_at {
            Some(started) => if started <= now {
                state.elapsed_before_pause + (now - started)
            } else {
                state.elapsed_before_pause
            },
            None => state.elapsed_before_pause,
        }
    }
}

/// Time that was played is never taken back: it grows with the clock.
pub proof fn lemma_played_grows(s: PlayerView, now: int, later: int)
    requires
        now <= later,
    ensures
        s.elapsed_before_pause <= played(s, now) <= played(s, later),
{
}

/// The player once the pause has begun, or has ended, at `now`.
pub open spec fn pause_toggled(s: PlayerView, now: int) -> PlayerView {
    if s.paused {
        PlayerView { paused: false, started_at: Some(now), ..s }
    } else {
        PlayerView {
            paused: true,
            started_at: None,
            elapsed_before_pause: played(s, now),
            ..s
        }
    }
}

/// Pauses, or goes on playing, at `now`.
pub fn toggle_pause(state: &mut PlayerState, now: u128)
    requires
        played(old(state)@, now as int) <= MAX_SPAN,
    ensures
        final(state)@ == pause_toggled(old(state)@, now as int),
{
    if state.paused {
        state.paused = false;
        state.started_at = Some(now);
    } else {
        let elapsed: u128 = current_elapsed(state, now);
        state.paused = true;
        state.started_at = None;
        state.elapsed_before_pause = elapsed;
    }
}

/// A pause takes no time off the track and adds none: what was played when it began is what is
/// played at any time in it, and from where it ends the clock goes on.
pub proof fn lemma_pause(s: PlayerView, begin: int, during: int, end: int, later: int)
    requires
        !s.paused,
        end <= later,
    ensures
        ({
            let paused = pause_toggled(s, begin);
            let resumed = pause_toggled(paused, end);
            &&& played(paused, during) == played(s, begin)
            &&& played(resumed, later) == played(s, begin) + (later - end)
        }),
{
}

/// What came of loading a track.
#[derive(Clone, Copy, Debug)]
pub enum TrackLoad {
    /// The audio device gave no new output.
    NoOutput,
    /// The file could not be opened.
    Unopened,
    /// The file could not be decoded.
    Undecoded,
    /// It plays; `total` is how long it is, in nanoseconds, where that is known.
    Playing { total: Option<u128> },
}

/// Why a track does not play.
#[derive(Clone, Copy, PartialEq, Eq, Structural, Debug)]
pub enum LoadError {
    NoOutput,
    Unopened,
    Undecoded,
}

/// The player once the clock of its track has been set to zero at `now`.
pub open spec fn restarted(s: PlayerView, now: int) -> PlayerView {
    PlayerView { elapsed_before_pause: 0, started_at: Some(now), paused: false, ..s }
}

/// The player once the track it is at has been loaded at `now`.
pub open spec fn loaded(s: PlayerView, now: int, load: TrackLoad) -> PlayerView {
    match load {
        TrackLoad::NoOutput => s,
        TrackLoad::Unopened => restarted(s, now),
        TrackLoad::Undecoded => restarted(s, now),
        TrackLoad::Playing { total } => PlayerView {
            total_duration: opt_time(total),
            selected: s.current,
            ..restarted(s, now)
        },
    }
}

/// Takes note that the track the player is at was loaded at `now`. Where it plays, the result
/// is what the resume file is to hold.
pub fn load_track(state: &mut PlayerState, now: u128, load: &TrackLoad) -> (resume: Result<
    Vec<u8>,
    LoadError,
>)
    requires
        *load is NoOutput || old(state)@.has_current(),
    ensures
        final(state)@ == loaded(old(state)@, now as int, *load),
        old(state)@.wf() || *load is Playing ==> final(state)@.wf(),
        match *load {
            TrackLoad::NoOutput => resume == Err::<Vec<u8>, LoadError>(LoadError::NoOutput),
            TrackLoad::Unopened => resume == Err::<Vec<u8>, LoadError>(LoadError::Unopened),
            TrackLoad::Undecoded => resume == Err::<Vec<u8>, LoadError>(LoadError::Undecoded),
            TrackLoad::Playing { .. } => resume matches Ok(bytes) && bytes@ == resume_bytes(
                resume_for(final(state)@),
            ),
        },
{
    if let TrackLoad::NoOutput = load {
        return Err(LoadError::NoOutput);
    }
    state.elapsed_before_pause = 0;
    state.started_at = Some(now);
    state.paused = false;
    match load {
        TrackLoad::NoOutput => Err(LoadError::NoOutput),
        TrackLoad::Unopened => Err(LoadError::Unopened),
        TrackLoad::Undecoded => Err(LoadError::Undecoded),
        TrackLoad::Playing { total } => {
            state.total_duration = *total;
            state.selected = state.current;
            Ok(save_resume_state(state))
        },
    }
}

/// Whether there is a track after the one that plays.
pub open spec fn has_next(s: PlayerView) -> bool {
    s.current + 1 < s.tracks.len()
}

/// The player at the next track, or where it was if it was at the last.
pub open spec fn at_next(s: PlayerView) -> PlayerView {
    if has_next(s) {
        PlayerView { current: s.current + 1, ..s }
    } else {
        s
    }
}

/// The player at the previous track, or where it was if it was at the first.
pub open spec fn at_prev(s: PlayerView) -> PlayerView {
    if s.current > 0 {
        PlayerView { current: s.current - 1, ..s }
    } else {
        s
    }
}

/// One step forward and one step back, or the other way round, lead back to the same track,
/// where there is a track to step to.
pub proof fn lemma_next_prev(s: PlayerView)
    requires
        s.wf(),
    ensures
        has_next(s) ==> at_prev(at_next(s)) == s,
        s.current > 0 ==> at_next(at_prev(s)) == s,
{
}

/// Goes to the next track, if there is one; it is then to be loaded.
pub fn next_track(state: &mut PlayerState) -> (load: bool)
    requires
        old(state)@.current < usize::MAX,
    ensures
        load == has_next(old(state)@),
        final(state)@ == at_next(old(state)@),
        load ==> final(state)@.has_current(),
        old(state)@.wf() ==> final(state)@.wf(),
{
    let count: usize = state.tracks.len();
    if state.current + 1 < count {
        state.current = state.current + 1;
        true
    } else {
        false
    }
}

/// Goes to the previous track, if there is one; it is then to be loaded.
pub fn prev_track(state: &mut PlayerState) -> (load: bool)
    ensures
        load == (old(state)@.current > 0),
        final(state)@ == at_prev(old(state)@),
        old(state)@.wf() ==> final(state)@.wf(),
{
    if state.current > 0 {
        state.current = state.current - 1;
        true
    } else {
        false
    }
}

/// Goes on to the next track when one has ended, and says whether there was one; it is then to
/// be loaded.
pub fn advance_if_possible(state: &mut PlayerState) -> (load: bool)
    requires
        old(state)@.current < usize::MAX,
    ensures
        load == has_next(old(state)@),
        final(state)@ == at_next(old(state)@),
        load ==> final(state)@.has_current(),
        old(state)@.wf() ==> final(state)@.wf(),
{
    next_track(state)
}

/// `n` where it lies between `low` and `high`, or else the nearer of the two.
pub open spec fn clamped(n: int, low: int, high: int) -> int {
    if n < low {
        low
    } else if n > high {
        high
    } else {
        n
    }
}

/// The last position in a list of `n` items; 0 where there are none.
pub open spec fn last_position(n: nat) -> int {
    if n == 0 {
        0
    } else {
        n - 1
    }
}

/// Moves the cursor of the playlist by `delta` tracks, no further than the list goes.
pub fn move_playlist_selection(state: &mut PlayerState, delta: isize)
    requires
        old(state)@.selected <= isize::MAX,
        old(state)@.selected + delta <= isize::MAX,
    ensures
        final(state)@ == (PlayerView {
            selected: clamped(
                old(state)@.selected + delta,
                0,
                last_position(old(state)@.tracks.len()),
            ),
            ..old(state)@
        }),
        old(state)@.wf() ==> final(state)@.wf(),
{
    let last: usize = if state.tracks.len() == 0 {
        0
    } else {
        state.tracks.len() - 1
    };
    let next: i128 = state.selected as i128 + delta as i128;
    state.selected = if next < 0 {
        0
    } else if next > last as i128 {
        last
    } else {
        next as usize
    };
}

/// The player once it is at the selected track.
pub open spec fn at_selected(s: PlayerView) -> PlayerView {
    PlayerView { current: s.selected, ..s }
}

/// Goes to the selected track, if that is another one; it is then to be loaded.
pub fn play_selected_track(state: &mut PlayerState) -> (load: bool)
    ensures
        load == (old(state)@.selected != old(state)@.current),
        final(state)@ == at_selected(old(state)@),
        old(state)@.wf() ==> final(state)@.wf(),
{
    if state.selected != state.current {
        state.current = state.selected;
        true
    } else {
        false
    }
}

/// How far the lyrics of a track can be scrolled. The count is kept in 16 bits.
pub open spec fn lyrics_range(t: TrackView) -> int {
    match t.lyrics {
        Some(lyrics) => if line_count(lyrics) <= LYRICS_LINES {
            0
        } else {
            (line_count(lyrics) - LYRICS_LINES) % 65536
        },
        None => 0,
    }
}

/// How far the lyrics of a track can be scrolled.
pub fn max_lyrics_scroll(track: &Track) -> (max: u16)
    ensures
        max == lyrics_range(track@),
{
    match &track.lyrics {
        Some(lyrics) => {
            let lines: usize = count_lines(lyrics.as_str());
            if lines <= LYRICS_LINES {
                0
            } else {
                ((lines - LYRICS_LINES) % 65536) as u16
            }
        },
        None => 0,
    }
}

/// The player once the lyrics have been scrolled by `delta` lines.
pub open spec fn scrolled(s: PlayerView, delta: int) -> PlayerView {
    PlayerView {
        lyrics_scroll: clamped(
            s.lyrics_scroll + delta,
            0,
            lyrics_range(s.tracks[s.current]),
        ),
        ..s
    }
}

/// Scrolls the lyrics by `delta` lines, no further than they go.
pub fn scroll_lyrics(state: &mut PlayerState, delta: i16)
    requires
        old(state)@.has_current(),
    ensures
        final(state)@ == scrolled(old(state)@, delta as int),
        old(state)@.wf() ==> final(state)@.wf(),
{
    assert(state@.tracks[state@.current] == state.tracks@[state.current as int]@);
    let max: u16 = max_lyrics_scroll(&state.tracks[state.current]);
    let next: i32 = state.lyrics_scroll as i32 + delta as i32;
    state.lyrics_scroll = if next < 0 {
        0
    } else if next > max as i32 {
        max
    } else {
        next as u16
    };
}

/// The text of a tag, or nothing.
pub open spec fn or_empty(text: Option<Seq<char>>) -> Seq<char> {
    match text {
        Some(t) => t,
        None => seq![],
    }
}

/// Whether the title, the artist or the album of a track holds the text `query`, in capital or
/// small letters.
pub open spec fn matches_query(t: TrackView, query: Seq<char>) -> bool {
    ||| has_text(lower(or_empty(t.title)), lower(query))
    ||| has_text(lower(or_empty(t.artist)), lower(query))
    ||| has_text(lower(or_empty(t.album)), lower(query))
}

/// Whether `text`, in small letters, holds `query`.
fn text_matches(text: &Option<String>, query: &str) -> (found: bool)
    ensures
        found == has_text(lower(or_empty(opt_text(*text))), query@),
{
    match text {
        Some(t) => contains_text(to_lower(t.as_str()).as_str(), query),
        None => {
            let empty = String::new();
            assert(lower(empty@) =~= empty@);
            assert(lower(or_empty(opt_text(*text))) =~= empty@);
            contains_text(empty.as_str(), query)
        },
    }
}

/// Whether the title, the artist or the album of a track holds the text `query`.
pub fn track_matches_query(track: &Track, query: &str) -> (found: bool)
    ensures
        found == matches_query(track@, query@),
{
    let query = to_lower(query);
    text_matches(&track.title, query.as_str()) || text_matches(&track.artist, query.as_str())
        || text_matches(&track.album, query.as_str())
}

/// The first track that the query finds, from position `from` on.
pub open spec fn first_match(tracks: Seq<TrackView>, query: Seq<char>, from: int) -> Option<int>
    decreases tracks.len() - from,
{
    if from < 0 || from >= tracks.len() {
        None
    } else if matches_query(tracks[from], query) {
        Some(from)
    } else {
        first_match(tracks, query, from + 1)
    }
}

/// The player once the cursor is at the first track that the query finds. It stays where it is
/// where the query is blank, or finds nothing.
pub open spec fn search_applied(s: PlayerView) -> PlayerView {
    let query = trimmed(s.search_query);
    if query.len() == 0 {
        s
    } else {
        match first_match(s.tracks, query, 0) {
            Some(i) => PlayerView { selected: i, ..s },
            None => s,
        }
    }
}

/// A match that is found is the first one; where none is found there is none.
pub proof fn lemma_first_match(tracks: Seq<TrackView>, query: Seq<char>, from: int)
    requires
        0 <= from <= tracks.len(),
    ensures
        first_match(tracks, query, from) matches Some(i) ==> {
            &&& from <= i < tracks.len()
            &&& matches_query(tracks[i], query)
            &&& forall|k: int| from <= k < i ==> !matches_query(#[trigger] tracks[k], query)
        },
        first_match(tracks, query, from) is None <==> forall|k: int|
            from <= k < tracks.len() ==> !matches_query(#[trigger] tracks[k], query),
    decreases tracks.len() - from,
{
    if from < tracks.len() {
        lemma_first_match(tracks, query, from + 1);
    }
}

/// Capital and small letters make no difference to a search.
pub proof fn lemma_search_case(t: TrackView, query: Seq<char>)
    ensures
        matches_query(t, lower(query)) == matches_query(t, query),
{
    assert(lower(lower(query)) =~= lower(query));
}

/// Moves the cursor to the first track that the query finds.
pub fn apply_search_selection(state: &mut PlayerState)
    ensures
        final(state)@ == search_applied(old(state)@),
        old(state)@.wf() ==> final(state)@.wf(),
{
    let query = trim(state.search_query.as_str());
    if query.as_str().is_empty() {
        return;
    }
    let ghost s = state@;
    let mut i: usize = 0;
    while i < state.tracks.len()
        invariant
            i <= state.tracks@.len(),
            state@ == s,
            s == old(state)@,
            query@ == trimmed(s.search_query),
            query@.len() > 0,
            first_match(s.tracks, query@, 0) == first_match(s.tracks, query@, i as int),
        decreases state.tracks@.len() - i,
    {
        assert(s.tracks[i as int] == state.tracks@[i as int]@);
        if track_matches_query(&state.tracks[i], query.as_str()) {
            state.selected = i;
            return;
        }
        i = i + 1;
    }
}

/// What a key does to the search box.
#[derive(Clone, Copy, PartialEq, Eq, Structural, Debug)]
pub enum SearchStep {
    /// Nothing: there is no search going on, and the key is for others.
    NotSearching,
    /// The key is used up.
    Handled,
    /// The key is used up, and the player has gone to another track, which is to be loaded.
    LoadTrack,
}

/// The player once the search box has got a key.
pub open spec fn search_key_done(s: PlayerView, key: KeyEvent) -> PlayerView {
    if !s.search_mode {
        s
    } else {
        match key.code {
            KeyCode::Esc => PlayerView { search_mode: false, search_query: seq![], ..s },
            KeyCode::Enter => if s.search_query.len() == 0 {
                PlayerView { search_mode: false, ..at_selected(s) }
            } else {
                PlayerView { search_mode: false, ..s }
            },
            KeyCode::Backspace => search_applied(
                PlayerView {
                    search_query: if s.search_query.len() == 0 {
                        s.search_query
                    } else {
                        s.search_query.drop_last()
                    },
                    ..s
                },
            ),
            KeyCode::Char(c) => if key.control {
                s
            } else {
                search_applied(PlayerView { search_query: s.search_query.push(c), ..s })
            },
            _ => s,
        }
    }
}

/// What is left to do once the search box has got a key.
pub open spec fn search_key_step(s: PlayerView, key: KeyEvent) -> SearchStep {
    if !s.search_mode {
        SearchStep::NotSearching
    } else if key.code is Enter && s.search_query.len() == 0 && s.selected != s.current {
        SearchStep::LoadTrack
    } else {
        SearchStep::Handled
    }
}

/// Gives a key to the search box of the playlist.
pub fn handle_playlist_search_key(state: &mut PlayerState, key: KeyEvent) -> (step: SearchStep)
    ensures
        final(state)@ == search_key_done(old(state)@, key),
        step == search_key_step(old(state)@, key),
        old(state)@.wf() ==> final(state)@.wf(),
{
    if !state.search_mode {
        return SearchStep::NotSearching;
    }
    match key.code {
        KeyCode::Esc => {
            state.search_mode = false;
            state.search_query.clear();
            SearchStep::Handled
        },
        KeyCode::Enter => {
            state.search_mode = false;
            if state.search_query.as_str().is_empty() && play_selected_track(state) {
                SearchStep::LoadTrack
            } else {
                SearchStep::Handled
            }
        },
        KeyCode::Backspace => {
            let _ = state.search_query.pop();
            apply_search_selection(state);
            SearchStep::Handled
        },
        KeyCode::Char(c) => {
            if !key.control {
                state.search_query.push(c);
                apply_search_selection(state);
            }
            SearchStep::Handled
        },
        _ => SearchStep::Handled,
    }
}

/// A key in the search box leaves the player and the cursor at tracks of the playlist, and the
/// player where it is but for the key that plays the selected track.
pub proof fn lemma_search_wf(s: PlayerView, key: KeyEvent)
    requires
        s.wf(),
    ensures
        search_key_done(s, key).wf(),
        search_key_done(s, key).tracks == s.tracks,
        !(search_key_step(s, key) is LoadTrack) ==> search_key_done(s, key).current == s.current,
{
    let r = search_key_done(s, key);
    lemma_first_match(s.tracks, trimmed(r.search_query), 0);
}

/// Backspace takes back a letter: after both, the box holds what it held, and nothing but the
/// cursor can have changed. The cursor is back too, if it was at what the box finds.
pub proof fn lemma_search_undo(s: PlayerView, c: char)
    requires
        s.search_mode,
    ensures
        ({
            let typed = search_key_done(s, KeyEvent { code: KeyCode::Char(c), control: false });
            let undone = search_key_done(
                typed,
                KeyEvent { code: KeyCode::Backspace, control: false },
            );
            &&& undone == (PlayerView { selected: undone.selected, ..s })
            &&& trimmed(s.search_query).len() > 0 && first_match(
                s.tracks,
                trimmed(s.search_query),
                0,
            ) == Some(s.selected) ==> undone == s
        }),
{
    let letter = KeyEvent { code: KeyCode::Char(c), control: false };
    let back = KeyEvent { code: KeyCode::Backspace, control: false };
    let typed = search_key_done(s, letter);
    assert(typed.search_query.drop_last() =~= s.search_query);
    let undone = search_key_done(typed, back);
    assert(undone == search_applied(PlayerView { search_query: s.search_query, ..typed }));
    assert(PlayerView { search_query: s.search_query, ..typed } =~= PlayerView {
        selected: typed.selected,
        ..s
    });
}

/// Where the track at `path` stands, or `otherwise`.
pub open spec fn position_or(tracks: Seq<TrackView>, path: Seq<u8>, otherwise: int) -> int {
    match position_of(tracks, path) {
        Some(i) => i,
        None => otherwise,
    }
}

/// Where the track at `path` stands, or `otherwise` where there is no such path or no such
/// track.
pub open spec fn found_again(
    tracks: Seq<TrackView>,
    path: Option<Seq<u8>>,
    otherwise: int,
) -> int {
    match path {
        Some(p) => position_or(tracks, p, otherwise),
        None => otherwise,
    }
}

/// The player once its playlist has been sorted. The tracks that play and that are selected
/// stay the same; a cursor that is at no track stays where it is.
pub open spec fn resorted(
    s: PlayerView,
    sort: SortKey,
    reverse: bool,
    modified: Seq<int>,
) -> PlayerView {
    let tracks = sorted_tracks(s.tracks, sort, reverse, modified);
    PlayerView {
        tracks,
        current: position_or(tracks, s.tracks[s.current].path, s.current),
        selected: found_again(tracks, path_at(s.tracks, s.selected), s.selected),
        sort_key: sort,
        sort_reverse: reverse,
        ..s
    }
}

/// Sorting leaves the player at the track that it was at and the cursor at the track that it
/// was at: the tracks there have the paths they had.
pub proof fn lemma_resort_keeps(
    s: PlayerView,
    sort: SortKey,
    reverse: bool,
    modified: Seq<int>,
)
    requires
        s.has_current(),
    ensures
        ({
            let r = resorted(s, sort, reverse, modified);
            &&& r.has_current()
            &&& r.tracks.len() == s.tracks.len()
            &&& same_path(r.tracks[r.current].path, s.tracks[s.current].path)
            &&& s.wf() ==> r.wf() && same_path(
                r.tracks[r.selected].path,
                s.tracks[s.selected].path,
            )
        }),
{
    let tracks = sorted_tracks(s.tracks, sort, reverse, modified);
    lemma_sort_moves(s.tracks, sort, reverse, modified);
    lemma_sorted_finds(s.tracks, sort, reverse, modified, s.current);
    lemma_position_of(tracks, s.tracks[s.current].path);
    if s.wf() {
        lemma_sorted_finds(s.tracks, sort, reverse, modified, s.selected);
        lemma_position_of(tracks, s.tracks[s.selected].path);
    }
}

/// Every track is found in the sorted list.
pub proof fn lemma_sorted_finds(
    tracks: Seq<TrackView>,
    sort: SortKey,
    reverse: bool,
    modified: Seq<int>,
    k: int,
)
    requires
        0 <= k < tracks.len(),
    ensures
        position_of(sorted_tracks(tracks, sort, reverse, modified), tracks[k].path) is Some,
{
    lemma_sort_moves(tracks, sort, reverse, modified);
    let from = sorted_from(tracks, sort, reverse, modified);
    let sorted = sorted_tracks(tracks, sort, reverse, modified);
    assert(from.contains(k));
    let i = choose|i: int| 0 <= i < from.len() && from[i] == k;
    assert(sorted[i] == tracks[k]);
    lemma_position_of(sorted, tracks[k].path);
}

/// Sorts the playlist and finds the playing track and the selected track again. `modified` holds
/// when the file of each track was last changed; it is read where that is what the tracks are
/// sorted by.
pub(crate) fn sort_playlist(
    state: &mut PlayerState,
    sort: SortKey,
    reverse: bool,
    modified: &Vec<i128>,
)
    requires
        old(state)@.has_current(),
        sort == SortKey::Mtime ==> modified@.len() == old(state)@.tracks.len(),
    ensures
        final(state)@ == resorted(old(state)@, sort, reverse, times(modified@)),
        final(state)@.has_current(),
        old(state)@.wf() ==> final(state)@.wf(),
{
    let ghost s = state@;
    assert(s.tracks[s.current] == state.tracks@[s.current]@);
    let current_path = state.tracks[state.current].path.clone();
    let selected_path = track_path(&state.tracks, state.selected);
    state.sort_key = sort;
    state.sort_reverse = reverse;
    sort_tracks(&mut state.tracks, sort, reverse, modified);
    if let Some(index) = find_track(&state.tracks, &current_path) {
        state.current = index;
    }
    if let Some(path) = &selected_path {
        if let Some(index) = find_track(&state.tracks, path) {
            state.selected = index;
        }
    }
    proof {
        lemma_resort_keeps(s, sort, reverse, times(modified@));
    }
}

/// Sorts the playlist by `sort`. `modified` holds when the file of each track was last changed;
/// it is read where that is what the tracks are sorted by.
pub fn resort_playlist(state: &mut PlayerState, sort: SortKey, modified: &Vec<i128>)
    requires
        old(state)@.wf(),
        sort == SortKey::Mtime ==> modified@.len() == old(state)@.tracks.len(),
    ensures
        final(state)@ == resorted(
            old(state)@,
            sort,
            old(state)@.sort_reverse,
            times(modified@),
        ),
        final(state)@.wf(),
{
    let reverse = state.sort_reverse;
    sort_playlist(state, sort, reverse, modified);
}

/// Sorts the playlist the other way round. `modified` holds when the file of each track was
/// last changed; it is read where that is what the tracks are sorted by.
pub fn toggle_reverse(state: &mut PlayerState, modified: &Vec<i128>)
    requires
        old(state)@.wf(),
        old(state)@.sort_key == SortKey::Mtime ==> modified@.len() == old(state)@.tracks.len(),
    ensures
        final(state)@ == resorted(
            old(state)@,
            old(state)@.sort_key,
            !old(state)@.sort_reverse,
            times(modified@),
        ),
        final(state)@.wf(),
{
    let sort = state.sort_key;
    let reverse = !state.sort_reverse;
    sort_playlist(state, sort, reverse, modified);
}

/// Reversing the order of a list that is in order turns the list round. Where no two tracks are
/// at the same path, the playing track and the selected track are then as far from the end as
/// they were from the beginning.
pub proof fn lemma_reverse_once(s: PlayerView, modified: Seq<int>)
    requires
        s.wf(),
        s.tracks == sorted_tracks(s.tracks, s.sort_key, s.sort_reverse, modified),
    ensures
        ({
            let once = resorted(s, s.sort_key, !s.sort_reverse, modified);
            let n = s.tracks.len();
            &&& once == (PlayerView {
                tracks: s.tracks.reverse(),
                current: once.current,
                selected: once.selected,
                sort_reverse: !s.sort_reverse,
                ..s
            })
            &&& tracks_differ(s.tracks) ==> {
                &&& once.current == n - 1 - s.current
                &&& once.selected == n - 1 - s.selected
            }
        }),
{
    let once = resorted(s, s.sort_key, !s.sort_reverse, modified);
    let n = s.tracks.len() as int;
    assert(once.tracks =~= s.tracks.reverse()) by {
        let up = sorted_tracks(s.tracks, s.sort_key, false, modified);
        assert(up.reverse().reverse() =~= up);
    }
    if tracks_differ(s.tracks) {
        lemma_reverse_differs(s.tracks);
        assert(once.tracks[n - 1 - s.current] == s.tracks[s.current]);
        assert(once.tracks[n - 1 - s.selected] == s.tracks[s.selected]);
        lemma_position_known(once.tracks, n - 1 - s.current);
        lemma_position_known(once.tracks, n - 1 - s.selected);
    }
}

proof fn lemma_reverse_differs(tracks: Seq<TrackView>)
    requires
        tracks_differ(tracks),
    ensures
        tracks_differ(tracks.reverse()),
{
    let n = tracks.len() as int;
    let turned = tracks.reverse();
    assert forall|i: int, j: int| 0 <= i < j < n implies !same_path(
        (#[trigger] turned[i]).path,
        (#[trigger] turned[j]).path,
    ) by {
        assert(!same_path(tracks[n - 1 - j].path, tracks[n - 1 - i].path));
    }
}

/// Reversing the order twice gives back the list that was in order, where no two tracks rank
/// the same, and leaves the player and the cursor at the tracks they were at. Where no two
/// tracks are at the same path either, the whole player is as it was.
pub proof fn lemma_reverse_twice(s: PlayerView, modified: Seq<int>)
    requires
        s.wf(),
        s.tracks == sorted_tracks(s.tracks, s.sort_key, s.sort_reverse, modified),
        track_ranks(s.tracks, s.sort_key, modified).no_duplicates(),
    ensures
        ({
            let once = resorted(s, s.sort_key, !s.sort_reverse, modified);
            let then_modified = sorted_times(s.tracks, s.sort_key, !s.sort_reverse, modified);
            let twice = resorted(once, s.sort_key, s.sort_reverse, then_modified);
            &&& twice == (PlayerView { current: twice.current, selected: twice.selected, ..s })
            &&& same_path(twice.tracks[twice.current].path, s.tracks[s.current].path)
            &&& same_path(twice.tracks[twice.selected].path, s.tracks[s.selected].path)
            &&& tracks_differ(s.tracks) ==> twice == s
        }),
{
    let once = resorted(s, s.sort_key, !s.sort_reverse, modified);
    let then_modified = sorted_times(s.tracks, s.sort_key, !s.sort_reverse, modified);
    let twice = resorted(once, s.sort_key, s.sort_reverse, then_modified);
    lemma_resort_keeps(s, s.sort_key, !s.sort_reverse, modified);
    lemma_resort_keeps(once, s.sort_key, s.sort_reverse, then_modified);
    lemma_sort_direction(s.tracks, s.sort_key, !s.sort_reverse, s.sort_reverse, modified);
    assert(twice.tracks == s.tracks);
    if tracks_differ(s.tracks) {
        let n = s.tracks.len() as int;
        lemma_reverse_once(s, modified);
        assert(once.tracks[n - 1 - s.current] == s.tracks[s.current]);
        assert(once.tracks[n - 1 - s.selected] == s.tracks[s.selected]);
        lemma_position_known(s.tracks, s.current);
        lemma_position_known(s.tracks, s.selected);
    }
}

/// What is left to do once the playlist has been read anew.
pub struct Refresh {
    /// What the cache file is to hold.
    pub cache: Vec<u8>,
    /// Whether the player has gone to another track, which is to be loaded.
    pub load: bool,
    /// The file that was selected, if one was.
    pub selected_path: Option<FilePath>,
}

/// What the playlist is read anew by.
pub fn refresh_args(state: &PlayerState) -> (args: Args)
    ensures
        args.path@ == state@.playlist_path,
        args.sort == state.sort_key,
        args.reverse == state.sort_reverse,
{
    Args { path: state.playlist_path.clone(), sort: state.sort_key, reverse: state.sort_reverse }
}

/// The lower of two numbers.
pub open spec fn lower_of(a: int, b: int) -> int {
    if a <= b {
        a
    } else {
        b
    }
}

/// The path of the track number `i`, if there is one.
pub open spec fn path_at(tracks: Seq<TrackView>, i: int) -> Option<Seq<u8>> {
    if 0 <= i < tracks.len() {
        Some(tracks[i].path)
    } else {
        None
    }
}

/// The path of the track number `i`, if there is one.
fn track_path(tracks: &Vec<Track>, i: usize) -> (path: Option<FilePath>)
    ensures
        opt_path(path) == path_at(track_views(tracks@), i as int),
{
    if i < tracks.len() {
        assert(track_views(tracks@)[i as int] == tracks@[i as int]@);
        Some(tracks[i].path.clone())
    } else {
        None
    }
}

/// Whether the file that plays is not among these tracks.
pub open spec fn current_gone(s: PlayerView, tracks: Seq<TrackView>) -> bool {
    path_at(s.tracks, s.current) matches Some(path) && position_of(tracks, path) is None
}

/// The player with these tracks in place of those it had. It stays at the file that plays; where
/// that is gone it goes to where the cursor was.
pub open spec fn refreshed(s: PlayerView, tracks: Seq<TrackView>) -> PlayerView {
    PlayerView {
        tracks,
        current: match path_at(s.tracks, s.current) {
            Some(path) => position_or(
                tracks,
                path,
                lower_of(s.selected, last_position(tracks.len())),
            ),
            None => s.current,
        },
        ..s
    }
}

/// Puts the tracks of a new scan in place of those of the player. `tags` holds what was read of
/// each file, and `modified` when it was last changed. Once the track is loaded, where one is to
/// be, `finish_refresh` does the rest.
pub fn refresh_playlist(
    state: &mut PlayerState,
    scanned: &Vec<ScannedTrack>,
    tags: &Vec<Option<TagData>>,
    modified: &Vec<i128>,
) -> (step: Result<Refresh, NoTracks>)
    requires
        tags@.len() == scanned@.len(),
        old(state)@.sort_key == SortKey::Mtime ==> modified@.len() == scanned@.len(),
    ensures
        step is Err <==> scanned@.len() == 0,
        step is Err ==> final(state)@ == old(state)@,
        step matches Ok(r) ==> {
            let s = old(state)@;
            let tracks = sorted_tracks(
                scanned_tracks(scanned_views(scanned@), tag_views(tags@)),
                s.sort_key,
                s.sort_reverse,
                times(modified@),
            );
            &&& final(state)@ == refreshed(s, tracks)
            &&& s.has_current() ==> final(state)@.has_current()
            &&& r.cache@ == cache_bytes(
                cache_for(s.playlist_path, scanned_views(scanned@), tracks),
            )
            &&& r.load == current_gone(s, tracks)
            &&& opt_path(r.selected_path) == path_at(s.tracks, s.selected)
        },
{
    match require_tracks(scanned) {
        Ok(()) => {},
        Err(e) => {
            return Err(e);
        },
    }
    let ghost s = state@;
    let ghost made = scanned_tracks(scanned_views(scanned@), tag_views(tags@));
    let current_path = track_path(&state.tracks, state.current);
    let selected_path = track_path(&state.tracks, state.selected);
    let tracks = build_tracks_from_scan(
        scanned,
        tags,
        state.sort_key,
        state.sort_reverse,
        modified,
    );
    proof {
        lemma_sort_moves(made, s.sort_key, s.sort_reverse, times(modified@));
        assert forall|i: int| 0 <= i < scanned@.len() implies position_of(
            track_views(tracks@),
            (#[trigger] scanned@[i]).path@,
        ) is Some by {
            lemma_sorted_finds(made, s.sort_key, s.sort_reverse, times(modified@), i);
            assert(made[i].path == scanned@[i].path@);
        }
        assert(track_views(tracks@).len() == tracks@.len());
    }
    let cache = save_playlist_cache(&state.playlist_path, scanned, &tracks);
    state.tracks = tracks;
    let load = match &current_path {
        Some(path) => {
            proof {
                lemma_position_of(track_views(state.tracks@), path@);
            }
            match find_track(&state.tracks, path) {
                Some(index) => {
                    state.current = index;
                    false
                },
                None => {
                    let last: usize = state.tracks.len() - 1;
                    state.current = if state.selected <= last {
                        state.selected
                    } else {
                        last
                    };
                    true
                },
            }
        },
        None => false,
    };
    Ok(Refresh { cache, load, selected_path })
}

/// The player once the file at `path` has been selected; where it is gone, or none was selected,
/// the cursor goes to the track that plays.
pub open spec fn reselected(s: PlayerView, path: Option<Seq<u8>>) -> PlayerView {
    let otherwise = lower_of(s.current, last_position(s.tracks.len()));
    PlayerView {
        selected: match path {
            Some(path) => position_or(s.tracks, path, otherwise),
            None => otherwise,
        },
        ..s
    }
}

/// Selects the file that was selected before the playlist was read anew. The result is what the
/// resume file is to hold.
pub fn finish_refresh(state: &mut PlayerState, selected_path: &Option<FilePath>) -> (resume: Vec<
    u8,
>)
    requires
        old(state)@.has_current(),
    ensures
        final(state)@ == reselected(old(state)@, opt_path(*selected_path)),
        final(state)@.wf(),
        resume@ == resume_bytes(resume_for(final(state)@)),
{
    state.selected = match selected_path {
        Some(path) => {
            proof {
                lemma_position_of(state@.tracks, path@);
            }
            match find_track(&state.tracks, path) {
                Some(index) => index,
                None => state.current,
            }
        },
        None => state.current,
    };
    save_resume_state(state)
}

/// Reading the playlist anew does not interrupt what plays: as long as the file that plays is
/// still found, the player is at that file, and no track is loaded. Likewise the cursor stays at
/// its file. Whatever is found, both are at tracks of the new playlist.
pub proof fn lemma_refresh_keeps(s: PlayerView, tracks: Seq<TrackView>)
    requires
        s.has_current(),
        s.selected >= 0,
        tracks.len() > 0,
    ensures
        ({
            let path = s.tracks[s.current].path;
            let selected_path = path_at(s.tracks, s.selected);
            let r = reselected(refreshed(s, tracks), selected_path);
            &&& r.wf()
            &&& position_of(tracks, path) is Some ==> !current_gone(s, tracks) && same_path(
                r.tracks[r.current].path,
                path,
            )
            &&& match selected_path {
                Some(p) if position_of(tracks, p) is Some => same_path(
                    r.tracks[r.selected].path,
                    p,
                ),
                _ => r.selected == r.current,
            }
        }),
{
    lemma_position_of(tracks, s.tracks[s.current].path);
    if 0 <= s.selected < s.tracks.len() {
        lemma_position_of(tracks, s.tracks[s.selected].path);
    }
}

/// Where the file that plays is gone when the playlist is read anew, the player goes to where
/// the cursor was, no further than the new list goes, and starts that track. The cursor goes
/// back to its file where that is still found, and else to the track that was started.
pub proof fn lemma_refresh_restarts(
    s: PlayerView,
    tracks: Seq<TrackView>,
    now: int,
    total: Option<u128>,
)
    requires
        s.has_current(),
        s.selected >= 0,
        tracks.len() > 0,
        position_of(tracks, s.tracks[s.current].path) is None,
    ensures
        ({
            let moved = refreshed(s, tracks);
            let playing = loaded(moved, now, TrackLoad::Playing { total });
            let r = reselected(playing, path_at(s.tracks, s.selected));
            &&& current_gone(s, tracks)
            &&& moved.has_current()
            &&& r.wf()
            &&& r.tracks == tracks
            &&& r.current == lower_of(s.selected, tracks.len() - 1)
            &&& !r.paused
            &&& r.elapsed_before_pause == 0
            &&& r.started_at == Some(now)
            &&& r.selected == (match path_at(s.tracks, s.selected) {
                Some(p) => position_or(tracks, p, r.current),
                None => r.current,
            })
        }),
{
    if s.selected < s.tracks.len() {
        lemma_position_of(tracks, s.tracks[s.selected].path);
    }
}

/// While a track plays, its time grows as the clock does, from where it stood when the clock was
/// started. While it is paused, and before it is started, it stands still.
pub proof fn lemma_played(s: PlayerView, now: int, later: int)
    ensures
        s.paused ==> played(s, now) == s.elapsed_before_pause,
        s.started_at is None ==> played(s, now) == s.elapsed_before_pause,
        !s.paused && s.started_at == Some(now) ==> played(s, now) == s.elapsed_before_pause,
        s.started_at matches Some(started) ==> {
            &&& now < started ==> played(s, now) == s.elapsed_before_pause
            &&& !s.paused && started <= now <= later ==> played(s, later) - played(s, now)
                == later - now
        },
{
}

/// Pausing and going on change whether the player is paused and nothing but its clock.
pub proof fn lemma_pause_toggled(s: PlayerView, now: int)
    ensures
        ({
            let r = pause_toggled(s, now);
            &&& r.paused == !s.paused
            &&& played(r, now) == played(s, now)
            &&& r == (PlayerView {
                paused: r.paused,
                started_at: r.started_at,
                elapsed_before_pause: r.elapsed_before_pause,
                ..s
            })
            &&& r.paused ==> r.started_at is None && r.elapsed_before_pause == played(s, now)
            &&& s.paused ==> r.started_at == Some(now) && r.elapsed_before_pause
                == s.elapsed_before_pause
        }),
{
}

/// A track that was loaded plays from its beginning, with the cursor at it; it is as long as was
/// found. Where its file could not be opened or decoded, the clock starts anew all the same;
/// where there is no output, nothing changes. The player stays at the track in any case.
pub proof fn lemma_loaded(s: PlayerView, now: int, later: int, load: TrackLoad)
    requires
        now <= later,
    ensures
        ({
            let r = loaded(s, now, load);
            &&& load is NoOutput ==> r == s
            &&& !(load is NoOutput) ==> {
                &&& !r.paused
                &&& played(r, later) == later - now
                &&& r.started_at == Some(now)
            }
            &&& load matches TrackLoad::Playing { total } ==> {
                &&& r.selected == s.current
                &&& total is None ==> r.total_duration is None
                &&& total matches Some(t) ==> r.total_duration == Some(t as int)
            }
            &&& !(load is Playing) ==> r.selected == s.selected && r.total_duration
                == s.total_duration
            &&& r == (PlayerView {
                elapsed_before_pause: r.elapsed_before_pause,
                started_at: r.started_at,
                paused: r.paused,
                total_duration: r.total_duration,
                selected: r.selected,
                ..s
            })
        }),
{
}

/// A step forward goes to the very next track, and only past the last one nowhere; a step back
/// goes to the one before, and only before the first one nowhere. Nothing else changes.
pub proof fn lemma_steps(s: PlayerView)
    ensures
        has_next(s) <==> s.current < s.tracks.len() - 1,
        s.current < s.tracks.len() - 1 ==> at_next(s) == (PlayerView {
            current: s.current + 1,
            ..s
        }),
        s.current >= s.tracks.len() - 1 ==> at_next(s) == s,
        s.current > 0 ==> at_prev(s) == (PlayerView { current: s.current - 1, ..s }),
        s.current <= 0 ==> at_prev(s) == s,
{
}

/// The nearest number between two bounds: it lies between them, no number between them is
/// nearer, and a number between them stays as it is.
pub proof fn lemma_clamped(n: int, low: int, high: int, other: int)
    requires
        low <= other <= high,
    ensures
        low <= clamped(n, low, high) <= high,
        n <= low ==> clamped(n, low, high) == low,
        n >= high ==> clamped(n, low, high) == high,
        low <= n <= high ==> clamped(n, low, high) == n,
        other <= n ==> other <= clamped(n, low, high) <= n,
        other >= n ==> other >= clamped(n, low, high) >= n,
{
}

/// The last position of a list is the one before its length, and zero for no list at all; the
/// lower of two numbers is one of them, and not above either.
pub proof fn lemma_positions(n: nat, a: int, b: int)
    ensures
        n > 0 ==> last_position(n) + 1 == n,
        n == 0 ==> last_position(n) == 0,
        lower_of(a, b) <= a,
        lower_of(a, b) <= b,
        lower_of(a, b) == a || lower_of(a, b) == b,
{
}

/// Lyrics can be scrolled by as many lines as they have beyond the 24 that are on the screen, up
/// to where the count of 16 bits ends; a track without lyrics cannot be scrolled.
pub proof fn lemma_lyrics_range(t: TrackView, lyrics: Seq<char>, beyond: nat)
    ensures
        t.lyrics is None ==> lyrics_range(t) == 0,
        t.lyrics == Some(lyrics) && line_count(lyrics) <= 24 ==> lyrics_range(t) == 0,
        t.lyrics == Some(lyrics) && line_count(lyrics) == 24 + beyond && beyond < 65536
            ==> lyrics_range(t) == beyond,
        t.lyrics == Some(lyrics) && line_count(lyrics) > 24 ==> lyrics_range(t) == (line_count(
            lyrics,
        ) - 24) % 65536,
{
}

/// Scrolling goes by as many lines as it is told, no further than to the first line and to the
/// end of the range, and changes nothing else.
pub proof fn lemma_scrolled(s: PlayerView, delta: int)
    ensures
        ({
            let r = scrolled(s, delta);
            let max = lyrics_range(s.tracks[s.current]);
            let to = s.lyrics_scroll + delta;
            &&& 0 <= to <= max ==> r.lyrics_scroll == to
            &&& to < 0 ==> r.lyrics_scroll == 0
            &&& to >= 0 && to > max ==> r.lyrics_scroll == max
            &&& r == (PlayerView { lyrics_scroll: r.lyrics_scroll, ..s })
        }),
{
}

/// A track matches a query if and only if the query is spelled, in capital or small letters,
/// somewhere in its title, its artist or its album. What a track does not have counts as an
/// empty text.
pub proof fn lemma_matches(t: TrackView, query: Seq<char>)
    ensures
        matches_query(t, query) <==> {
            ||| query.len() == 0
            ||| t.title matches Some(text) && exists|i: int| #[trigger] spelled_at(text, query, i)
            ||| t.artist matches Some(text) && exists|i: int| #[trigger] spelled_at(text, query, i)
            ||| t.album matches Some(text) && exists|i: int| #[trigger] spelled_at(text, query, i)
        },
{
    lemma_has_text(or_empty(t.title), query);
    lemma_has_text(or_empty(t.artist), query);
    lemma_has_text(or_empty(t.album), query);
    if query.len() == 0 {
        assert(spelled_at(or_empty(t.title), query, 0));
    }
    if query.len() > 0 {
        if t.title is None {
            assert forall|i: int| !(#[trigger] spelled_at(or_empty(t.title), query, i)) by {}
        }
        if t.artist is None {
            assert forall|i: int| !(#[trigger] spelled_at(or_empty(t.artist), query, i)) by {}
        }
        if t.album is None {
            assert forall|i: int| !(#[trigger] spelled_at(or_empty(t.album), query, i)) by {}
        }
    }
}

/// Every part of a title, of an artist or of an album finds the track, in capital or small
/// letters.
pub proof fn lemma_finds_part(t: TrackView, text: Seq<char>, from: int, to: int)
    requires
        t.title == Some(text) || t.artist == Some(text) || t.album == Some(text),
        0 <= from <= to <= text.len(),
    ensures
        matches_query(t, text.subrange(from, to)),
        matches_query(t, lower(text).subrange(from, to)),
        matches_query(t, text),
{
    let part = text.subrange(from, to);
    let low = lower(text).subrange(from, to);
    assert forall|k: int| 0 <= k < low.len() implies same_letter(#[trigger] low[k], text[from + k]) by {
        lemma_lower_char(text[from + k], text[from + k]);
    }
    assert(spelled_at(text, part, from));
    assert(spelled_at(text, low, from));
    assert(spelled_at(text, text, 0));
    lemma_matches(t, part);
    lemma_matches(t, low);
    lemma_matches(t, text);
}

/// The cursor goes to the first track that matches what is typed, without the white space around
/// it. It stays where it is where nothing is typed, and where no track matches. Nothing else
/// changes.
pub proof fn lemma_search_applied(s: PlayerView, i: int)
    ensures
        ({
            let r = search_applied(s);
            let query = trimmed(s.search_query);
            &&& r == (PlayerView { selected: r.selected, ..s })
            &&& query.len() == 0 ==> r.selected == s.selected
            &&& (forall|k: int|
                0 <= k < s.tracks.len() ==> !matches_query(#[trigger] s.tracks[k], query))
                ==> r.selected == s.selected
            &&& query.len() > 0 && 0 <= i < s.tracks.len() && matches_query(s.tracks[i], query) && (
            forall|k: int| 0 <= k < i ==> !matches_query(#[trigger] s.tracks[k], query))
                ==> r.selected == i
        }),
{
    let query = trimmed(s.search_query);
    lemma_first_match(s.tracks, query, 0);
    if first_match(s.tracks, query, 0) is Some {
        let at = first_match(s.tracks, query, 0)->0;
        assert(matches_query(s.tracks[at], query));
        if 0 <= i < s.tracks.len() && matches_query(s.tracks[i], query) && at > i {
            assert(!matches_query(s.tracks[i], query));
        }
    }
}

/// What the keys do to the search box while it is open: a letter is added to what is typed and
/// backspace takes one off, and the cursor goes to what is found; escape empties the box and
/// closes it; enter closes it, and plays the selected track where nothing is typed. Every other
/// key, and a letter with the control key, does nothing. While the box is closed, no key does.
pub proof fn lemma_search_keys(s: PlayerView, key: KeyEvent)
    ensures
        !s.search_mode ==> search_key_done(s, key) == s && search_key_step(s, key)
            is NotSearching,
        s.search_mode ==> {
            let r = search_key_done(s, key);
            let q = s.search_query;
            &&& key.code is Esc ==> r == (PlayerView {
                search_mode: false,
                search_query: Seq::<char>::empty(),
                ..s
            })
            &&& key.code is Enter && q.len() > 0 ==> r == (PlayerView { search_mode: false, ..s })
            &&& key.code is Enter && q.len() == 0 ==> r == (PlayerView {
                search_mode: false,
                current: s.selected,
                ..s
            })
            &&& key.code is Backspace && q.len() > 0 ==> r == search_applied(
                PlayerView { search_query: q.take(q.len() - 1), ..s },
            )
            &&& key.code is Backspace && q.len() == 0 ==> r == s
            &&& key.code matches KeyCode::Char(c) ==> {
                &&& key.control ==> r == s
                &&& !key.control ==> r == search_applied(
                    PlayerView { search_query: q + seq![c], ..s },
                )
            }
            &&& !(key.code is Esc || key.code is Enter || key.code is Backspace
                || key.code is Char) ==> r == s
            &&& search_key_step(s, key) is LoadTrack <==> key.code is Enter && q.len() == 0
                && s.selected != s.current
            &&& !(search_key_step(s, key) is LoadTrack) ==> search_key_step(s, key) is Handled
        },
{
    let q = s.search_query;
    if q.len() > 0 {
        assert(q.drop_last() =~= q.take(q.len() - 1));
    }
    if let KeyCode::Char(c) = key.code {
        assert(q.push(c) =~= q + seq![c]);
    }
    assert(q.len() == 0 ==> trimmed(q).len() == 0) by {
        let _ = lemma_trimmed(q);
    }
}

/// Sorting changes the order, what the player says of it, and where the player and the cursor
/// are: each is at the first track with the path that it was at. A cursor that is at no track
/// stays where it is. Nothing else changes.
pub proof fn lemma_resorted(s: PlayerView, sort: SortKey, reverse: bool, modified: Seq<int>, k: int)
    requires
        s.has_current(),
    ensures
        ({
            let r = resorted(s, sort, reverse, modified);
            &&& r == (PlayerView {
                tracks: sorted_tracks(s.tracks, sort, reverse, modified),
                current: r.current,
                selected: r.selected,
                sort_key: sort,
                sort_reverse: reverse,
                ..s
            })
            &&& 0 <= r.current < r.tracks.len()
            &&& same_path(r.tracks[r.current].path, s.tracks[s.current].path)
            &&& 0 <= k < r.current ==> !same_path(r.tracks[k].path, s.tracks[s.current].path)
            &&& !(0 <= s.selected < s.tracks.len()) ==> r.selected == s.selected
            &&& 0 <= s.selected < s.tracks.len() ==> {
                &&& 0 <= r.selected < r.tracks.len()
                &&& same_path(r.tracks[r.selected].path, s.tracks[s.selected].path)
                &&& 0 <= k < r.selected ==> !same_path(r.tracks[k].path, s.tracks[s.selected].path)
            }
        }),
{
    let r = resorted(s, sort, reverse, modified);
    lemma_resort_keeps(s, sort, reverse, modified);
    lemma_sorted_finds(s.tracks, sort, reverse, modified, s.current);
    lemma_position_of(r.tracks, s.tracks[s.current].path);
    if 0 <= s.selected < s.tracks.len() {
        lemma_sorted_finds(s.tracks, sort, reverse, modified, s.selected);
        lemma_position_of(r.tracks, s.tracks[s.selected].path);
    }
}

/// Reading the playlist anew puts the new tracks in place of the old ones, and changes nothing
/// else but where the player and, at the end, the cursor are. The player is at the first track
/// with the path that plays; where there is none it is where the cursor was, or at the last
/// track where the list is shorter, and then that track is to be loaded.
pub proof fn lemma_refreshed(s: PlayerView, tracks: Seq<TrackView>, i: int)
    requires
        s.has_current(),
        s.selected >= 0,
        tracks.len() > 0,
    ensures
        ({
            let r = refreshed(s, tracks);
            let path = s.tracks[s.current].path;
            let gone = forall|k: int|
                0 <= k < tracks.len() ==> !same_path(#[trigger] tracks[k].path, path);
            &&& r == (PlayerView { tracks, current: r.current, ..s })
            &&& current_gone(s, tracks) <==> gone
            &&& gone && s.selected < tracks.len() ==> r.current == s.selected
            &&& gone && s.selected >= tracks.len() ==> r.current == tracks.len() - 1
            &&& 0 <= i < tracks.len() && same_path(tracks[i].path, path) && (forall|k: int|
                0 <= k < i ==> !same_path(#[trigger] tracks[k].path, path)) ==> r.current == i
        }),
{
    let path = s.tracks[s.current].path;
    lemma_position_of(tracks, path);
    let found = position_of(tracks, path);
    if found is Some && 0 <= i < tracks.len() && same_path(tracks[i].path, path) {
        let at = found->0;
        assert(same_path(tracks[at].path, path));
        if i < at {
            assert(!same_path(tracks[i].path, path));
        }
    }
}

/// After that the cursor is at the first track with the path that was selected, or else where
/// the player is, and nothing else changes. What is selected is a path where there is a track.
pub proof fn lemma_reselected(s: PlayerView, path: Option<Seq<u8>>, i: int, n: int)
    requires
        s.has_current(),
    ensures
        ({
            let r = reselected(s, path);
            &&& r == (PlayerView { selected: r.selected, ..s })
            &&& path is None ==> r.selected == s.current
            &&& path matches Some(p) ==> {
                &&& (forall|k: int|
                    0 <= k < s.tracks.len() ==> !same_path(#[trigger] s.tracks[k].path, p))
                    ==> r.selected == s.current
                &&& 0 <= i < s.tracks.len() && same_path(s.tracks[i].path, p) && (forall|k: int|
                    0 <= k < i ==> !same_path(#[trigger] s.tracks[k].path, p)) ==> r.selected == i
            }
        }),
        0 <= n < s.tracks.len() ==> path_at(s.tracks, n) == Some(s.tracks[n].path),
        !(0 <= n < s.tracks.len()) ==> path_at(s.tracks, n) is None,
{
    if path is Some {
        let p = path->0;
        lemma_position_of(s.tracks, p);
        let found = position_of(s.tracks, p);
        if found is Some && 0 <= i < s.tracks.len() && same_path(s.tracks[i].path, p) {
            let at = found->0;
            assert(same_path(s.tracks[at].path, p));
            if i < at {
                assert(!same_path(s.tracks[i].path, p));
            }
        }
    }
}

/// Going to the selected track changes where the player is and nothing else.
pub proof fn lemma_at_selected(s: PlayerView)
    ensures
        at_selected(s) == (PlayerView { current: s.selected, ..s }),
{
}

/// The longest time is that of a 64-bit number of seconds and the nanoseconds of one more.
pub proof fn lemma_max_span()
    ensures
        MAX_SPAN + 1 == (u64::MAX + 1) * 1_000_000_000,
{
}

} // verus!

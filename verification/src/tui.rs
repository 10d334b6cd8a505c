//! What is on the screen.

use vstd::prelude::*;
use vstd::string::*;

use crate::metadata::{key_label, lemma_key_labels, size_of_image, sort_key_label};
use crate::models::{
    opt_bytes, opt_time, texts, ArtViewMode, DrawInfo, PlayerState, PlayerView, Rect, SortKey,
    Track, TrackView, UiMode,
};
use crate::path::{file_name_text, FilePath};
use crate::player::{current_elapsed, played, MAX_SPAN};
use crate::terminal_image::{ascii_art_lines, can_be_art};
use crate::text::{decimal, decimal_text, lossy_text, two_digit_text, two_digits};

verus! {

/// A second, in nanoseconds.
pub const SECOND: u128 = 1_000_000_000;

/// Whether an area ends where coordinates can reach.
pub open spec fn in_range(area: Rect) -> bool {
    area.x + area.width <= u16::MAX && area.y + area.height <= u16::MAX
}

/// How high a row of the screen is.
#[derive(Clone, Copy, Debug, PartialEq, Eq, Structural)]
pub enum Row {
    /// This many lines.
    Lines(u16),
    /// What the other rows leave, and not less than this many lines.
    Rest(u16),
}

/// How many cells stay free at each edge of the screen.
pub const SCREEN_MARGIN: u16 = 1;

/// The rows of the screen with the playlist, from top to bottom: the header, the playing track,
/// how far it is, the search box, the playlist and the help.
pub fn playlist_rows() -> (rows: Vec<Row>)
    ensures
        rows@ == seq![
            Row::Lines(3),
            Row::Lines(3),
            Row::Lines(3),
            Row::Lines(3),
            Row::Rest(5),
            Row::Lines(1),
        ],
{
    vec![
        Row::Lines(3),
        Row::Lines(3),
        Row::Lines(3),
        Row::Lines(3),
        Row::Rest(5),
        Row::Lines(1),
    ]
}

/// The rows of the screen with the playing track, in either player, from top to bottom: the
/// header, the track, its art, how far it is and the help.
pub fn now_playing_rows() -> (rows: Vec<Row>)
    ensures
        rows@ == seq![Row::Lines(3), Row::Lines(5), Row::Rest(5), Row::Lines(3), Row::Lines(1)],
{
    vec![Row::Lines(3), Row::Lines(5), Row::Rest(5), Row::Lines(3), Row::Lines(1)]
}

/// A text over the screen, and where it goes.
pub struct Popup {
    pub area: Rect,
    pub text: String,
}

/// Makes what is shown while a playlist is read for the first time. `area` is the whole screen.
pub fn draw_loading_ui(area: Rect, playlist_path: &FilePath, track_count: usize) -> (popup: Popup)
    requires
        in_range(area),
    ensures
        popup.area == centered(area, 56, 7),
        popup.text@ == "Loading playlist...\n"@ + lossy_text(playlist_path@) + "\nScanning "@
            + decimal(track_count as nat) + " track(s) and building cache"@,
{
    let mut text = "Loading playlist...\n".to_owned();
    text.append(playlist_path.lossy().as_str());
    text.append("\nScanning ");
    text.append(decimal_text(track_count as u128).as_str());
    text.append(" track(s) and building cache");
    Popup { area: center_rect(area, 56, 7), text }
}

/// What is said where no file of the playlist was found.
pub fn no_tracks_text(playlist_path: &FilePath) -> (text: String)
    ensures
        text@ == "No .mp3 files found in "@ + lossy_text(playlist_path@),
{
    let mut text = "No .mp3 files found in ".to_owned();
    text.append(playlist_path.lossy().as_str());
    text
}

/// A span of time in minutes and seconds. Parts of a second are dropped.
pub open spec fn clock(nanos: nat) -> Seq<char> {
    let secs = nanos / 1_000_000_000;
    two_digits(secs / 60) + ":"@ + two_digits(secs % 60)
}

/// A span of time in minutes and seconds.
pub fn fmt_duration(nanos: u128) -> (text: String)
    ensures
        text@ == clock(nanos as nat),
{
    let secs: u128 = nanos / SECOND;
    let mut text = two_digit_text(secs / 60);
    text.append(":");
    text.append(two_digit_text(secs % 60).as_str());
    text
}

/// What a track is called: its title, or its file name, or `?` where that is no text.
pub open spec fn title_of(t: TrackView) -> Seq<char> {
    match t.title {
        Some(title) => title,
        None => match file_name_text(t.path) {
            Some(name) => name,
            None => "?"@,
        },
    }
}

/// What a track is called.
pub fn display_title(track: &Track) -> (title: String)
    ensures
        title@ == title_of(track@),
{
    match &track.title {
        Some(title) => title.clone(),
        None => match track.path.name_text() {
            Some(name) => name,
            None => "?".to_owned(),
        },
    }
}

/// The heading: the number of the track, how many there are, and how they are sorted.
pub open spec fn heading(s: PlayerView) -> Seq<char> {
    "bu-rust-mp3  |  "@ + decimal((s.current + 1) as nat) + " / "@ + decimal(s.tracks.len())
        + "  |  sort: "@ + key_label(s.sort_key) + (if s.sort_reverse {
        " (rev)"@
    } else {
        ""@
    })
}

/// The heading.
pub fn header_text(state: &PlayerState) -> (text: String)
    ensures
        text@ == heading(state@),
{
    let count: usize = state.tracks.len();
    let mut text = "bu-rust-mp3  |  ".to_owned();
    text.append(decimal_text(state.current as u128 + 1).as_str());
    text.append(" / ");
    text.append(decimal_text(count as u128).as_str());
    text.append("  |  sort: ");
    text.append(sort_key_label(state.sort_key));
    text.append(
        if state.sort_reverse {
            " (rev)"
        } else {
            ""
        },
    );
    text
}

/// Whether the player plays.
pub open spec fn status(s: PlayerView) -> Seq<char> {
    if s.paused {
        "Paused"@
    } else {
        "Playing"@
    }
}

/// Whether the player plays.
fn status_text(state: &PlayerState) -> (text: String)
    ensures
        text@ == status(state@),
{
    if state.paused {
        "Paused".to_owned()
    } else {
        "Playing".to_owned()
    }
}

/// What plays, in a line.
pub open spec fn playing_line(s: PlayerView) -> Seq<char> {
    status(s) + ": "@ + title_of(s.tracks[s.current])
}

/// What plays, in a line.
pub fn now_playing_text(state: &PlayerState) -> (text: String)
    requires
        state@.has_current(),
    ensures
        text@ == playing_line(state@),
{
    assert(state@.tracks[state@.current] == state.tracks@[state.current as int]@);
    let mut text = status_text(state);
    text.append(": ");
    text.append(display_title(&state.tracks[state.current]).as_str());
    text
}

/// How far the track is. `elapsed` and `total` are in nanoseconds.
pub struct Progress {
    pub elapsed: u128,
    pub total: Option<u128>,
    pub label: String,
}

/// What is written on the bar: how far the track is, and how long it is where that is known.
pub open spec fn progress_label(elapsed: int, total: Option<int>) -> Seq<char> {
    match total {
        Some(total) => clock(elapsed as nat) + " / "@ + clock(total as nat),
        None => clock(elapsed as nat),
    }
}

/// Whether `p` says how far the track of the player is at `now`.
pub open spec fn shows_progress(p: Progress, s: PlayerView, now: int) -> bool {
    &&& p.elapsed == played(s, now)
    &&& opt_time(p.total) == s.total_duration
    &&& p.label@ == progress_label(played(s, now), s.total_duration)
}

/// How far the track is at `now`.
pub fn render_progress(state: &PlayerState, now: u128) -> (progress: Progress)
    requires
        played(state@, now as int) <= MAX_SPAN,
    ensures
        shows_progress(progress, state@, now as int),
{
    let elapsed: u128 = current_elapsed(state, now);
    let mut label = fmt_duration(elapsed);
    if let Some(total) = state.total_duration {
        label.append(" / ");
        label.append(fmt_duration(total).as_str());
    }
    Progress { elapsed, total: state.total_duration, label }
}

/// The search box: what is typed, with a cursor while it is open.
pub open spec fn search_label(s: PlayerView) -> Seq<char> {
    if s.search_mode {
        "Search: "@ + s.search_query + "_"@
    } else if s.search_query.len() == 0 {
        "Search: /"@
    } else {
        "Search: "@ + s.search_query
    }
}

/// The search box.
pub fn search_text(state: &PlayerState) -> (text: String)
    ensures
        text@ == search_label(state@),
{
    if state.search_mode {
        let mut text = "Search: ".to_owned();
        text.append(state.search_query.as_str());
        text.append("_");
        text
    } else if state.search_query.as_str().is_empty() {
        "Search: /".to_owned()
    } else {
        let mut text = "Search: ".to_owned();
        text.append(state.search_query.as_str());
        text
    }
}

/// A line of the playlist. The track that plays is marked by an arrow in front of it and by
/// `mark` behind it.
pub open spec fn item(t: TrackView, playing: bool, mark: Seq<char>) -> Seq<char> {
    if playing {
        "\u{25b6} "@ + title_of(t) + mark
    } else {
        "  "@ + title_of(t)
    }
}

/// The lines of the playlist.
pub open spec fn items(s: PlayerView, mark: Seq<char>) -> Seq<Seq<char>> {
    Seq::new(s.tracks.len(), |i: int| item(s.tracks[i], i == s.current, mark))
}

/// The lines of the playlist.
pub fn playlist_items(state: &PlayerState, mark: &str) -> (lines: Vec<String>)
    ensures
        texts(lines@) == items(state@, mark@),
{
    let ghost want = items(state@, mark@);
    let mut lines: Vec<String> = Vec::new();
    let mut i: usize = 0;
    while i < state.tracks.len()
        invariant
            i <= state.tracks@.len(),
            want == items(state@, mark@),
            lines@.len() == i,
            forall|k: int| 0 <= k < i ==> (#[trigger] lines@[k])@ == want[k],
        decreases state.tracks@.len() - i,
    {
        assert(state@.tracks[i as int] == state.tracks@[i as int]@);
        let name = display_title(&state.tracks[i]);
        let mut line = String::new();
        if i == state.current {
            line.append("\u{25b6} ");
            line.append(name.as_str());
            line.append(mark);
        } else {
            line.append("  ");
            line.append(name.as_str());
        }
        lines.push(line);
        i = i + 1;
    }
    assert(texts(lines@) =~= want);
    lines
}

/// The screen with the playlist.
pub struct PlaylistScreen {
    pub header: String,
    pub now_playing: String,
    pub progress: Progress,
    pub search: String,
    pub items: Vec<String>,
    pub selected: usize,
    pub help: String,
}

/// Whether this is the screen with the playlist of the player at `now`.
pub open spec fn shows_playlist(screen: PlaylistScreen, s: PlayerView, now: int) -> bool {
    &&& screen.header@ == heading(s)
    &&& screen.now_playing@ == playing_line(s)
    &&& shows_progress(screen.progress, s, now)
    &&& screen.search@ == search_label(s)
    &&& texts(screen.items@) == items(s, "  [playing]"@)
    &&& screen.selected == s.selected
    &&& screen.help@ == "Controls: space play/pause | p prev | n next | ? help"@
}

/// Makes the screen with the playlist.
pub fn draw_playlist(state: &PlayerState, now: u128) -> (screen: PlaylistScreen)
    requires
        state@.has_current(),
        played(state@, now as int) <= MAX_SPAN,
    ensures
        shows_playlist(screen, state@, now as int),
{
    PlaylistScreen {
        header: header_text(state),
        now_playing: now_playing_text(state),
        progress: render_progress(state, now),
        search: search_text(state),
        items: playlist_items(state, "  [playing]"),
        selected: state.selected,
        help: "Controls: space play/pause | p prev | n next | ? help".to_owned(),
    }
}

/// The text of a tag, or a dash.
pub open spec fn or_dash(text: Option<Seq<char>>) -> Seq<char> {
    match text {
        Some(t) => t,
        None => "-"@,
    }
}

/// Whether images are shown, in words.
pub open spec fn kitty_status(supports_kitty: bool, force_kitty: bool) -> Seq<char> {
    if force_kitty {
        "on (forced)"@
    } else if supports_kitty {
        "on"@
    } else {
        "off"@
    }
}

/// Whether a track has art, in words.
pub open spec fn art_status(t: TrackView) -> Seq<char> {
    if t.art_png is Some {
        "embedded"@
    } else {
        "none"@
    }
}

/// How art is shown, in words.
pub open spec fn view_label(mode: ArtViewMode) -> Seq<char> {
    match mode {
        ArtViewMode::AlbumArt => "album art"@,
        ArtViewMode::AsciiArt => "ascii"@,
    }
}

/// What is said of the track that plays, up to its art.
pub open spec fn track_info(s: PlayerView) -> Seq<char> {
    let t = s.tracks[s.current];
    status(s) + "\nTitle : "@ + title_of(t) + "\nArtist: "@ + or_dash(t.artist) + "\nAlbum : "@
        + or_dash(t.album) + "\nArt   : "@ + art_status(t)
}

/// What is said of the track that plays, up to its art.
pub fn track_info_text(state: &PlayerState) -> (text: String)
    requires
        state@.has_current(),
    ensures
        text@ == track_info(state@),
{
    assert(state@.tracks[state@.current] == state.tracks@[state.current as int]@);
    let track = &state.tracks[state.current];
    let mut text = status_text(state);
    text.append("\nTitle : ");
    text.append(display_title(track).as_str());
    text.append("\nArtist: ");
    match &track.artist {
        Some(artist) => text.append(artist.as_str()),
        None => text.append("-"),
    }
    text.append("\nAlbum : ");
    match &track.album {
        Some(album) => text.append(album.as_str()),
        None => text.append("-"),
    }
    text.append("\nArt   : ");
    if track.art_png.is_some() {
        text.append("embedded");
    } else {
        text.append("none");
    }
    text
}

/// Whether images are shown, in words.
pub fn kitty_status_text(supports_kitty: bool, force_kitty: bool) -> (text: String)
    ensures
        text@ == kitty_status(supports_kitty, force_kitty),
{
    if force_kitty {
        "on (forced)".to_owned()
    } else if supports_kitty {
        "on".to_owned()
    } else {
        "off".to_owned()
    }
}

/// What is said of the track that plays.
pub open spec fn full_info(s: PlayerView, supports_kitty: bool) -> Seq<char> {
    track_info(s) + " | View: "@ + view_label(s.art_view_mode) + " | Kitty: "@ + kitty_status(
        supports_kitty,
        s.force_kitty,
    )
}

/// What is said of the track that plays.
pub fn info_text(state: &PlayerState, supports_kitty: bool) -> (text: String)
    requires
        state@.has_current(),
    ensures
        text@ == full_info(state@, supports_kitty),
{
    let mut text = track_info_text(state);
    text.append(" | View: ");
    text.append(
        match state.art_view_mode {
            ArtViewMode::AlbumArt => "album art",
            ArtViewMode::AsciiArt => "ascii",
        },
    );
    text.append(" | Kitty: ");
    text.append(kitty_status_text(supports_kitty, state.force_kitty).as_str());
    text
}

/// Whether the terminal shows the art as an image: the track has art, the terminal can or is
/// told to, and the user wants it.
pub open spec fn uses_kitty(s: PlayerView, supports_kitty: bool) -> bool {
    &&& s.art_view_mode is AlbumArt
    &&& supports_kitty || s.force_kitty
    &&& s.tracks[s.current].art_png is Some
}

/// The screen with the track that plays.
pub struct NowPlayingScreen {
    pub header: String,
    pub info: String,
    pub use_kitty: bool,
    pub progress: Progress,
    pub help: String,
}

/// Whether this is the screen with the track that the player plays at `now`.
pub open spec fn shows_now_playing(
    screen: NowPlayingScreen,
    s: PlayerView,
    supports_kitty: bool,
    now: int,
) -> bool {
    &&& screen.header@ == heading(s)
    &&& screen.info@ == full_info(s, supports_kitty)
    &&& screen.use_kitty == uses_kitty(s, supports_kitty)
    &&& shows_progress(screen.progress, s, now)
    &&& screen.help@ == "Controls: space play/pause | p prev | n next | b art/ascii | ? help"@
}

/// Makes the screen with the track that plays.
pub fn draw_now_playing(state: &PlayerState, supports_kitty: bool, now: u128) -> (screen:
    NowPlayingScreen)
    requires
        state@.has_current(),
        played(state@, now as int) <= MAX_SPAN,
    ensures
        shows_now_playing(screen, state@, supports_kitty, now as int),
{
    assert(state@.tracks[state@.current] == state.tracks@[state.current as int]@);
    let use_kitty = state.art_view_mode == ArtViewMode::AlbumArt && (supports_kitty
        || state.force_kitty) && state.tracks[state.current].art_png.is_some();
    NowPlayingScreen {
        header: header_text(state),
        info: info_text(state, supports_kitty),
        use_kitty,
        progress: render_progress(state, now),
        help: "Controls: space play/pause | p prev | n next | b art/ascii | ? help".to_owned(),
    }
}

/// What stands where the art would be.
pub enum ArtText {
    /// Art made of letters.
    Lines(Vec<String>),
    /// A word in the middle.
    Note(String),
    /// A sentence in the middle, over as many lines as it takes.
    Message(String),
}

/// What stands where the art would be.
pub enum ArtTextView {
    Lines(Seq<Seq<char>>),
    Note(Seq<char>),
    Message(Seq<char>),
}

impl View for ArtText {
    type V = ArtTextView;

    open spec fn view(&self) -> ArtTextView {
        match self {
            ArtText::Lines(lines) => ArtTextView::Lines(texts(lines@)),
            ArtText::Note(note) => ArtTextView::Note(note@),
            ArtText::Message(message) => ArtTextView::Message(message@),
        }
    }
}

/// Whether `art` is the art of a track in letters, or the word that there is none: where the
/// track has none, where there is no room for it, and where it cannot be read.
pub open spec fn shows_letters(
    art: ArtTextView,
    png: Option<Seq<u8>>,
    width: u16,
    height: u16,
) -> bool {
    match png {
        Some(png) if width > 0 && height > 0 && size_of_image(png) is Some => {
            art matches ArtTextView::Lines(lines) && can_be_art(
                png,
                width as nat,
                height as nat,
                lines,
            )
        },
        _ => art == ArtTextView::Note("No art"@),
    }
}

/// Whether `art` is what stands where the art would be, where it is not shown as an image.
pub open spec fn shows_fallback(
    art: ArtTextView,
    s: PlayerView,
    width: u16,
    height: u16,
    supports_kitty: bool,
) -> bool {
    let png = s.tracks[s.current].art_png;
    if png is None || s.art_view_mode is AsciiArt {
        shows_letters(art, png, width, height)
    } else if supports_kitty || s.force_kitty {
        art == ArtTextView::Message("Album art unavailable"@)
    } else {
        art == ArtTextView::Message(
            "Album art view needs Kitty image support.\nPress b for ASCII art."@,
        )
    }
}

/// The art of a track in letters, or the word that there is none.
pub fn letter_art(png: &Option<Vec<u8>>, width: u16, height: u16) -> (art: ArtText)
    ensures
        shows_letters(art@, opt_bytes(*png), width, height),
{
    match png {
        Some(png) => match ascii_art_lines(png, width, height) {
            Some(lines) => ArtText::Lines(lines),
            None => ArtText::Note("No art".to_owned()),
        },
        None => ArtText::Note("No art".to_owned()),
    }
}

/// What stands where the art would be, where it is not shown as an image.
pub fn render_art_fallback(
    state: &PlayerState,
    width: u16,
    height: u16,
    supports_kitty: bool,
) -> (art: ArtText)
    requires
        state@.has_current(),
    ensures
        shows_fallback(art@, state@, width, height, supports_kitty),
{
    assert(state@.tracks[state@.current] == state.tracks@[state.current as int]@);
    let png = &state.tracks[state.current].art_png;
    if png.is_none() || state.art_view_mode == ArtViewMode::AsciiArt {
        letter_art(png, width, height)
    } else if supports_kitty || state.force_kitty {
        ArtText::Message("Album art unavailable".to_owned())
    } else {
        ArtText::Message(
            "Album art view needs Kitty image support.\nPress b for ASCII art.".to_owned(),
        )
    }
}

/// What the help says.
pub open spec fn help_words() -> Seq<char> {
    "Available keys\n\nspace  play / pause\np      previous track\nn      next track\nl      show current lyrics\nb      toggle album art / ASCII art\n/      search playlist\nup/down move playlist cursor\nenter  play selected track\nesc    clear search / close help\nt      sort by title\na      sort by artist\nL      sort by album\ns      sort by path\nr      toggle reverse sort\nR/F5   refresh playlist\nk      toggle kitty image mode\nctrl+1/F1 playlist view\nctrl+2/F2 now playing view\nq      quit\n\n? / esc / enter close help"@
}

/// Makes the help. `area` is the whole screen.
pub fn draw_help_popup(area: Rect) -> (popup: Popup)
    requires
        in_range(area),
    ensures
        popup.area == centered(area, 60, 22),
        popup.text@ == help_words(),
{
    let text = "Available keys\n\nspace  play / pause\np      previous track\nn      next track\nl      show current lyrics\nb      toggle album art / ASCII art\n/      search playlist\nup/down move playlist cursor\nenter  play selected track\nesc    clear search / close help\nt      sort by title\na      sort by artist\nL      sort by album\ns      sort by path\nr      toggle reverse sort\nR/F5   refresh playlist\nk      toggle kitty image mode\nctrl+1/F1 playlist view\nctrl+2/F2 now playing view\nq      quit\n\n? / esc / enter close help".to_owned();
    Popup { area: center_rect(area, 60, 22), text }
}

/// The lyrics of the track that plays.
pub struct LyricsPopup {
    pub area: Rect,
    pub title: String,
    pub content: String,
    pub scroll: u16,
}

/// What is shown as the lyrics of a track.
pub open spec fn lyrics_words(t: TrackView) -> Seq<char> {
    match t.lyrics {
        Some(lyrics) => lyrics,
        None => "No lyrics found in MP3 metadata."@,
    }
}

/// Whether this is the popup with the lyrics of the track that plays.
pub open spec fn shows_lyrics(popup: LyricsPopup, s: PlayerView, area: Rect) -> bool {
    &&& popup.area == centered(area, 84, 28)
    &&& popup.title@ == "Lyrics | "@ + title_of(s.tracks[s.current])
    &&& popup.content@ == lyrics_words(s.tracks[s.current])
    &&& popup.scroll == s.lyrics_scroll
}

/// Makes the popup with the lyrics. `area` is the whole screen.
pub fn draw_lyrics_popup(state: &PlayerState, area: Rect) -> (popup: LyricsPopup)
    requires
        state@.has_current(),
        in_range(area),
    ensures
        shows_lyrics(popup, state@, area),
{
    assert(state@.tracks[state@.current] == state.tracks@[state.current as int]@);
    let track = &state.tracks[state.current];
    let mut title = "Lyrics | ".to_owned();
    title.append(display_title(track).as_str());
    let content = match &track.lyrics {
        Some(lyrics) => lyrics.clone(),
        None => "No lyrics found in MP3 metadata.".to_owned(),
    };
    LyricsPopup { area: center_rect(area, 84, 28), title, content, scroll: state.lyrics_scroll }
}

/// One of the two screens.
pub enum ScreenView {
    Playlist(PlaylistScreen),
    NowPlaying(NowPlayingScreen),
}

/// The whole screen, with what lies over it.
pub struct Screen {
    pub view: ScreenView,
    pub help: Option<Popup>,
    pub lyrics: Option<LyricsPopup>,
}

/// Makes the whole screen, whose area is `area`.
pub fn draw_ui(state: &PlayerState, area: Rect, supports_kitty: bool, now: u128) -> (screen: Screen)
    requires
        state@.has_current(),
        in_range(area),
        played(state@, now as int) <= MAX_SPAN,
    ensures
        screen.view is Playlist <==> state@.ui_mode is Playlist,
        screen.view matches ScreenView::Playlist(p) ==> shows_playlist(p, state@, now as int),
        screen.view matches ScreenView::NowPlaying(n) ==> shows_now_playing(
            n,
            state@,
            supports_kitty,
            now as int,
        ),
        screen.help is Some <==> state@.show_help,
        screen.help matches Some(popup) ==> popup.area == centered(area, 60, 22) && popup.text@
            == help_words(),
        screen.lyrics is Some <==> state@.show_lyrics,
        screen.lyrics matches Some(popup) ==> shows_lyrics(popup, state@, area),
{
    let view = match state.ui_mode {
        UiMode::Playlist => ScreenView::Playlist(draw_playlist(state, now)),
        UiMode::NowPlaying => ScreenView::NowPlaying(draw_now_playing(state, supports_kitty, now)),
    };
    let help = if state.show_help {
        Some(draw_help_popup(area))
    } else {
        None
    };
    let lyrics = if state.show_lyrics {
        Some(draw_lyrics_popup(state, area))
    } else {
        None
    };
    Screen { view, help, lyrics }
}

/// The lower of two sizes.
pub open spec fn min_size(a: u16, b: u16) -> u16 {
    if a <= b {
        a
    } else {
        b
    }
}

/// The area of this size in the middle of `area`, cut down to what fits.
pub open spec fn centered(area: Rect, width: u16, height: u16) -> Rect {
    let w = min_size(width, area.width);
    let h = min_size(height, area.height);
    Rect {
        x: (area.x + (area.width - w) / 2) as u16,
        y: (area.y + (area.height - h) / 2) as u16,
        width: w,
        height: h,
    }
}

/// The area of this size in the middle of `area`, cut down to what fits.
pub fn center_rect(area: Rect, width: u16, height: u16) -> (rect: Rect)
    requires
        area.x + (area.width - min_size(width, area.width)) / 2 <= u16::MAX,
        area.y + (area.height - min_size(height, area.height)) / 2 <= u16::MAX,
    ensures
        rect == centered(area, width, height),
{
    let w: u16 = if width <= area.width {
        width
    } else {
        area.width
    };
    let h: u16 = if height <= area.height {
        height
    } else {
        area.height
    };
    Rect {
        x: area.x + (area.width - w) / 2,
        y: area.y + (area.height - h) / 2,
        width: w,
        height: h,
    }
}

/// A centered area lies inside the area around it, in the middle: what is left on one side and
/// on the other differs by one cell at most.
pub proof fn lemma_centered(area: Rect, width: u16, height: u16)
    requires
        in_range(area),
    ensures
        ({
            let r = centered(area, width, height);
            let left = r.x - area.x;
            let right = area.x + area.width - (r.x + r.width);
            let above = r.y - area.y;
            let below = area.y + area.height - (r.y + r.height);
            &&& r.width == min_size(width, area.width)
            &&& r.height == min_size(height, area.height)
            &&& 0 <= left <= right <= left + 1
            &&& 0 <= above <= below <= above + 1
        }),
{
}

/// The largest square in the middle of `area`, in cells.
pub fn square_rect(area: Rect) -> (rect: Rect)
    requires
        in_range(area),
    ensures
        rect == centered(
            area,
            min_size(area.width, area.height),
            min_size(area.width, area.height),
        ),
{
    let square: u16 = if area.width <= area.height {
        area.width
    } else {
        area.height
    };
    center_rect(area, square, square)
}

/// The size of the window of the terminal, in cells and in pixels.
#[derive(Clone, Copy, PartialEq, Eq, Structural, Debug)]
pub struct Window {
    pub columns: u16,
    pub rows: u16,
    pub width: u16,
    pub height: u16,
}

/// Whether the shape of a cell can be told from the size of the window.
pub fn cell_shape_known(window: &Window) -> (known: bool)
    ensures
        known == (window.columns != 0 && window.rows != 0 && window.width != 0 && window.height
            != 0),
{
    window.columns != 0 && window.rows != 0 && window.width != 0 && window.height != 0
}

/// What is to be known of the art of the drawn screen. `art_rect` is the area for it.
pub fn draw_info(view: &ScreenView, art_rect: Option<Rect>) -> (info: DrawInfo)
    ensures
        *view is Playlist ==> info == (DrawInfo { art_rect: None, use_kitty: false }),
        *view matches ScreenView::NowPlaying(n) ==> info == (DrawInfo {
            art_rect,
            use_kitty: n.use_kitty,
        }),
{
    match view {
        ScreenView::Playlist(_) => DrawInfo::default(),
        ScreenView::NowPlaying(n) => DrawInfo { art_rect, use_kitty: n.use_kitty },
    }
}

/// A span of time is shown as its whole minutes and the seconds that are left, with a colon
/// between them; what is less than a second is dropped.
pub proof fn lemma_clock(minutes: nat, seconds: nat, rest: nat)
    requires
        seconds < 60,
        rest < 1_000_000_000,
    ensures
        clock((60 * minutes + seconds) * 1_000_000_000 + rest) == two_digits(minutes) + seq![':']
            + two_digits(seconds),
{
    reveal_strlit(":");
    assert(":"@ =~= seq![':']);
    let secs = 60 * minutes + seconds;
    let nanos = secs * 1_000_000_000 + rest;
    assert(nanos / 1_000_000_000 == secs);
    assert(secs / 60 == minutes && secs % 60 == seconds);
}

/// A track is called by its title; where it has none, by its file name; and where that is no
/// text, by a question mark.
pub proof fn lemma_title_of(t: TrackView)
    ensures
        t.title matches Some(title) ==> title_of(t) == title,
        t.title is None && file_name_text(t.path) is Some ==> title_of(t) == file_name_text(
            t.path,
        )->0,
        t.title is None && file_name_text(t.path) is None ==> title_of(t) == "?"@,
{
}

/// The heading says, counting from one, which track plays, of how many, and by what they are
/// sorted; a word is added where the order is reversed.
pub proof fn lemma_heading(s: PlayerView)
    requires
        s.current >= 0,
    ensures
        ({
            let up = PlayerView { sort_reverse: false, ..s };
            let word = match s.sort_key {
                SortKey::Path => "path"@,
                SortKey::Name => "name"@,
                SortKey::Mtime => "mtime"@,
                SortKey::Title => "title"@,
                SortKey::Artist => "artist"@,
                SortKey::Album => "album"@,
            };
            let number = decimal(s.current as nat + 1);
            &&& heading(up) == "bu-rust-mp3  |  "@ + number + " / "@ + decimal(s.tracks.len())
                + "  |  sort: "@ + word
            &&& !s.sort_reverse ==> heading(s) == heading(up)
            &&& s.sort_reverse ==> heading(s) == heading(up) + " (rev)"@
        }),
{
    reveal_strlit("");
    let up = PlayerView { sort_reverse: false, ..s };
    lemma_key_labels();
    let plain = "bu-rust-mp3  |  "@ + decimal((s.current + 1) as nat) + " / "@ + decimal(
        s.tracks.len(),
    ) + "  |  sort: "@ + key_label(s.sort_key);
    assert(heading(up) =~= plain);
}

/// What plays is shown by its name, and whether it plays or is paused. How far it is is shown by
/// the time that was played and, where that is known, by how long it is.
pub proof fn lemma_playing_words(s: PlayerView, elapsed: nat, total: nat)
    ensures
        s.paused ==> status(s) == "Paused"@,
        !s.paused ==> status(s) == "Playing"@,
        playing_line(s) == status(s) + ": "@ + title_of(s.tracks[s.current]),
        progress_label(elapsed as int, None) == clock(elapsed),
        progress_label(elapsed as int, Some(total as int)) == clock(elapsed) + " / "@ + clock(
            total,
        ),
{
}

/// The search box shows what is typed, with a mark behind it while the box is open. A closed and
/// empty box shows the key that opens it.
pub proof fn lemma_search_label(s: PlayerView)
    ensures
        s.search_mode ==> search_label(s) == "Search: "@ + s.search_query + "_"@,
        !s.search_mode && s.search_query.len() > 0 ==> search_label(s) == "Search: "@
            + s.search_query,
        !s.search_mode && s.search_query.len() == 0 ==> search_label(s) == "Search: /"@,
{
}

/// The playlist has one line for each track, in order. The name of the track stands in it, behind
/// an arrow for the track that plays, with the mark at the end, and behind spaces for the others.
pub proof fn lemma_items(s: PlayerView, mark: Seq<char>, i: int)
    requires
        0 <= i < s.tracks.len(),
    ensures
        items(s, mark).len() == s.tracks.len(),
        i == s.current ==> items(s, mark)[i] == "\u{25b6} "@ + title_of(s.tracks[i]) + mark,
        i != s.current ==> items(s, mark)[i] == "  "@ + title_of(s.tracks[i]),
{
}

/// The screen with the playing track says of it, line by line, whether it plays, its title, its
/// artist and its album, with a dash for what it has not, and whether it has art; and then how
/// art is shown, and whether images are.
pub proof fn lemma_info(s: PlayerView, supports_kitty: bool)
    ensures
        ({
            let t = s.tracks[s.current];
            let artist = match t.artist {
                Some(text) => text,
                None => "-"@,
            };
            let album = match t.album {
                Some(text) => text,
                None => "-"@,
            };
            let art = if t.art_png is Some {
                "embedded"@
            } else {
                "none"@
            };
            let view = if s.art_view_mode is AlbumArt {
                "album art"@
            } else {
                "ascii"@
            };
            let images = if s.force_kitty {
                "on (forced)"@
            } else if supports_kitty {
                "on"@
            } else {
                "off"@
            };
            &&& track_info(s) == status(s) + "\nTitle : "@ + title_of(t) + "\nArtist: "@ + artist
                + "\nAlbum : "@ + album + "\nArt   : "@ + art
            &&& full_info(s, supports_kitty) == track_info(s) + " | View: "@ + view + " | Kitty: "@
                + images
            &&& kitty_status(supports_kitty, s.force_kitty) == images
        }),
{
}

/// Art is shown as an image if and only if the track has art, the user has not switched to
/// letters, and the terminal can show images or is told that it can.
pub proof fn lemma_uses_kitty(s: PlayerView, supports_kitty: bool)
    ensures
        uses_kitty(s, supports_kitty) <==> s.tracks[s.current].art_png is Some
            && s.art_view_mode is AlbumArt && (supports_kitty || s.force_kitty),
{
}

/// What is on the two screens.
pub proof fn lemma_screens(
    p: PlaylistScreen,
    n: NowPlayingScreen,
    s: PlayerView,
    supports_kitty: bool,
    now: int,
)
    ensures
        shows_playlist(p, s, now) <==> {
            &&& p.header@ == heading(s)
            &&& p.now_playing@ == playing_line(s)
            &&& p.progress.elapsed == played(s, now)
            &&& p.progress.total is None <==> s.total_duration is None
            &&& p.progress.total matches Some(t) ==> s.total_duration == Some(t as int)
            &&& p.progress.label@ == progress_label(played(s, now), s.total_duration)
            &&& p.search@ == search_label(s)
            &&& texts(p.items@) == items(s, "  [playing]"@)
            &&& p.selected == s.selected
            &&& p.help@ == "Controls: space play/pause | p prev | n next | ? help"@
        },
        shows_now_playing(n, s, supports_kitty, now) <==> {
            &&& n.header@ == heading(s)
            &&& n.info@ == full_info(s, supports_kitty)
            &&& n.use_kitty == uses_kitty(s, supports_kitty)
            &&& n.progress.elapsed == played(s, now)
            &&& n.progress.total is None <==> s.total_duration is None
            &&& n.progress.total matches Some(t) ==> s.total_duration == Some(t as int)
            &&& n.progress.label@ == progress_label(played(s, now), s.total_duration)
            &&& n.help@ == "Controls: space play/pause | p prev | n next | b art/ascii | ? help"@
        },
{
}

/// The lyrics are shown under the name of the track, from the line that they are scrolled to; a
/// sentence stands for those of a track without.
pub proof fn lemma_lyrics_shown(popup: LyricsPopup, s: PlayerView, area: Rect)
    requires
        shows_lyrics(popup, s, area),
    ensures
        popup.title@ == "Lyrics | "@ + title_of(s.tracks[s.current]),
        s.tracks[s.current].lyrics matches Some(lyrics) ==> popup.content@ == lyrics,
        s.tracks[s.current].lyrics is None ==> popup.content@
            == "No lyrics found in MP3 metadata."@,
        popup.scroll == s.lyrics_scroll,
        popup.area == centered(area, 84, 28),
{
}

/// Where the art would be stand letters, if the user has switched to them and there is room and
/// the art can be read; otherwise there is a word or a sentence on why there is none.
pub proof fn lemma_fallback(
    art: ArtTextView,
    s: PlayerView,
    width: u16,
    height: u16,
    supports_kitty: bool,
)
    requires
        shows_fallback(art, s, width, height, supports_kitty),
    ensures
        ({
            let png = s.tracks[s.current].art_png;
            let room = width > 0 && height > 0;
            &&& png is None ==> art == ArtTextView::Note("No art"@)
            &&& png is Some && s.art_view_mode is AsciiArt && room && size_of_image(png->0) is Some
                ==> (art matches ArtTextView::Lines(lines) && can_be_art(
                png->0,
                width as nat,
                height as nat,
                lines,
            ))
            &&& png is Some && s.art_view_mode is AsciiArt && !(room && size_of_image(
                png->0,
            ) is Some) ==> art == ArtTextView::Note("No art"@)
            &&& png is Some && s.art_view_mode is AlbumArt && (supports_kitty || s.force_kitty)
                ==> art == ArtTextView::Message("Album art unavailable"@)
            &&& png is Some && s.art_view_mode is AlbumArt && !(supports_kitty || s.force_kitty)
                ==> art == ArtTextView::Message(
                "Album art view needs Kitty image support.\nPress b for ASCII art."@,
            )
        }),
{
}

/// The lower of two sizes is one of them, and not above either. So a square in an area is as
/// wide or as high as the area.
pub proof fn lemma_min_size(a: u16, b: u16)
    ensures
        min_size(a, b) <= a,
        min_size(a, b) <= b,
        min_size(a, b) == a || min_size(a, b) == b,
{
}

/// The help names every key, and what it does.
pub proof fn lemma_help_words()
    ensures
        help_words()
            == "Available keys\n\nspace  play / pause\np      previous track\nn      next track\nl      show current lyrics\nb      toggle album art / ASCII art\n/      search playlist\nup/down move playlist cursor\nenter  play selected track\nesc    clear search / close help\nt      sort by title\na      sort by artist\nL      sort by album\ns      sort by path\nr      toggle reverse sort\nR/F5   refresh playlist\nk      toggle kitty image mode\nctrl+1/F1 playlist view\nctrl+2/F2 now playing view\nq      quit\n\n? / esc / enter close help"@,
{
}

} // verus!

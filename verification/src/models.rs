//! The data that the player works on.

use vstd::prelude::*;

use crate::path::{copy_bytes, FilePath};

verus! {

/// A file of the playlist, with what its tag says of it.
pub struct Track {
    pub path: FilePath,
    pub title: Option<String>,
    pub artist: Option<String>,
    pub album: Option<String>,
    pub lyrics: Option<String>,
    pub art_png: Option<Vec<u8>>,
}

/// What a `Track` stands for.
#[verifier::ext_equal]
pub struct TrackView {
    pub path: Seq<u8>,
    pub title: Option<Seq<char>>,
    pub artist: Option<Seq<char>>,
    pub album: Option<Seq<char>>,
    pub lyrics: Option<Seq<char>>,
    pub art_png: Option<Seq<u8>>,
}

/// The text that may be there.
pub open spec fn opt_text(text: Option<String>) -> Option<Seq<char>> {
    match text {
        Some(t) => Some(t@),
        None => None,
    }
}

/// The bytes that may be there.
pub open spec fn opt_bytes(bytes: Option<Vec<u8>>) -> Option<Seq<u8>> {
    match bytes {
        Some(b) => Some(b@),
        None => None,
    }
}

impl View for Track {
    type V = TrackView;

    open spec fn view(&self) -> TrackView {
        TrackView {
            path: self.path@,
            title: opt_text(self.title),
            artist: opt_text(self.artist),
            album: opt_text(self.album),
            lyrics: opt_text(self.lyrics),
            art_png: opt_bytes(self.art_png),
        }
    }
}

impl Clone for Track {
    fn clone(&self) -> (track: Track)
        ensures
            track@ == self@,
    {
        Track {
            path: self.path.clone(),
            title: copy_text(&self.title),
            artist: copy_text(&self.artist),
            album: copy_text(&self.album),
            lyrics: copy_text(&self.lyrics),
            art_png: copy_opt_bytes(&self.art_png),
        }
    }
}

/// What a list of tracks stands for.
pub open spec fn track_views(tracks: Seq<Track>) -> Seq<TrackView> {
    tracks.map_values(|t: Track| t@)
}

/// What the playlist is sorted by.
#[derive(Clone, Copy, PartialEq, Eq, Structural, Debug)]
pub enum SortKey {
    Path,
    Name,
    Mtime,
    Title,
    Artist,
    Album,
}

/// Which of the two screens is shown.
#[derive(Clone, Copy, PartialEq, Eq, Structural, Debug)]
pub enum UiMode {
    Playlist,
    NowPlaying,
}

/// How album art is shown.
#[derive(Clone, Copy, PartialEq, Eq, Structural, Debug)]
pub enum ArtViewMode {
    AlbumArt,
    AsciiArt,
}

/// What the command line asks for.
pub struct Args {
    pub path: FilePath,
    pub sort: SortKey,
    pub reverse: bool,
}

/// A file that was found, with its size and the time of its last change.
pub struct ScannedTrack {
    pub path: FilePath,
    pub size: u64,
    pub modified_unix_secs: u64,
}

/// What a `ScannedTrack` stands for.
#[verifier::ext_equal]
pub struct ScannedView {
    pub path: Seq<u8>,
    pub size: u64,
    pub modified_unix_secs: u64,
}

impl View for ScannedTrack {
    type V = ScannedView;

    open spec fn view(&self) -> ScannedView {
        ScannedView {
            path: self.path@,
            size: self.size,
            modified_unix_secs: self.modified_unix_secs,
        }
    }
}

impl Clone for ScannedTrack {
    fn clone(&self) -> (track: ScannedTrack)
        ensures
            track@ == self@,
    {
        ScannedTrack {
            path: self.path.clone(),
            size: self.size,
            modified_unix_secs: self.modified_unix_secs,
        }
    }
}

/// What a list of scanned files stands for.
pub open spec fn scanned_views(list: Seq<ScannedTrack>) -> Seq<ScannedView> {
    list.map_values(|t: ScannedTrack| t@)
}

/// The player. Times are in nanoseconds: `started_at` on the clock that the player is run by,
/// the others as spans.
pub struct PlayerState {
    pub playlist_path: FilePath,
    pub tracks: Vec<Track>,
    pub current: usize,
    pub selected: usize,
    pub search_query: String,
    pub search_mode: bool,
    pub show_help: bool,
    pub show_lyrics: bool,
    pub lyrics_scroll: u16,
    pub paused: bool,
    pub started_at: Option<u128>,
    pub elapsed_before_pause: u128,
    pub total_duration: Option<u128>,
    pub sort_key: SortKey,
    pub sort_reverse: bool,
    pub ui_mode: UiMode,
    pub force_kitty: bool,
    pub art_view_mode: ArtViewMode,
}

/// What a `PlayerState` stands for.
#[verifier::ext_equal]
pub struct PlayerView {
    pub playlist_path: Seq<u8>,
    pub tracks: Seq<TrackView>,
    pub current: int,
    pub selected: int,
    pub search_query: Seq<char>,
    pub search_mode: bool,
    pub show_help: bool,
    pub show_lyrics: bool,
    pub lyrics_scroll: int,
    pub paused: bool,
    pub started_at: Option<int>,
    pub elapsed_before_pause: int,
    pub total_duration: Option<int>,
    pub sort_key: SortKey,
    pub sort_reverse: bool,
    pub ui_mode: UiMode,
    pub force_kitty: bool,
    pub art_view_mode: ArtViewMode,
}

/// The time that may be there.
pub open spec fn opt_time(time: Option<u128>) -> Option<int> {
    match time {
        Some(t) => Some(t as int),
        None => None,
    }
}

impl View for PlayerState {
    type V = PlayerView;

    open spec fn view(&self) -> PlayerView {
        PlayerView {
            playlist_path: self.playlist_path@,
            tracks: track_views(self.tracks@),
            current: self.current as int,
            selected: self.selected as int,
            search_query: self.search_query@,
            search_mode: self.search_mode,
            show_help: self.show_help,
            show_lyrics: self.show_lyrics,
            lyrics_scroll: self.lyrics_scroll as int,
            paused: self.paused,
            started_at: opt_time(self.started_at),
            elapsed_before_pause: self.elapsed_before_pause as int,
            total_duration: opt_time(self.total_duration),
            sort_key: self.sort_key,
            sort_reverse: self.sort_reverse,
            ui_mode: self.ui_mode,
            force_kitty: self.force_kitty,
            art_view_mode: self.art_view_mode,
        }
    }
}

impl PlayerView {
    /// The playing track is a track of the playlist.
    pub open spec fn has_current(self) -> bool {
        0 <= self.current < self.tracks.len()
    }

    /// The playing track and the selected track are tracks of the playlist.
    pub open spec fn wf(self) -> bool {
        &&& self.has_current()
        &&& 0 <= self.selected < self.tracks.len()
    }
}

/// A key of the keyboard.
#[derive(Clone, Copy, PartialEq, Eq, Structural, Debug)]
pub enum KeyCode {
    Char(char),
    Esc,
    Enter,
    Backspace,
    Up,
    Down,
    PageUp,
    PageDown,
    Home,
    End,
    F(u8),
    /// Any other key.
    Other,
}

/// A key that was pressed, and whether the control key was held down with it.
#[derive(Clone, Copy, PartialEq, Eq, Structural, Debug)]
pub struct KeyEvent {
    pub code: KeyCode,
    pub control: bool,
}

/// An area of the terminal, in cells.
#[derive(Clone, Copy, PartialEq, Eq, Structural, Debug)]
pub struct Rect {
    pub x: u16,
    pub y: u16,
    pub width: u16,
    pub height: u16,
}

/// Which art was drawn, and at what size.
#[derive(Clone, Copy, PartialEq, Eq, Structural, Debug)]
pub struct ArtSig {
    pub index: usize,
    pub width: u16,
    pub height: u16,
}

/// Where the art of a drawn screen goes, and whether the terminal draws it as an image.
#[derive(Clone, Copy, PartialEq, Eq, Debug)]
pub struct DrawInfo {
    pub art_rect: Option<Rect>,
    pub use_kitty: bool,
}

impl Default for DrawInfo {
    fn default() -> (info: DrawInfo)
        ensures
            info == (DrawInfo { art_rect: None, use_kitty: false }),
    {
        DrawInfo { art_rect: None, use_kitty: false }
    }
}

/// What the tag of a file says, cleaned up.
pub struct TrackMeta {
    pub title: Option<String>,
    pub artist: Option<String>,
    pub album: Option<String>,
    pub lyrics: Option<String>,
    pub art_png: Option<Vec<u8>>,
}

/// What a `TrackMeta` stands for.
#[verifier::ext_equal]
pub struct MetaView {
    pub title: Option<Seq<char>>,
    pub artist: Option<Seq<char>>,
    pub album: Option<Seq<char>>,
    pub lyrics: Option<Seq<char>>,
    pub art_png: Option<Seq<u8>>,
}

impl View for TrackMeta {
    type V = MetaView;

    open spec fn view(&self) -> MetaView {
        MetaView {
            title: opt_text(self.title),
            artist: opt_text(self.artist),
            album: opt_text(self.album),
            lyrics: opt_text(self.lyrics),
            art_png: opt_bytes(self.art_png),
        }
    }
}

/// A picture of a tag, and whether it is marked as the front cover.
pub struct Picture {
    pub front_cover: bool,
    pub data: Vec<u8>,
}

/// What a `Picture` stands for.
pub struct PictureView {
    pub front_cover: bool,
    pub data: Seq<u8>,
}

impl View for Picture {
    type V = PictureView;

    open spec fn view(&self) -> PictureView {
        PictureView { front_cover: self.front_cover, data: self.data@ }
    }
}

/// The frames of a tag that the player reads, in the order of the tag.
pub struct TagData {
    pub title: Option<String>,
    pub artist: Option<String>,
    pub album: Option<String>,
    pub lyrics: Vec<String>,
    pub pictures: Vec<Picture>,
}

/// What a `TagData` stands for.
pub struct TagView {
    pub title: Option<Seq<char>>,
    pub artist: Option<Seq<char>>,
    pub album: Option<Seq<char>>,
    pub lyrics: Seq<Seq<char>>,
    pub pictures: Seq<PictureView>,
}

/// The texts that a list of strings stands for.
pub open spec fn texts(list: Seq<String>) -> Seq<Seq<char>> {
    list.map_values(|s: String| s@)
}

impl View for TagData {
    type V = TagView;

    open spec fn view(&self) -> TagView {
        TagView {
            title: opt_text(self.title),
            artist: opt_text(self.artist),
            album: opt_text(self.album),
            lyrics: texts(self.lyrics@),
            pictures: self.pictures@.map_values(|p: Picture| p@),
        }
    }
}

/// A copy of the text that may be there.
pub fn copy_text(text: &Option<String>) -> (copy: Option<String>)
    ensures
        opt_text(copy) == opt_text(*text),
{
    match text {
        Some(t) => Some(t.clone()),
        None => None,
    }
}

/// A copy of the bytes that may be there.
pub fn copy_opt_bytes(bytes: &Option<Vec<u8>>) -> (copy: Option<Vec<u8>>)
    ensures
        opt_bytes(copy) == opt_bytes(*bytes),
{
    match bytes {
        Some(b) => {
            let c = copy_bytes(b, 0, b.len());
            assert(c@ =~= b@);
            Some(c)
        },
        None => None,
    }
}

/// A track stands for what its fields hold.
pub proof fn lemma_track_view(t: Track, list: Seq<Track>)
    ensures
        t@.path == t.path.bytes@,
        t.title matches Some(v) ==> t@.title == Some(v@),
        t.title is None ==> t@.title is None,
        t.artist matches Some(v) ==> t@.artist == Some(v@),
        t.artist is None ==> t@.artist is None,
        t.album matches Some(v) ==> t@.album == Some(v@),
        t.album is None ==> t@.album is None,
        t.lyrics matches Some(v) ==> t@.lyrics == Some(v@),
        t.lyrics is None ==> t@.lyrics is None,
        t.art_png matches Some(v) ==> t@.art_png == Some(v@),
        t.art_png is None ==> t@.art_png is None,
        track_views(list).len() == list.len(),
        forall|i: int| 0 <= i < list.len() ==> #[trigger] track_views(list)[i] == list[i]@,
{
}

/// What is kept of a tag stands for what its fields hold.
pub proof fn lemma_meta_view(m: TrackMeta)
    ensures
        m.title matches Some(v) ==> m@.title == Some(v@),
        m.title is None ==> m@.title is None,
        m.artist matches Some(v) ==> m@.artist == Some(v@),
        m.artist is None ==> m@.artist is None,
        m.album matches Some(v) ==> m@.album == Some(v@),
        m.album is None ==> m@.album is None,
        m.lyrics matches Some(v) ==> m@.lyrics == Some(v@),
        m.lyrics is None ==> m@.lyrics is None,
        m.art_png matches Some(v) ==> m@.art_png == Some(v@),
        m.art_png is None ==> m@.art_png is None,
{
}

/// A tag stands for what its frames hold, in the order of the tag.
pub proof fn lemma_tag_view(tag: TagData)
    ensures
        tag.title matches Some(v) ==> tag@.title == Some(v@),
        tag.title is None ==> tag@.title is None,
        tag.artist matches Some(v) ==> tag@.artist == Some(v@),
        tag.artist is None ==> tag@.artist is None,
        tag.album matches Some(v) ==> tag@.album == Some(v@),
        tag.album is None ==> tag@.album is None,
        tag@.lyrics.len() == tag.lyrics@.len(),
        forall|i: int|
            0 <= i < tag.lyrics@.len() ==> #[trigger] tag@.lyrics[i] == tag.lyrics@[i]@,
        tag@.pictures.len() == tag.pictures@.len(),
        forall|i: int|
            0 <= i < tag.pictures@.len() ==> {
                &&& (#[trigger] tag@.pictures[i]).front_cover == tag.pictures@[i].front_cover
                &&& tag@.pictures[i].data == tag.pictures@[i].data@
            },
{
}

/// A scanned file stands for what its fields hold.
pub proof fn lemma_scanned_view(s: ScannedTrack, list: Seq<ScannedTrack>)
    ensures
        s@.path == s.path.bytes@,
        s@.size == s.size,
        s@.modified_unix_secs == s.modified_unix_secs,
        scanned_views(list).len() == list.len(),
        forall|i: int| 0 <= i < list.len() ==> #[trigger] scanned_views(list)[i] == list[i]@,
{
}

/// The player stands for what its fields hold.
pub proof fn lemma_player_view(s: PlayerState)
    ensures
        s@.playlist_path == s.playlist_path.bytes@,
        s@.tracks.len() == s.tracks@.len(),
        forall|i: int| 0 <= i < s.tracks@.len() ==> #[trigger] s@.tracks[i] == s.tracks@[i]@,
        s@.current == s.current,
        s@.selected == s.selected,
        s@.search_query == s.search_query@,
        s@.search_mode == s.search_mode,
        s@.show_help == s.show_help,
        s@.show_lyrics == s.show_lyrics,
        s@.lyrics_scroll == s.lyrics_scroll,
        s@.paused == s.paused,
        s.started_at matches Some(t) ==> s@.started_at == Some(t as int),
        s.started_at is None ==> s@.started_at is None,
        s@.elapsed_before_pause == s.elapsed_before_pause,
        s.total_duration matches Some(t) ==> s@.total_duration == Some(t as int),
        s.total_duration is None ==> s@.total_duration is None,
        s@.sort_key == s.sort_key,
        s@.sort_reverse == s.sort_reverse,
        s@.ui_mode == s.ui_mode,
        s@.force_kitty == s.force_kitty,
        s@.art_view_mode == s.art_view_mode,
{
}

/// The player is at a track where there is one of that number, and so is the cursor.
pub proof fn lemma_player_wf(s: PlayerView)
    ensures
        s.has_current() <==> 0 <= s.current && s.current < s.tracks.len(),
        s.wf() <==> s.has_current() && 0 <= s.selected && s.selected < s.tracks.len(),
{
}

/// A list of strings stands for their texts, one by one.
pub proof fn lemma_texts(list: Seq<String>)
    ensures
        texts(list).len() == list.len(),
        forall|i: int| 0 <= i < list.len() ==> #[trigger] texts(list)[i] == list[i]@,
{
}

} // verus!

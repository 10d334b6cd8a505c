//! The compact player: one without a cursor, a search box or popups. It keeps its cache as JSON,
//! and album art as squares of one size.

use vstd::prelude::*;
use vstd::string::*;
use vstd::utf8::*;

use crate::app::Action;
use crate::cache::{
    app_dir, cache_file, cache_key, cache_root, encode_cache_key, entry_track, kept_track,
    known_path, lemma_ascii_name, lemma_hex_chars, lemma_join_name, lemma_kept_files,
    lemma_key_injective, lemma_tracks_found, opt_tracks, resume_file, root_of, still_true,
    CacheUnreadable, SystemDirs,
};
use crate::encoding::{
    base64, base64_len, decode_art_png, encode_art_png, lemma_unbase64, unbase64,
};
use crate::metadata::{
    borrow, choose_picture, chosen_picture, clean_opt, cleaned, cover_png, image_size,
    lemma_picture_kept, opt_tag, png_of_image, size_of_image, sort_tracks, sorted_tracks, tag_views, times, track_of,
};
use crate::models::{
    copy_opt_bytes, copy_text, opt_bytes, opt_text, scanned_views, texts, track_views, Args,
    KeyCode, KeyEvent, MetaView, PlayerState, PlayerView, ScannedTrack, ScannedView, SortKey,
    TagData, TagView, Track, TrackMeta, TrackView, UiMode,
};
use crate::path::{joined, lemma_joined, part_views, parts, FilePath, Part};
use crate::player::{
    at_next, at_prev, has_next, next_track, pause_toggled, played, prev_track, resorted,
    sort_playlist, toggle_pause, MAX_SPAN,
};
use crate::playlist::{find_parts, position_of, track_parts};
use crate::records::EntryView;
use crate::scanner::paths_differ;
use crate::text::{lossy_text, same_text, trimmed};
use crate::tui::{
    header_text, heading, items, kitty_status, kitty_status_text, now_playing_text, playing_line,
    playlist_items, render_progress, shows_progress, track_info, track_info_text, Progress,
    Row,
};

verus! {

/// The format of the cache.
pub const COMPACT_CACHE_VERSION: u32 = 1;

/// How wide and how high album art is, in pixels.
pub const ALBUM_ART_SIZE_PX: u32 = 400;

/// A file of the cache, with what its tag says of it.
pub struct CompactEntry {
    pub path: String,
    pub size: u64,
    pub modified_unix_secs: u64,
    pub title: Option<String>,
    pub artist: Option<String>,
    pub album: Option<String>,
    pub art_png_base64: Option<String>,
}

/// What a `CompactEntry` stands for.
#[verifier::ext_equal]
pub struct CompactEntryView {
    pub path: Seq<char>,
    pub size: u64,
    pub modified_unix_secs: u64,
    pub title: Option<Seq<char>>,
    pub artist: Option<Seq<char>>,
    pub album: Option<Seq<char>>,
    pub art_png_base64: Option<Seq<char>>,
}

impl View for CompactEntry {
    type V = CompactEntryView;

    open spec fn view(&self) -> CompactEntryView {
        CompactEntryView {
            path: self.path@,
            size: self.size,
            modified_unix_secs: self.modified_unix_secs,
            title: opt_text(self.title),
            artist: opt_text(self.artist),
            album: opt_text(self.album),
            art_png_base64: opt_text(self.art_png_base64),
        }
    }
}

/// What the cache holds of a playlist.
pub struct CompactCache {
    pub version: u32,
    pub playlist: String,
    pub entries: Vec<CompactEntry>,
}

/// What a `CompactCache` stands for.
#[verifier::ext_equal]
pub struct CompactCacheView {
    pub version: u32,
    pub playlist: Seq<char>,
    pub entries: Seq<CompactEntryView>,
}

/// What a list of entries stands for.
pub open spec fn compact_views(entries: Seq<CompactEntry>) -> Seq<CompactEntryView> {
    entries.map_values(|e: CompactEntry| e@)
}

impl View for CompactCache {
    type V = CompactCacheView;

    open spec fn view(&self) -> CompactCacheView {
        CompactCacheView {
            version: self.version,
            playlist: self.playlist@,
            entries: compact_views(self.entries@),
        }
    }
}

/// The art that an entry holds, if it can be decoded.
pub open spec fn decoded_art(text: Option<Seq<char>>) -> Option<Seq<u8>> {
    match text {
        Some(text) => unbase64(text),
        None => None,
    }
}

/// What an entry says, with its art decoded.
pub open spec fn decoded_entry(e: CompactEntryView) -> EntryView {
    EntryView {
        path: e.path,
        size: e.size,
        modified_unix_secs: e.modified_unix_secs,
        title: e.title,
        artist: e.artist,
        album: e.album,
        lyrics: None,
        art_png: decoded_art(e.art_png_base64),
    }
}

/// Whether a cache is of this format, and true of exactly the files of the scan.
pub open spec fn compact_fresh(c: CompactCacheView, scanned: Seq<ScannedView>) -> bool {
    &&& c.version == COMPACT_CACHE_VERSION
    &&& c.entries.len() == scanned.len()
    &&& forall|i: int|
        0 <= i < scanned.len() ==> still_true(
            decoded_entry(#[trigger] c.entries[i]),
            scanned[i],
        )
}

/// The tracks that a cache gives for a scan, as they were scanned; none where it is out of date.
pub open spec fn compact_tracks(c: CompactCacheView, scanned: Seq<ScannedView>) -> Option<
    Seq<TrackView>,
> {
    if compact_fresh(c, scanned) {
        Some(c.entries.map_values(|e: CompactEntryView| entry_track(decoded_entry(e))))
    } else {
        None
    }
}

/// What came of reading the cache file.
pub enum CompactFile {
    /// There is none.
    Missing,
    /// It is there and could not be read.
    Unreadable,
    /// It holds something else.
    NoCache,
    /// What it holds.
    Cache(CompactCache),
}

/// Whether the cache is of this format, and true of exactly the files of the scan.
fn is_fresh(cache: &CompactCache, scanned: &Vec<ScannedTrack>) -> (is: bool)
    ensures
        is == compact_fresh(cache@, scanned_views(scanned@)),
{
    if cache.version != COMPACT_CACHE_VERSION {
        return false;
    }
    if cache.entries.len() != scanned.len() {
        return false;
    }
    let ghost entries = cache@.entries;
    let ghost files = scanned_views(scanned@);
    let mut i: usize = 0;
    while i < scanned.len()
        invariant
            i <= scanned@.len(),
            cache.entries@.len() == scanned@.len(),
            entries == compact_views(cache.entries@),
            files == scanned_views(scanned@),
            forall|k: int|
                0 <= k < i ==> still_true(decoded_entry(#[trigger] entries[k]), files[k]),
        decreases scanned@.len() - i,
    {
        let entry = &cache.entries[i];
        let file = &scanned[i];
        assert(entries[i as int] == cache.entries@[i as int]@);
        assert(files[i as int] == scanned@[i as int]@);
        if !same_text(entry.path.as_str(), file.path.lossy().as_str()) || entry.size != file.size
            || entry.modified_unix_secs != file.modified_unix_secs {
            assert(!still_true(decoded_entry(entries[i as int]), files[i as int]));
            return false;
        }
        i = i + 1;
    }
    true
}

/// The art that an entry holds, if it can be decoded.
fn entry_art(text: &Option<String>) -> (art: Option<Vec<u8>>)
    ensures
        opt_bytes(art) == decoded_art(opt_text(*text)),
{
    match text {
        Some(text) => decode_art_png(text.as_str()),
        None => None,
    }
}

/// Takes the tracks of the scanned files from the cache file, provided that it still holds, and
/// sorts them. `cache_path` is where the file is, and `modified` holds when each scanned file was
/// last changed.
pub fn load_cached_tracks(
    cache_path: &FilePath,
    file: &CompactFile,
    args: &Args,
    scanned: &Vec<ScannedTrack>,
    modified: &Vec<i128>,
) -> (tracks: Result<Option<Vec<Track>>, CacheUnreadable>)
    requires
        args.sort == SortKey::Mtime ==> modified@.len() == scanned@.len(),
    ensures
        tracks is Err <==> *file is Unreadable,
        tracks matches Err(e) ==> e.path@ == cache_path@,
        *file is Missing ==> tracks matches Ok(None),
        *file is NoCache ==> tracks matches Ok(None),
        *file matches CompactFile::Cache(cache) ==> {
            &&& tracks matches Ok(found)
            &&& opt_tracks(found) == (match compact_tracks(cache@, scanned_views(scanned@)) {
                Some(list) => Some(
                    sorted_tracks(list, args.sort, args.reverse, times(modified@)),
                ),
                None => None,
            })
        },
{
    match file {
        CompactFile::Missing => Ok(None),
        CompactFile::Unreadable => Err(CacheUnreadable { path: cache_path.clone() }),
        CompactFile::NoCache => Ok(None),
        CompactFile::Cache(cache) => {
            if !is_fresh(cache, scanned) {
                return Ok(None);
            }
            let mut tracks: Vec<Track> = Vec::new();
            let ghost want = cache@.entries.map_values(
                |e: CompactEntryView| entry_track(decoded_entry(e)),
            );
            let mut i: usize = 0;
            while i < cache.entries.len()
                invariant
                    i <= cache.entries@.len(),
                    want == cache@.entries.map_values(
                        |e: CompactEntryView| entry_track(decoded_entry(e)),
                    ),
                    tracks@.len() == i,
                    forall|k: int| 0 <= k < i ==> (#[trigger] tracks@[k])@ == want[k],
                decreases cache.entries@.len() - i,
            {
                let entry = &cache.entries[i];
                assert(cache@.entries[i as int] == entry@);
                tracks.push(
                    Track {
                        path: FilePath::from_text(entry.path.as_str()),
                        title: copy_text(&entry.title),
                        artist: copy_text(&entry.artist),
                        album: copy_text(&entry.album),
                        lyrics: None,
                        art_png: entry_art(&entry.art_png_base64),
                    },
                );
                i = i + 1;
            }
            assert(track_views(tracks@) =~= want);
            sort_tracks(&mut tracks, args.sort, args.reverse, modified);
            Ok(Some(tracks))
        },
    }
}

/// The text that art is kept as.
pub open spec fn encoded_art(art: Option<Seq<u8>>) -> Option<Seq<char>> {
    match art {
        Some(art) => Some(base64(art)),
        None => None,
    }
}

/// The entry for the file `s` with the track `t`.
pub open spec fn compact_entry_for(s: ScannedView, t: TrackView) -> CompactEntryView {
    CompactEntryView {
        path: lossy_text(s.path),
        size: s.size,
        modified_unix_secs: s.modified_unix_secs,
        title: t.title,
        artist: t.artist,
        album: t.album,
        art_png_base64: encoded_art(t.art_png),
    }
}

/// The cache for a scan and the tracks that were made of it.
pub open spec fn compact_cache_for(
    playlist: Seq<u8>,
    scanned: Seq<ScannedView>,
    tracks: Seq<TrackView>,
) -> CompactCacheView {
    CompactCacheView {
        version: COMPACT_CACHE_VERSION,
        playlist: lossy_text(playlist),
        entries: Seq::new(
            scanned.len(),
            |i: int|
                compact_entry_for(scanned[i], tracks[position_of(tracks, scanned[i].path)->0]),
        ),
    }
}

/// Whether the text for the art of a track fits in a string.
pub open spec fn art_fits(t: TrackView) -> bool {
    t.art_png matches Some(art) ==> base64_len(art.len()) <= isize::MAX
}

/// Makes the cache for a scan and the tracks that were made of it.
pub fn save_playlist_cache(
    playlist_path: &FilePath,
    scanned: &Vec<ScannedTrack>,
    tracks: &Vec<Track>,
) -> (cache: CompactCache)
    requires
        forall|i: int|
            0 <= i < scanned@.len() ==> position_of(
                track_views(tracks@),
                (#[trigger] scanned@[i]).path@,
            ) is Some,
        forall|i: int| 0 <= i < tracks@.len() ==> art_fits((#[trigger] tracks@[i])@),
    ensures
        cache@ == compact_cache_for(
            playlist_path@,
            scanned_views(scanned@),
            track_views(tracks@),
        ),
{
    let list = track_parts(tracks);
    let ghost files = scanned_views(scanned@);
    let ghost views = track_views(tracks@);
    let ghost want = compact_cache_for(playlist_path@, files, views).entries;
    let mut entries: Vec<CompactEntry> = Vec::new();
    let mut i: usize = 0;
    while i < scanned.len()
        invariant
            i <= scanned@.len(),
            list@.len() == tracks@.len(),
            forall|k: int|
                0 <= k < list@.len() ==> part_views(#[trigger] list@[k]@) == parts(
                    tracks@[k].path@,
                ),
            forall|k: int|
                0 <= k < scanned@.len() ==> position_of(
                    track_views(tracks@),
                    (#[trigger] scanned@[k]).path@,
                ) is Some,
            forall|k: int| 0 <= k < tracks@.len() ==> art_fits((#[trigger] tracks@[k])@),
            files == scanned_views(scanned@),
            views == track_views(tracks@),
            want == compact_cache_for(playlist_path@, files, views).entries,
            entries@.len() == i,
            forall|k: int| 0 <= k < i ==> (#[trigger] entries@[k])@ == want[k],
        decreases scanned@.len() - i,
    {
        let file = &scanned[i];
        assert(files[i as int] == scanned@[i as int]@);
        match find_parts(tracks, &list, &file.path) {
            Some(at) => {
                let track = &tracks[at];
                assert(views[at as int] == track@);
                assert(art_fits(tracks@[at as int]@));
                let art_png_base64 = match &track.art_png {
                    Some(art) => Some(encode_art_png(art)),
                    None => None,
                };
                entries.push(
                    CompactEntry {
                        path: file.path.lossy(),
                        size: file.size,
                        modified_unix_secs: file.modified_unix_secs,
                        title: copy_text(&track.title),
                        artist: copy_text(&track.artist),
                        album: copy_text(&track.album),
                        art_png_base64,
                    },
                );
            },
            None => {
                assert(false);
            },
        }
        i = i + 1;
    }
    let cache = CompactCache {
        version: COMPACT_CACHE_VERSION,
        playlist: playlist_path.lossy(),
        entries,
    };
    assert(compact_views(cache.entries@) =~= want);
    cache
}

/// Art that was kept as text comes back as it was.
pub proof fn lemma_art_kept(art: Option<Seq<u8>>)
    ensures
        decoded_art(encoded_art(art)) == art,
{
    if art is Some {
        lemma_unbase64(art->0);
    }
}

/// Where the cache of the playlist at `path` is kept.
pub open spec fn compact_cache_file(
    path: Seq<u8>,
    canonical: Option<FilePath>,
    dirs: SystemDirs,
) -> Seq<u8> {
    joined(app_dir(dirs), encode_utf8(cache_key(path, canonical) + ".json"@))
}

/// Where the cache of the playlist at `path` is kept.
pub fn playlist_cache_path(
    path: &FilePath,
    canonical: &Option<FilePath>,
    dirs: &SystemDirs,
) -> (file: FilePath)
    ensures
        file@ == compact_cache_file(path@, *canonical, *dirs),
{
    let mut name = encode_cache_key(path, canonical);
    name.append(".json");
    cache_root(dirs).join(&FilePath::from_text("bu-rust-mp3")).join(
        &FilePath::from_text(name.as_str()),
    )
}

/// Every playlist has a cache of its own, and one that the full player does not use: two
/// playlists share a file only if they are known by the same path, and the file is never one
/// that the full player keeps.
pub proof fn lemma_compact_file_apart(
    a: Seq<u8>,
    canonical_a: Option<FilePath>,
    b: Seq<u8>,
    canonical_b: Option<FilePath>,
    dirs: SystemDirs,
)
    ensures
        compact_cache_file(a, canonical_a, dirs) == compact_cache_file(b, canonical_b, dirs)
            <==> lossy_text(known_path(a, canonical_a)) == lossy_text(known_path(b, canonical_b)),
        compact_cache_file(a, canonical_a, dirs) != cache_file(b, canonical_b, dirs),
        compact_cache_file(a, canonical_a, dirs) != resume_file(b, canonical_b, dirs),
{
    reveal_strlit(".json");
    reveal_strlit(".pb");
    reveal_strlit(".resume.pb");
    let ka = cache_key(a, canonical_a);
    let kb = cache_key(b, canonical_b);
    lemma_hex_chars(encode_utf8(lossy_text(known_path(a, canonical_a))));
    lemma_hex_chars(encode_utf8(lossy_text(known_path(b, canonical_b))));
    let dir = app_dir(dirs);
    let x = ka + ".json"@;
    if compact_cache_file(a, canonical_a, dirs) == compact_cache_file(b, canonical_b, dirs) {
        let y = kb + ".json"@;
        lemma_join_name(dir, x, y);
        assert(x.len() == y.len());
        assert(x.take(ka.len() as int) =~= ka);
        assert(y.take(kb.len() as int) =~= kb);
        lemma_key_injective(a, canonical_a, b, canonical_b);
    }
    if compact_cache_file(a, canonical_a, dirs) == cache_file(b, canonical_b, dirs) {
        let y = kb + ".pb"@;
        lemma_join_name(dir, x, y);
        assert(x.last() == 'n' && y.last() == 'b');
    }
    if compact_cache_file(a, canonical_a, dirs) == resume_file(b, canonical_b, dirs) {
        let y = kb + ".resume.pb"@;
        lemma_join_name(dir, x, y);
        assert(x.last() == 'n' && y.last() == 'b');
    }
}

/// A square part of an image, by its upper left corner and its side.
#[derive(Clone, Copy, PartialEq, Eq, Structural, Debug)]
pub struct Square {
    pub x: u32,
    pub y: u32,
    pub side: u32,
}

/// The largest square in the middle of an image.
pub open spec fn middle_square(width: u32, height: u32) -> Square {
    let side = if width <= height {
        width
    } else {
        height
    };
    Square { x: ((width - side) / 2) as u32, y: ((height - side) / 2) as u32, side }
}

/// The largest square in the middle of an image.
pub fn square_crop(width: u32, height: u32) -> (square: Square)
    ensures
        square == middle_square(width, height),
{
    let side: u32 = if width <= height {
        width
    } else {
        height
    };
    Square { x: (width - side) / 2, y: (height - side) / 2, side }
}

/// The square is as wide or as high as the image, and lies inside it, in the middle: what is
/// left on one side and on the other differs by one pixel at most.
pub proof fn lemma_middle_square(width: u32, height: u32)
    ensures
        ({
            let q = middle_square(width, height);
            let right = width - (q.x + q.side);
            let below = height - (q.y + q.side);
            &&& q.side == width || q.side == height
            &&& 0 <= q.x <= right <= q.x + 1
            &&& 0 <= q.y <= below <= q.y + 1
        }),
{
}

/// Whether the file holds an image that is not empty.
pub open spec fn has_pixels(data: Seq<u8>) -> bool {
    size_of_image(data) matches Some((width, height)) && width > 0 && height > 0
}

/// Whether a square part lies inside the image that the file holds.
pub open spec fn lies_inside(data: Seq<u8>, part: Square) -> bool {
    size_of_image(data) matches Some((width, height)) && part.x + part.side <= width && part.y
        + part.side <= height
}

/// What the crate `image` makes of a square part of an image file, as it is: a PNG file, if it
/// can write one. The part starts at `x` and `y`, and is `side` pixels wide and high.
pub uninterp spec fn png_of_part(data: Seq<u8>, x: int, y: int, side: int) -> Option<Seq<u8>>;

/// Whether `png` can be what the crate `image` makes of a square part of an image file, scaled
/// to `side` pixels: the part starts at `x` and `y`, and is `part` pixels wide and high.
pub uninterp spec fn can_be_scaled(
    data: Seq<u8>,
    x: int,
    y: int,
    part: int,
    side: int,
    png: Seq<u8>,
) -> bool;

/// Wraps `image::load_from_memory`, `DynamicImage::crop_imm`, `DynamicImage::resize_exact` with
/// the filter `Lanczos3`, and `DynamicImage::write_to`. Cropping and scaling keep the kind of
/// pixels, and on that kind it rests whether a PNG file can be written. So it claims that
/// nothing comes out of a file that cannot be read; that of an image that is not empty something
/// comes out if and only if the image could be written as it is; and that what comes out is an
/// image of the size asked for. A part that has that size already is copied, so that what comes
/// out depends on the file and the part alone. Otherwise it is tied to the file, the part and
/// the size by `can_be_scaled` alone, since the filter is computed with the sine function of the
/// machine. Whether something comes out of an empty image is not stated.
#[verifier::external_body]
fn crop_and_scale(data: &[u8], square: Square, side: u32) -> (png: Option<Vec<u8>>)
    requires
        0 < side <= 4096,
    ensures
        size_of_image(data@) is None ==> png is None,
        has_pixels(data@) ==> (png is Some <==> png_of_image(data@) is Some),
        png matches Some(p) ==> size_of_image(p@) == Some((side, side)),
        png matches Some(p) ==> can_be_scaled(
            data@,
            square.x as int,
            square.y as int,
            square.side as int,
            side as int,
            p@,
        ),
        square.side == side && lies_inside(data@, square) ==> opt_bytes(png) == png_of_part(
            data@,
            square.x as int,
            square.y as int,
            side as int,
        ),
{
    let image = image::load_from_memory(data).ok()?;
    let cropped = image.crop_imm(square.x, square.y, square.side, square.side);
    let scaled = cropped.resize_exact(side, side, image::imageops::FilterType::Lanczos3);
    let mut png: Vec<u8> = Vec::new();
    match scaled.write_to(&mut std::io::Cursor::new(&mut png), image::ImageFormat::Png) {
        Ok(()) => Some(png),
        Err(_) => None,
    }
}

/// Whether `art` can be what is made of a picture: the middle square of it, scaled to the one
/// size. There is art wherever the picture could be written as a PNG file as it is, and nowhere
/// else, unless it is an empty image. A middle square that has that size is taken as it is.
pub open spec fn possible_art_of(data: Seq<u8>, art: Option<Seq<u8>>) -> bool {
    &&& png_of_image(data) is Some ==> art is Some
    &&& match size_of_image(data) {
        Some((width, height)) => {
            let part = middle_square(width, height);
            &&& art is Some ==> png_of_image(data) is Some || width == 0 || height == 0
            &&& art matches Some(png) ==> {
                &&& size_of_image(png) == Some((ALBUM_ART_SIZE_PX, ALBUM_ART_SIZE_PX))
                &&& can_be_scaled(
                    data,
                    part.x as int,
                    part.y as int,
                    part.side as int,
                    ALBUM_ART_SIZE_PX as int,
                    png,
                )
            }
            &&& part.side == ALBUM_ART_SIZE_PX ==> art == png_of_part(
                data,
                part.x as int,
                part.y as int,
                part.side as int,
            )
        },
        None => art is None,
    }
}

/// Whether `art` can be the art of a tag: what is made of the front cover, or else of the first
/// picture, and none where there is no picture.
pub open spec fn possible_art(tag: TagView, art: Option<Seq<u8>>) -> bool {
    match chosen_picture(tag.pictures) {
        Some(picture) => possible_art_of(picture.data, art),
        None => art is None,
    }
}

/// The art of a tag: the middle of the front cover, or else of the first picture, as a square
/// PNG file.
pub fn extract_cover_png(tag: &TagData) -> (png: Option<Vec<u8>>)
    ensures
        possible_art(tag@, opt_bytes(png)),
{
    match choose_picture(tag) {
        Some(i) => {
            let data = tag.pictures[i].data.as_slice();
            match image_size(data) {
                Some((width, height)) => crop_and_scale(
                    data,
                    square_crop(width, height),
                    ALBUM_ART_SIZE_PX,
                ),
                None => None,
            }
        },
        None => None,
    }
}

/// A cover that the full player can show has art here too, and a cover that it cannot show has
/// none, unless it is an empty image.
pub proof fn lemma_art_wherever_cover(tag: TagView, art: Option<Seq<u8>>)
    requires
        possible_art(tag, art),
    ensures
        cover_png(tag.pictures) is Some ==> art is Some,
        art is Some ==> cover_png(tag.pictures) is Some || (chosen_picture(
            tag.pictures,
        ) matches Some(picture) && !has_pixels(picture.data)),
{
}

/// What is kept of the tag of a file whose art is `art`; of a file without a readable tag,
/// nothing.
pub open spec fn compact_meta(tag: Option<TagView>, art: Option<Seq<u8>>) -> MetaView {
    match tag {
        Some(tag) => MetaView {
            title: cleaned(tag.title),
            artist: cleaned(tag.artist),
            album: cleaned(tag.album),
            lyrics: None,
            art_png: art,
        },
        None => MetaView { title: None, artist: None, album: None, lyrics: None, art_png: None },
    }
}

/// What is kept of the tag of a file whose art is `art`.
pub fn read_meta(tag: &Option<TagData>, art: Option<Vec<u8>>) -> (meta: TrackMeta)
    ensures
        meta@ == compact_meta(opt_tag(*tag), opt_bytes(art)),
{
    match tag {
        Some(tag) => TrackMeta {
            title: clean_opt(borrow(&tag.title)),
            artist: clean_opt(borrow(&tag.artist)),
            album: clean_opt(borrow(&tag.album)),
            lyrics: None,
            art_png: art,
        },
        None => TrackMeta { title: None, artist: None, album: None, lyrics: None, art_png: None },
    }
}

/// The tracks of the scanned files, as they were scanned.
pub open spec fn compact_scanned(
    scanned: Seq<ScannedView>,
    tags: Seq<Option<TagView>>,
    arts: Seq<Option<Seq<u8>>>,
) -> Seq<TrackView> {
    Seq::new(scanned.len(), |i: int| track_of(scanned[i].path, compact_meta(tags[i], arts[i])))
}

/// The art of each file.
pub open spec fn art_views(arts: Seq<Option<Vec<u8>>>) -> Seq<Option<Seq<u8>>> {
    arts.map_values(|a: Option<Vec<u8>>| opt_bytes(a))
}

/// Makes the tracks of the scanned files and sorts them. `tags` holds what was read of each
/// file, `arts` its art, and `modified` when it was last changed.
pub fn tracks_with_art(
    scanned: &Vec<ScannedTrack>,
    tags: &Vec<Option<TagData>>,
    arts: &Vec<Option<Vec<u8>>>,
    sort: SortKey,
    reverse: bool,
    modified: &Vec<i128>,
) -> (tracks: Vec<Track>)
    requires
        tags@.len() == scanned@.len(),
        arts@.len() == scanned@.len(),
        sort == SortKey::Mtime ==> modified@.len() == scanned@.len(),
    ensures
        track_views(tracks@) == sorted_tracks(
            compact_scanned(scanned_views(scanned@), tag_views(tags@), art_views(arts@)),
            sort,
            reverse,
            times(modified@),
        ),
{
    let mut tracks: Vec<Track> = Vec::new();
    let ghost want = compact_scanned(scanned_views(scanned@), tag_views(tags@), art_views(arts@));
    let mut i: usize = 0;
    while i < scanned.len()
        invariant
            i <= scanned@.len(),
            tags@.len() == scanned@.len(),
            arts@.len() == scanned@.len(),
            want == compact_scanned(
                scanned_views(scanned@),
                tag_views(tags@),
                art_views(arts@),
            ),
            tracks@.len() == i,
            forall|k: int| 0 <= k < i ==> (#[trigger] tracks@[k])@ == want[k],
        decreases scanned@.len() - i,
    {
        let meta = read_meta(&tags[i], copy_opt_bytes(&arts[i]));
        tracks.push(
            Track {
                path: scanned[i].path.clone(),
                title: meta.title,
                artist: meta.artist,
                album: meta.album,
                lyrics: meta.lyrics,
                art_png: meta.art_png,
            },
        );
        i = i + 1;
    }
    assert(track_views(tracks@) =~= want);
    sort_tracks(&mut tracks, sort, reverse, modified);
    tracks
}

/// Whether `arts` can be the art of these files. A file without a readable tag has none.
pub open spec fn possible_arts(tags: Seq<Option<TagView>>, arts: Seq<Option<Seq<u8>>>) -> bool {
    &&& arts.len() == tags.len()
    &&& forall|i: int|
        0 <= i < tags.len() ==> match tags[i] {
            Some(tag) => possible_art(tag, #[trigger] arts[i]),
            None => arts[i] is None,
        }
}

/// Makes the tracks of the scanned files and sorts them. `tags` holds what was read of each
/// file, and `modified` when it was last changed.
pub fn build_tracks_from_scan(
    scanned: &Vec<ScannedTrack>,
    tags: &Vec<Option<TagData>>,
    sort: SortKey,
    reverse: bool,
    modified: &Vec<i128>,
) -> (tracks: Vec<Track>)
    requires
        tags@.len() == scanned@.len(),
        sort == SortKey::Mtime ==> modified@.len() == scanned@.len(),
    ensures
        exists|arts: Seq<Option<Seq<u8>>>|
            {
                &&& #[trigger] possible_arts(tag_views(tags@), arts)
                &&& track_views(tracks@) == sorted_tracks(
                    compact_scanned(scanned_views(scanned@), tag_views(tags@), arts),
                    sort,
                    reverse,
                    times(modified@),
                )
            },
{
    let mut arts: Vec<Option<Vec<u8>>> = Vec::new();
    let mut i: usize = 0;
    while i < tags.len()
        invariant
            i <= tags@.len(),
            arts@.len() == i,
            forall|k: int|
                0 <= k < i ==> match tag_views(tags@)[k] {
                    Some(tag) => possible_art(tag, #[trigger] art_views(arts@)[k]),
                    None => art_views(arts@)[k] is None,
                },
        decreases tags@.len() - i,
    {
        let ghost before = art_views(arts@);
        let art = match &tags[i] {
            Some(tag) => extract_cover_png(tag),
            None => None,
        };
        assert(tag_views(tags@)[i as int] == opt_tag(tags@[i as int]));
        let ghost made = opt_bytes(art);
        arts.push(art);
        assert(art_views(arts@) =~= before.push(made));
        i = i + 1;
    }
    assert(possible_arts(tag_views(tags@), art_views(arts@)));
    tracks_with_art(scanned, tags, &arts, sort, reverse, modified)
}

/// What was saved of a playlist comes back: of the same files, scanned again, the cache gives,
/// in the order of the scan, the track that was found for each file, but for its lyrics, which
/// are not kept.
pub proof fn lemma_compact_reload(
    playlist: Seq<u8>,
    scanned: Seq<ScannedView>,
    tracks: Seq<TrackView>,
)
    requires
        forall|i: int|
            0 <= i < scanned.len() ==> position_of(tracks, (#[trigger] scanned[i]).path) is Some,
    ensures
        compact_tracks(compact_cache_for(playlist, scanned, tracks), scanned) == Some(
            Seq::new(
                scanned.len(),
                |i: int|
                    TrackView {
                        lyrics: None,
                        ..kept_track(
                            scanned[i],
                            tracks[position_of(tracks, scanned[i].path)->0],
                        )
                    },
            ),
        ),
{
    let cache = compact_cache_for(playlist, scanned, tracks);
    let kept = Seq::new(
        scanned.len(),
        |i: int|
            TrackView {
                lyrics: None,
                ..kept_track(scanned[i], tracks[position_of(tracks, scanned[i].path)->0])
            },
    );
    assert forall|i: int| 0 <= i < scanned.len() implies {
        &&& entry_track(decoded_entry(#[trigger] cache.entries[i])) == kept[i]
        &&& still_true(decoded_entry(cache.entries[i]), scanned[i])
    } by {
        lemma_art_kept(tracks[position_of(tracks, scanned[i].path)->0].art_png);
    }
    assert(compact_fresh(cache, scanned));
    assert(cache.entries.map_values(|e: CompactEntryView| entry_track(decoded_entry(e))) =~= kept);
}

/// What was saved of a playlist that was just made comes back as it was made. The files have
/// different paths, and paths that are text: the cache holds paths as text.
pub proof fn lemma_compact_made_reload(
    playlist: Seq<u8>,
    scanned: Seq<ScannedView>,
    tags: Seq<Option<TagView>>,
    arts: Seq<Option<Seq<u8>>>,
    sort: SortKey,
    reverse: bool,
    modified: Seq<int>,
)
    requires
        forall|i: int| 0 <= i < scanned.len() ==> valid_utf8((#[trigger] scanned[i]).path),
        paths_differ(scanned),
    ensures
        ({
            let made = compact_scanned(scanned, tags, arts);
            let tracks = sorted_tracks(made, sort, reverse, modified);
            compact_tracks(compact_cache_for(playlist, scanned, tracks), scanned) == Some(made)
        }),
{
    broadcast use decode_utf8_encode_utf8;

    let made = compact_scanned(scanned, tags, arts);
    let tracks = sorted_tracks(made, sort, reverse, modified);
    lemma_tracks_found(scanned, made, sort, reverse, modified);
    lemma_compact_reload(playlist, scanned, tracks);
    let kept = Seq::new(
        scanned.len(),
        |i: int|
            TrackView {
                lyrics: None,
                ..kept_track(scanned[i], tracks[position_of(tracks, scanned[i].path)->0])
            },
    );
    assert forall|i: int| 0 <= i < scanned.len() implies kept[i] == made[i] by {
        assert(valid_utf8(scanned[i].path));
        assert(position_of(tracks, scanned[i].path) is Some);
    }
    assert(kept =~= made);
}

/// Sorts the playlist by `sort`. `modified` holds when the file of each track was last changed;
/// it is read where that is what the tracks are sorted by.
pub fn resort_playlist(state: &mut PlayerState, sort: SortKey, modified: &Vec<i128>)
    requires
        old(state)@.has_current(),
        sort == SortKey::Mtime ==> modified@.len() == old(state)@.tracks.len(),
    ensures
        final(state)@ == resorted(
            old(state)@,
            sort,
            old(state)@.sort_reverse,
            times(modified@),
        ),
        final(state)@.has_current(),
        old(state)@.wf() ==> final(state)@.wf(),
{
    let reverse = state.sort_reverse;
    sort_playlist(state, sort, reverse, modified);
}

/// Sorts the playlist the other way round. `modified` holds when the file of each track was
/// last changed; it is read where that is what the tracks are sorted by.
pub fn toggle_reverse(state: &mut PlayerState, modified: &Vec<i128>)
    requires
        old(state)@.has_current(),
        old(state)@.sort_key == SortKey::Mtime ==> modified@.len() == old(state)@.tracks.len(),
    ensures
        final(state)@ == resorted(
            old(state)@,
            old(state)@.sort_key,
            !old(state)@.sort_reverse,
            times(modified@),
        ),
        final(state)@.has_current(),
        old(state)@.wf() ==> final(state)@.wf(),
{
    let sort = state.sort_key;
    let reverse = !state.sort_reverse;
    sort_playlist(state, sort, reverse, modified);
}

/// The player once it has got a letter.
pub open spec fn compact_letter_done(s: PlayerView, c: char, control: bool, now: int) -> PlayerView {
    if c == ' ' {
        pause_toggled(s, now)
    } else if c == 'n' {
        at_next(s)
    } else if c == 'p' {
        at_prev(s)
    } else if c == 't' {
        resorted(s, SortKey::Title, s.sort_reverse, seq![])
    } else if c == 'a' {
        resorted(s, SortKey::Artist, s.sort_reverse, seq![])
    } else if c == 'l' {
        resorted(s, SortKey::Album, s.sort_reverse, seq![])
    } else if c == 's' {
        resorted(s, SortKey::Path, s.sort_reverse, seq![])
    } else if c == 'k' {
        PlayerView { force_kitty: !s.force_kitty, ..s }
    } else if c == '1' && control {
        PlayerView { ui_mode: UiMode::Playlist, ..s }
    } else if c == '2' && control {
        PlayerView { ui_mode: UiMode::NowPlaying, ..s }
    } else {
        s
    }
}

/// The player once it has got a key at `now`.
pub open spec fn compact_key_done(s: PlayerView, key: KeyEvent, now: int) -> PlayerView {
    match key.code {
        KeyCode::Char(c) => compact_letter_done(s, c, key.control, now),
        KeyCode::F(n) => if n == 1 {
            PlayerView { ui_mode: UiMode::Playlist, ..s }
        } else if n == 2 {
            PlayerView { ui_mode: UiMode::NowPlaying, ..s }
        } else {
            s
        },
        _ => s,
    }
}

/// What is left to do once the player has got a key.
pub open spec fn compact_key_action(s: PlayerView, key: KeyEvent) -> Action {
    match key.code {
        KeyCode::Char(c) => if c == 'q' {
            Action::Quit
        } else if c == ' ' {
            Action::SetPaused
        } else if c == 'n' && has_next(s) {
            Action::LoadTrack
        } else if c == 'p' && s.current > 0 {
            Action::LoadTrack
        } else if c == 'r' {
            Action::Reverse
        } else {
            Action::Nothing
        },
        _ => Action::Nothing,
    }
}

/// Whether the numbers of the player allow for a key that is pressed at `now`: space adds up
/// time, `n` counts tracks, and the keys that sort look at the playing track.
pub open spec fn compact_key_fits(s: PlayerView, code: KeyCode, now: int) -> bool {
    match code {
        KeyCode::Char(c) => {
            &&& c == ' ' ==> played(s, now) <= MAX_SPAN
            &&& c == 'n' ==> s.current < usize::MAX
            &&& c == 't' || c == 'a' || c == 'l' || c == 's' ==> s.has_current()
        },
        _ => true,
    }
}

/// Gives the player a letter.
fn handle_letter(state: &mut PlayerState, c: char, control: bool, now: u128) -> (action: Action)
    requires
        compact_key_fits(old(state)@, KeyCode::Char(c), now as int),
    ensures
        final(state)@ == compact_letter_done(old(state)@, c, control, now as int),
        action == compact_key_action(old(state)@, KeyEvent { code: KeyCode::Char(c), control }),
        old(state)@.has_current() ==> final(state)@.has_current(),
        old(state)@.wf() ==> final(state)@.wf(),
{
    let no_times: Vec<i128> = Vec::new();
    assert(times(no_times@) =~= seq![]);
    if c == 'q' {
        return Action::Quit;
    } else if c == ' ' {
        toggle_pause(state, now);
        return Action::SetPaused;
    } else if c == 'n' {
        if next_track(state) {
            return Action::LoadTrack;
        }
    } else if c == 'p' {
        if prev_track(state) {
            return Action::LoadTrack;
        }
    } else if c == 't' {
        resort_playlist(state, SortKey::Title, &no_times);
    } else if c == 'a' {
        resort_playlist(state, SortKey::Artist, &no_times);
    } else if c == 'l' {
        resort_playlist(state, SortKey::Album, &no_times);
    } else if c == 's' {
        resort_playlist(state, SortKey::Path, &no_times);
    } else if c == 'r' {
        return Action::Reverse;
    } else if c == 'k' {
        state.force_kitty = !state.force_kitty;
    } else if c == '1' && control {
        state.ui_mode = UiMode::Playlist;
    } else if c == '2' && control {
        state.ui_mode = UiMode::NowPlaying;
    }
    Action::Nothing
}

/// Gives the player a key that was pressed at `now`.
pub fn handle_key(state: &mut PlayerState, key: KeyEvent, now: u128) -> (action: Action)
    requires
        compact_key_fits(old(state)@, key.code, now as int),
    ensures
        final(state)@ == compact_key_done(old(state)@, key, now as int),
        action == compact_key_action(old(state)@, key),
        old(state)@.has_current() ==> final(state)@.has_current(),
        old(state)@.wf() ==> final(state)@.wf(),
{
    match key.code {
        KeyCode::Char(c) => handle_letter(state, c, key.control, now),
        KeyCode::F(n) => {
            if n == 1 {
                state.ui_mode = UiMode::Playlist;
            } else if n == 2 {
                state.ui_mode = UiMode::NowPlaying;
            }
            Action::Nothing
        },
        _ => Action::Nothing,
    }
}

/// The rows of the screen with the playlist, from top to bottom: the header, the playing track,
/// how far it is, the playlist and the help.
pub fn playlist_rows() -> (rows: Vec<Row>)
    ensures
        rows@ == seq![Row::Lines(3), Row::Lines(3), Row::Lines(3), Row::Rest(5), Row::Lines(1)],
{
    vec![Row::Lines(3), Row::Lines(3), Row::Lines(3), Row::Rest(5), Row::Lines(1)]
}

/// The screen with the playlist.
pub struct CompactPlaylist {
    pub header: String,
    pub now_playing: String,
    pub progress: Progress,
    pub items: Vec<String>,
    pub help: String,
}

/// Makes the screen with the playlist.
pub fn draw_playlist(state: &PlayerState, now: u128) -> (screen: CompactPlaylist)
    requires
        state@.has_current(),
        played(state@, now as int) <= MAX_SPAN,
    ensures
        screen.header@ == heading(state@),
        screen.now_playing@ == playing_line(state@),
        shows_progress(screen.progress, state@, now as int),
        texts(screen.items@) == items(state@, ""@),
        screen.help@
            == "Controls: space play/pause | n next | p previous | t title | a artist | l album | s path | r reverse | ctrl+1/F1 playlist | ctrl+2/F2 now playing | q quit"@,
{
    CompactPlaylist {
        header: header_text(state),
        now_playing: now_playing_text(state),
        progress: render_progress(state, now),
        items: playlist_items(state, ""),
        help: "Controls: space play/pause | n next | p previous | t title | a artist | l album | s path | r reverse | ctrl+1/F1 playlist | ctrl+2/F2 now playing | q quit".to_owned(),
    }
}

/// The screen with the track that plays.
pub struct CompactNowPlaying {
    pub header: String,
    pub info: String,
    pub use_kitty: bool,
    pub progress: Progress,
    pub help: String,
}

/// Makes the screen with the track that plays.
pub fn draw_now_playing(state: &PlayerState, supports_kitty: bool, now: u128) -> (screen:
    CompactNowPlaying)
    requires
        state@.has_current(),
        played(state@, now as int) <= MAX_SPAN,
    ensures
        screen.header@ == heading(state@),
        screen.info@ == track_info(state@) + " | Kitty: "@ + kitty_status(
            supports_kitty,
            state@.force_kitty,
        ),
        screen.use_kitty == ((supports_kitty || state@.force_kitty)
            && state@.tracks[state@.current].art_png is Some),
        shows_progress(screen.progress, state@, now as int),
        screen.help@
            == "Controls: space play/pause | n next | p previous | t title | a artist | l album | s path | r reverse | k kitty | ctrl+1/F1 playlist | ctrl+2/F2 now playing | q quit"@,
{
    assert(state@.tracks[state@.current] == state.tracks@[state.current as int]@);
    let mut info = track_info_text(state);
    info.append(" | Kitty: ");
    info.append(kitty_status_text(supports_kitty, state.force_kitty).as_str());
    let use_kitty = (supports_kitty || state.force_kitty)
        && state.tracks[state.current].art_png.is_some();
    CompactNowPlaying {
        header: header_text(state),
        info,
        use_kitty,
        progress: render_progress(state, now),
        help: "Controls: space play/pause | n next | p previous | t title | a artist | l album | s path | r reverse | k kitty | ctrl+1/F1 playlist | ctrl+2/F2 now playing | q quit".to_owned(),
    }
}

/// A cache is taken if and only if it is of this format and holds, for every file of the scan
/// and in the same order, the very path, size and second of the last change. The tracks are then
/// those that it holds, without lyrics, and with the art that its texts stand for.
pub proof fn lemma_compact_taken(c: CompactCacheView, scanned: Seq<ScannedView>)
    ensures
        compact_tracks(c, scanned) is Some <==> {
            &&& c.version == 1
            &&& c.entries.len() == scanned.len()
            &&& forall|i: int|
                0 <= i < scanned.len() ==> {
                    &&& (#[trigger] c.entries[i]).path == lossy_text(scanned[i].path)
                    &&& c.entries[i].size == scanned[i].size
                    &&& c.entries[i].modified_unix_secs == scanned[i].modified_unix_secs
                }
        },
        compact_tracks(c, scanned) matches Some(list) ==> {
            &&& list.len() == c.entries.len()
            &&& forall|i: int|
                0 <= i < list.len() ==> {
                    &&& (#[trigger] list[i]).path == encode_utf8(c.entries[i].path)
                    &&& list[i].title == c.entries[i].title
                    &&& list[i].artist == c.entries[i].artist
                    &&& list[i].album == c.entries[i].album
                    &&& list[i].lyrics is None
                    &&& c.entries[i].art_png_base64 is None ==> list[i].art_png is None
                    &&& forall|art: Seq<u8>| #[trigger]
                        base64(art) == c.entries[i].art_png_base64->0
                            && c.entries[i].art_png_base64 is Some ==> list[i].art_png == Some(
                            art,
                        )
                    &&& (forall|art: Seq<u8>| #[trigger]
                        base64(art) != c.entries[i].art_png_base64->0) ==> list[i].art_png is None
                }
        },
{
    if compact_tracks(c, scanned) is Some {
        let list = compact_tracks(c, scanned)->0;
        assert forall|i: int| 0 <= i < list.len() implies {
            &&& (#[trigger] list[i]).path == encode_utf8(c.entries[i].path)
            &&& list[i].title == c.entries[i].title
            &&& list[i].artist == c.entries[i].artist
            &&& list[i].album == c.entries[i].album
            &&& list[i].lyrics is None
            &&& c.entries[i].art_png_base64 is None ==> list[i].art_png is None
            &&& forall|art: Seq<u8>| #[trigger]
                base64(art) == c.entries[i].art_png_base64->0 && c.entries[i].art_png_base64 is Some
                    ==> list[i].art_png == Some(art)
        } by {
            assert forall|art: Seq<u8>| #[trigger]
                base64(art) == c.entries[i].art_png_base64->0
                    && c.entries[i].art_png_base64 is Some implies list[i].art_png == Some(art) by {
                lemma_unbase64(art);
            }
        }
        assert forall|i: int| 0 <= i < scanned.len() implies {
            &&& (#[trigger] c.entries[i]).path == lossy_text(scanned[i].path)
            &&& c.entries[i].size == scanned[i].size
            &&& c.entries[i].modified_unix_secs == scanned[i].modified_unix_secs
        } by {
            assert(still_true(decoded_entry(c.entries[i]), scanned[i]));
        }
    }
    if c.version == 1 && c.entries.len() == scanned.len() && (forall|i: int|
        0 <= i < scanned.len() ==> {
            &&& (#[trigger] c.entries[i]).path == lossy_text(scanned[i].path)
            &&& c.entries[i].size == scanned[i].size
            &&& c.entries[i].modified_unix_secs == scanned[i].modified_unix_secs
        }) {
        assert(compact_fresh(c, scanned));
    }
}

/// What is written of a playlist is, in order, for each file its path as text, its size and the
/// second of its last change as they were scanned, and the title, the artist, the album and the
/// art of the track that is at that path, the art as base64 text.
pub proof fn lemma_compact_written(
    playlist: Seq<u8>,
    scanned: Seq<ScannedView>,
    tracks: Seq<TrackView>,
    i: int,
)
    requires
        0 <= i < scanned.len(),
    ensures
        ({
            let c = compact_cache_for(playlist, scanned, tracks);
            let e = c.entries[i];
            let t = tracks[position_of(tracks, scanned[i].path)->0];
            &&& c.version == 1
            &&& c.playlist == lossy_text(playlist)
            &&& c.entries.len() == scanned.len()
            &&& e.path == lossy_text(scanned[i].path)
            &&& e.size == scanned[i].size
            &&& e.modified_unix_secs == scanned[i].modified_unix_secs
            &&& e.title == t.title
            &&& e.artist == t.artist
            &&& e.album == t.album
            &&& t.art_png is None ==> e.art_png_base64 is None
            &&& t.art_png matches Some(art) ==> e.art_png_base64 == Some(base64(art))
        }),
{
}

/// The cache of one start is taken at the next if and only if the same files are found, each
/// with the size and the second of the last change that it had.
pub proof fn lemma_compact_rescan(
    playlist: Seq<u8>,
    scanned: Seq<ScannedView>,
    tracks: Seq<TrackView>,
    later: Seq<ScannedView>,
)
    ensures
        compact_tracks(compact_cache_for(playlist, scanned, tracks), later) is Some <==> {
            &&& later.len() == scanned.len()
            &&& forall|i: int|
                0 <= i < later.len() ==> {
                    &&& lossy_text((#[trigger] later[i]).path) == lossy_text(scanned[i].path)
                    &&& later[i].size == scanned[i].size
                    &&& later[i].modified_unix_secs == scanned[i].modified_unix_secs
                }
        },
{
    let cache = compact_cache_for(playlist, scanned, tracks);
    lemma_compact_taken(cache, later);
    if later.len() == scanned.len() && (forall|i: int|
        0 <= i < later.len() ==> {
            &&& lossy_text((#[trigger] later[i]).path) == lossy_text(scanned[i].path)
            &&& later[i].size == scanned[i].size
            &&& later[i].modified_unix_secs == scanned[i].modified_unix_secs
        }) {
        assert forall|i: int| 0 <= i < later.len() implies {
            &&& (#[trigger] cache.entries[i]).path == lossy_text(later[i].path)
            &&& cache.entries[i].size == later[i].size
            &&& cache.entries[i].modified_unix_secs == later[i].modified_unix_secs
        } by {
            assert(lossy_text(later[i].path) == lossy_text(scanned[i].path));
        }
    }
    if compact_tracks(cache, later) is Some {
        assert forall|i: int| 0 <= i < later.len() implies {
            &&& lossy_text((#[trigger] later[i]).path) == lossy_text(scanned[i].path)
            &&& later[i].size == scanned[i].size
            &&& later[i].modified_unix_secs == scanned[i].modified_unix_secs
        } by {
            assert(cache.entries[i].path == lossy_text(later[i].path));
        }
    }
}

/// What is stored of a playlist stands for what its fields hold.
pub proof fn lemma_compact_views(c: CompactCache, e: CompactEntry)
    ensures
        c@.version == c.version,
        c@.playlist == c.playlist@,
        c@.entries.len() == c.entries@.len(),
        forall|i: int| 0 <= i < c.entries@.len() ==> #[trigger] c@.entries[i] == c.entries@[i]@,
        e@.path == e.path@,
        e@.size == e.size,
        e@.modified_unix_secs == e.modified_unix_secs,
        e.title matches Some(v) ==> e@.title == Some(v@),
        e.title is None ==> e@.title is None,
        e.artist matches Some(v) ==> e@.artist == Some(v@),
        e.artist is None ==> e@.artist is None,
        e.album matches Some(v) ==> e@.album == Some(v@),
        e.album is None ==> e@.album is None,
        e.art_png_base64 matches Some(v) ==> e@.art_png_base64 == Some(v@),
        e.art_png_base64 is None ==> e@.art_png_base64 is None,
{
}

/// Of a tag, the title is kept as the title, the artist as the artist and the album as the
/// album, each without white space around it, and none where nothing is left of it. Each rests
/// on the frame of that name alone. No lyrics are kept, and the art is the one that is given. Of
/// a file without a tag nothing is kept.
pub proof fn lemma_compact_tag_kept(tag: TagView, other: TagView, art: Option<Seq<u8>>)
    ensures
        ({
            let m = compact_meta(Some(tag), art);
            let o = compact_meta(Some(other), art);
            &&& tag.title matches Some(v) ==> (if trimmed(v).len() > 0 {
                m.title == Some(trimmed(v))
            } else {
                m.title is None
            })
            &&& tag.artist matches Some(v) ==> (if trimmed(v).len() > 0 {
                m.artist == Some(trimmed(v))
            } else {
                m.artist is None
            })
            &&& tag.album matches Some(v) ==> (if trimmed(v).len() > 0 {
                m.album == Some(trimmed(v))
            } else {
                m.album is None
            })
            &&& tag.title is None ==> m.title is None
            &&& tag.artist is None ==> m.artist is None
            &&& tag.album is None ==> m.album is None
            &&& tag.title == other.title ==> m.title == o.title
            &&& tag.artist == other.artist ==> m.artist == o.artist
            &&& tag.album == other.album ==> m.album == o.album
            &&& m.lyrics is None
            &&& m.art_png == art
        }),
        compact_meta(None, art) == (MetaView {
            title: None,
            artist: None,
            album: None,
            lyrics: None,
            art_png: None,
        }),
{
}

/// Every scanned file gives one track, at its path, with what is kept of its own tag and its own
/// art.
pub proof fn lemma_compact_made(
    scanned: Seq<ScannedView>,
    tags: Seq<Option<TagView>>,
    arts: Seq<Option<Seq<u8>>>,
    i: int,
)
    requires
        0 <= i < scanned.len(),
    ensures
        compact_scanned(scanned, tags, arts).len() == scanned.len(),
        ({
            let t = compact_scanned(scanned, tags, arts)[i];
            let m = compact_meta(tags[i], arts[i]);
            &&& t.path == scanned[i].path
            &&& t.title == m.title
            &&& t.artist == m.artist
            &&& t.album == m.album
            &&& t.lyrics == m.lyrics
            &&& t.art_png == m.art_png
        }),
{
}

/// The art of a tag is what is made of the first picture that is marked as the front cover, and
/// else of the first of all: of its middle square, scaled to a side of 400 pixels. A picture
/// that cannot be read gives none, and so does a tag without pictures. A list of art stands for
/// its art, one by one.
pub proof fn lemma_compact_art(
    tag: TagView,
    i: int,
    art: Option<Seq<u8>>,
    list: Seq<Option<Vec<u8>>>,
)
    requires
        0 <= i <= tag.pictures.len(),
        forall|k: int| 0 <= k < i ==> !(#[trigger] tag.pictures[k]).front_cover,
        i < tag.pictures.len() ==> tag.pictures[i].front_cover,
        possible_art(tag, art),
    ensures
        tag.pictures.len() == 0 ==> art is None,
        tag.pictures.len() > 0 ==> {
            let data = tag.pictures[if i < tag.pictures.len() {
                i
            } else {
                0
            }].data;
            &&& png_of_image(data) is Some ==> art is Some
            &&& size_of_image(data) is None ==> art is None
            &&& size_of_image(data) matches Some((width, height)) ==> {
                let side = if width <= height {
                    width as int
                } else {
                    height as int
                };
                &&& width > 0 && height > 0 && art is Some ==> png_of_image(data) is Some
                &&& art matches Some(png) ==> {
                    &&& size_of_image(png) == Some((400u32, 400u32))
                    &&& can_be_scaled(
                        data,
                        (width - side) / 2,
                        (height - side) / 2,
                        side,
                        400,
                        png,
                    )
                }
                &&& side == 400 ==> art == png_of_part(
                    data,
                    (width - side) / 2,
                    (height - side) / 2,
                    400,
                )
            }
        },
        art_views(list).len() == list.len(),
        forall|k: int|
            0 <= k < list.len() ==> (#[trigger] art_views(list)[k] is None <==> list[k] is None),
        forall|k: int|
            0 <= k < list.len() && list[k] is Some ==> #[trigger] art_views(list)[k] == Some(
                list[k]->0@,
            ),
{
    lemma_picture_kept(tag, i);
}

/// The compact cache of a playlist is in the player's own directory among the caches, under the
/// name of the playlist with the ending `.json`.
pub proof fn lemma_compact_kept_file(path: Seq<u8>, canonical: Option<FilePath>, dirs: SystemDirs)
    ensures
        parts(compact_cache_file(path, canonical, dirs)) == parts(root_of(dirs)).push(
            Part::Name(encode_utf8("bu-rust-mp3"@)),
        ).push(Part::Name(encode_utf8(cache_key(path, canonical) + ".json"@))),
{
    reveal_strlit(".json");
    let key = cache_key(path, canonical);
    lemma_hex_chars(encode_utf8(lossy_text(known_path(path, canonical))));
    lemma_kept_files(path, canonical, dirs);
    let name = key + ".json"@;
    assert forall|i: int| 0 <= i < name.len() implies #[trigger] name[i] != '/' by {
        if i < key.len() {
            assert(name[i] == key[i]);
        }
    }
    lemma_ascii_name(name);
    lemma_joined(app_dir(dirs), encode_utf8(name));
}

/// What a key does, and what is left to do then. A key that is not named does nothing.
pub proof fn lemma_compact_keys(s: PlayerView, key: KeyEvent, now: int)
    ensures
        ({
            let r = compact_key_done(s, key, now);
            let action = compact_key_action(s, key);
            let last = s.current >= s.tracks.len() - 1;
            &&& key.code matches KeyCode::Char(c) ==> {
                &&& c == 'q' ==> r == s && action is Quit
                &&& c == ' ' ==> r.paused == !s.paused && played(r, now) == played(s, now) && r
                    == pause_toggled(s, now) && action is SetPaused
                &&& c == 'n' && !last ==> r == (PlayerView { current: s.current + 1, ..s })
                    && action is LoadTrack
                &&& c == 'p' && s.current > 0 ==> r == (PlayerView { current: s.current - 1, ..s })
                    && action is LoadTrack
                &&& c == 't' ==> r == resorted(s, SortKey::Title, s.sort_reverse, seq![])
                &&& c == 'a' ==> r == resorted(s, SortKey::Artist, s.sort_reverse, seq![])
                &&& c == 'l' ==> r == resorted(s, SortKey::Album, s.sort_reverse, seq![])
                &&& c == 's' ==> r == resorted(s, SortKey::Path, s.sort_reverse, seq![])
                &&& c == 'r' ==> r == s && action is Reverse
                &&& c == 'k' ==> r == (PlayerView { force_kitty: !s.force_kitty, ..s })
                &&& c == '1' && key.control ==> r == (PlayerView { ui_mode: UiMode::Playlist, ..s })
                &&& c == '2' && key.control ==> r == (PlayerView {
                    ui_mode: UiMode::NowPlaying,
                    ..s
                })
                &&& c == 'n' && last || c == 'p' && s.current <= 0 || (c == '1' || c == '2')
                    && !key.control ==> r == s
                &&& !seq!['q', ' ', 'n', 'p', 't', 'a', 'l', 's', 'r', 'k', '1', '2'].contains(c)
                    ==> r == s
                &&& action is Nothing <==> !(c == 'q' || c == ' ' || c == 'r' || c == 'n' && !last
                    || c == 'p' && s.current > 0)
            }
            &&& key.code == KeyCode::F(1) ==> r == (PlayerView { ui_mode: UiMode::Playlist, ..s })
            &&& key.code == KeyCode::F(2) ==> r == (PlayerView { ui_mode: UiMode::NowPlaying, ..s })
            &&& !(key.code is Char) && key.code != KeyCode::F(1) && key.code != KeyCode::F(2) ==> r
                == s
            &&& !(key.code is Char) ==> action is Nothing
        }),
{
    let all = seq!['q', ' ', 'n', 'p', 't', 'a', 'l', 's', 'r', 'k', '1', '2'];
    assert(all[0] == 'q' && all[1] == ' ' && all[2] == 'n' && all[3] == 'p' && all[4] == 't');
    assert(all[5] == 'a' && all[6] == 'l' && all[7] == 's' && all[8] == 'r' && all[9] == 'k');
    assert(all[10] == '1' && all[11] == '2');
}

/// The art of a list of files is the art of each of them: what can be made of its own tag, and
/// none for a file without a tag.
pub proof fn lemma_possible_arts(tags: Seq<Option<TagView>>, arts: Seq<Option<Seq<u8>>>, i: int)
    requires
        possible_arts(tags, arts),
    ensures
        arts.len() == tags.len(),
        0 <= i < tags.len() && tags[i] is None ==> arts[i] is None,
        0 <= i < tags.len() && tags[i] is Some ==> possible_art(tags[i]->0, arts[i]),
{
    if 0 <= i < tags.len() {
        let art = arts[i];
    }
}

/// The middle square of an image lies inside the image.
pub proof fn lemma_middle_inside(data: Seq<u8>, width: u32, height: u32)
    requires
        size_of_image(data) == Some((width, height)),
    ensures
        lies_inside(data, middle_square(width, height)),
        has_pixels(data) <==> width > 0 && height > 0,
{
}

} // verus!

//! Tags: what is taken from them, and how tracks are sorted by them.

use vstd::prelude::*;
use vstd::relations::sorted_by;
use vstd::string::*;

use crate::models::{
    opt_bytes, opt_text, scanned_views, track_views, MetaView, PictureView, ScannedTrack,
    ScannedView, SortKey, TagData, TagView, Track, TrackMeta, TrackView,
};
use crate::order::{
    agree, arrange, as_numbers, lemma_all_numbers, lemma_order_places, lemma_stable_order,
    lemma_stable_order_distinct, lemma_stable_order_unique, lemma_text_order, numbers, path_less,
    pick, rank_less, rank_views, sort_numbers, stable_order, stays_before, text_less, Rank,
    RankValue,
};
use crate::path::{file_name_text, parts, FilePath};
use crate::text::{
    chars_of, is_space, lemma_lower_char, lemma_trim_padding, lemma_trimmed, lower, lower_char,
    same_letter, to_lower, trim, trimmed,
};

verus! {

/// The text of a borrowed string that may be there.
pub open spec fn opt_str(text: Option<&str>) -> Option<Seq<char>> {
    match text {
        Some(t) => Some(t@),
        None => None,
    }
}

/// The text without white space around it, provided that anything is left.
pub open spec fn cleaned(value: Option<Seq<char>>) -> Option<Seq<char>> {
    match value {
        Some(v) => if trimmed(v).len() == 0 {
            None
        } else {
            Some(trimmed(v))
        },
        None => None,
    }
}

/// Takes the white space off a text, and drops a text of which nothing is left.
pub fn clean_opt(value: Option<&str>) -> (clean: Option<String>)
    ensures
        opt_text(clean) == cleaned(opt_str(value)),
{
    match value {
        Some(value) => {
            let v = trim(value);
            if v.as_str().is_empty() {
                None
            } else {
                Some(v)
            }
        },
        None => None,
    }
}

/// The file name of `path` in small letters, or nothing where it is not text.
pub open spec fn name_rank(path: Seq<u8>) -> Seq<char> {
    match file_name_text(path) {
        Some(name) => lower(name),
        None => seq![],
    }
}

/// What a track is sorted by where it is sorted by a text of its tag: that text, or the file
/// name where the tag has none.
pub open spec fn meta_rank(value: Option<Seq<char>>, path: Seq<u8>) -> Seq<char> {
    match cleaned(value) {
        Some(v) => lower(v),
        None => name_rank(path),
    }
}

/// The file name of `path` in small letters.
fn name_key(path: &FilePath) -> (key: String)
    ensures
        key@ == name_rank(path@),
{
    match path.name_text() {
        Some(name) => to_lower(name.as_str()),
        None => String::new(),
    }
}

/// What a track is sorted by where it is sorted by `value`.
pub fn meta_key(value: Option<&str>, path: &FilePath) -> (key: String)
    ensures
        key@ == meta_rank(opt_str(value), path@),
{
    match clean_opt(value) {
        Some(v) => to_lower(v.as_str()),
        None => name_key(path),
    }
}

/// What the track `t`, last changed at `modified`, is sorted by.
pub open spec fn track_rank(t: TrackView, sort: SortKey, modified: int) -> Rank {
    match sort {
        SortKey::Path => Rank::Path(parts(t.path)),
        SortKey::Name => Rank::Text(name_rank(t.path)),
        SortKey::Mtime => Rank::Time(modified),
        SortKey::Title => Rank::Text(meta_rank(t.title, t.path)),
        SortKey::Artist => Rank::Text(meta_rank(t.artist, t.path)),
        SortKey::Album => Rank::Text(meta_rank(t.album, t.path)),
    }
}

/// What each of `tracks` is sorted by.
pub open spec fn track_ranks(tracks: Seq<TrackView>, sort: SortKey, modified: Seq<int>) -> Seq<
    Rank,
> {
    Seq::new(tracks.len(), |i: int| track_rank(tracks[i], sort, modified[i]))
}

/// `tracks` in stable order, or in the reverse of it.
pub open spec fn sorted_tracks(
    tracks: Seq<TrackView>,
    sort: SortKey,
    reverse: bool,
    modified: Seq<int>,
) -> Seq<TrackView> {
    let sorted = pick(tracks, stable_order(track_ranks(tracks, sort, modified)));
    if reverse {
        sorted.reverse()
    } else {
        sorted
    }
}

/// For each place of the sorted list, where its track stood before.
pub open spec fn sorted_from(
    tracks: Seq<TrackView>,
    sort: SortKey,
    reverse: bool,
    modified: Seq<int>,
) -> Seq<int> {
    let order = stable_order(track_ranks(tracks, sort, modified));
    if reverse {
        order.reverse()
    } else {
        order
    }
}

/// Sorting only moves tracks: every track of the list stands in the sorted list at one place.
/// There the lower rank comes first and equal ranks stay as they were; the reversed list is the
/// other way round, equal ranks too.
pub proof fn lemma_sort_moves(
    tracks: Seq<TrackView>,
    sort: SortKey,
    reverse: bool,
    modified: Seq<int>,
)
    ensures
        ({
            let from = sorted_from(tracks, sort, reverse, modified);
            let ranks = track_ranks(tracks, sort, modified);
            let sorted = sorted_tracks(tracks, sort, reverse, modified);
            &&& sorted.len() == tracks.len()
            &&& from.len() == tracks.len()
            &&& from.no_duplicates()
            &&& forall|i: int|
                0 <= i < from.len() ==> 0 <= #[trigger] from[i] < tracks.len() && sorted[i]
                    == tracks[from[i]]
            &&& forall|k: int| 0 <= k < tracks.len() ==> #[trigger] from.contains(k)
            &&& forall|i: int, j: int|
                #![trigger from[i], from[j]]
                0 <= i < j < from.len() ==> if reverse {
                    stays_before(ranks, from[j], from[i])
                } else {
                    stays_before(ranks, from[i], from[j])
                }
        }),
{
    let ranks = track_ranks(tracks, sort, modified);
    let order = stable_order(ranks);
    let from = sorted_from(tracks, sort, reverse, modified);
    lemma_stable_order(ranks);
    lemma_stable_order_distinct(ranks);
    assert(from.no_duplicates());
    assert forall|i: int| 0 <= i < from.len() implies 0 <= #[trigger] from[i] < from.len() by {
        if reverse {
            assert(from[i] == order[order.len() - 1 - i]);
        }
    }
    lemma_all_numbers(from);
    assert forall|i: int, j: int|
        #![trigger from[i], from[j]]
        0 <= i < j < from.len() implies if reverse {
        stays_before(ranks, from[j], from[i])
    } else {
        stays_before(ranks, from[i], from[j])
    } by {
        if reverse {
            assert(stays_before(ranks, order[order.len() - 1 - j], order[order.len() - 1 - i]));
        } else {
            assert(stays_before(ranks, order[i], order[j]));
        }
    }
}

/// Sorting keeps every track and brings in none.
pub proof fn lemma_sort_keeps(
    tracks: Seq<TrackView>,
    sort: SortKey,
    reverse: bool,
    modified: Seq<int>,
    t: TrackView,
)
    ensures
        sorted_tracks(tracks, sort, reverse, modified).contains(t) <==> tracks.contains(t),
{
    lemma_sort_moves(tracks, sort, reverse, modified);
    let from = sorted_from(tracks, sort, reverse, modified);
    let sorted = sorted_tracks(tracks, sort, reverse, modified);
    if sorted.contains(t) {
        let i = choose|i: int| 0 <= i < sorted.len() && sorted[i] == t;
        assert(tracks[from[i]] == t);
    }
    if tracks.contains(t) {
        let k = choose|k: int| 0 <= k < tracks.len() && tracks[k] == t;
        assert(from.contains(k));
        let i = choose|i: int| 0 <= i < from.len() && from[i] == k;
        assert(sorted[i] == t);
    }
}

/// When the files of the sorted tracks were last changed.
pub open spec fn sorted_times(
    tracks: Seq<TrackView>,
    sort: SortKey,
    reverse: bool,
    modified: Seq<int>,
) -> Seq<int> {
    pick(modified, sorted_from(tracks, sort, reverse, modified))
}

/// A list that is sorted stays as it is when it is sorted again.
pub proof fn lemma_sort_again(tracks: Seq<TrackView>, sort: SortKey, modified: Seq<int>)
    ensures
        ({
            let sorted = sorted_tracks(tracks, sort, false, modified);
            sorted_tracks(sorted, sort, false, sorted_times(tracks, sort, false, modified))
                == sorted
        }),
{
    lemma_sort_moves(tracks, sort, false, modified);
    let n = tracks.len();
    let from = sorted_from(tracks, sort, false, modified);
    let ranks = track_ranks(tracks, sort, modified);
    let sorted = sorted_tracks(tracks, sort, false, modified);
    let again = track_ranks(sorted, sort, sorted_times(tracks, sort, false, modified));
    let order = numbers(n);
    assert forall|i: int, j: int|
        0 <= i < j < order.len() implies #[trigger] stays_before(again, order[i], order[j]) by {
        assert(stays_before(ranks, from[i], from[j]));
    }
    let leq = |p: int, q: int| stays_before(again, p, q);
    assert(sorted_by(order, leq)) by {
        assert forall|i: int, j: int| 0 <= i < j < order.len() implies #[trigger] leq(
            order[i],
            order[j],
        ) by {
            assert(stays_before(again, order[i], order[j]));
        }
    }
    lemma_stable_order_unique(again, order);
    assert(pick(sorted, order) =~= sorted);
}

/// Where no two tracks have the same rank, a list can be sorted in either direction first: what
/// it is sorted in last is all that counts. So reversing twice gives the list back.
pub proof fn lemma_sort_direction(
    tracks: Seq<TrackView>,
    sort: SortKey,
    first: bool,
    last: bool,
    modified: Seq<int>,
)
    requires
        track_ranks(tracks, sort, modified).no_duplicates(),
    ensures
        sorted_tracks(
            sorted_tracks(tracks, sort, first, modified),
            sort,
            last,
            sorted_times(tracks, sort, first, modified),
        ) == sorted_tracks(tracks, sort, last, modified),
{
    let ranks = track_ranks(tracks, sort, modified);
    let n = tracks.len() as int;
    lemma_sort_moves(tracks, sort, first, modified);
    lemma_sort_moves(tracks, sort, false, modified);
    lemma_sort_again(tracks, sort, modified);
    let from = sorted_from(tracks, sort, first, modified);
    let up = sorted_from(tracks, sort, false, modified);
    let sorted = sorted_tracks(tracks, sort, first, modified);
    let again = track_ranks(sorted, sort, sorted_times(tracks, sort, first, modified));
    let order = if first {
        numbers(tracks.len()).reverse()
    } else {
        numbers(tracks.len())
    };
    lemma_all_numbers(order);
    let leq = |p: int, q: int| stays_before(again, p, q);
    assert(sorted_by(order, leq)) by {
        assert forall|i: int, j: int| 0 <= i < j < order.len() implies #[trigger] leq(
            order[i],
            order[j],
        ) by {
            assert(stays_before(ranks, up[i], up[j]));
            if first {
                assert(from[n - 1 - i] == up[i]);
                assert(from[n - 1 - j] == up[j]);
                assert(ranks[up[i]] != ranks[up[j]]);
            }
        }
    }
    lemma_stable_order_unique(again, order);
    assert(pick(sorted, order) =~= sorted_tracks(tracks, sort, false, modified));
}

/// A list of times as integers.
pub open spec fn times(list: Seq<i128>) -> Seq<int> {
    list.map_values(|t: i128| t as int)
}

/// What the track `t`, last changed at `modified`, is sorted by.
fn rank_of(t: &Track, sort: SortKey, modified: i128) -> (rank: RankValue)
    ensures
        rank@ == track_rank(t@, sort, modified as int),
{
    match sort {
        SortKey::Path => RankValue::Path(t.path.path_parts()),
        SortKey::Name => RankValue::Text(chars_of(name_key(&t.path).as_str())),
        SortKey::Mtime => RankValue::Time(modified),
        SortKey::Title => RankValue::Text(chars_of(meta_key(borrow(&t.title), &t.path).as_str())),
        SortKey::Artist => RankValue::Text(chars_of(meta_key(borrow(&t.artist), &t.path).as_str())),
        SortKey::Album => RankValue::Text(chars_of(meta_key(borrow(&t.album), &t.path).as_str())),
    }
}

/// A borrowed form of the text that may be there.
pub fn borrow(text: &Option<String>) -> (borrowed: Option<&str>)
    ensures
        opt_str(borrowed) == opt_text(*text),
{
    match text {
        Some(t) => Some(t.as_str()),
        None => None,
    }
}

/// Sorts `tracks`. `modified` holds, for each track, when its file was last changed, in
/// nanoseconds since the Unix epoch; it is read where that is what the tracks are sorted by.
pub fn sort_tracks(tracks: &mut Vec<Track>, sort: SortKey, reverse: bool, modified: &Vec<i128>)
    requires
        sort == SortKey::Mtime ==> modified@.len() == old(tracks)@.len(),
    ensures
        track_views(final(tracks)@) == sorted_tracks(
            track_views(old(tracks)@),
            sort,
            reverse,
            times(modified@),
        ),
{
    let ghost views = track_views(tracks@);
    let mut ranks: Vec<RankValue> = Vec::new();
    let mut i: usize = 0;
    while i < tracks.len()
        invariant
            i <= tracks@.len(),
            ranks@.len() == i,
            views == track_views(tracks@),
            sort == SortKey::Mtime ==> modified@.len() == tracks@.len(),
            forall|k: int|
                0 <= k < i ==> (#[trigger] ranks@[k])@ == track_rank(
                    views[k],
                    sort,
                    times(modified@)[k],
                ),
        decreases tracks@.len() - i,
    {
        let time: i128 = if let SortKey::Mtime = sort {
            modified[i]
        } else {
            0
        };
        ranks.push(rank_of(&tracks[i], sort, time));
        i = i + 1;
    }
    let ghost want = track_ranks(views, sort, times(modified@));
    assert(rank_views(ranks@) =~= want);
    let order = sort_numbers(&ranks);
    let mut items: Vec<Track> = Vec::new();
    std::mem::swap(&mut items, tracks);
    let ghost held = items@;
    let mut sorted = arrange(items, &order, reverse);
    proof {
        let picked = pick(held, as_numbers(order@));
        assert(track_views(picked) =~= pick(views, as_numbers(order@))) by {
            assert forall|k: int| 0 <= k < order@.len() implies track_views(picked)[k] == pick(
                views,
                as_numbers(order@),
            )[k] by {
                assert(order@[k] < held.len());
            }
        }
        assert(track_views(picked.reverse()) =~= track_views(picked).reverse());
    }
    std::mem::swap(&mut sorted, tracks);
}

/// How the interface names a sort key.
pub open spec fn key_label(key: SortKey) -> Seq<char> {
    match key {
        SortKey::Path => "path"@,
        SortKey::Name => "name"@,
        SortKey::Mtime => "mtime"@,
        SortKey::Title => "title"@,
        SortKey::Artist => "artist"@,
        SortKey::Album => "album"@,
    }
}

/// How the interface names a sort key.
pub fn sort_key_label(key: SortKey) -> (label: &'static str)
    ensures
        label@ == key_label(key),
{
    match key {
        SortKey::Path => "path",
        SortKey::Name => "name",
        SortKey::Mtime => "mtime",
        SortKey::Title => "title",
        SortKey::Artist => "artist",
        SortKey::Album => "album",
    }
}

/// What the crate `image` makes of an image file: the same image as a PNG file, if it can read
/// the one and write the other.
pub uninterp spec fn png_of_image(data: Seq<u8>) -> Option<Seq<u8>>;

/// Wraps `image::load_from_memory` and `DynamicImage::write_to`: it claims that what comes out
/// depends on the bytes of the file alone.
#[verifier::external_body]
fn image_to_png(data: &[u8]) -> (png: Option<Vec<u8>>)
    ensures
        opt_bytes(png) == png_of_image(data@),
{
    let image = image::load_from_memory(data).ok()?;
    let mut png: Vec<u8> = Vec::new();
    match image.write_to(&mut std::io::Cursor::new(&mut png), image::ImageFormat::Png) {
        Ok(()) => Some(png),
        Err(_) => None,
    }
}

/// How wide and how high an image is, as the crate `image` reads it, if it can.
pub uninterp spec fn size_of_image(data: Seq<u8>) -> Option<(u32, u32)>;

/// Wraps `image::load_from_memory` and `DynamicImage::width` and `height`: it claims that the
/// size depends on the bytes of the file alone, and that a file that can be written as a PNG
/// file is one that can be read, and of an image that is not empty.
#[verifier::external_body]
pub(crate) fn image_size(data: &[u8]) -> (size: Option<(u32, u32)>)
    ensures
        size == size_of_image(data@),
        size is None ==> png_of_image(data@) is None,
        size matches Some((width, height)) ==> (width == 0 || height == 0 ==> png_of_image(
            data@,
        ) is None),
{
    match image::load_from_memory(data) {
        Ok(image) => Some((image.width(), image.height())),
        Err(_) => None,
    }
}

/// The first picture of the list that is marked as the front cover, from position `from` on.
pub open spec fn front_cover(pictures: Seq<PictureView>, from: int) -> Option<PictureView>
    decreases pictures.len() - from,
{
    if from < 0 || from >= pictures.len() {
        None
    } else if pictures[from].front_cover {
        Some(pictures[from])
    } else {
        front_cover(pictures, from + 1)
    }
}

/// The picture that is shown for a tag: the front cover, or else the first picture.
pub open spec fn chosen_picture(pictures: Seq<PictureView>) -> Option<PictureView> {
    match front_cover(pictures, 0) {
        Some(picture) => Some(picture),
        None => if pictures.len() > 0 {
            Some(pictures[0])
        } else {
            None
        },
    }
}

/// The art of a tag as a PNG file: the chosen picture, if it can be read.
pub open spec fn cover_png(pictures: Seq<PictureView>) -> Option<Seq<u8>> {
    match chosen_picture(pictures) {
        Some(picture) => png_of_image(picture.data),
        None => None,
    }
}

/// The position of the picture that is shown for a tag: the front cover, or else the first.
pub fn choose_picture(tag: &TagData) -> (chosen: Option<usize>)
    ensures
        chosen is Some <==> chosen_picture(tag@.pictures) is Some,
        chosen matches Some(i) ==> {
            &&& i < tag.pictures@.len()
            &&& tag.pictures@[i as int]@ == chosen_picture(tag@.pictures)->0
        },
{
    let mut i: usize = 0;
    while i < tag.pictures.len()
        invariant
            i <= tag.pictures@.len(),
            front_cover(tag@.pictures, 0) == front_cover(tag@.pictures, i as int),
        decreases tag.pictures@.len() - i,
    {
        assert(tag@.pictures[i as int] == tag.pictures@[i as int]@);
        if tag.pictures[i].front_cover {
            return Some(i);
        }
        i = i + 1;
    }
    if tag.pictures.len() > 0 {
        assert(tag@.pictures[0] == tag.pictures@[0]@);
        Some(0)
    } else {
        None
    }
}

/// The art of a tag as a PNG file.
pub fn extract_cover_png(tag: &TagData) -> (png: Option<Vec<u8>>)
    ensures
        opt_bytes(png) == cover_png(tag@.pictures),
{
    match choose_picture(tag) {
        Some(i) => image_to_png(tag.pictures[i].data.as_slice()),
        None => None,
    }
}

/// The first of the texts of which something is left when the white space around it is gone,
/// from position `from` on.
pub open spec fn first_clean(list: Seq<Seq<char>>, from: int) -> Option<Seq<char>>
    decreases list.len() - from,
{
    if from < 0 || from >= list.len() {
        None
    } else if cleaned(Some(list[from])) is Some {
        cleaned(Some(list[from]))
    } else {
        first_clean(list, from + 1)
    }
}

/// The lyrics of a tag: its first lyrics frame that is not blank.
pub fn extract_lyrics(tag: &TagData) -> (lyrics: Option<String>)
    ensures
        opt_text(lyrics) == first_clean(tag@.lyrics, 0),
{
    let mut i: usize = 0;
    while i < tag.lyrics.len()
        invariant
            i <= tag.lyrics@.len(),
            first_clean(tag@.lyrics, 0) == first_clean(tag@.lyrics, i as int),
        decreases tag.lyrics@.len() - i,
    {
        assert(tag@.lyrics[i as int] == tag.lyrics@[i as int]@);
        let clean = clean_opt(Some(tag.lyrics[i].as_str()));
        if clean.is_some() {
            return clean;
        }
        i = i + 1;
    }
    None
}

/// What is kept of the tag of a file; of a file without a readable tag, nothing.
pub open spec fn meta_of(tag: Option<TagView>) -> MetaView {
    match tag {
        Some(tag) => MetaView {
            title: cleaned(tag.title),
            artist: cleaned(tag.artist),
            album: cleaned(tag.album),
            lyrics: first_clean(tag.lyrics, 0),
            art_png: cover_png(tag.pictures),
        },
        None => MetaView { title: None, artist: None, album: None, lyrics: None, art_png: None },
    }
}

/// The tag that may be there.
pub open spec fn opt_tag(tag: Option<TagData>) -> Option<TagView> {
    match tag {
        Some(t) => Some(t@),
        None => None,
    }
}

/// What is kept of the tag of a file.
pub fn read_meta(tag: &Option<TagData>) -> (meta: TrackMeta)
    ensures
        meta@ == meta_of(opt_tag(*tag)),
{
    match tag {
        Some(tag) => TrackMeta {
            title: clean_opt(borrow(&tag.title)),
            artist: clean_opt(borrow(&tag.artist)),
            album: clean_opt(borrow(&tag.album)),
            lyrics: extract_lyrics(tag),
            art_png: extract_cover_png(tag),
        },
        None => TrackMeta { title: None, artist: None, album: None, lyrics: None, art_png: None },
    }
}

/// The track of the file at `path` with this tag.
pub open spec fn track_of(path: Seq<u8>, meta: MetaView) -> TrackView {
    TrackView {
        path,
        title: meta.title,
        artist: meta.artist,
        album: meta.album,
        lyrics: meta.lyrics,
        art_png: meta.art_png,
    }
}

/// The tags that a list stands for.
pub open spec fn tag_views(tags: Seq<Option<TagData>>) -> Seq<Option<TagView>> {
    tags.map_values(|t: Option<TagData>| opt_tag(t))
}

/// The tracks of the scanned files, as they were scanned.
pub open spec fn scanned_tracks(
    scanned: Seq<ScannedView>,
    tags: Seq<Option<TagView>>,
) -> Seq<TrackView> {
    Seq::new(scanned.len(), |i: int| track_of(scanned[i].path, meta_of(tags[i])))
}

/// Makes the tracks of the scanned files and sorts them. `tags` holds what was read of each
/// file, and `modified` when it was last changed.
pub fn build_tracks_from_scan(
    scanned: &Vec<ScannedTrack>,
    tags: &Vec<Option<TagData>>,
    sort: SortKey,
    reverse: bool,
    modified: &Vec<i128>,
) -> (tracks: Vec<Track>)
    requires
        tags@.len() == scanned@.len(),
        sort == SortKey::Mtime ==> modified@.len() == scanned@.len(),
    ensures
        track_views(tracks@) == sorted_tracks(
            scanned_tracks(scanned_views(scanned@), tag_views(tags@)),
            sort,
            reverse,
            times(modified@),
        ),
{
    let mut tracks: Vec<Track> = Vec::new();
    let ghost want = scanned_tracks(scanned_views(scanned@), tag_views(tags@));
    let mut i: usize = 0;
    while i < scanned.len()
        invariant
            i <= scanned@.len(),
            tags@.len() == scanned@.len(),
            want == scanned_tracks(scanned_views(scanned@), tag_views(tags@)),
            tracks@.len() == i,
            forall|k: int| 0 <= k < i ==> (#[trigger] tracks@[k])@ == want[k],
        decreases scanned@.len() - i,
    {
        let meta = read_meta(&tags[i]);
        tracks.push(
            Track {
                path: scanned[i].path.clone(),
                title: meta.title,
                artist: meta.artist,
                album: meta.album,
                lyrics: meta.lyrics,
                art_png: meta.art_png,
            },
        );
        i = i + 1;
    }
    assert(track_views(tracks@) =~= want);
    sort_tracks(&mut tracks, sort, reverse, modified);
    tracks
}

/// Where the track number `p` stands once the list is sorted.
pub open spec fn place(
    tracks: Seq<TrackView>,
    sort: SortKey,
    reverse: bool,
    modified: Seq<int>,
    p: int,
) -> int {
    sorted_from(tracks, sort, reverse, modified).index_of(p)
}

/// Every track has a place of its own in the sorted list, and stands there. Reversed, the list
/// is the same from the end.
pub proof fn lemma_places(
    tracks: Seq<TrackView>,
    sort: SortKey,
    reverse: bool,
    modified: Seq<int>,
    p: int,
    q: int,
)
    requires
        0 <= p < tracks.len(),
        0 <= q < tracks.len(),
    ensures
        ({
            let n = tracks.len();
            let sorted = sorted_tracks(tracks, sort, reverse, modified);
            let at = place(tracks, sort, reverse, modified, p);
            &&& sorted.len() == n
            &&& 0 <= at < n
            &&& sorted[at] == tracks[p]
            &&& p != q ==> at != place(tracks, sort, reverse, modified, q)
            &&& at == n - 1 - place(tracks, sort, !reverse, modified, p)
        }),
{
    lemma_sort_moves(tracks, sort, reverse, modified);
    lemma_sort_moves(tracks, sort, !reverse, modified);
    let n = tracks.len() as int;
    let from = sorted_from(tracks, sort, reverse, modified);
    let back = sorted_from(tracks, sort, !reverse, modified);
    assert(from.contains(p) && from.contains(q) && back.contains(p));
    assert(from =~= back.reverse());
    let i = place(tracks, sort, reverse, modified, p);
    let j = place(tracks, sort, !reverse, modified, p);
    assert(back[j] == p);
    assert(from[n - 1 - j] == p);
}

proof fn lemma_place_before(
    tracks: Seq<TrackView>,
    sort: SortKey,
    modified: Seq<int>,
    p: int,
    q: int,
)
    requires
        0 <= p < tracks.len(),
        0 <= q < tracks.len(),
    ensures
        ({
            let ranks = track_ranks(tracks, sort, modified);
            let before = place(tracks, sort, false, modified, p) < place(
                tracks,
                sort,
                false,
                modified,
                q,
            );
            &&& rank_less(ranks[p], ranks[q]) ==> before
            &&& ranks[p] == ranks[q] && p < q ==> before
        }),
{
    lemma_sort_moves(tracks, sort, false, modified);
    let from = sorted_from(tracks, sort, false, modified);
    assert(from.contains(p) && from.contains(q));
    let ranks = track_ranks(tracks, sort, modified);
    lemma_order_places(
        ranks,
        place(tracks, sort, false, modified, p),
        place(tracks, sort, false, modified, q),
    );
}

/// Sorted by time, of two tracks the one whose file was changed first stands first, and tracks
/// whose files were changed at the same time stay as they were.
pub proof fn lemma_sort_by_time(tracks: Seq<TrackView>, modified: Seq<int>, p: int, q: int)
    requires
        0 <= p < tracks.len(),
        0 <= q < tracks.len(),
        modified[p] < modified[q] || (modified[p] == modified[q] && p < q),
    ensures
        place(tracks, SortKey::Mtime, false, modified, p) < place(
            tracks,
            SortKey::Mtime,
            false,
            modified,
            q,
        ),
{
    lemma_place_before(tracks, SortKey::Mtime, modified, p, q);
}

/// Sorted by path, of two tracks the one whose path comes first stands first, and tracks at the
/// same path stay as they were. Nothing else of the tracks counts.
pub proof fn lemma_sort_by_path(tracks: Seq<TrackView>, modified: Seq<int>, p: int, q: int)
    requires
        0 <= p < tracks.len(),
        0 <= q < tracks.len(),
        path_less(parts(tracks[p].path), parts(tracks[q].path)) || (parts(tracks[p].path) == parts(
            tracks[q].path,
        ) && p < q),
    ensures
        place(tracks, SortKey::Path, false, modified, p) < place(
            tracks,
            SortKey::Path,
            false,
            modified,
            q,
        ),
{
    lemma_place_before(tracks, SortKey::Path, modified, p, q);
}

/// Whether `a` comes before `b`, capital and small letters being the same: `k` is where they
/// first differ.
pub open spec fn spelled_before(a: Seq<char>, b: Seq<char>, k: int) -> bool {
    &&& 0 <= k <= a.len()
    &&& k < b.len()
    &&& forall|i: int| 0 <= i < k ==> same_letter(#[trigger] a[i], b[i])
    &&& k == a.len() || lower_char(a[k]) < lower_char(b[k])
}

/// Whether `a` and `b` are the same text, in capital or small letters.
pub open spec fn spelled_alike(a: Seq<char>, b: Seq<char>) -> bool {
    &&& a.len() == b.len()
    &&& forall|i: int| 0 <= i < a.len() ==> same_letter(#[trigger] a[i], b[i])
}

proof fn lemma_spelled(a: Seq<char>, b: Seq<char>, k: int)
    ensures
        spelled_before(a, b, k) ==> text_less(lower(a), lower(b)),
        spelled_alike(a, b) ==> lower(a) == lower(b),
{
    let x = lower(a);
    let y = lower(b);
    if spelled_before(a, b, k) {
        assert forall|i: int| 0 <= i < k implies #[trigger] x[i] == y[i] by {
            assert(same_letter(a[i], b[i]));
            lemma_lower_char(a[i], b[i]);
        }
        assert(agree(x, y, k));
        lemma_text_order(x, y);
    }
    if spelled_alike(a, b) {
        assert forall|i: int| 0 <= i < a.len() implies x[i] == y[i] by {
            assert(same_letter(a[i], b[i]));
            lemma_lower_char(a[i], b[i]);
        }
        assert(x =~= y);
    }
}

/// Whether `text` is what stands for a file where it is sorted by its name: the file name, or
/// nothing where that is no text.
pub open spec fn sorts_as_name(path: Seq<u8>, text: Seq<char>) -> bool {
    match file_name_text(path) {
        Some(name) => text == name,
        None => text.len() == 0,
    }
}

/// Whether `text` is what stands for a file where it is sorted by `value`, a text of its tag:
/// that text without white space around it, or the file name where nothing is left of it.
pub open spec fn sorts_as(value: Option<Seq<char>>, path: Seq<u8>, text: Seq<char>) -> bool {
    match value {
        Some(v) if trimmed(v).len() > 0 => text == trimmed(v),
        _ => sorts_as_name(path, text),
    }
}

/// What a file is sorted by is the text that stands for it, in small letters.
pub proof fn lemma_sort_keys(value: Option<Seq<char>>, path: Seq<u8>, text: Seq<char>)
    ensures
        sorts_as(value, path, text) ==> meta_rank(value, path) == lower(text),
        sorts_as_name(path, text) ==> name_rank(path) == lower(text),
{
    if sorts_as_name(path, text) && file_name_text(path) is None {
        assert(lower(text) =~= seq![]);
    }
}

/// Sorted by name, of two tracks the one whose file name comes first stands first, in capital or
/// small letters, and tracks with the same file name stay as they were.
pub proof fn lemma_sort_by_name(
    tracks: Seq<TrackView>,
    modified: Seq<int>,
    p: int,
    q: int,
    a: Seq<char>,
    b: Seq<char>,
    k: int,
)
    requires
        0 <= p < tracks.len(),
        0 <= q < tracks.len(),
        sorts_as_name(tracks[p].path, a),
        sorts_as_name(tracks[q].path, b),
        spelled_before(a, b, k) || (spelled_alike(a, b) && p < q),
    ensures
        place(tracks, SortKey::Name, false, modified, p) < place(
            tracks,
            SortKey::Name,
            false,
            modified,
            q,
        ),
{
    lemma_sort_keys(None, tracks[p].path, a);
    lemma_sort_keys(None, tracks[q].path, b);
    lemma_spelled(a, b, k);
    lemma_place_before(tracks, SortKey::Name, modified, p, q);
}

/// Sorted by title, by artist or by album, of two tracks the one whose title, artist or album
/// comes first stands first, in capital or small letters; tracks that have the same stay as they
/// were. A track without it goes by its file name.
pub proof fn lemma_sort_by_tag(
    tracks: Seq<TrackView>,
    modified: Seq<int>,
    p: int,
    q: int,
    a: Seq<char>,
    b: Seq<char>,
    k: int,
)
    requires
        0 <= p < tracks.len(),
        0 <= q < tracks.len(),
        spelled_before(a, b, k) || (spelled_alike(a, b) && p < q),
    ensures
        sorts_as(tracks[p].title, tracks[p].path, a) && sorts_as(
            tracks[q].title,
            tracks[q].path,
            b,
        ) ==> place(tracks, SortKey::Title, false, modified, p) < place(
            tracks,
            SortKey::Title,
            false,
            modified,
            q,
        ),
        sorts_as(tracks[p].artist, tracks[p].path, a) && sorts_as(
            tracks[q].artist,
            tracks[q].path,
            b,
        ) ==> place(tracks, SortKey::Artist, false, modified, p) < place(
            tracks,
            SortKey::Artist,
            false,
            modified,
            q,
        ),
        sorts_as(tracks[p].album, tracks[p].path, a) && sorts_as(
            tracks[q].album,
            tracks[q].path,
            b,
        ) ==> place(tracks, SortKey::Album, false, modified, p) < place(
            tracks,
            SortKey::Album,
            false,
            modified,
            q,
        ),
{
    lemma_spelled(a, b, k);
    lemma_sort_keys(tracks[p].title, tracks[p].path, a);
    lemma_sort_keys(tracks[q].title, tracks[q].path, b);
    lemma_sort_keys(tracks[p].artist, tracks[p].path, a);
    lemma_sort_keys(tracks[q].artist, tracks[q].path, b);
    lemma_sort_keys(tracks[p].album, tracks[p].path, a);
    lemma_sort_keys(tracks[q].album, tracks[q].path, b);
    lemma_place_before(tracks, SortKey::Title, modified, p, q);
    lemma_place_before(tracks, SortKey::Artist, modified, p, q);
    lemma_place_before(tracks, SortKey::Album, modified, p, q);
}

/// The interface names each sort key by its own word.
pub proof fn lemma_key_labels()
    ensures
        key_label(SortKey::Path) == "path"@,
        key_label(SortKey::Name) == "name"@,
        key_label(SortKey::Mtime) == "mtime"@,
        key_label(SortKey::Title) == "title"@,
        key_label(SortKey::Artist) == "artist"@,
        key_label(SortKey::Album) == "album"@,
{
}

/// Cleaning takes white space off a text and drops a text that is nothing else: what is left of
/// `before`, `text` and `after`, where the first and the last are white space, is `text`.
pub proof fn lemma_cleaned(before: Seq<char>, text: Seq<char>, after: Seq<char>)
    requires
        forall|i: int| 0 <= i < before.len() ==> is_space(#[trigger] before[i]),
        forall|i: int| 0 <= i < after.len() ==> is_space(#[trigger] after[i]),
        text.len() > 0 ==> !is_space(text[0]) && !is_space(text.last()),
    ensures
        text.len() > 0 ==> cleaned(Some(before + text + after)) == Some(text),
        text.len() == 0 ==> cleaned(Some(before + text + after)) is None,
        cleaned(None) is None,
{
    if text.len() > 0 {
        lemma_trim_padding(before, text, after);
    } else {
        let all = before + text + after;
        let (from, to) = lemma_trimmed(all);
        if from < to {
            if from < before.len() {
                assert(is_space(before[from]));
            } else {
                assert(is_space(after[from - before.len()]));
            }
        }
    }
}

/// Of a tag, the title is kept as the title, the artist as the artist and the album as the
/// album, each without white space around it, and none where nothing is left of it. Each rests
/// on the frame of that name alone. Of a file without a tag nothing is kept.
pub proof fn lemma_tag_kept(tag: TagView, other: TagView)
    ensures
        ({
            let m = meta_of(Some(tag));
            let o = meta_of(Some(other));
            &&& tag.title matches Some(v) ==> (if trimmed(v).len() > 0 {
                m.title == Some(trimmed(v))
            } else {
                m.title is None
            })
            &&& tag.artist matches Some(v) ==> (if trimmed(v).len() > 0 {
                m.artist == Some(trimmed(v))
            } else {
                m.artist is None
            })
            &&& tag.album matches Some(v) ==> (if trimmed(v).len() > 0 {
                m.album == Some(trimmed(v))
            } else {
                m.album is None
            })
            &&& tag.title is None ==> m.title is None
            &&& tag.artist is None ==> m.artist is None
            &&& tag.album is None ==> m.album is None
            &&& tag.title == other.title ==> m.title == o.title
            &&& tag.artist == other.artist ==> m.artist == o.artist
            &&& tag.album == other.album ==> m.album == o.album
            &&& tag.lyrics == other.lyrics ==> m.lyrics == o.lyrics
            &&& tag.pictures == other.pictures ==> m.art_png == o.art_png
        }),
        meta_of(None) == (MetaView {
            title: None,
            artist: None,
            album: None,
            lyrics: None,
            art_png: None,
        }),
{
}

proof fn lemma_first_clean(list: Seq<Seq<char>>, from: int, i: int)
    requires
        0 <= from <= i <= list.len(),
        forall|k: int| from <= k < i ==> trimmed(#[trigger] list[k]).len() == 0,
        i < list.len() ==> trimmed(list[i]).len() > 0,
    ensures
        i < list.len() ==> first_clean(list, from) == Some(trimmed(list[i])),
        i == list.len() ==> first_clean(list, from) is None,
    decreases i - from,
{
    if from < i {
        assert(trimmed(list[from]).len() == 0);
        lemma_first_clean(list, from + 1, i);
    }
}

/// The lyrics that are kept of a tag are those of its first frame that holds more than white
/// space, without the white space around them; where there is no such frame, none are.
pub proof fn lemma_lyrics_kept(tag: TagView, i: int)
    requires
        0 <= i <= tag.lyrics.len(),
        forall|k: int| 0 <= k < i ==> trimmed(#[trigger] tag.lyrics[k]).len() == 0,
        i < tag.lyrics.len() ==> trimmed(tag.lyrics[i]).len() > 0,
    ensures
        i < tag.lyrics.len() ==> meta_of(Some(tag)).lyrics == Some(trimmed(tag.lyrics[i])),
        i == tag.lyrics.len() ==> meta_of(Some(tag)).lyrics is None,
{
    lemma_first_clean(tag.lyrics, 0, i);
}

proof fn lemma_front_cover(pictures: Seq<PictureView>, from: int, i: int)
    requires
        0 <= from <= i <= pictures.len(),
        forall|k: int| from <= k < i ==> !(#[trigger] pictures[k]).front_cover,
        i < pictures.len() ==> pictures[i].front_cover,
    ensures
        i < pictures.len() ==> front_cover(pictures, from) == Some(pictures[i]),
        i == pictures.len() ==> front_cover(pictures, from) is None,
    decreases i - from,
{
    if from < i {
        assert(!pictures[from].front_cover);
        lemma_front_cover(pictures, from + 1, i);
    }
}

/// The picture that is taken of a tag is the first that is marked as the front cover; where none
/// is marked, the first of all; and none where there is none. What is kept of it is the PNG file
/// that is made of it.
pub proof fn lemma_picture_kept(tag: TagView, i: int)
    requires
        0 <= i <= tag.pictures.len(),
        forall|k: int| 0 <= k < i ==> !(#[trigger] tag.pictures[k]).front_cover,
        i < tag.pictures.len() ==> tag.pictures[i].front_cover,
    ensures
        i < tag.pictures.len() ==> chosen_picture(tag.pictures) == Some(tag.pictures[i]),
        i == tag.pictures.len() && i > 0 ==> chosen_picture(tag.pictures) == Some(
            tag.pictures[0],
        ),
        tag.pictures.len() == 0 ==> chosen_picture(tag.pictures) is None,
        meta_of(Some(tag)).art_png == (if i < tag.pictures.len() {
            png_of_image(tag.pictures[i].data)
        } else if i > 0 {
            png_of_image(tag.pictures[0].data)
        } else {
            None
        }),
{
    lemma_front_cover(tag.pictures, 0, i);
}

/// Every scanned file gives one track, at its path, with what is kept of its own tag.
pub proof fn lemma_made_tracks(scanned: Seq<ScannedView>, tags: Seq<Option<TagView>>, i: int)
    requires
        0 <= i < scanned.len(),
    ensures
        scanned_tracks(scanned, tags).len() == scanned.len(),
        ({
            let t = scanned_tracks(scanned, tags)[i];
            let m = meta_of(tags[i]);
            &&& t.path == scanned[i].path
            &&& t.title == m.title
            &&& t.artist == m.artist
            &&& t.album == m.album
            &&& t.lyrics == m.lyrics
            &&& t.art_png == m.art_png
        }),
{
}

/// Lists stand for their items, one by one.
pub proof fn lemma_list_views(list: Seq<i128>, tags: Seq<Option<TagData>>, text: Option<&str>)
    ensures
        times(list).len() == list.len(),
        forall|i: int| 0 <= i < list.len() ==> #[trigger] times(list)[i] == list[i],
        tag_views(tags).len() == tags.len(),
        forall|i: int|
            0 <= i < tags.len() ==> (#[trigger] tag_views(tags)[i] is None <==> tags[i] is None),
        forall|i: int|
            0 <= i < tags.len() && tags[i] is Some ==> #[trigger] tag_views(tags)[i] == Some(
                tags[i]->0@,
            ),
        text matches Some(t) ==> opt_str(text) == Some(t@),
        text is None ==> opt_str(text) is None,
{
}

} // verus!

//! What the player stores between runs, as bytes: the tags of a playlist, and where it stopped.

use vstd::prelude::*;
use vstd::string::*;
use vstd::utf8::*;

use crate::models::{opt_bytes, opt_text};
use crate::path::copy_bytes;
use crate::text::utf8_text;
use crate::wire::{
    field_bytes, field_views, get_fields, lemma_message_round_trip, lemma_value_len, message_bytes,
    put_bytes, put_number, read_fields, writable, Field, RawField, RawValue, Value,
};

verus! {

/// The format of the playlist cache.
pub const CACHE_VERSION: u32 = 3;

/// The format of the resume file.
pub const RESUME_STATE_VERSION: u32 = 1;

/// How deep messages may be nested.
pub const NESTING_LIMIT: usize = 100;

/// How deep messages may be nested in an entry of the cache.
pub const ENTRY_NESTING_LIMIT: usize = 99;

/// The tags of a playlist, as they are stored.
pub struct PlaylistCache {
    pub version: u32,
    pub playlist: String,
    pub entries: Vec<CachedTrack>,
}

/// A file of the playlist, as it is stored: what it was when its tag was read, and the tag.
pub struct CachedTrack {
    pub path: String,
    pub size: u64,
    pub modified_unix_secs: u64,
    pub title: Option<String>,
    pub artist: Option<String>,
    pub album: Option<String>,
    pub lyrics: Option<String>,
    pub art_png: Option<Vec<u8>>,
}

/// The track that a playlist was left at, as it is stored.
pub struct ResumeState {
    pub version: u32,
    pub playlist: String,
    pub last_track_path: String,
}

/// What a `PlaylistCache` stands for.
#[verifier::ext_equal]
pub struct CacheView {
    pub version: u32,
    pub playlist: Seq<char>,
    pub entries: Seq<EntryView>,
}

/// What a `CachedTrack` stands for.
#[verifier::ext_equal]
pub struct EntryView {
    pub path: Seq<char>,
    pub size: u64,
    pub modified_unix_secs: u64,
    pub title: Option<Seq<char>>,
    pub artist: Option<Seq<char>>,
    pub album: Option<Seq<char>>,
    pub lyrics: Option<Seq<char>>,
    pub art_png: Option<Seq<u8>>,
}

/// What a `ResumeState` stands for.
#[verifier::ext_equal]
pub struct ResumeView {
    pub version: u32,
    pub playlist: Seq<char>,
    pub last_track_path: Seq<char>,
}

impl View for CachedTrack {
    type V = EntryView;

    open spec fn view(&self) -> EntryView {
        EntryView {
            path: self.path@,
            size: self.size,
            modified_unix_secs: self.modified_unix_secs,
            title: opt_text(self.title),
            artist: opt_text(self.artist),
            album: opt_text(self.album),
            lyrics: opt_text(self.lyrics),
            art_png: opt_bytes(self.art_png),
        }
    }
}

/// The entries that a list stands for.
pub open spec fn entry_views(list: Seq<CachedTrack>) -> Seq<EntryView> {
    list.map_values(|e: CachedTrack| e@)
}

impl View for PlaylistCache {
    type V = CacheView;

    open spec fn view(&self) -> CacheView {
        CacheView {
            version: self.version,
            playlist: self.playlist@,
            entries: entry_views(self.entries@),
        }
    }
}

impl View for ResumeState {
    type V = ResumeView;

    open spec fn view(&self) -> ResumeView {
        ResumeView {
            version: self.version,
            playlist: self.playlist@,
            last_track_path: self.last_track_path@,
        }
    }
}

/// A number as a field: zero is left out.
pub open spec fn number_field(tag: nat, value: nat) -> Seq<Field> {
    if value == 0 {
        seq![]
    } else {
        seq![Field { tag, value: Value::Number(value) }]
    }
}

/// Bytes as a field.
pub open spec fn bytes_field(tag: nat, value: Seq<u8>) -> Field {
    Field { tag, value: Value::Bytes(value) }
}

/// A text as a field: the empty text is left out.
pub open spec fn text_field(tag: nat, value: Seq<char>) -> Seq<Field> {
    if value.len() == 0 {
        seq![]
    } else {
        seq![bytes_field(tag, encode_utf8(value))]
    }
}

/// A text that may be there as a field: it is left out where it is not there.
pub open spec fn opt_text_field(tag: nat, value: Option<Seq<char>>) -> Seq<Field> {
    match value {
        Some(v) => seq![bytes_field(tag, encode_utf8(v))],
        None => seq![],
    }
}

/// Bytes that may be there as a field: they are left out where they are not there.
pub open spec fn opt_bytes_field(tag: nat, value: Option<Seq<u8>>) -> Seq<Field> {
    match value {
        Some(v) => seq![bytes_field(tag, v)],
        None => seq![],
    }
}

/// The fields that an entry is stored as.
pub open spec fn entry_fields(e: EntryView) -> Seq<Field> {
    text_field(1, e.path) + number_field(2, e.size as nat) + number_field(
        3,
        e.modified_unix_secs as nat,
    ) + opt_text_field(4, e.title) + opt_text_field(5, e.artist) + opt_text_field(6, e.album)
        + opt_text_field(7, e.lyrics) + opt_bytes_field(8, e.art_png)
}

/// The bytes that an entry is stored as.
pub open spec fn entry_bytes(e: EntryView) -> Seq<u8> {
    message_bytes(entry_fields(e))
}

/// The fields that entries are stored as.
pub open spec fn entries_fields(entries: Seq<EntryView>) -> Seq<Field> {
    entries.map_values(|e: EntryView| bytes_field(3, entry_bytes(e)))
}

/// The fields that a cache is stored as.
pub open spec fn cache_fields(c: CacheView) -> Seq<Field> {
    number_field(1, c.version as nat) + text_field(2, c.playlist) + entries_fields(c.entries)
}

/// The bytes that a cache is stored as.
pub open spec fn cache_bytes(c: CacheView) -> Seq<u8> {
    message_bytes(cache_fields(c))
}

/// The fields that a resume state is stored as.
pub open spec fn resume_fields(r: ResumeView) -> Seq<Field> {
    number_field(1, r.version as nat) + text_field(2, r.playlist) + text_field(
        3,
        r.last_track_path,
    )
}

/// The bytes that a resume state is stored as.
pub open spec fn resume_bytes(r: ResumeView) -> Seq<u8> {
    message_bytes(resume_fields(r))
}

/// The text that a value holds.
pub open spec fn text_value(value: Value) -> Option<Seq<char>> {
    match value {
        Value::Bytes(b) => if valid_utf8(b) {
            Some(decode_utf8(b))
        } else {
            None
        },
        _ => None,
    }
}

/// An entry of which nothing has been read.
pub open spec fn blank_entry() -> EntryView {
    EntryView {
        path: seq![],
        size: 0,
        modified_unix_secs: 0,
        title: None,
        artist: None,
        album: None,
        lyrics: None,
        art_png: None,
    }
}

/// The entry `e` once the field `f` has been read: a field that it does not know is passed
/// over, and one of the wrong kind is an error.
pub open spec fn read_into_entry(e: EntryView, f: Field) -> Option<EntryView> {
    if f.tag == 1 {
        match text_value(f.value) {
            Some(t) => Some(EntryView { path: t, ..e }),
            None => None,
        }
    } else if f.tag == 2 {
        match f.value {
            Value::Number(v) => Some(EntryView { size: v as u64, ..e }),
            _ => None,
        }
    } else if f.tag == 3 {
        match f.value {
            Value::Number(v) => Some(EntryView { modified_unix_secs: v as u64, ..e }),
            _ => None,
        }
    } else if f.tag == 4 {
        match text_value(f.value) {
            Some(t) => Some(EntryView { title: Some(t), ..e }),
            None => None,
        }
    } else if f.tag == 5 {
        match text_value(f.value) {
            Some(t) => Some(EntryView { artist: Some(t), ..e }),
            None => None,
        }
    } else if f.tag == 6 {
        match text_value(f.value) {
            Some(t) => Some(EntryView { album: Some(t), ..e }),
            None => None,
        }
    } else if f.tag == 7 {
        match text_value(f.value) {
            Some(t) => Some(EntryView { lyrics: Some(t), ..e }),
            None => None,
        }
    } else if f.tag == 8 {
        match f.value {
            Value::Bytes(b) => Some(EntryView { art_png: Some(b), ..e }),
            _ => None,
        }
    } else {
        Some(e)
    }
}

/// The entry `e` once all of `fields` have been read.
pub open spec fn fill_entry(e: EntryView, fields: Seq<Field>) -> Option<EntryView>
    decreases fields.len(),
{
    if fields.len() == 0 {
        Some(e)
    } else {
        match read_into_entry(e, fields[0]) {
            Some(e) => fill_entry(e, fields.skip(1)),
            None => None,
        }
    }
}

/// The entry that bytes hold.
pub open spec fn entry_of(bytes: Seq<u8>) -> Option<EntryView> {
    match read_fields(bytes, ENTRY_NESTING_LIMIT as nat) {
        Some(fields) => fill_entry(blank_entry(), fields),
        None => None,
    }
}

/// The low 32 bits of a number.
pub open spec fn low_u32(v: nat) -> u32 {
    (v % 0x1_0000_0000) as u32
}

/// The cache `c` once the field `f` has been read.
pub open spec fn read_into_cache(c: CacheView, f: Field) -> Option<CacheView> {
    if f.tag == 1 {
        match f.value {
            Value::Number(v) => Some(CacheView { version: low_u32(v), ..c }),
            _ => None,
        }
    } else if f.tag == 2 {
        match text_value(f.value) {
            Some(t) => Some(CacheView { playlist: t, ..c }),
            None => None,
        }
    } else if f.tag == 3 {
        match f.value {
            Value::Bytes(b) => match entry_of(b) {
                Some(e) => Some(CacheView { entries: c.entries.push(e), ..c }),
                None => None,
            },
            _ => None,
        }
    } else {
        Some(c)
    }
}

/// The cache `c` once all of `fields` have been read.
pub open spec fn fill_cache(c: CacheView, fields: Seq<Field>) -> Option<CacheView>
    decreases fields.len(),
{
    if fields.len() == 0 {
        Some(c)
    } else {
        match read_into_cache(c, fields[0]) {
            Some(c) => fill_cache(c, fields.skip(1)),
            None => None,
        }
    }
}

/// The cache that bytes hold.
pub open spec fn cache_of(bytes: Seq<u8>) -> Option<CacheView> {
    match read_fields(bytes, NESTING_LIMIT as nat) {
        Some(fields) => fill_cache(
            CacheView { version: 0, playlist: seq![], entries: seq![] },
            fields,
        ),
        None => None,
    }
}

/// The resume state `r` once the field `f` has been read.
pub open spec fn read_into_resume(r: ResumeView, f: Field) -> Option<ResumeView> {
    if f.tag == 1 {
        match f.value {
            Value::Number(v) => Some(ResumeView { version: low_u32(v), ..r }),
            _ => None,
        }
    } else if f.tag == 2 {
        match text_value(f.value) {
            Some(t) => Some(ResumeView { playlist: t, ..r }),
            None => None,
        }
    } else if f.tag == 3 {
        match text_value(f.value) {
            Some(t) => Some(ResumeView { last_track_path: t, ..r }),
            None => None,
        }
    } else {
        Some(r)
    }
}

/// The resume state `r` once all of `fields` have been read.
pub open spec fn fill_resume(r: ResumeView, fields: Seq<Field>) -> Option<ResumeView>
    decreases fields.len(),
{
    if fields.len() == 0 {
        Some(r)
    } else {
        match read_into_resume(r, fields[0]) {
            Some(r) => fill_resume(r, fields.skip(1)),
            None => None,
        }
    }
}

/// The resume state that bytes hold.
pub open spec fn resume_of(bytes: Seq<u8>) -> Option<ResumeView> {
    match read_fields(bytes, NESTING_LIMIT as nat) {
        Some(fields) => fill_resume(
            ResumeView { version: 0, playlist: seq![], last_track_path: seq![] },
            fields,
        ),
        None => None,
    }
}

/// The bytes of two lists of fields are the bytes of the one followed by those of the other.
proof fn lemma_message_concat(a: Seq<Field>, b: Seq<Field>)
    ensures
        message_bytes(a + b) == message_bytes(a) + message_bytes(b),
    decreases b.len(),
{
    if b.len() == 0 {
        assert(a + b =~= a);
        assert(message_bytes(a) + message_bytes(b) =~= message_bytes(a));
    } else {
        lemma_message_concat(a, b.drop_last());
        assert((a + b).drop_last() =~= a + b.drop_last());
        assert((a + b).last() == b.last());
        assert(message_bytes(a) + message_bytes(b) =~= (message_bytes(a) + message_bytes(
            b.drop_last(),
        )) + field_bytes(b.last()));
    }
}

proof fn lemma_message_one(f: Field)
    ensures
        message_bytes(seq![f]) == field_bytes(f),
{
    assert(seq![f].drop_last() =~= seq![]);
    assert(message_bytes(seq![f].drop_last()) =~= seq![]);
    assert(seq![f].last() == f);
    assert(seq![] + field_bytes(f) =~= field_bytes(f));
}

/// Appends a number as a field.
fn store_number(tag: u32, value: u64, out: &mut Vec<u8>)
    ensures
        final(out)@ == old(out)@ + message_bytes(number_field(tag as nat, value as nat)),
{
    if value != 0 {
        proof {
            lemma_message_one(Field { tag: tag as nat, value: Value::Number(value as nat) });
        }
        put_number(tag, value, out);
    } else {
        assert(out@ =~= old(out)@ + message_bytes(seq![]));
    }
}

/// Appends a text as a field.
fn store_text(tag: u32, value: &String, out: &mut Vec<u8>)
    ensures
        final(out)@ == old(out)@ + message_bytes(text_field(tag as nat, value@)),
{
    if !value.as_str().is_empty() {
        proof {
            lemma_message_one(bytes_field(tag as nat, encode_utf8(value@)));
        }
        put_bytes(tag, value.as_str().as_bytes(), out);
    } else {
        assert(out@ =~= old(out)@ + message_bytes(seq![]));
    }
}

/// Appends a text that may be there as a field.
fn store_opt_text(tag: u32, value: &Option<String>, out: &mut Vec<u8>)
    ensures
        final(out)@ == old(out)@ + message_bytes(opt_text_field(tag as nat, opt_text(*value))),
{
    match value {
        Some(v) => {
            proof {
                lemma_message_one(bytes_field(tag as nat, encode_utf8(v@)));
            }
            put_bytes(tag, v.as_str().as_bytes(), out);
        },
        None => {
            assert(out@ =~= old(out)@ + message_bytes(seq![]));
        },
    }
}

/// Appends bytes that may be there as a field.
fn store_opt_bytes(tag: u32, value: &Option<Vec<u8>>, out: &mut Vec<u8>)
    ensures
        final(out)@ == old(out)@ + message_bytes(opt_bytes_field(tag as nat, opt_bytes(*value))),
{
    match value {
        Some(v) => {
            proof {
                lemma_message_one(bytes_field(tag as nat, v@));
            }
            put_bytes(tag, v.as_slice(), out);
        },
        None => {
            assert(out@ =~= old(out)@ + message_bytes(seq![]));
        },
    }
}

impl CachedTrack {
    /// The bytes that the entry is stored as.
    pub fn encode(&self) -> (bytes: Vec<u8>)
        ensures
            bytes@ == entry_bytes(self@),
    {
        let mut out: Vec<u8> = Vec::new();
        let ghost a = text_field(1, self@.path);
        let ghost b = a + number_field(2, self@.size as nat);
        let ghost c = b + number_field(3, self@.modified_unix_secs as nat);
        let ghost d = c + opt_text_field(4, self@.title);
        let ghost e = d + opt_text_field(5, self@.artist);
        let ghost f = e + opt_text_field(6, self@.album);
        let ghost g = f + opt_text_field(7, self@.lyrics);
        store_text(1, &self.path, &mut out);
        assert(out@ =~= message_bytes(a));
        store_number(2, self.size, &mut out);
        store_number(3, self.modified_unix_secs, &mut out);
        store_opt_text(4, &self.title, &mut out);
        store_opt_text(5, &self.artist, &mut out);
        store_opt_text(6, &self.album, &mut out);
        store_opt_text(7, &self.lyrics, &mut out);
        store_opt_bytes(8, &self.art_png, &mut out);
        proof {
            lemma_message_concat(a, number_field(2, self@.size as nat));
            lemma_message_concat(b, number_field(3, self@.modified_unix_secs as nat));
            lemma_message_concat(c, opt_text_field(4, self@.title));
            lemma_message_concat(d, opt_text_field(5, self@.artist));
            lemma_message_concat(e, opt_text_field(6, self@.album));
            lemma_message_concat(f, opt_text_field(7, self@.lyrics));
            lemma_message_concat(g, opt_bytes_field(8, self@.art_png));
        }
        out
    }
}

impl PlaylistCache {
    /// The bytes that the cache is stored as.
    pub fn encode(&self) -> (bytes: Vec<u8>)
        ensures
            bytes@ == cache_bytes(self@),
    {
        let mut out: Vec<u8> = Vec::new();
        store_number(1, self.version as u64, &mut out);
        store_text(2, &self.playlist, &mut out);
        let ghost head = number_field(1, self@.version as nat) + text_field(2, self@.playlist);
        proof {
            lemma_message_concat(
                number_field(1, self@.version as nat),
                text_field(2, self@.playlist),
            );
            assert(entries_fields(self@.entries).take(0) =~= seq![]);
            assert(head + entries_fields(self@.entries).take(0) =~= head);
        }
        let mut i: usize = 0;
        while i < self.entries.len()
            invariant
                i <= self.entries@.len(),
                out@ == message_bytes(head + entries_fields(self@.entries).take(i as int)),
            decreases self.entries@.len() - i,
        {
            let bytes = self.entries[i].encode();
            put_bytes(3, bytes.as_slice(), &mut out);
            i = i + 1;
            proof {
                let all = entries_fields(self@.entries);
                let f = bytes_field(3, bytes@);
                assert(all[i - 1] == f);
                assert((head + all.take(i as int)).drop_last() =~= head + all.take(i - 1));
                assert((head + all.take(i as int)).last() == f);
            }
        }
        assert(entries_fields(self@.entries).take(i as int) =~= entries_fields(self@.entries));
        out
    }
}

impl ResumeState {
    /// The bytes that the resume state is stored as.
    pub fn encode(&self) -> (bytes: Vec<u8>)
        ensures
            bytes@ == resume_bytes(self@),
    {
        let mut out: Vec<u8> = Vec::new();
        store_number(1, self.version as u64, &mut out);
        store_text(2, &self.playlist, &mut out);
        store_text(3, &self.last_track_path, &mut out);
        proof {
            let a = number_field(1, self@.version as nat);
            let b = text_field(2, self@.playlist);
            lemma_message_concat(a, b);
            lemma_message_concat(a + b, text_field(3, self@.last_track_path));
        }
        out
    }
}

/// The text that a value holds.
fn text_in(value: &RawValue) -> (text: Option<String>)
    ensures
        opt_text(text) == text_value(value@),
{
    match value {
        RawValue::Bytes(b) => utf8_text(b.as_slice()),
        _ => None,
    }
}

/// What an entry that may be there stands for.
pub open spec fn opt_entry(e: Option<CachedTrack>) -> Option<EntryView> {
    match e {
        Some(e) => Some(e@),
        None => None,
    }
}

/// What a cache that may be there stands for.
pub open spec fn opt_cache(c: Option<PlaylistCache>) -> Option<CacheView> {
    match c {
        Some(c) => Some(c@),
        None => None,
    }
}

/// What a resume state that may be there stands for.
pub open spec fn opt_resume(r: Option<ResumeState>) -> Option<ResumeView> {
    match r {
        Some(r) => Some(r@),
        None => None,
    }
}

/// Reads a field into an entry.
fn take_into_entry(e: CachedTrack, f: &RawField) -> (read: Option<CachedTrack>)
    ensures
        opt_entry(read) == read_into_entry(e@, f@),
{
    if f.tag == 1 {
        match text_in(&f.value) {
            Some(t) => Some(CachedTrack { path: t, ..e }),
            None => None,
        }
    } else if f.tag == 2 {
        match &f.value {
            RawValue::Number(v) => Some(CachedTrack { size: *v, ..e }),
            _ => None,
        }
    } else if f.tag == 3 {
        match &f.value {
            RawValue::Number(v) => Some(CachedTrack { modified_unix_secs: *v, ..e }),
            _ => None,
        }
    } else if f.tag == 4 {
        match text_in(&f.value) {
            Some(t) => Some(CachedTrack { title: Some(t), ..e }),
            None => None,
        }
    } else if f.tag == 5 {
        match text_in(&f.value) {
            Some(t) => Some(CachedTrack { artist: Some(t), ..e }),
            None => None,
        }
    } else if f.tag == 6 {
        match text_in(&f.value) {
            Some(t) => Some(CachedTrack { album: Some(t), ..e }),
            None => None,
        }
    } else if f.tag == 7 {
        match text_in(&f.value) {
            Some(t) => Some(CachedTrack { lyrics: Some(t), ..e }),
            None => None,
        }
    } else if f.tag == 8 {
        match &f.value {
            RawValue::Bytes(b) => {
                let art = copy_bytes(b, 0, b.len());
                assert(art@ =~= b@);
                Some(CachedTrack { art_png: Some(art), ..e })
            },
            _ => None,
        }
    } else {
        Some(e)
    }
}

impl CachedTrack {
    /// Reads an entry from bytes.
    pub fn decode(bytes: &[u8]) -> (read: Option<CachedTrack>)
        ensures
            opt_entry(read) == entry_of(bytes@),
    {
        let fields = match get_fields(bytes, ENTRY_NESTING_LIMIT) {
            Some(fields) => fields,
            None => {
                return None;
            },
        };
        let mut e = CachedTrack {
            path: String::new(),
            size: 0,
            modified_unix_secs: 0,
            title: None,
            artist: None,
            album: None,
            lyrics: None,
            art_png: None,
        };
        let ghost all = field_views(fields@);
        assert(all.skip(0) =~= all);
        assert(e@ =~= blank_entry());
        let mut i: usize = 0;
        while i < fields.len()
            invariant
                i <= fields@.len(),
                all == field_views(fields@),
                entry_of(bytes@) == fill_entry(e@, all.skip(i as int)),
            decreases fields@.len() - i,
        {
            proof {
                assert(all.skip(i as int)[0] == fields@[i as int]@);
                assert(all.skip(i as int).skip(1) =~= all.skip(i + 1));
            }
            match take_into_entry(e, &fields[i]) {
                Some(read) => {
                    e = read;
                },
                None => {
                    return None;
                },
            }
            i = i + 1;
        }
        Some(e)
    }
}

/// Reads a field into a cache.
fn take_into_cache(c: PlaylistCache, f: &RawField) -> (read: Option<PlaylistCache>)
    ensures
        opt_cache(read) == read_into_cache(c@, f@),
{
    if f.tag == 1 {
        match &f.value {
            RawValue::Number(v) => Some(
                PlaylistCache { version: (*v % 0x1_0000_0000) as u32, ..c },
            ),
            _ => None,
        }
    } else if f.tag == 2 {
        match text_in(&f.value) {
            Some(t) => Some(PlaylistCache { playlist: t, ..c }),
            None => None,
        }
    } else if f.tag == 3 {
        match &f.value {
            RawValue::Bytes(b) => match CachedTrack::decode(b.as_slice()) {
                Some(e) => {
                    let mut c = c;
                    let ghost before = c.entries@;
                    c.entries.push(e);
                    assert(entry_views(c.entries@) =~= entry_views(before).push(e@));
                    Some(c)
                },
                None => None,
            },
            _ => None,
        }
    } else {
        Some(c)
    }
}

impl PlaylistCache {
    /// Reads a cache from bytes.
    pub fn decode(bytes: &[u8]) -> (read: Option<PlaylistCache>)
        ensures
            opt_cache(read) == cache_of(bytes@),
    {
        let fields = match get_fields(bytes, NESTING_LIMIT) {
            Some(fields) => fields,
            None => {
                return None;
            },
        };
        let mut c = PlaylistCache { version: 0, playlist: String::new(), entries: Vec::new() };
        let ghost all = field_views(fields@);
        assert(all.skip(0) =~= all);
        assert(c@ =~= CacheView { version: 0, playlist: seq![], entries: seq![] });
        let mut i: usize = 0;
        while i < fields.len()
            invariant
                i <= fields@.len(),
                all == field_views(fields@),
                cache_of(bytes@) == fill_cache(c@, all.skip(i as int)),
            decreases fields@.len() - i,
        {
            proof {
                assert(all.skip(i as int)[0] == fields@[i as int]@);
                assert(all.skip(i as int).skip(1) =~= all.skip(i + 1));
            }
            match take_into_cache(c, &fields[i]) {
                Some(read) => {
                    c = read;
                },
                None => {
                    return None;
                },
            }
            i = i + 1;
        }
        Some(c)
    }
}

/// Reads a field into a resume state.
fn take_into_resume(r: ResumeState, f: &RawField) -> (read: Option<ResumeState>)
    ensures
        opt_resume(read) == read_into_resume(r@, f@),
{
    if f.tag == 1 {
        match &f.value {
            RawValue::Number(v) => Some(
                ResumeState { version: (*v % 0x1_0000_0000) as u32, ..r },
            ),
            _ => None,
        }
    } else if f.tag == 2 {
        match text_in(&f.value) {
            Some(t) => Some(ResumeState { playlist: t, ..r }),
            None => None,
        }
    } else if f.tag == 3 {
        match text_in(&f.value) {
            Some(t) => Some(ResumeState { last_track_path: t, ..r }),
            None => None,
        }
    } else {
        Some(r)
    }
}

impl ResumeState {
    /// Reads a resume state from bytes.
    pub fn decode(bytes: &[u8]) -> (read: Option<ResumeState>)
        ensures
            opt_resume(read) == resume_of(bytes@),
    {
        let fields = match get_fields(bytes, NESTING_LIMIT) {
            Some(fields) => fields,
            None => {
                return None;
            },
        };
        let mut r = ResumeState {
            version: 0,
            playlist: String::new(),
            last_track_path: String::new(),
        };
        let ghost all = field_views(fields@);
        assert(all.skip(0) =~= all);
        assert(r@ =~= ResumeView { version: 0, playlist: seq![], last_track_path: seq![] });
        let mut i: usize = 0;
        while i < fields.len()
            invariant
                i <= fields@.len(),
                all == field_views(fields@),
                resume_of(bytes@) == fill_resume(r@, all.skip(i as int)),
            decreases fields@.len() - i,
        {
            proof {
                assert(all.skip(i as int)[0] == fields@[i as int]@);
                assert(all.skip(i as int).skip(1) =~= all.skip(i + 1));
            }
            match take_into_resume(r, &fields[i]) {
                Some(read) => {
                    r = read;
                },
                None => {
                    return None;
                },
            }
            i = i + 1;
        }
        Some(r)
    }
}

/// Whether every field can be written.
pub open spec fn all_writable(fields: Seq<Field>) -> bool {
    forall|i: int| 0 <= i < fields.len() ==> #[trigger] writable(fields[i])
}

/// Whether an entry can be stored: its texts and its art are not too long for their lengths to
/// be written.
pub open spec fn storable_entry(e: EntryView) -> bool {
    all_writable(entry_fields(e)) && entry_bytes(e).len() <= u64::MAX
}

/// Whether a cache can be stored.
pub open spec fn storable_cache(c: CacheView) -> bool {
    &&& all_writable(cache_fields(c))
    &&& forall|i: int| 0 <= i < c.entries.len() ==> #[trigger] storable_entry(c.entries[i])
}

/// Whether a field has a number that fields may have, and a value that is a 64-bit number or
/// bytes.
spec fn plain_field(f: Field) -> bool {
    &&& 1 <= f.tag < 0x2000_0000
    &&& match f.value {
        Value::Number(v) => v <= u64::MAX,
        Value::Bytes(_) => true,
        Value::Other => false,
    }
}

proof fn lemma_plain_writable(fields: Seq<Field>)
    requires
        forall|i: int| 0 <= i < fields.len() ==> #[trigger] plain_field(fields[i]),
        message_bytes(fields).len() <= u64::MAX,
    ensures
        all_writable(fields),
{
    assert forall|i: int| 0 <= i < fields.len() implies #[trigger] writable(fields[i]) by {
        assert(plain_field(fields[i]));
        lemma_value_len(fields, i);
    }
}

/// An entry can be stored where the number of its bytes can be written.
pub proof fn lemma_storable_entry(e: EntryView)
    requires
        entry_bytes(e).len() <= u64::MAX,
    ensures
        storable_entry(e),
{
    let fields = entry_fields(e);
    assert forall|i: int| 0 <= i < fields.len() implies #[trigger] plain_field(fields[i]) by {
        assert(1 <= fields[i].tag <= 8);
    }
    lemma_plain_writable(fields);
}

/// A cache can be stored where the number of its bytes can be written.
pub proof fn lemma_storable_cache(c: CacheView)
    requires
        cache_bytes(c).len() <= u64::MAX,
    ensures
        storable_cache(c),
{
    let head = number_field(1, c.version as nat) + text_field(2, c.playlist);
    let fields = cache_fields(c);
    assert forall|i: int| 0 <= i < fields.len() implies #[trigger] plain_field(fields[i]) by {
        assert(1 <= fields[i].tag <= 3);
    }
    lemma_plain_writable(fields);
    assert forall|i: int| 0 <= i < c.entries.len() implies #[trigger] storable_entry(
        c.entries[i],
    ) by {
        let at = head.len() + i;
        assert(fields[at] == bytes_field(3, entry_bytes(c.entries[i])));
        lemma_value_len(fields, at);
        lemma_storable_entry(c.entries[i]);
    }
}

/// A resume state can be stored where the number of its bytes can be written.
pub proof fn lemma_storable_resume(r: ResumeView)
    requires
        resume_bytes(r).len() <= u64::MAX,
    ensures
        all_writable(resume_fields(r)),
{
    let fields = resume_fields(r);
    assert forall|i: int| 0 <= i < fields.len() implies #[trigger] plain_field(fields[i]) by {
        assert(1 <= fields[i].tag <= 3);
    }
    lemma_plain_writable(fields);
}

proof fn lemma_fill_entry_concat(e: EntryView, a: Seq<Field>, b: Seq<Field>)
    ensures
        fill_entry(e, a + b) == (match fill_entry(e, a) {
            Some(e) => fill_entry(e, b),
            None => None,
        }),
    decreases a.len(),
{
    if a.len() == 0 {
        assert(a + b =~= b);
    } else {
        assert((a + b).skip(1) =~= a.skip(1) + b);
        if let Some(next) = read_into_entry(e, a[0]) {
            lemma_fill_entry_concat(next, a.skip(1), b);
        }
    }
}

proof fn lemma_fill_entry_one(e: EntryView, f: Field)
    ensures
        fill_entry(e, seq![f]) == read_into_entry(e, f),
{
    assert(seq![f].skip(1) =~= seq![]);
    if let Some(next) = read_into_entry(e, f) {
        assert(fill_entry(next, seq![f].skip(1)) == Some(next));
    }
}

/// Reading a stored entry gives back the entry that was stored.
pub proof fn lemma_entry_round_trip(e: EntryView)
    requires
        storable_entry(e),
    ensures
        entry_of(entry_bytes(e)) == Some(e),
{
    broadcast use {encode_utf8_valid_utf8, encode_utf8_decode_utf8};

    lemma_message_round_trip(entry_fields(e), ENTRY_NESTING_LIMIT as nat);
    let e0 = blank_entry();
    let e1 = EntryView { path: e.path, ..e0 };
    let e2 = EntryView { size: e.size, ..e1 };
    let e3 = EntryView { modified_unix_secs: e.modified_unix_secs, ..e2 };
    let e4 = EntryView { title: e.title, ..e3 };
    let e5 = EntryView { artist: e.artist, ..e4 };
    let e6 = EntryView { album: e.album, ..e5 };
    let e7 = EntryView { lyrics: e.lyrics, ..e6 };
    let e8 = EntryView { art_png: e.art_png, ..e7 };
    let f1 = text_field(1, e.path);
    let f2 = number_field(2, e.size as nat);
    let f3 = number_field(3, e.modified_unix_secs as nat);
    let f4 = opt_text_field(4, e.title);
    let f5 = opt_text_field(5, e.artist);
    let f6 = opt_text_field(6, e.album);
    let f7 = opt_text_field(7, e.lyrics);
    let f8 = opt_bytes_field(8, e.art_png);
    assert(fill_entry(e0, f1) == Some(e1)) by {
        if e.path.len() > 0 {
            lemma_fill_entry_one(e0, f1[0]);
        } else {
            assert(e.path =~= seq![]);
        }
    }
    assert(fill_entry(e1, f2) == Some(e2)) by {
        if e.size != 0 {
            lemma_fill_entry_one(e1, f2[0]);
        }
    }
    assert(fill_entry(e2, f3) == Some(e3)) by {
        if e.modified_unix_secs != 0 {
            lemma_fill_entry_one(e2, f3[0]);
        }
    }
    assert(fill_entry(e3, f4) == Some(e4)) by {
        if e.title is Some {
            lemma_fill_entry_one(e3, f4[0]);
        }
    }
    assert(fill_entry(e4, f5) == Some(e5)) by {
        if e.artist is Some {
            lemma_fill_entry_one(e4, f5[0]);
        }
    }
    assert(fill_entry(e5, f6) == Some(e6)) by {
        if e.album is Some {
            lemma_fill_entry_one(e5, f6[0]);
        }
    }
    assert(fill_entry(e6, f7) == Some(e7)) by {
        if e.lyrics is Some {
            lemma_fill_entry_one(e6, f7[0]);
        }
    }
    assert(fill_entry(e7, f8) == Some(e8)) by {
        if e.art_png is Some {
            lemma_fill_entry_one(e7, f8[0]);
        }
    }
    lemma_fill_entry_concat(e0, f1, f2);
    lemma_fill_entry_concat(e0, f1 + f2, f3);
    lemma_fill_entry_concat(e0, f1 + f2 + f3, f4);
    lemma_fill_entry_concat(e0, f1 + f2 + f3 + f4, f5);
    lemma_fill_entry_concat(e0, f1 + f2 + f3 + f4 + f5, f6);
    lemma_fill_entry_concat(e0, f1 + f2 + f3 + f4 + f5 + f6, f7);
    lemma_fill_entry_concat(e0, f1 + f2 + f3 + f4 + f5 + f6 + f7, f8);
    assert(e8 == e);
}

proof fn lemma_fill_cache_concat(c: CacheView, a: Seq<Field>, b: Seq<Field>)
    ensures
        fill_cache(c, a + b) == (match fill_cache(c, a) {
            Some(c) => fill_cache(c, b),
            None => None,
        }),
    decreases a.len(),
{
    if a.len() == 0 {
        assert(a + b =~= b);
    } else {
        assert((a + b).skip(1) =~= a.skip(1) + b);
        if let Some(next) = read_into_cache(c, a[0]) {
            lemma_fill_cache_concat(next, a.skip(1), b);
        }
    }
}

proof fn lemma_fill_cache_one(c: CacheView, f: Field)
    ensures
        fill_cache(c, seq![f]) == read_into_cache(c, f),
{
    assert(seq![f].skip(1) =~= seq![]);
    if let Some(next) = read_into_cache(c, f) {
        assert(fill_cache(next, seq![f].skip(1)) == Some(next));
    }
}

proof fn lemma_fill_cache_entries(c: CacheView, entries: Seq<EntryView>)
    requires
        forall|i: int| 0 <= i < entries.len() ==> #[trigger] storable_entry(entries[i]),
    ensures
        fill_cache(c, entries_fields(entries)) == Some(
            CacheView { entries: c.entries + entries, ..c },
        ),
    decreases entries.len(),
{
    let fields = entries_fields(entries);
    if entries.len() == 0 {
        assert(c.entries + entries =~= c.entries);
    } else {
        assert(storable_entry(entries[0]));
        lemma_entry_round_trip(entries[0]);
        assert(fields[0] == bytes_field(3, entry_bytes(entries[0])));
        let next = CacheView { entries: c.entries.push(entries[0]), ..c };
        assert(read_into_cache(c, fields[0]) == Some(next));
        assert(fields.skip(1) =~= entries_fields(entries.skip(1)));
        assert forall|i: int| 0 <= i < entries.skip(1).len() implies #[trigger] storable_entry(
            entries.skip(1)[i],
        ) by {
            assert(storable_entry(entries[i + 1]));
        }
        lemma_fill_cache_entries(next, entries.skip(1));
        assert(next.entries + entries.skip(1) =~= c.entries + entries);
    }
}

/// Reading a stored cache gives back the cache that was stored.
pub proof fn lemma_cache_round_trip(c: CacheView)
    requires
        storable_cache(c),
    ensures
        cache_of(cache_bytes(c)) == Some(c),
{
    broadcast use {encode_utf8_valid_utf8, encode_utf8_decode_utf8};

    lemma_message_round_trip(cache_fields(c), NESTING_LIMIT as nat);
    let c0 = CacheView { version: 0, playlist: seq![], entries: seq![] };
    let c1 = CacheView { version: c.version, ..c0 };
    let c2 = CacheView { playlist: c.playlist, ..c1 };
    let f1 = number_field(1, c.version as nat);
    let f2 = text_field(2, c.playlist);
    assert(fill_cache(c0, f1) == Some(c1)) by {
        if c.version != 0 {
            lemma_fill_cache_one(c0, f1[0]);
        }
    }
    assert(fill_cache(c1, f2) == Some(c2)) by {
        if c.playlist.len() > 0 {
            lemma_fill_cache_one(c1, f2[0]);
        } else {
            assert(c.playlist =~= seq![]);
        }
    }
    lemma_fill_cache_concat(c0, f1, f2);
    lemma_fill_cache_concat(c0, f1 + f2, entries_fields(c.entries));
    lemma_fill_cache_entries(c2, c.entries);
    assert(c2.entries + c.entries =~= c.entries);
}

proof fn lemma_fill_resume_concat(r: ResumeView, a: Seq<Field>, b: Seq<Field>)
    ensures
        fill_resume(r, a + b) == (match fill_resume(r, a) {
            Some(r) => fill_resume(r, b),
            None => None,
        }),
    decreases a.len(),
{
    if a.len() == 0 {
        assert(a + b =~= b);
    } else {
        assert((a + b).skip(1) =~= a.skip(1) + b);
        if let Some(next) = read_into_resume(r, a[0]) {
            lemma_fill_resume_concat(next, a.skip(1), b);
        }
    }
}

proof fn lemma_fill_resume_one(r: ResumeView, f: Field)
    ensures
        fill_resume(r, seq![f]) == read_into_resume(r, f),
{
    assert(seq![f].skip(1) =~= seq![]);
    if let Some(next) = read_into_resume(r, f) {
        assert(fill_resume(next, seq![f].skip(1)) == Some(next));
    }
}

/// Reading a stored resume state gives back the one that was stored.
pub proof fn lemma_resume_round_trip(r: ResumeView)
    requires
        all_writable(resume_fields(r)),
    ensures
        resume_of(resume_bytes(r)) == Some(r),
{
    broadcast use {encode_utf8_valid_utf8, encode_utf8_decode_utf8};

    lemma_message_round_trip(resume_fields(r), NESTING_LIMIT as nat);
    let r0 = ResumeView { version: 0, playlist: seq![], last_track_path: seq![] };
    let r1 = ResumeView { version: r.version, ..r0 };
    let r2 = ResumeView { playlist: r.playlist, ..r1 };
    let r3 = ResumeView { last_track_path: r.last_track_path, ..r2 };
    let f1 = number_field(1, r.version as nat);
    let f2 = text_field(2, r.playlist);
    let f3 = text_field(3, r.last_track_path);
    assert(fill_resume(r0, f1) == Some(r1)) by {
        if r.version != 0 {
            lemma_fill_resume_one(r0, f1[0]);
        }
    }
    assert(fill_resume(r1, f2) == Some(r2)) by {
        if r.playlist.len() > 0 {
            lemma_fill_resume_one(r1, f2[0]);
        } else {
            assert(r.playlist =~= seq![]);
        }
    }
    assert(fill_resume(r2, f3) == Some(r3)) by {
        if r.last_track_path.len() > 0 {
            lemma_fill_resume_one(r2, f3[0]);
        } else {
            assert(r.last_track_path =~= seq![]);
        }
    }
    lemma_fill_resume_concat(r0, f1, f2);
    lemma_fill_resume_concat(r0, f1 + f2, f3);
}

/// What is stored of a playlist stands for what its fields hold.
pub proof fn lemma_record_views(c: PlaylistCache, e: CachedTrack, r: ResumeState)
    ensures
        c@.version == c.version,
        c@.playlist == c.playlist@,
        c@.entries.len() == c.entries@.len(),
        forall|i: int| 0 <= i < c.entries@.len() ==> #[trigger] c@.entries[i] == c.entries@[i]@,
        e@.path == e.path@,
        e@.size == e.size,
        e@.modified_unix_secs == e.modified_unix_secs,
        e.title matches Some(v) ==> e@.title == Some(v@),
        e.title is None ==> e@.title is None,
        e.artist matches Some(v) ==> e@.artist == Some(v@),
        e.artist is None ==> e@.artist is None,
        e.album matches Some(v) ==> e@.album == Some(v@),
        e.album is None ==> e@.album is None,
        e.lyrics matches Some(v) ==> e@.lyrics == Some(v@),
        e.lyrics is None ==> e@.lyrics is None,
        e.art_png matches Some(v) ==> e@.art_png == Some(v@),
        e.art_png is None ==> e@.art_png is None,
        r@.version == r.version,
        r@.playlist == r.playlist@,
        r@.last_track_path == r.last_track_path@,
{
}

proof fn lemma_fields_concat(a: Seq<Field>, b: Seq<Field>, f: Field)
    ensures
        (a + b).contains(f) <==> a.contains(f) || b.contains(f),
{
    let all = a + b;
    if a.contains(f) {
        let i = choose|i: int| 0 <= i < a.len() && a[i] == f;
        assert(all[i] == f);
    }
    if b.contains(f) {
        let i = choose|i: int| 0 <= i < b.len() && b[i] == f;
        assert(all[a.len() + i] == f);
    }
    if all.contains(f) {
        let i = choose|i: int| 0 <= i < all.len() && all[i] == f;
        if i < a.len() {
            assert(a[i] == f);
        } else {
            assert(b[i - a.len()] == f);
        }
    }
}

proof fn lemma_one_field(tag: nat, number: nat, text: Seq<char>, f: Field)
    ensures
        number_field(tag, number).contains(f) <==> number > 0 && f.tag == tag && f.value
            == Value::Number(number),
        text_field(tag, text).contains(f) <==> text.len() > 0 && f.tag == tag && f.value
            == Value::Bytes(encode_utf8(text)),
{
    let one = seq![Field { tag, value: Value::Number(number) }];
    let other = seq![bytes_field(tag, encode_utf8(text))];
    assert(one[0] == Field { tag, value: Value::Number(number) });
    assert(other[0] == bytes_field(tag, encode_utf8(text)));
}

proof fn lemma_opt_field(tag: nat, text: Option<Seq<char>>, bytes: Option<Seq<u8>>, f: Field)
    ensures
        opt_text_field(tag, text).contains(f) <==> text is Some && f.tag == tag && f.value
            == Value::Bytes(encode_utf8(text->0)),
        opt_bytes_field(tag, bytes).contains(f) <==> bytes is Some && f.tag == tag && f.value
            == Value::Bytes(bytes->0),
{
    if text is Some {
        assert(opt_text_field(tag, text)[0] == bytes_field(tag, encode_utf8(text->0)));
    }
    if bytes is Some {
        assert(opt_bytes_field(tag, bytes)[0] == bytes_field(tag, bytes->0));
    }
}

/// How a file of the playlist is stored: field 1 is its path, 2 its size, 3 when it was last
/// changed, 4 the title, 5 the artist, 6 the album, 7 the lyrics and 8 the art. What is empty,
/// zero or not there has no field.
pub proof fn lemma_entry_format(e: EntryView, f: Field)
    ensures
        entry_fields(e).contains(f) <==> {
            ||| f.tag == 1 && e.path.len() > 0 && f.value == Value::Bytes(encode_utf8(e.path))
            ||| f.tag == 2 && e.size > 0 && f.value == Value::Number(e.size as nat)
            ||| f.tag == 3 && e.modified_unix_secs > 0 && f.value == Value::Number(
                e.modified_unix_secs as nat,
            )
            ||| f.tag == 4 && e.title is Some && f.value == Value::Bytes(encode_utf8(e.title->0))
            ||| f.tag == 5 && e.artist is Some && f.value == Value::Bytes(encode_utf8(e.artist->0))
            ||| f.tag == 6 && e.album is Some && f.value == Value::Bytes(encode_utf8(e.album->0))
            ||| f.tag == 7 && e.lyrics is Some && f.value == Value::Bytes(encode_utf8(e.lyrics->0))
            ||| f.tag == 8 && e.art_png is Some && f.value == Value::Bytes(e.art_png->0)
        },
        entry_bytes(e).len() <= u64::MAX ==> read_fields(
            entry_bytes(e),
            ENTRY_NESTING_LIMIT as nat,
        ) == Some(entry_fields(e)),
{
    let f1 = text_field(1, e.path);
    let f2 = number_field(2, e.size as nat);
    let f3 = number_field(3, e.modified_unix_secs as nat);
    let f4 = opt_text_field(4, e.title);
    let f5 = opt_text_field(5, e.artist);
    let f6 = opt_text_field(6, e.album);
    let f7 = opt_text_field(7, e.lyrics);
    let f8 = opt_bytes_field(8, e.art_png);
    lemma_fields_concat(f1, f2, f);
    lemma_fields_concat(f1 + f2, f3, f);
    lemma_fields_concat(f1 + f2 + f3, f4, f);
    lemma_fields_concat(f1 + f2 + f3 + f4, f5, f);
    lemma_fields_concat(f1 + f2 + f3 + f4 + f5, f6, f);
    lemma_fields_concat(f1 + f2 + f3 + f4 + f5 + f6, f7, f);
    lemma_fields_concat(f1 + f2 + f3 + f4 + f5 + f6 + f7, f8, f);
    lemma_one_field(1, 0, e.path, f);
    lemma_one_field(2, e.size as nat, seq![], f);
    lemma_one_field(3, e.modified_unix_secs as nat, seq![], f);
    lemma_opt_field(4, e.title, None, f);
    lemma_opt_field(5, e.artist, None, f);
    lemma_opt_field(6, e.album, None, f);
    lemma_opt_field(7, e.lyrics, None, f);
    lemma_opt_field(8, None, e.art_png, f);
    if entry_bytes(e).len() <= u64::MAX {
        lemma_storable_entry(e);
        lemma_message_round_trip(entry_fields(e), ENTRY_NESTING_LIMIT as nat);
    }
}

/// How the tags of a playlist are stored: field 1 is the version of the format, 2 the playlist,
/// and one field 3 stands for each file, in order.
pub proof fn lemma_cache_format(c: CacheView, f: Field)
    ensures
        cache_fields(c).contains(f) <==> {
            ||| f.tag == 1 && c.version > 0 && f.value == Value::Number(c.version as nat)
            ||| f.tag == 2 && c.playlist.len() > 0 && f.value == Value::Bytes(
                encode_utf8(c.playlist),
            )
            ||| f.tag == 3 && exists|i: int|
                0 <= i < c.entries.len() && f.value == Value::Bytes(
                    message_bytes(entry_fields(#[trigger] c.entries[i])),
                )
        },
        cache_bytes(c).len() <= u64::MAX ==> read_fields(cache_bytes(c), NESTING_LIMIT as nat)
            == Some(cache_fields(c)),
{
    let f1 = number_field(1, c.version as nat);
    let f2 = text_field(2, c.playlist);
    let f3 = entries_fields(c.entries);
    lemma_fields_concat(f1, f2, f);
    lemma_fields_concat(f1 + f2, f3, f);
    lemma_one_field(1, c.version as nat, seq![], f);
    lemma_one_field(2, 0, c.playlist, f);
    if f3.contains(f) {
        let i = choose|i: int| 0 <= i < f3.len() && f3[i] == f;
        assert(f.value == Value::Bytes(message_bytes(entry_fields(c.entries[i]))));
    }
    if f.tag == 3 && (exists|i: int|
        0 <= i < c.entries.len() && f.value == Value::Bytes(
            message_bytes(entry_fields(#[trigger] c.entries[i])),
        )) {
        let i = choose|i: int|
            0 <= i < c.entries.len() && f.value == Value::Bytes(
                message_bytes(entry_fields(#[trigger] c.entries[i])),
            );
        assert(f3[i] == f);
    }
    if cache_bytes(c).len() <= u64::MAX {
        lemma_storable_cache(c);
        lemma_message_round_trip(cache_fields(c), NESTING_LIMIT as nat);
    }
}

/// How it is stored where a playlist was left: field 1 is the version of the format, 2 the
/// playlist, and 3 the path of the track.
pub proof fn lemma_resume_format(r: ResumeView, f: Field)
    ensures
        resume_fields(r).contains(f) <==> {
            ||| f.tag == 1 && r.version > 0 && f.value == Value::Number(r.version as nat)
            ||| f.tag == 2 && r.playlist.len() > 0 && f.value == Value::Bytes(
                encode_utf8(r.playlist),
            )
            ||| f.tag == 3 && r.last_track_path.len() > 0 && f.value == Value::Bytes(
                encode_utf8(r.last_track_path),
            )
        },
        resume_bytes(r).len() <= u64::MAX ==> read_fields(resume_bytes(r), NESTING_LIMIT as nat)
            == Some(resume_fields(r)),
{
    let f1 = number_field(1, r.version as nat);
    let f2 = text_field(2, r.playlist);
    let f3 = text_field(3, r.last_track_path);
    lemma_fields_concat(f1, f2, f);
    lemma_fields_concat(f1 + f2, f3, f);
    lemma_one_field(1, r.version as nat, seq![], f);
    lemma_one_field(2, 0, r.playlist, f);
    lemma_one_field(3, 0, r.last_track_path, f);
    if resume_bytes(r).len() <= u64::MAX {
        lemma_storable_resume(r);
        lemma_message_round_trip(resume_fields(r), NESTING_LIMIT as nat);
    }
}

proof fn lemma_fill_push(e: EntryView, fields: Seq<Field>, f: Field)
    ensures
        fill_entry(e, fields.push(f)) == (match fill_entry(e, fields) {
            Some(e) => read_into_entry(e, f),
            None => None,
        }),
    decreases fields.len(),
{
    let all = fields.push(f);
    if fields.len() == 0 {
        assert(all.skip(1) =~= seq![]);
        assert(all[0] == f);
        match read_into_entry(e, f) {
            Some(x) => {
                assert(fill_entry(x, seq![]) == Some(x));
            },
            None => {},
        }
    } else {
        assert(all[0] == fields[0]);
        assert(all.skip(1) =~= fields.skip(1).push(f));
        match read_into_entry(e, fields[0]) {
            Some(x) => {
                lemma_fill_push(x, fields.skip(1), f);
            },
            None => {},
        }
    }
}

/// Where a field is stored more than once, the last one counts; a field with a number that is
/// not in use is passed over; and a number or bytes that are no text where a text is wanted make
/// the whole unreadable.
pub proof fn lemma_entry_reads(fields: Seq<Field>, e: EntryView, f: Field)
    requires
        fill_entry(blank_entry(), fields) == Some(e),
    ensures
        ({
            let read = fill_entry(blank_entry(), fields.push(f));
            &&& f.tag == 0 || f.tag > 8 ==> read == Some(e)
            &&& f.value matches Value::Bytes(b) ==> {
                let text = decode_utf8(b);
                &&& 1 <= f.tag <= 7 && !valid_utf8(b) ==> read is None
                &&& f.tag == 2 || f.tag == 3 ==> read is None
                &&& f.tag == 1 && valid_utf8(b) ==> read == Some(EntryView { path: text, ..e })
                &&& f.tag == 4 && valid_utf8(b) ==> read == Some(
                    EntryView { title: Some(text), ..e },
                )
                &&& f.tag == 5 && valid_utf8(b) ==> read == Some(
                    EntryView { artist: Some(text), ..e },
                )
                &&& f.tag == 6 && valid_utf8(b) ==> read == Some(
                    EntryView { album: Some(text), ..e },
                )
                &&& f.tag == 7 && valid_utf8(b) ==> read == Some(
                    EntryView { lyrics: Some(text), ..e },
                )
                &&& f.tag == 8 ==> read == Some(EntryView { art_png: Some(b), ..e })
            }
            &&& f.value matches Value::Number(v) ==> v <= u64::MAX ==> {
                &&& f.tag == 2 ==> read == Some(EntryView { size: v as u64, ..e })
                &&& f.tag == 3 ==> read == Some(EntryView { modified_unix_secs: v as u64, ..e })
                &&& f.tag == 1 || 4 <= f.tag <= 8 ==> read is None
            }
        }),
{
    lemma_fill_push(blank_entry(), fields, f);
}

} // verus!

//! File paths of a Unix system: byte strings, read part by part.

use vstd::prelude::*;
use vstd::string::*;
use vstd::utf8::*;

use crate::text::{lossy_text, read_lossy, utf8_text};

verus! {

/// A file path, as the system spells it.
pub struct FilePath {
    pub bytes: Vec<u8>,
}

impl View for FilePath {
    type V = Seq<u8>;

    open spec fn view(&self) -> Seq<u8> {
        self.bytes@
    }
}

impl Clone for FilePath {
    fn clone(&self) -> (path: FilePath)
        ensures
            path@ == self@,
    {
        let bytes = copy_bytes(&self.bytes, 0, self.bytes.len());
        assert(bytes@ =~= self@);
        FilePath { bytes }
    }
}

/// The path that may be there.
pub open spec fn opt_path(path: Option<FilePath>) -> Option<Seq<u8>> {
    match path {
        Some(p) => Some(p@),
        None => None,
    }
}

/// What a path is made of.
pub enum Part {
    /// The root directory, which an absolute path starts from.
    Root,
    /// A `.` at the very start of a relative path.
    Current,
    /// A `..`.
    Parent,
    /// The name of a file or directory.
    Name(Seq<u8>),
}

/// A part of a path, in memory.
pub enum PathPart {
    Root,
    Current,
    Parent,
    Name(Vec<u8>),
}

impl View for PathPart {
    type V = Part;

    open spec fn view(&self) -> Part {
        match self {
            PathPart::Root => Part::Root,
            PathPart::Current => Part::Current,
            PathPart::Parent => Part::Parent,
            PathPart::Name(name) => Part::Name(name@),
        }
    }
}

/// The byte `/`, which separates names.
pub const SLASH: u8 = 47;

/// The byte `.`.
pub const DOT: u8 = 46;

/// Where the piece that starts at `from` ends: at the next separator, or where `path` ends.
pub open spec fn piece_end(path: Seq<u8>, from: int) -> int
    decreases path.len() - from,
{
    if from < 0 || from >= path.len() || path[from] == SLASH {
        from
    } else {
        piece_end(path, from + 1)
    }
}

/// The part that a piece between separators stands for, if it stands for one.
pub open spec fn piece_part(piece: Seq<u8>, first: bool) -> Seq<Part> {
    if piece.len() == 0 {
        seq![]
    } else if piece == seq![DOT] {
        if first {
            seq![Part::Current]
        } else {
            seq![]
        }
    } else if piece == seq![DOT, DOT] {
        seq![Part::Parent]
    } else {
        seq![Part::Name(piece)]
    }
}

/// The parts that `path` names from the byte `from` on.
pub open spec fn parts_from(path: Seq<u8>, from: int) -> Seq<Part>
    decreases path.len() + 1 - from,
    when from >= 0
{
    if from >= path.len() {
        seq![]
    } else {
        let end = piece_end(path, from);
        proof {
            lemma_piece_end(path, from);
        }
        piece_part(path.subrange(from, end), from == 0) + parts_from(path, end + 1)
    }
}

/// The parts that `path` is made of.
pub open spec fn parts(path: Seq<u8>) -> Seq<Part> {
    if path.len() > 0 && path[0] == SLASH {
        seq![Part::Root] + parts_from(path, 0)
    } else {
        parts_from(path, 0)
    }
}

/// A piece ends within the path, no earlier than it starts, and holds no separator.
pub proof fn lemma_piece_end(path: Seq<u8>, from: int)
    requires
        0 <= from <= path.len(),
    ensures
        from <= piece_end(path, from) <= path.len(),
        piece_end(path, from) < path.len() ==> path[piece_end(path, from)] == SLASH,
        forall|i: int| from <= i < piece_end(path, from) ==> path[i] != SLASH,
    decreases path.len() - from,
{
    if from < path.len() && path[from] != SLASH {
        lemma_piece_end(path, from + 1);
    }
}

/// Whether two spellings are the same path.
pub open spec fn same_path(a: Seq<u8>, b: Seq<u8>) -> bool {
    parts(a) == parts(b)
}

/// The name that `path` ends with, if it ends with one.
pub open spec fn file_name(path: Seq<u8>) -> Option<Seq<u8>> {
    let p = parts(path);
    if p.len() == 0 {
        None
    } else {
        match p.last() {
            Part::Name(name) => Some(name),
            _ => None,
        }
    }
}

/// The name that `path` ends with, where it is text.
pub open spec fn file_name_text(path: Seq<u8>) -> Option<Seq<char>> {
    match file_name(path) {
        Some(name) => if valid_utf8(name) {
            Some(decode_utf8(name))
        } else {
            None
        },
        None => None,
    }
}

/// Where the last `.` of `name` stands; `-1` where there is none.
pub open spec fn last_dot(name: Seq<u8>) -> int
    decreases name.len(),
{
    if name.len() == 0 {
        -1
    } else if name.last() == DOT {
        name.len() - 1
    } else {
        last_dot(name.drop_last())
    }
}

/// What follows the last `.` of the file name, provided that something stands before it.
pub open spec fn extension(path: Seq<u8>) -> Option<Seq<u8>> {
    match file_name(path) {
        Some(name) => if last_dot(name) > 0 {
            Some(name.skip(last_dot(name) + 1))
        } else {
            None
        },
        None => None,
    }
}

/// `tail` inside the directory `base`; an absolute `tail` stands for itself.
pub open spec fn joined(base: Seq<u8>, tail: Seq<u8>) -> Seq<u8> {
    if tail.len() > 0 && tail[0] == SLASH {
        tail
    } else if base.len() == 0 || base.last() == SLASH {
        base + tail
    } else {
        base.push(SLASH) + tail
    }
}

/// Copies `bytes[from..to]`.
pub fn copy_bytes(bytes: &Vec<u8>, from: usize, to: usize) -> (out: Vec<u8>)
    requires
        from <= to <= bytes@.len(),
    ensures
        out@ == bytes@.subrange(from as int, to as int),
{
    let mut out: Vec<u8> = Vec::new();
    let mut i: usize = from;
    while i < to
        invariant
            from <= i <= to <= bytes@.len(),
            out@ == bytes@.subrange(from as int, i as int),
        decreases to - i,
    {
        out.push(bytes[i]);
        i = i + 1;
    }
    out
}

/// Whether `a` and `b` hold the same bytes.
pub fn same_bytes(a: &Vec<u8>, b: &Vec<u8>) -> (same: bool)
    ensures
        same == (a@ == b@),
{
    if a.len() != b.len() {
        return false;
    }
    let mut i: usize = 0;
    while i < a.len()
        invariant
            i <= a@.len(),
            a@.len() == b@.len(),
            forall|k: int| 0 <= k < i ==> a@[k] == b@[k],
        decreases a@.len() - i,
    {
        if a[i] != b[i] {
            return false;
        }
        i = i + 1;
    }
    assert(a@ =~= b@);
    true
}

/// The parts that a list of `PathPart` stands for.
pub open spec fn part_views(list: Seq<PathPart>) -> Seq<Part> {
    list.map_values(|p: PathPart| p@)
}

impl FilePath {
    /// The path spelled by `text`.
    pub fn from_text(text: &str) -> (path: FilePath)
        ensures
            path@ == encode_utf8(text@),
    {
        FilePath { bytes: text.as_bytes_vec() }
    }

    /// The parts of the path, from the first to the last.
    pub fn path_parts(&self) -> (list: Vec<PathPart>)
        ensures
            part_views(list@) == parts(self@),
    {
        let bytes = &self.bytes;
        let mut list: Vec<PathPart> = Vec::new();
        if bytes.len() > 0 && bytes[0] == SLASH {
            list.push(PathPart::Root);
        }
        let mut from: usize = 0;
        assert(part_views(list@) + parts_from(self@, 0) =~= parts(self@));
        while from < bytes.len()
            invariant
                bytes@ == self@,
                part_views(list@) + parts_from(self@, from as int) == parts(self@),
            decreases bytes@.len() - from,
        {
            let mut end: usize = from;
            while end < bytes.len() && bytes[end] != SLASH
                invariant
                    from <= end <= bytes@.len(),
                    piece_end(bytes@, from as int) == piece_end(bytes@, end as int),
                decreases bytes@.len() - end,
            {
                end = end + 1;
            }
            let piece = copy_bytes(bytes, from, end);
            let ghost before = list@;
            if piece.len() == 0 {
                assert(part_views(list@) =~= part_views(before) + piece_part(piece@, from == 0));
            } else if piece.len() == 1 && piece[0] == DOT {
                assert(piece@ =~= seq![DOT]);
                if from == 0 {
                    list.push(PathPart::Current);
                }
                assert(part_views(list@) =~= part_views(before) + piece_part(piece@, from == 0));
            } else if piece.len() == 2 && piece[0] == DOT && piece[1] == DOT {
                assert(piece@ =~= seq![DOT, DOT]);
                list.push(PathPart::Parent);
                assert(part_views(list@) =~= part_views(before) + piece_part(piece@, from == 0));
            } else {
                assert(piece@ != seq![DOT]) by {
                    assert(seq![DOT].len() == 1);
                    assert(seq![DOT][0] == DOT);
                }
                assert(piece@ != seq![DOT, DOT]) by {
                    assert(seq![DOT, DOT].len() == 2);
                    assert(seq![DOT, DOT][0] == DOT);
                    assert(seq![DOT, DOT][1] == DOT);
                }
                let ghost named = piece@;
                list.push(PathPart::Name(piece));
                assert(part_views(list@) =~= part_views(before) + piece_part(named, from == 0));
            }
            assert(part_views(list@) + parts_from(self@, end + 1) =~= part_views(before)
                + parts_from(self@, from as int));
            if end == bytes.len() {
                assert(parts_from(self@, end + 1) =~= seq![]);
                assert(part_views(list@) =~= parts(self@));
                return list;
            }
            from = end + 1;
        }
        assert(part_views(list@) =~= parts(self@));
        list
    }

    /// Whether `other` is the same path.
    pub fn same_as(&self, other: &FilePath) -> (same: bool)
        ensures
            same == same_path(self@, other@),
    {
        let a = self.path_parts();
        let b = other.path_parts();
        same_parts(&a, &b)
    }

    /// The name that the path ends with, if it ends with one.
    pub fn name(&self) -> (name: Option<Vec<u8>>)
        ensures
            name is Some <==> file_name(self@) is Some,
            name matches Some(n) ==> n@ == file_name(self@)->0,
    {
        let mut list = self.path_parts();
        let ghost all = list@;
        match list.pop() {
            Some(PathPart::Name(name)) => {
                assert(parts(self@).last() == all.last()@);
                Some(name)
            },
            Some(_) => {
                assert(parts(self@).last() == all.last()@);
                None
            },
            None => {
                assert(parts(self@).len() == all.len());
                None
            },
        }
    }

    /// The name that the path ends with, where it is text.
    pub fn name_text(&self) -> (name: Option<String>)
        ensures
            name is Some <==> file_name_text(self@) is Some,
            name matches Some(n) ==> n@ == file_name_text(self@)->0,
    {
        match self.name() {
            Some(name) => utf8_text(name.as_slice()),
            None => None,
        }
    }

    /// The path as text, with replacement characters where it is not UTF-8.
    pub fn lossy(&self) -> (text: String)
        ensures
            text@ == lossy_text(self@),
    {
        read_lossy(self.bytes.as_slice())
    }

    /// Whether the file name ends in `.mp3`, in capitals or small letters.
    pub fn is_mp3(&self) -> (mp3: bool)
        ensures
            mp3 == has_mp3_extension(self@),
    {
        match self.name() {
            Some(name) => {
                let n: usize = name.len();
                let mut i: usize = n;
                assert(name@.take(n as int) =~= name@);
                while i > 0 && name[i - 1] != DOT
                    invariant
                        i <= n == name@.len(),
                        last_dot(name@) == last_dot(name@.take(i as int)),
                    decreases i,
                {
                    assert(name@.take(i as int).drop_last() =~= name@.take(i - 1));
                    i = i - 1;
                }
                assert(last_dot(name@) == i - 1);
                if i < 2 {
                    return false;
                }
                assert(name@.skip(i as int).len() == n - i);
                n - i == 3 && (name[i] == 'm' as u8 || name[i] == 'M' as u8) && (name[i + 1] == 'p' as u8 || name[i
                    + 1] == 'P' as u8) && name[i + 2] == '3' as u8
            },
            None => false,
        }
    }

    /// The path of `tail` inside this directory.
    pub fn join(&self, tail: &FilePath) -> (path: FilePath)
        ensures
            path@ == joined(self@, tail@),
    {
        if tail.bytes.len() > 0 && tail.bytes[0] == SLASH {
            return tail.clone();
        }
        let mut bytes = self.clone().bytes;
        if bytes.len() > 0 && bytes[bytes.len() - 1] != SLASH {
            bytes.push(SLASH);
        }
        let ghost start = bytes@;
        let mut i: usize = 0;
        while i < tail.bytes.len()
            invariant
                i <= tail@.len(),
                bytes@ == start + tail@.take(i as int),
            decreases tail@.len() - i,
        {
            bytes.push(tail.bytes[i]);
            i = i + 1;
            assert(start + tail@.take(i as int) =~= (start + tail@.take(i - 1)).push(tail@[i - 1]));
        }
        assert(tail@.take(i as int) =~= tail@);
        FilePath { bytes }
    }
}

/// Whether the extension of `path` is `mp3`, in capitals or small letters.
pub open spec fn has_mp3_extension(path: Seq<u8>) -> bool {
    match extension(path) {
        Some(e) => {
            &&& e.len() == 3
            &&& e[0] == 'm' as u8 || e[0] == 'M' as u8
            &&& e[1] == 'p' as u8 || e[1] == 'P' as u8
            &&& e[2] == '3' as u8
        },
        None => false,
    }
}

/// Whether two lists name the same parts.
pub fn same_parts(a: &Vec<PathPart>, b: &Vec<PathPart>) -> (same: bool)
    ensures
        same == (part_views(a@) == part_views(b@)),
{
    if a.len() != b.len() {
        assert(part_views(a@).len() == a@.len() && part_views(b@).len() == b@.len());
        return false;
    }
    let mut i: usize = 0;
    while i < a.len()
        invariant
            i <= a@.len(),
            a@.len() == b@.len(),
            forall|k: int| 0 <= k < i ==> a@[k]@ == b@[k]@,
        decreases a@.len() - i,
    {
        let same = match (&a[i], &b[i]) {
            (PathPart::Root, PathPart::Root) => true,
            (PathPart::Current, PathPart::Current) => true,
            (PathPart::Parent, PathPart::Parent) => true,
            (PathPart::Name(m), PathPart::Name(n)) => same_bytes(m, n),
            _ => false,
        };
        if !same {
            assert(part_views(a@)[i as int] != part_views(b@)[i as int]);
            return false;
        }
        i = i + 1;
    }
    assert(part_views(a@) =~= part_views(b@));
    true
}

/// Whether `piece` holds no separator.
pub open spec fn one_piece(piece: Seq<u8>) -> bool {
    forall|i: int| 0 <= i < piece.len() ==> #[trigger] piece[i] != 47
}

/// Whether `name` can be the name of a file: it is not empty, holds no separator, and is neither
/// `.` nor `..`.
pub open spec fn plain_name(name: Seq<u8>) -> bool {
    &&& one_piece(name)
    &&& name.len() > 0
    &&& name != seq![46u8]
    &&& name != seq![46u8, 46u8]
}

proof fn lemma_piece_end_at(path: Seq<u8>, from: int, end: int)
    requires
        0 <= from <= end <= path.len(),
        forall|i: int| from <= i < end ==> #[trigger] path[i] != SLASH,
        end < path.len() ==> path[end] == SLASH,
    ensures
        piece_end(path, from) == end,
    decreases end - from,
{
    if from < end {
        assert(path[from] != SLASH);
        lemma_piece_end_at(path, from + 1, end);
    }
}

proof fn lemma_last_piece(path: Seq<u8>, from: int)
    requires
        0 <= from <= path.len(),
        one_piece(path.skip(from)),
    ensures
        parts_from(path, from) == piece_part(path.skip(from), from == 0),
{
    let piece = path.skip(from);
    if from < path.len() {
        assert forall|i: int| from <= i < path.len() implies #[trigger] path[i] != SLASH by {
            assert(piece[i - from] == path[i]);
        }
        lemma_piece_end_at(path, from, path.len() as int);
        assert(path.subrange(from, path.len() as int) =~= piece);
        assert(parts_from(path, path.len() as int + 1) =~= seq![]);
        assert(parts_from(path, from) =~= piece_part(piece, from == 0));
    } else {
        assert(parts_from(path, from) =~= seq![]);
        assert(piece_part(piece, from == 0) =~= seq![]);
    }
}

proof fn lemma_parts_longer(path: Seq<u8>, piece: Seq<u8>, from: int)
    requires
        0 <= from <= path.len(),
        one_piece(piece),
    ensures
        parts_from(path + seq![SLASH] + piece, from) == parts_from(path, from) + piece_part(
            piece,
            false,
        ),
    decreases path.len() - from,
{
    let longer = path + seq![SLASH] + piece;
    let n = path.len() as int;
    assert(longer.skip(n + 1) =~= piece);
    lemma_last_piece(longer, n + 1);
    if from == n {
        lemma_piece_end_at(longer, from, from);
        assert(longer.subrange(from, from) =~= seq![]);
        assert(parts_from(longer, from) =~= parts_from(path, from) + piece_part(piece, false));
    } else {
        lemma_piece_end(path, from);
        let end = piece_end(path, from);
        assert forall|i: int| from <= i < end implies #[trigger] longer[i] != SLASH by {
            assert(longer[i] == path[i]);
        }
        assert(longer[end] == SLASH);
        lemma_piece_end_at(longer, from, end);
        assert(longer.subrange(from, end) =~= path.subrange(from, end));
        if end < n {
            lemma_parts_longer(path, piece, end + 1);
        } else {
            assert(parts_from(path, end + 1) =~= seq![]);
        }
        assert(parts_from(longer, from) =~= parts_from(path, from) + piece_part(piece, false));
    }
}

/// A path without a separator is one part: `.` is the current directory, `..` the parent, and
/// anything else a name. The empty path has no parts.
pub proof fn lemma_parts_one(piece: Seq<u8>)
    requires
        one_piece(piece),
    ensures
        piece.len() == 0 ==> parts(piece).len() == 0,
        piece == seq![46u8] ==> parts(piece) == seq![Part::Current],
        piece == seq![46u8, 46u8] ==> parts(piece) == seq![Part::Parent],
        plain_name(piece) ==> parts(piece) == seq![Part::Name(piece)],
{
    assert(piece.skip(0) =~= piece);
    lemma_last_piece(piece, 0);
    assert(seq![46u8].len() == 1 && seq![46u8, 46u8].len() == 2);
    if piece.len() > 0 {
        assert(piece[0] != SLASH);
    }
}

/// A piece behind a separator adds a part to the path before it: `..` the parent, and a name
/// itself; `.` and nothing at all add none. What starts with a separator starts at the root.
pub proof fn lemma_parts_more(path: Seq<u8>, piece: Seq<u8>)
    requires
        one_piece(piece),
    ensures
        ({
            let before = if path.len() == 0 {
                seq![Part::Root]
            } else {
                parts(path)
            };
            let all = parts(path + seq![47u8] + piece);
            &&& piece.len() == 0 ==> all == before
            &&& piece == seq![46u8] ==> all == before
            &&& piece == seq![46u8, 46u8] ==> all == before.push(Part::Parent)
            &&& plain_name(piece) ==> all == before.push(Part::Name(piece))
        }),
{
    let longer = path + seq![SLASH] + piece;
    lemma_parts_longer(path, piece, 0);
    assert(seq![46u8].len() == 1 && seq![46u8, 46u8].len() == 2);
    assert(longer[0] == (if path.len() == 0 {
        SLASH
    } else {
        path[0]
    }));
    let before = if path.len() == 0 {
        seq![Part::Root]
    } else {
        parts(path)
    };
    assert(path.len() == 0 ==> parts_from(path, 0) =~= seq![]);
    assert(parts(longer) =~= before + piece_part(piece, false));
    if plain_name(piece) {
        assert(before + piece_part(piece, false) =~= before.push(Part::Name(piece)));
    } else if piece == seq![46u8, 46u8] {
        assert(before + piece_part(piece, false) =~= before.push(Part::Parent));
    } else {
        assert(before + piece_part(piece, false) =~= before);
    }
}

/// Two paths that end with names are the same path if and only if the names are the same and
/// what is before them is the same path. A separator at the end, a doubled one and a `.` between
/// two make no difference.
pub proof fn lemma_same_path(a: Seq<u8>, x: Seq<u8>, b: Seq<u8>, y: Seq<u8>)
    requires
        a.len() > 0,
        b.len() > 0,
        plain_name(x),
        plain_name(y),
    ensures
        same_path(a + seq![47u8] + x, b + seq![47u8] + y) <==> same_path(a, b) && x == y,
        same_path(a + seq![47u8], a),
        same_path(a + seq![47u8, 47u8] + x, a + seq![47u8] + x),
        same_path(a + seq![47u8, 46u8, 47u8] + x, a + seq![47u8] + x),
{
    lemma_parts_more(a, x);
    lemma_parts_more(b, y);
    let pa = parts(a).push(Part::Name(x));
    let pb = parts(b).push(Part::Name(y));
    assert(pa.drop_last() =~= parts(a) && pb.drop_last() =~= parts(b));
    assert(pa.last() == Part::Name(x) && pb.last() == Part::Name(y));
    if x == y && parts(a) == parts(b) {
        assert(pa == pb);
    }
    lemma_parts_more(a, seq![]);
    assert(a + seq![47u8] + seq![] =~= a + seq![47u8]);
    lemma_parts_more(a + seq![47u8], x);
    assert(a + seq![47u8] + seq![47u8] + x =~= a + seq![47u8, 47u8] + x);
    lemma_parts_more(a, seq![46u8]);
    lemma_parts_more(a + seq![47u8] + seq![46u8], x);
    assert(a + seq![47u8] + seq![46u8] + seq![47u8] + x =~= a + seq![47u8, 46u8, 47u8] + x);
}

/// Being the same path is having the same parts, one by one.
pub proof fn lemma_same_parts(a: Seq<u8>, b: Seq<u8>)
    ensures
        same_path(a, b) <==> {
            &&& parts(a).len() == parts(b).len()
            &&& forall|i: int| 0 <= i < parts(a).len() ==> #[trigger] parts(a)[i] == parts(b)[i]
        },
{
    if parts(a).len() == parts(b).len() && (forall|i: int|
        0 <= i < parts(a).len() ==> #[trigger] parts(a)[i] == parts(b)[i]) {
        assert(parts(a) =~= parts(b));
    }
}

/// The file name of a path is the name behind its last separator, and the whole of a path that
/// is a name. A path that ends with `..` has none, and neither has the root.
pub proof fn lemma_file_name(dir: Seq<u8>, name: Seq<u8>)
    requires
        plain_name(name),
    ensures
        file_name(name) == Some(name),
        file_name(dir + seq![47u8] + name) == Some(name),
        file_name(dir + seq![47u8] + name + seq![47u8]) == Some(name),
        file_name(dir + seq![47u8, 46u8, 46u8]) is None,
        file_name(seq![47u8]) is None,
        file_name(seq![]) is None,
{
    lemma_parts_one(name);
    lemma_parts_more(dir, name);
    let path = dir + seq![47u8] + name;
    lemma_parts_more(path, seq![]);
    assert(path + seq![47u8] + seq![] =~= path + seq![47u8]);
    lemma_parts_more(dir, seq![46u8, 46u8]);
    assert(dir + seq![47u8] + seq![46u8, 46u8] =~= dir + seq![47u8, 46u8, 46u8]);
    lemma_parts_more(seq![], seq![]);
    assert(seq![] + seq![47u8] + seq![] =~= seq![47u8]);
    lemma_parts_one(seq![]);
}

/// The file name of a path is its last part, where that is a name.
pub proof fn lemma_file_name_part(path: Seq<u8>, name: Seq<u8>)
    ensures
        file_name(path) == Some(name) <==> parts(path).len() > 0 && parts(path).last()
            == Part::Name(name),
        file_name(path) == Some(name) && valid_utf8(name) ==> file_name_text(path) == Some(
            decode_utf8(name),
        ),
        file_name(path) == Some(name) && !valid_utf8(name) ==> file_name_text(path) is None,
        file_name(path) is None ==> file_name_text(path) is None,
{
}

/// Whether `name` ends in `.mp3`, in capital or small letters, and has something before that.
pub open spec fn ends_in_mp3(name: Seq<u8>) -> bool {
    let n = name.len();
    &&& n > 4
    &&& name[n - 4] == 46
    &&& name[n - 3] == 109 || name[n - 3] == 77
    &&& name[n - 2] == 112 || name[n - 2] == 80
    &&& name[n - 1] == 51
}

proof fn lemma_last_dot(name: Seq<u8>, at: int)
    requires
        0 <= at < name.len(),
        name[at] == DOT,
        forall|i: int| at < i < name.len() ==> #[trigger] name[i] != DOT,
    ensures
        last_dot(name) == at,
    decreases name.len(),
{
    if at < name.len() - 1 {
        assert(name[name.len() - 1] != DOT);
        lemma_last_dot(name.drop_last(), at);
    }
}

proof fn lemma_last_dot_is(name: Seq<u8>)
    ensures
        -1 <= last_dot(name) < name.len(),
        last_dot(name) >= 0 ==> name[last_dot(name)] == DOT,
    decreases name.len(),
{
    if name.len() > 0 && name.last() != DOT {
        lemma_last_dot_is(name.drop_last());
    }
}

/// The MP3 files are those whose file name ends in `.mp3`, in whatever directory they are.
pub proof fn lemma_mp3(path: Seq<u8>, dir: Seq<u8>, name: Seq<u8>)
    ensures
        has_mp3_extension(path) <==> (file_name(path) matches Some(n) && ends_in_mp3(n)),
        plain_name(name) ==> (has_mp3_extension(name) <==> ends_in_mp3(name)),
        plain_name(name) ==> (has_mp3_extension(dir + seq![47u8] + name) <==> ends_in_mp3(name)),
{
    lemma_mp3_of(path);
    if plain_name(name) {
        lemma_file_name(dir, name);
        lemma_mp3_of(name);
        lemma_mp3_of(dir + seq![47u8] + name);
    }
}

proof fn lemma_mp3_of(path: Seq<u8>)
    ensures
        has_mp3_extension(path) <==> (file_name(path) matches Some(n) && ends_in_mp3(n)),
{
    if file_name(path) is Some {
        let name = file_name(path)->0;
        lemma_last_dot_is(name);
        if ends_in_mp3(name) {
            lemma_last_dot(name, name.len() - 4);
            assert(name.skip(name.len() - 3).len() == 3);
        }
        if has_mp3_extension(path) {
            let at = last_dot(name);
            assert(name.skip(at + 1).len() == 3);
            assert(name.skip(at + 1)[0] == name[at + 1]);
            assert(name.skip(at + 1)[1] == name[at + 2]);
            assert(name.skip(at + 1)[2] == name[at + 3]);
        }
    }
}

/// A relative path, joined to a directory, is the directory followed by the path, with one
/// separator between them where the directory does not end with one. An absolute path stays as
/// it is. A name inside a directory is one part more.
pub proof fn lemma_joined(dir: Seq<u8>, tail: Seq<u8>)
    ensures
        tail.len() > 0 && tail[0] == 47 ==> joined(dir, tail) == tail,
        (tail.len() == 0 || tail[0] != 47) && (dir.len() == 0 || dir.last() == 47) ==> joined(
            dir,
            tail,
        ) == dir + tail,
        (tail.len() == 0 || tail[0] != 47) && dir.len() > 0 && dir.last() != 47 ==> joined(
            dir,
            tail,
        ) == dir + seq![47u8] + tail,
        plain_name(tail) ==> parts(joined(dir, tail)) == parts(dir).push(Part::Name(tail)),
{
    if dir.len() > 0 && dir.last() != 47 {
        assert(dir.push(SLASH) + tail =~= dir + seq![47u8] + tail);
    }
    if plain_name(tail) {
        assert(tail[0] != 47);
        if dir.len() == 0 {
            assert(dir + tail =~= tail);
            lemma_parts_one(tail);
            lemma_parts_one(dir);
            assert(parts(dir).push(Part::Name(tail)) =~= seq![Part::Name(tail)]);
        } else if dir.last() == 47 {
            let head = dir.drop_last();
            assert(head + seq![47u8] + tail =~= dir + tail);
            assert(head + seq![47u8] + seq![] =~= dir);
            lemma_parts_more(head, tail);
            lemma_parts_more(head, seq![]);
        } else {
            lemma_parts_more(dir, tail);
        }
    }
}

/// A path is what its bytes are; a path made of a text is the bytes of the text.
pub proof fn lemma_path_views(path: FilePath, part: PathPart, list: Seq<PathPart>)
    ensures
        path@ == path.bytes@,
        opt_path(Some(path)) == Some(path.bytes@),
        opt_path(None) is None,
        part matches PathPart::Name(name) ==> part@ == Part::Name(name@),
        part is Root ==> part@ is Root,
        part is Current ==> part@ is Current,
        part is Parent ==> part@ is Parent,
        part_views(list).len() == list.len(),
        forall|i: int| 0 <= i < list.len() ==> #[trigger] part_views(list)[i] == list[i]@,
{
}

} // verus!

//! Text as sequences of characters: trimming, folding case, searching, counting lines,
//! writing numbers.

use vstd::prelude::*;
use vstd::string::*;
use vstd::utf8::*;

verus! {

/// Claims of `String::push` that the character is appended.
pub assume_specification[ String::push ](s: &mut String, c: char)
    ensures
        final(s)@ == old(s)@.push(c),
;

/// Claims of `String::pop` that it takes the last character off, if there is one.
pub assume_specification[ String::pop ](s: &mut String) -> (last: Option<char>)
    ensures
        old(s)@.len() == 0 ==> last is None && final(s)@ == old(s)@,
        old(s)@.len() > 0 ==> last == Some(old(s)@.last()) && final(s)@ == old(s)@.drop_last(),
;

/// Claims of `String::clear` that nothing is left.
pub assume_specification[ String::clear ](s: &mut String)
    ensures
        final(s)@ == Seq::<char>::empty(),
;

/// Wraps `str::from_utf8`: it claims that the bytes are read as UTF-8, and refused exactly when
/// they are not UTF-8.
#[verifier::external_body]
pub(crate) fn utf8_text(bytes: &[u8]) -> (text: Option<String>)
    ensures
        text is Some <==> valid_utf8(bytes@),
        text matches Some(t) ==> t@ == decode_utf8(bytes@),
{
    match std::str::from_utf8(bytes) {
        Ok(text) => Some(String::from(text)),
        Err(_) => None,
    }
}

/// What `String::from_utf8_lossy` makes of bytes that are not UTF-8: text with replacement
/// characters in it.
pub uninterp spec fn replaced_text(bytes: Seq<u8>) -> Seq<char>;

/// The text that bytes are shown as: the text they encode, with replacement characters where
/// they are not UTF-8.
pub open spec fn lossy_text(bytes: Seq<u8>) -> Seq<char> {
    if valid_utf8(bytes) {
        decode_utf8(bytes)
    } else {
        replaced_text(bytes)
    }
}

/// Wraps `String::from_utf8_lossy`: it claims that UTF-8 is read as it stands, and that the
/// text made of other bytes depends on the bytes alone. Where the replacement characters fall
/// is not stated.
#[verifier::external_body]
pub(crate) fn read_lossy(bytes: &[u8]) -> (text: String)
    ensures
        text@ == (if valid_utf8(bytes@) {
            decode_utf8(bytes@)
        } else {
            replaced_text(bytes@)
        }),
{
    String::from_utf8_lossy(bytes).into_owned()
}

/// The characters of `s`.
pub fn chars_of(s: &str) -> (chars: Vec<char>)
    ensures
        chars@ == s@,
{
    let mut chars: Vec<char> = Vec::new();
    for c in iter: s.chars()
        invariant
            chars@ == iter.seq().take(iter.index() as int),
            iter.seq() == s@,
    {
        chars.push(c);
    }
    chars
}

/// The text made of `chars[from..to]`.
pub fn text_of(chars: &Vec<char>, from: usize, to: usize) -> (s: String)
    requires
        from <= to <= chars@.len(),
    ensures
        s@ == chars@.subrange(from as int, to as int),
{
    let mut s = String::new();
    let mut i: usize = from;
    while i < to
        invariant
            from <= i <= to <= chars@.len(),
            s@ == chars@.subrange(from as int, i as int),
        decreases to - i,
    {
        s.push(chars[i]);
        i = i + 1;
    }
    s
}

/// Whether `a` and `b` are the same text.
pub fn same_text(a: &str, b: &str) -> (same: bool)
    ensures
        same == (a@ == b@),
{
    a.to_owned() == b.to_owned()
}

/// Whether `c` has the Unicode property White_Space.
pub open spec fn is_space(c: char) -> bool {
    let n = c as u32;
    ||| 0x09 <= n <= 0x0d
    ||| n == 0x20
    ||| n == 0x85
    ||| n == 0xa0
    ||| n == 0x1680
    ||| 0x2000 <= n <= 0x200a
    ||| n == 0x2028
    ||| n == 0x2029
    ||| n == 0x202f
    ||| n == 0x205f
    ||| n == 0x3000
}

/// Tells whether `c` is white space.
pub fn char_is_space(c: char) -> (space: bool)
    ensures
        space == is_space(c),
{
    let n: u32 = c as u32;
    (0x09 <= n && n <= 0x0d) || n == 0x20 || n == 0x85 || n == 0xa0 || n == 0x1680 || (0x2000 <= n
        && n <= 0x200a) || n == 0x2028 || n == 0x2029 || n == 0x202f || n == 0x205f || n == 0x3000
}

/// `s` without the white space that it starts with.
pub open spec fn trim_start(s: Seq<char>) -> Seq<char>
    decreases s.len(),
{
    if s.len() > 0 && is_space(s[0]) {
        trim_start(s.skip(1))
    } else {
        s
    }
}

/// `s` without the white space that it ends with.
pub open spec fn trim_end(s: Seq<char>) -> Seq<char>
    decreases s.len(),
{
    if s.len() > 0 && is_space(s.last()) {
        trim_end(s.drop_last())
    } else {
        s
    }
}

/// `s` without the white space at both ends.
pub open spec fn trimmed(s: Seq<char>) -> Seq<char> {
    trim_end(trim_start(s))
}

proof fn lemma_trim_start(s: Seq<char>)
    ensures
        trim_start(s).len() > 0 ==> !is_space(trim_start(s)[0]),
    decreases s.len(),
{
    if s.len() > 0 && is_space(s[0]) {
        lemma_trim_start(s.drop_first());
    }
}

proof fn lemma_trim_end(s: Seq<char>)
    ensures
        trim_end(s).len() <= s.len(),
        trim_end(s) == s.take(trim_end(s).len() as int),
        trim_end(s).len() > 0 ==> !is_space(trim_end(s).last()),
    decreases s.len(),
{
    if s.len() > 0 && is_space(s.last()) {
        lemma_trim_end(s.drop_last());
        assert(s.drop_last().take(trim_end(s).len() as int) =~= s.take(trim_end(s).len() as int));
    } else {
        assert(s.take(s.len() as int) =~= s);
    }
}

/// A text without white space around it stays as it is.
pub proof fn lemma_trim_twice(s: Seq<char>)
    ensures
        trimmed(trimmed(s)) == trimmed(s),
{
    let t = trimmed(s);
    lemma_trim_start(s);
    lemma_trim_end(trim_start(s));
    if t.len() > 0 {
        assert(t[0] == trim_start(s)[0]);
    }
}

/// Takes the white space off both ends of `s`.
pub fn trim(s: &str) -> (t: String)
    ensures
        t@ == trimmed(s@),
{
    let chars = chars_of(s);
    let mut from: usize = 0;
    assert(s@.skip(0) =~= s@);
    while from < chars.len() && char_is_space(chars[from])
        invariant
            from <= chars@.len(),
            chars@ == s@,
            trim_start(s@) == trim_start(s@.skip(from as int)),
        decreases chars@.len() - from,
    {
        assert(s@.skip(from as int).skip(1) =~= s@.skip(from + 1));
        from = from + 1;
    }
    let ghost rest = s@.skip(from as int);
    assert(trim_start(s@) == rest);
    let mut to: usize = chars.len();
    assert(rest =~= s@.subrange(from as int, to as int));
    while from < to && char_is_space(chars[to - 1])
        invariant
            from <= to <= chars@.len(),
            chars@ == s@,
            trim_end(rest) == trim_end(s@.subrange(from as int, to as int)),
        decreases to,
    {
        assert(s@.subrange(from as int, to as int).drop_last() =~= s@.subrange(
            from as int,
            to - 1,
        ));
        to = to - 1;
    }
    text_of(&chars, from, to)
}

/// `c` with an ASCII capital folded to its small letter.
pub open spec fn lower_char(c: char) -> char {
    if 'A' <= c <= 'Z' {
        ((c as u8) + 32) as char
    } else {
        c
    }
}

/// `s` with every ASCII capital folded to its small letter.
pub open spec fn lower(s: Seq<char>) -> Seq<char> {
    s.map_values(|c: char| lower_char(c))
}

/// Folds the ASCII capitals of `s` to small letters.
pub fn to_lower(s: &str) -> (t: String)
    ensures
        t@ == lower(s@),
{
    let chars = chars_of(s);
    let mut t = String::new();
    let mut i: usize = 0;
    while i < chars.len()
        invariant
            i <= chars@.len(),
            chars@ == s@,
            t@ == lower(s@).take(i as int),
        decreases chars@.len() - i,
    {
        let c = chars[i];
        if 'A' <= c && c <= 'Z' {
            t.push(((c as u8) + 32) as char);
        } else {
            t.push(c);
        }
        i = i + 1;
        assert(lower(s@).take(i as int) =~= lower(s@).take(i - 1).push(lower_char(c)));
    }
    assert(lower(s@).take(i as int) =~= lower(s@));
    t
}

/// Whether `needle` stands somewhere in `hay`.
pub open spec fn has_text(hay: Seq<char>, needle: Seq<char>) -> bool {
    exists|i: int| #[trigger] stands_at(hay, needle, i)
}

/// Whether `needle` stands in `hay` from position `i` on.
pub open spec fn stands_at(hay: Seq<char>, needle: Seq<char>, i: int) -> bool {
    0 <= i <= hay.len() - needle.len() && hay.subrange(i, i + needle.len()) == needle
}

/// Tells whether `needle` stands somewhere in `hay`.
pub fn contains_text(hay: &str, needle: &str) -> (found: bool)
    ensures
        found == has_text(hay@, needle@),
{
    let h = chars_of(hay);
    let n = chars_of(needle);
    if n.len() > h.len() {
        return false;
    }
    let last: usize = h.len() - n.len();
    let mut i: usize = 0;
    while i <= last
        invariant
            i <= last + 1,
            h@ == hay@,
            n@ == needle@,
            last + n@.len() == h.len(),
            forall|k: int| 0 <= k < i ==> !#[trigger] stands_at(hay@, needle@, k),
        decreases last + 1 - i,
    {
        let mut j: usize = 0;
        while j < n.len() && h[i + j] == n[j]
            invariant
                i <= last,
                h@ == hay@,
                n@ == needle@,
                last + n@.len() == h.len(),
                j <= n@.len(),
                forall|k: int| 0 <= k < j ==> hay@[i + k] == #[trigger] needle@[k],
            decreases n@.len() - j,
        {
            j = j + 1;
        }
        if j == n.len() {
            assert(hay@.subrange(i as int, i + n@.len()) =~= needle@);
            assert(stands_at(hay@, needle@, i as int));
            return true;
        }
        assert(!stands_at(hay@, needle@, i as int)) by {
            assert(hay@.subrange(i as int, i + n@.len())[j as int] != needle@[j as int]);
        }
        if i == last {
            return false;
        }
        i = i + 1;
    }
    false
}

/// How many line feeds `s` holds.
pub open spec fn line_feeds(s: Seq<char>) -> nat
    decreases s.len(),
{
    if s.len() == 0 {
        0
    } else {
        line_feeds(s.drop_last()) + (if s.last() == '\n' {
            1nat
        } else {
            0nat
        })
    }
}

/// How many lines `s` has: a line ends with a line feed or at the end of the text.
pub open spec fn line_count(s: Seq<char>) -> nat {
    line_feeds(s) + (if s.len() > 0 && s.last() != '\n' {
        1nat
    } else {
        0nat
    })
}

/// Counts the lines of `s`.
pub fn count_lines(s: &str) -> (n: usize)
    ensures
        n == line_count(s@),
{
    let chars = chars_of(s);
    let mut n: usize = 0;
    let mut i: usize = 0;
    while i < chars.len()
        invariant
            i <= chars@.len(),
            chars@ == s@,
            n == line_feeds(s@.take(i as int)),
            n <= i,
            n == i ==> i == 0 || s@[i - 1] == '\n',
        decreases chars@.len() - i,
    {
        if chars[i] == '\n' {
            n = n + 1;
        }
        i = i + 1;
        assert(s@.take(i as int).drop_last() =~= s@.take(i - 1));
    }
    assert(s@.take(i as int) =~= s@);
    if chars.len() > 0 && chars[chars.len() - 1] != '\n' {
        n = n + 1;
    }
    n
}

/// The decimal digit `d`.
pub open spec fn digit(d: nat) -> char {
    (48 + d) as char
}

/// The number `n` in decimal, without leading zeros.
pub open spec fn decimal(n: nat) -> Seq<char>
    decreases n,
{
    if n < 10 {
        seq![digit(n)]
    } else {
        decimal(n / 10).push(digit(n % 10))
    }
}

/// The number `n` in decimal, with at least two digits.
pub open spec fn two_digits(n: nat) -> Seq<char> {
    if n < 10 {
        seq!['0', digit(n)]
    } else {
        decimal(n)
    }
}

/// Writes `n` in decimal.
pub fn decimal_text(n: u128) -> (s: String)
    ensures
        s@ == decimal(n as nat),
    decreases n,
{
    if n < 10 {
        let mut s = String::new();
        s.push((48u8 + n as u8) as char);
        s
    } else {
        let mut s = decimal_text(n / 10);
        s.push((48u8 + (n % 10) as u8) as char);
        s
    }
}

/// Writes `n` in decimal with at least two digits.
pub fn two_digit_text(n: u128) -> (s: String)
    ensures
        s@ == two_digits(n as nat),
{
    if n < 10 {
        let mut s = String::new();
        s.push('0');
        s.push((48u8 + n as u8) as char);
        s
    } else {
        decimal_text(n)
    }
}

/// White space is these characters and no others: tab, line feed, vertical tab, form feed,
/// carriage return, space, next line, no-break space, the spaces of Ogham and of typography, the
/// separators of lines and paragraphs, and the ideographic space.
pub proof fn lemma_spaces(c: char)
    ensures
        is_space(c) <==> seq![
            '\u{9}', '\u{a}', '\u{b}', '\u{c}', '\u{d}', ' ', '\u{85}', '\u{a0}', '\u{1680}',
            '\u{2000}', '\u{2001}', '\u{2002}', '\u{2003}', '\u{2004}', '\u{2005}', '\u{2006}',
            '\u{2007}', '\u{2008}', '\u{2009}', '\u{200a}', '\u{2028}', '\u{2029}', '\u{202f}',
            '\u{205f}', '\u{3000}',
        ].contains(c),
{
    let all = seq![
        '\u{9}', '\u{a}', '\u{b}', '\u{c}', '\u{d}', ' ', '\u{85}', '\u{a0}', '\u{1680}',
        '\u{2000}', '\u{2001}', '\u{2002}', '\u{2003}', '\u{2004}', '\u{2005}', '\u{2006}',
        '\u{2007}', '\u{2008}', '\u{2009}', '\u{200a}', '\u{2028}', '\u{2029}', '\u{202f}',
        '\u{205f}', '\u{3000}',
    ];
    let n = c as u32;
    if is_space(c) {
        let i: int = if n <= 0x0d {
            n - 9
        } else if n == 0x20 {
            5
        } else if n == 0x85 {
            6
        } else if n == 0xa0 {
            7
        } else if n == 0x1680 {
            8
        } else if n <= 0x200a {
            n - 0x2000 + 9
        } else if n == 0x2028 {
            20
        } else if n == 0x2029 {
            21
        } else if n == 0x202f {
            22
        } else if n == 0x205f {
            23
        } else {
            24
        };
        assert(all[i] == c);
    }
    if all.contains(c) {
        let i = choose|i: int| 0 <= i < all.len() && all[i] == c;
        assert(0 <= i < 25);
    }
}

/// Trimming cuts off white space at the two ends and nothing else: what is left is a part of the
/// text, all that was cut off is white space, and no more of it is left at the ends. The result is
/// where the part begins and where it ends.
pub proof fn lemma_trimmed(s: Seq<char>) -> (ends: (int, int))
    ensures
        0 <= ends.0 <= ends.1 <= s.len(),
        trimmed(s) == s.subrange(ends.0, ends.1),
        forall|i: int| 0 <= i < ends.0 ==> is_space(#[trigger] s[i]),
        forall|i: int| ends.1 <= i < s.len() ==> is_space(#[trigger] s[i]),
        ends.0 < ends.1 ==> !is_space(s[ends.0]) && !is_space(s[ends.1 - 1]),
{
    let from = lemma_trim_start_at(s);
    let rest = trim_start(s);
    let to = from + lemma_trim_end_at(rest);
    assert forall|i: int| to <= i < s.len() implies is_space(#[trigger] s[i]) by {
        assert(rest[i - from] == s[i]);
    }
    assert(trimmed(s) =~= s.subrange(from, to));
    lemma_trim_start(s);
    lemma_trim_end(rest);
    if from < to {
        assert(rest[0] == s[from]);
        assert(trimmed(s).last() == s[to - 1]);
    }
    (from, to)
}

proof fn lemma_trim_start_at(s: Seq<char>) -> (from: int)
    ensures
        0 <= from <= s.len(),
        trim_start(s) == s.skip(from),
        forall|i: int| 0 <= i < from ==> is_space(#[trigger] s[i]),
    decreases s.len(),
{
    if s.len() > 0 && is_space(s[0]) {
        let rest = s.skip(1);
        let from = lemma_trim_start_at(rest);
        assert forall|i: int| 0 <= i < from + 1 implies is_space(#[trigger] s[i]) by {
            if i > 0 {
                assert(rest[i - 1] == s[i]);
            }
        }
        assert(rest.skip(from) =~= s.skip(from + 1));
        from + 1
    } else {
        assert(s.skip(0) =~= s);
        0
    }
}

proof fn lemma_trim_end_at(s: Seq<char>) -> (to: int)
    ensures
        0 <= to <= s.len(),
        trim_end(s) == s.take(to),
        forall|i: int| to <= i < s.len() ==> is_space(#[trigger] s[i]),
    decreases s.len(),
{
    if s.len() > 0 && is_space(s.last()) {
        let rest = s.drop_last();
        let to = lemma_trim_end_at(rest);
        assert forall|i: int| to <= i < s.len() implies is_space(#[trigger] s[i]) by {
            if i < s.len() - 1 {
                assert(rest[i] == s[i]);
            }
        }
        assert(rest.take(to) =~= s.take(to));
        to
    } else {
        assert(s.take(s.len() as int) =~= s);
        s.len() as int
    }
}

/// White space around a text makes no difference to what trimming leaves of it.
pub proof fn lemma_trim_padding(before: Seq<char>, s: Seq<char>, after: Seq<char>)
    requires
        s.len() > 0,
        !is_space(s[0]),
        !is_space(s.last()),
        forall|i: int| 0 <= i < before.len() ==> is_space(#[trigger] before[i]),
        forall|i: int| 0 <= i < after.len() ==> is_space(#[trigger] after[i]),
    ensures
        trimmed(before + s + after) == s,
{
    let all = before + s + after;
    let (from, to) = lemma_trimmed(all);
    let n = before.len() as int;
    let m = n + s.len();
    assert(all[n] == s[0]);
    assert(all[m - 1] == s.last());
    assert(from <= n);
    assert(to >= m);
    if from < n {
        assert(is_space(before[from]));
        assert(all[from] == before[from]);
    }
    if to > m {
        assert(is_space(after[to - 1 - m]));
        assert(all[to - 1] == after[to - 1 - m]);
    }
    assert(all.subrange(n, m) =~= s);
}

/// Whether two characters are the same but for one being an ASCII capital and the other its
/// small letter.
pub open spec fn same_letter(a: char, b: char) -> bool {
    ||| a == b
    ||| 'A' <= a <= 'Z' && b as int == a as int + 32
    ||| 'A' <= b <= 'Z' && a as int == b as int + 32
}

/// Folding takes two characters to the same one if and only if they are the same letter, and
/// never to a capital; what is no capital stays as it is.
pub proof fn lemma_lower_char(a: char, b: char)
    ensures
        lower_char(a) == lower_char(b) <==> same_letter(a, b),
        !('A' <= lower_char(a) <= 'Z'),
        same_letter(a, lower_char(a)),
        !('A' <= a <= 'Z') ==> lower_char(a) == a,
{
}

/// Folding keeps the length of a text and folds each of its characters by itself.
pub proof fn lemma_lower(s: Seq<char>, i: int)
    requires
        0 <= i < s.len(),
    ensures
        lower(s).len() == s.len(),
        same_letter(s[i], lower(s)[i]),
        !('A' <= lower(s)[i] <= 'Z'),
        !('A' <= s[i] <= 'Z') ==> lower(s)[i] == s[i],
{
    lemma_lower_char(s[i], s[i]);
}

/// Whether `needle` stands in `hay` from position `i` on, in capital or small letters.
pub open spec fn spelled_at(hay: Seq<char>, needle: Seq<char>, i: int) -> bool {
    &&& 0 <= i <= hay.len() - needle.len()
    &&& forall|k: int|
        0 <= k < needle.len() ==> same_letter(#[trigger] needle[k], hay[i + k])
}

/// A folded text holds a folded text if and only if the one is spelled somewhere in the other.
pub proof fn lemma_has_text(hay: Seq<char>, needle: Seq<char>)
    ensures
        has_text(lower(hay), lower(needle)) <==> exists|i: int| #[trigger]
            spelled_at(hay, needle, i),
{
    let h = lower(hay);
    let n = lower(needle);
    if has_text(h, n) {
        let i = choose|i: int| #[trigger] stands_at(h, n, i);
        assert forall|k: int| 0 <= k < needle.len() implies same_letter(
            #[trigger] needle[k],
            hay[i + k],
        ) by {
            assert(h.subrange(i, i + n.len())[k] == n[k]);
            lemma_lower_char(needle[k], hay[i + k]);
        }
        assert(spelled_at(hay, needle, i));
    }
    if exists|i: int| #[trigger] spelled_at(hay, needle, i) {
        let i = choose|i: int| #[trigger] spelled_at(hay, needle, i);
        assert forall|k: int| 0 <= k < n.len() implies h.subrange(i, i + n.len())[k] == n[k] by {
            assert(same_letter(needle[k], hay[i + k]));
            lemma_lower_char(needle[k], hay[i + k]);
        }
        assert(h.subrange(i, i + n.len()) =~= n);
        assert(stands_at(h, n, i));
    }
}

/// A text holds another if and only if it is some text, the other, and some text.
pub proof fn lemma_has_part(hay: Seq<char>, needle: Seq<char>)
    ensures
        has_text(hay, needle) <==> exists|before: Seq<char>, after: Seq<char>|
            hay == #[trigger] (before + needle + after),
{
    if has_text(hay, needle) {
        let i = choose|i: int| #[trigger] stands_at(hay, needle, i);
        let before = hay.take(i);
        let after = hay.skip(i + needle.len());
        assert(hay =~= before + hay.subrange(i, i + needle.len()) + after);
        assert(hay == before + needle + after);
    }
    if exists|before: Seq<char>, after: Seq<char>| hay == #[trigger] (before + needle + after) {
        let (before, after) = choose|before: Seq<char>, after: Seq<char>|
            hay == #[trigger] (before + needle + after);
        let i = before.len() as int;
        assert(hay.subrange(i, i + needle.len()) =~= needle);
        assert(stands_at(hay, needle, i));
    }
}

/// The lines of a text: none where it is empty, one where it holds no line feed, and otherwise
/// the first line and the lines of what follows it.
pub proof fn lemma_lines(line: Seq<char>, rest: Seq<char>)
    requires
        forall|i: int| 0 <= i < line.len() ==> #[trigger] line[i] != '\n',
    ensures
        line_count(line) == (if line.len() == 0 {
            0nat
        } else {
            1nat
        }),
        line_count(line + seq!['\n'] + rest) == 1 + line_count(rest),
{
    lemma_no_feeds(line);
    let head = line + seq!['\n'];
    assert(head.drop_last() =~= line);
    assert(line_feeds(head) == 1);
    lemma_feeds_concat(head, rest);
    if rest.len() > 0 {
        assert((head + rest).last() == rest.last());
    } else {
        assert(head + rest =~= head);
    }
}

proof fn lemma_no_feeds(s: Seq<char>)
    requires
        forall|i: int| 0 <= i < s.len() ==> #[trigger] s[i] != '\n',
    ensures
        line_feeds(s) == 0,
    decreases s.len(),
{
    if s.len() > 0 {
        assert(s[s.len() - 1] != '\n');
        lemma_no_feeds(s.drop_last());
    }
}

proof fn lemma_feeds_concat(a: Seq<char>, b: Seq<char>)
    ensures
        line_feeds(a + b) == line_feeds(a) + line_feeds(b),
    decreases b.len(),
{
    if b.len() == 0 {
        assert(a + b =~= a);
    } else {
        assert((a + b).drop_last() =~= a + b.drop_last());
        lemma_feeds_concat(a, b.drop_last());
    }
}

/// The number that a list of decimal digits stands for.
pub open spec fn number_of(digits: Seq<char>) -> nat
    decreases digits.len(),
{
    if digits.len() == 0 {
        0
    } else {
        10 * number_of(digits.drop_last()) + (digits.last() as nat - 48) as nat
    }
}

/// A number is written in decimal digits that stand for it, and starts with a zero only where it
/// is zero.
pub proof fn lemma_decimal(n: nat)
    ensures
        decimal(n).len() > 0,
        forall|i: int| 0 <= i < decimal(n).len() ==> '0' <= #[trigger] decimal(n)[i] <= '9',
        number_of(decimal(n)) == n,
        n > 0 ==> decimal(n)[0] != '0',
        n == 0 ==> decimal(n) == seq!['0'],
    decreases n,
{
    if n < 10 {
        let d = decimal(n);
        assert(d.drop_last() =~= seq![]);
        assert(number_of(d.drop_last()) == 0);
        assert(d.last() as nat == 48 + n);
        assert(n == 0 ==> d =~= seq!['0']);
    } else {
        lemma_decimal(n / 10);
        let d = decimal(n);
        assert(d.drop_last() =~= decimal(n / 10));
        assert(d.last() as nat == 48 + n % 10);
        assert forall|i: int| 0 <= i < d.len() implies '0' <= #[trigger] d[i] <= '9' by {
            if i < d.len() - 1 {
                assert(d[i] == decimal(n / 10)[i]);
            }
        }
        assert(d[0] == decimal(n / 10)[0]);
    }
}

/// With at least two digits, a number is written as it is otherwise, with a zero before it where
/// it has one digit.
pub proof fn lemma_two_digits(n: nat)
    ensures
        two_digits(n).len() >= 2,
        number_of(two_digits(n)) == n,
        n < 10 ==> two_digits(n) == seq!['0'] + decimal(n),
        n >= 10 ==> two_digits(n) == decimal(n),
{
    lemma_decimal(n);
    if n < 10 {
        let d = two_digits(n);
        assert(d =~= seq!['0'] + decimal(n));
        assert(d.drop_last() =~= seq!['0']);
        assert(d.drop_last().drop_last() =~= seq![]);
        assert(number_of(d.drop_last().drop_last()) == 0);
        assert(number_of(d.drop_last()) == 0);
        assert(d.last() as nat == 48 + n);
    } else {
        lemma_decimal(n / 10);
    }
}

/// Bytes that encode a text are shown as that text.
pub proof fn lemma_lossy(text: Seq<char>, bytes: Seq<u8>)
    ensures
        lossy_text(encode_utf8(text)) == text,
        valid_utf8(bytes) ==> encode_utf8(lossy_text(bytes)) == bytes,
        !valid_utf8(bytes) ==> lossy_text(bytes) == replaced_text(bytes),
{
    broadcast use {encode_utf8_decode_utf8, decode_utf8_encode_utf8, encode_utf8_valid_utf8};

}

} // verus!

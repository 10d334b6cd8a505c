//! Base64 text for bytes.

use base64::Engine;
use vstd::prelude::*;

use crate::models::opt_bytes;

verus! {

/// The character that stands for six bits.
pub open spec fn symbol(n: int) -> char {
    if n < 26 {
        (65 + n) as char
    } else if n < 52 {
        (71 + n) as char
    } else if n < 62 {
        (n - 4) as char
    } else if n == 62 {
        '+'
    } else {
        '/'
    }
}

/// The base64 text for `bytes`: four characters for three bytes, with `=` where the last of them
/// are missing.
pub open spec fn base64(bytes: Seq<u8>) -> Seq<char>
    decreases bytes.len(),
{
    let x = bytes[0] as int;
    let y = bytes[1] as int;
    let z = bytes[2] as int;
    if bytes.len() == 0 {
        seq![]
    } else if bytes.len() == 1 {
        seq![symbol(x / 4), symbol(x % 4 * 16), '=', '=']
    } else if bytes.len() == 2 {
        seq![symbol(x / 4), symbol(x % 4 * 16 + y / 16), symbol(y % 16 * 4), '=']
    } else {
        seq![
            symbol(x / 4),
            symbol(x % 4 * 16 + y / 16),
            symbol(y % 16 * 4 + z / 64),
            symbol(z % 64),
        ] + base64(bytes.skip(3))
    }
}

/// How many characters the base64 text for `n` bytes has.
pub open spec fn base64_len(n: nat) -> nat {
    (n + 2) / 3 * 4
}

/// Wraps `encode` of the engine `STANDARD` of the crate `base64`: it claims that the text is the
/// padded one of the standard alphabet. Where the length of the text is beyond what a string can
/// have, the call would panic.
#[verifier::external_body]
fn encode_base64(bytes: &[u8]) -> (text: String)
    requires
        base64_len(bytes@.len()) <= isize::MAX,
    ensures
        text@ == base64(bytes@),
{
    base64::engine::general_purpose::STANDARD.encode(bytes)
}

/// Wraps `decode` of the engine `STANDARD` of the crate `base64`: it claims that a text is
/// decoded if and only if it is the base64 text for some bytes, padding and unused bits
/// included, and to those bytes.
#[verifier::external_body]
fn decode_base64(text: &str) -> (bytes: Option<Vec<u8>>)
    ensures
        bytes matches Some(b) ==> base64(b@) == text@,
        bytes is None ==> forall|b: Seq<u8>| #[trigger] base64(b) != text@,
{
    base64::engine::general_purpose::STANDARD.decode(text).ok()
}

/// The base64 text for the bytes of a PNG file.
pub fn encode_art_png(png: &Vec<u8>) -> (text: String)
    requires
        base64_len(png@.len()) <= isize::MAX,
    ensures
        text@ == base64(png@),
{
    encode_base64(png.as_slice())
}

/// The bytes that `text` is the base64 text for, if it is one.
pub open spec fn unbase64(text: Seq<char>) -> Option<Seq<u8>> {
    if exists|b: Seq<u8>| #[trigger] base64(b) == text {
        Some(choose|b: Seq<u8>| #[trigger] base64(b) == text)
    } else {
        None
    }
}

/// The bytes of a PNG file that `encoded` is the base64 text for, if it is one.
pub fn decode_art_png(encoded: &str) -> (png: Option<Vec<u8>>)
    ensures
        opt_bytes(png) == unbase64(encoded@),
{
    let png = decode_base64(encoded);
    proof {
        if png is Some {
            lemma_unbase64(png->0@);
        }
    }
    png
}

proof fn lemma_symbol(m: int, n: int)
    requires
        0 <= m < 64,
        0 <= n < 64,
    ensures
        symbol(m) == symbol(n) ==> m == n,
        symbol(m) != '=',
{
}

/// Different bytes have different base64 texts.
pub proof fn lemma_base64_injective(a: Seq<u8>, b: Seq<u8>)
    requires
        base64(a) == base64(b),
    ensures
        a == b,
    decreases a.len(),
{
    let s = base64(a);
    if a.len() == 0 || b.len() == 0 {
        assert(a.len() == 0 ==> s.len() == 0);
        assert(b.len() == 0 ==> s.len() == 0);
        assert(a.len() > 0 ==> s.len() >= 4);
        assert(b.len() > 0 ==> s.len() >= 4);
        assert(a =~= b);
    } else {
        let (x, y, z) = (a[0] as int, a[1] as int, a[2] as int);
        let (u, v, w) = (b[0] as int, b[1] as int, b[2] as int);
        lemma_symbol(x / 4, u / 4);
        assert(s[0] == symbol(x / 4) && s[0] == symbol(u / 4));
        lemma_ends(a, b);
        if a.len() == 1 {
            lemma_symbol(x % 4 * 16, u % 4 * 16);
            assert(s[1] == symbol(x % 4 * 16) && s[1] == symbol(u % 4 * 16));
            assert(a =~= b);
        } else if a.len() == 2 {
            lemma_symbol(x % 4 * 16 + y / 16, u % 4 * 16 + v / 16);
            lemma_symbol(y % 16 * 4, v % 16 * 4);
            assert(s[1] == symbol(x % 4 * 16 + y / 16) && s[1] == symbol(u % 4 * 16 + v / 16));
            assert(s[2] == symbol(y % 16 * 4) && s[2] == symbol(v % 16 * 4));
            assert(a =~= b);
        } else {
            lemma_symbol(x % 4 * 16 + y / 16, u % 4 * 16 + v / 16);
            lemma_symbol(y % 16 * 4 + z / 64, v % 16 * 4 + w / 64);
            lemma_symbol(z % 64, w % 64);
            assert(s[1] == symbol(x % 4 * 16 + y / 16) && s[1] == symbol(u % 4 * 16 + v / 16));
            assert(s[2] == symbol(y % 16 * 4 + z / 64) && s[2] == symbol(v % 16 * 4 + w / 64));
            assert(s[3] == symbol(z % 64) && s[3] == symbol(w % 64));
            assert(s.skip(4) =~= base64(a.skip(3)));
            assert(s.skip(4) =~= base64(b.skip(3)));
            lemma_base64_injective(a.skip(3), b.skip(3));
            assert(a =~= a.take(3) + a.skip(3));
            assert(b =~= b.take(3) + b.skip(3));
            assert(a.take(3) =~= b.take(3));
        }
    }
}

/// Texts that are the same are padded the same.
proof fn lemma_ends(a: Seq<u8>, b: Seq<u8>)
    requires
        base64(a) == base64(b),
        a.len() > 0,
        b.len() > 0,
    ensures
        a.len() == 1 <==> b.len() == 1,
        a.len() == 2 <==> b.len() == 2,
{
    let s = base64(a);
    lemma_padding(a);
    lemma_padding(b);
}

proof fn lemma_padding(a: Seq<u8>)
    requires
        a.len() > 0,
    ensures
        base64(a).len() >= 4,
        base64(a)[2] == '=' <==> a.len() == 1,
        base64(a)[3] == '=' <==> a.len() <= 2,
{
    let (y, z) = (a[1] as int, a[2] as int);
    if a.len() == 2 {
        lemma_symbol(y % 16 * 4, 0);
    } else if a.len() > 2 {
        lemma_symbol(y % 16 * 4 + z / 64, 0);
        lemma_symbol(z % 64, 0);
    }
}

/// Decoding what was encoded gives the bytes back.
pub proof fn lemma_unbase64(bytes: Seq<u8>)
    ensures
        unbase64(base64(bytes)) == Some(bytes),
{
    let text = base64(bytes);
    let found = choose|b: Seq<u8>| #[trigger] base64(b) == text;
    lemma_base64_injective(found, bytes);
}

/// The base64 text for `n` bytes has `base64_len(n)` characters, all of them ASCII.
pub proof fn lemma_base64_len(bytes: Seq<u8>)
    ensures
        base64(bytes).len() == base64_len(bytes.len()),
        vstd::utf8::is_ascii_chars(base64(bytes)),
    decreases bytes.len(),
{
    if bytes.len() > 2 {
        lemma_base64_len(bytes.skip(3));
    }
}

/// The characters of base64 are the capitals, the small letters, the digits, `+` and `/`, in
/// this order.
pub proof fn lemma_symbols(n: int)
    requires
        0 <= n < 64,
    ensures
        symbol(n) == seq![
            'A', 'B', 'C', 'D', 'E', 'F', 'G', 'H', 'I', 'J', 'K', 'L', 'M', 'N', 'O', 'P', 'Q',
            'R', 'S', 'T', 'U', 'V', 'W', 'X', 'Y', 'Z', 'a', 'b', 'c', 'd', 'e', 'f', 'g', 'h',
            'i', 'j', 'k', 'l', 'm', 'n', 'o', 'p', 'q', 'r', 's', 't', 'u', 'v', 'w', 'x', 'y',
            'z', '0', '1', '2', '3', '4', '5', '6', '7', '8', '9', '+', '/',
        ][n],
{
}

/// Three bytes, read as one number of 24 bits, are four characters of six bits each, highest
/// first. Where one or two bytes are missing at the end they count as zero, and the characters
/// that stand for nothing but them are `=`.
pub proof fn lemma_base64_groups(x: u8, y: u8, z: u8, rest: Seq<u8>, a: int, b: int, c: int, d: int)
    requires
        0 <= a < 64,
        0 <= b < 64,
        0 <= c < 64,
        0 <= d < 64,
        262144 * a + 4096 * b + 64 * c + d == 65536 * x + 256 * y + z,
    ensures
        base64(seq![x, y, z] + rest) == seq![symbol(a), symbol(b), symbol(c), symbol(d)] + base64(
            rest,
        ),
        z == 0 ==> base64(seq![x, y]) == seq![symbol(a), symbol(b), symbol(c), '='],
        y == 0 && z == 0 ==> base64(seq![x]) == seq![symbol(a), symbol(b), '=', '='],
        base64(seq![]).len() == 0,
{
    let all = seq![x, y, z] + rest;
    assert(all.skip(3) =~= rest);
    let (p, q, r) = (x as int, y as int, z as int);
    assert(a == p / 4);
    assert(b == p % 4 * 16 + q / 16);
    assert(c == q % 16 * 4 + r / 64);
    assert(d == r % 64);
}

} // verus!

//! Album art in the terminal: images of the kitty protocol, and art made of letters.

use vstd::prelude::*;
use vstd::string::*;

use crate::encoding::{base64, base64_len, encode_art_png, lemma_base64_len};
use crate::metadata::size_of_image;
use crate::models::{opt_text, texts, Rect};
use crate::text::{
    chars_of, contains_text, decimal, decimal_text, has_text, lemma_has_text, lemma_lower_char,
    lower, same_letter, same_text, spelled_at, text_of, to_lower,
};

verus! {

/// How many characters of an image go into one sequence.
pub const CHUNK: usize = 4096;

/// What the environment says of the terminal.
pub struct TerminalEnv {
    /// `BU_MP3_KITTY`.
    pub bu_mp3_kitty: Option<String>,
    /// Whether `KITTY_WINDOW_ID` is set.
    pub kitty_window_id: bool,
    /// `TERM`.
    pub term: Option<String>,
    /// Whether `GHOSTTY` is set.
    pub ghostty: bool,
    /// `TERM_PROGRAM`.
    pub term_program: Option<String>,
}

/// Whether a value of the environment switches something on.
pub open spec fn switched_on(value: Seq<char>) -> bool {
    value == "1"@ || lower(value) == "true"@
}

/// Whether a value of the environment switches something on.
fn is_on(value: &str) -> (on: bool)
    ensures
        on == switched_on(value@),
{
    same_text(value, "1") || same_text(to_lower(value).as_str(), "true")
}

/// Whether the terminal can show images: the user says so, or it is a terminal known for it.
pub open spec fn shows_images(env: TerminalEnv) -> bool {
    match opt_text(env.bu_mp3_kitty) {
        Some(value) => switched_on(value),
        None => {
            ||| env.kitty_window_id
            ||| opt_text(env.term) matches Some(term) && (has_text(term, "kitty"@) || has_text(
                term,
                "ghostty"@,
            ))
            ||| env.ghostty
            ||| opt_text(env.term_program) matches Some(program) && has_text(
                lower(program),
                "ghostty"@,
            )
        },
    }
}

/// Whether the terminal can show images.
pub fn supports_kitty(env: &TerminalEnv) -> (supported: bool)
    ensures
        supported == shows_images(*env),
{
    if let Some(value) = &env.bu_mp3_kitty {
        return is_on(value.as_str());
    }
    if env.kitty_window_id {
        return true;
    }
    if let Some(term) = &env.term {
        if contains_text(term.as_str(), "kitty") || contains_text(term.as_str(), "ghostty") {
            return true;
        }
    }
    if env.ghostty {
        return true;
    }
    if let Some(program) = &env.term_program {
        if contains_text(to_lower(program.as_str()).as_str(), "ghostty") {
            return true;
        }
    }
    false
}

/// Whether images are forced, given the value of `BU_MP3_KITTY`.
pub fn env_force_kitty(value: &Option<String>) -> (forced: bool)
    ensures
        forced == (opt_text(*value) matches Some(v) && switched_on(v)),
{
    match value {
        Some(value) => is_on(value.as_str()),
        None => false,
    }
}

/// Whether `pixels` can be what the crate `image` makes of an image file: the brightness of its
/// pixels, row by row, once it is scaled to this size by taking the nearest pixels.
pub uninterp spec fn can_be_luma(
    data: Seq<u8>,
    width: int,
    height: int,
    pixels: Seq<u8>,
) -> bool;

/// Wraps `image::load_from_memory`, `DynamicImage::resize_exact` with the nearest pixels, and
/// `DynamicImage::to_luma8`: it claims that pixels come out if and only if the file can be read,
/// and that there is one byte for each pixel. They are tied to the file and the size by
/// `can_be_luma` alone: colours are summed up in floating point, in one rounding step or in two
/// as the machine has it, so that two machines can differ in a byte.
#[verifier::external_body]
fn luma_pixels(data: &[u8], width: u16, height: u16) -> (pixels: Option<Vec<u8>>)
    requires
        width > 0,
        height > 0,
    ensures
        pixels is Some <==> size_of_image(data@) is Some,
        pixels matches Some(p) ==> p@.len() == width * height && can_be_luma(
            data@,
            width as int,
            height as int,
            p@,
        ),
{
    let image = image::load_from_memory(data).ok()?;
    let filter = image::imageops::FilterType::Nearest;
    let scaled = image.resize_exact(u32::from(width), u32::from(height), filter);
    Some(scaled.to_luma8().into_raw())
}

/// The letters that stand for brightness, from dark to bright.
pub open spec fn ramp() -> Seq<char> {
    " .:-=+*#%@"@
}

/// Which letter of the ramp stands for the brightness `v`.
pub open spec fn shade(v: int) -> int {
    v * 9 / 255
}

/// The picture that rows of `width` pixels make, in letters.
pub open spec fn shaded(pixels: Seq<u8>, width: nat, height: nat) -> Seq<Seq<char>> {
    Seq::new(
        height,
        |y: int| Seq::new(width, |x: int| ramp()[shade(pixels[y * width + x] as int)]),
    )
}

/// The letters of the ramp get brighter with the brightness, and use the whole ramp.
pub proof fn lemma_shade(v: int, w: int)
    requires
        0 <= v <= w <= 255,
    ensures
        0 <= shade(v) <= shade(w) < ramp().len(),
        shade(0) == 0,
        shade(255) == ramp().len() - 1,
{
    reveal_strlit(" .:-=+*#%@");
}

/// Makes a picture in letters from rows of `width` pixels.
pub fn shade_lines(pixels: &Vec<u8>, width: u16, height: u16) -> (lines: Vec<String>)
    requires
        pixels@.len() == width * height,
    ensures
        texts(lines@) == shaded(pixels@, width as nat, height as nat),
{
    let letters = chars_of(" .:-=+*#%@");
    let ghost want = shaded(pixels@, width as nat, height as nat);
    let mut lines: Vec<String> = Vec::new();
    let count: usize = pixels.len();
    let mut at: usize = 0;
    let mut y: u16 = 0;
    while y < height
        invariant
            y <= height,
            at == y * width,
            pixels@.len() == width * height,
            pixels@.len() == count,
            letters@ == ramp(),
            want == shaded(pixels@, width as nat, height as nat),
            lines@.len() == y,
            forall|k: int| 0 <= k < y ==> (#[trigger] lines@[k])@ == want[k],
        decreases height - y,
    {
        assert((y + 1) * width <= height * width) by (nonlinear_arith)
            requires
                y + 1 <= height,
        ;
        assert((y + 1) * width == y * width + width) by (nonlinear_arith);
        assert(height * width == width * height) by (nonlinear_arith);
        let mut line = String::new();
        let mut x: u16 = 0;
        while x < width
            invariant
                y < height,
                x <= width,
                at == y * width + x,
                y * width + width <= pixels@.len(),
                pixels@.len() == count,
                letters@ == ramp(),
                want == shaded(pixels@, width as nat, height as nat),
                line@ == want[y as int].take(x as int),
            decreases width - x,
        {
            let v: usize = pixels[at] as usize;
            proof {
                lemma_shade(v as int, v as int);
            }
            line.push(letters[v * 9 / 255]);
            assert(want[y as int].take(x + 1) =~= want[y as int].take(x as int).push(
                want[y as int][x as int],
            ));
            at = at + 1;
            x = x + 1;
        }
        assert(want[y as int].take(width as int) =~= want[y as int]);
        lines.push(line);
        y = y + 1;
    }
    assert(texts(lines@) =~= want);
    lines
}

/// Whether `lines` can be the picture in letters that an image file gives at this size.
pub open spec fn can_be_art(
    data: Seq<u8>,
    width: nat,
    height: nat,
    lines: Seq<Seq<char>>,
) -> bool {
    exists|pixels: Seq<u8>| #[trigger]
        can_be_luma(data, width as int, height as int, pixels) && pixels.len() == width * height
            && lines == shaded(pixels, width, height)
}

/// Album art in letters, `width` letters wide and `height` lines high; nothing where there is
/// no room for it, or where the file cannot be read.
pub fn ascii_art_lines(png: &Vec<u8>, width: u16, height: u16) -> (lines: Option<Vec<String>>)
    ensures
        lines is None <==> width == 0 || height == 0 || size_of_image(png@) is None,
        lines matches Some(l) ==> can_be_art(png@, width as nat, height as nat, texts(l@)),
{
    if width == 0 || height == 0 {
        return None;
    }
    match luma_pixels(png.as_slice(), width, height) {
        Some(pixels) => {
            assert(can_be_luma(png@, width as int, height as int, pixels@));
            Some(shade_lines(&pixels, width, height))
        },
        None => None,
    }
}

/// `seq` with every escape character twice.
pub open spec fn doubled(seq: Seq<char>) -> Seq<char>
    decreases seq.len(),
{
    if seq.len() == 0 {
        seq![]
    } else if seq.last() == '\u{1b}' {
        doubled(seq.drop_last()) + seq!['\u{1b}', '\u{1b}']
    } else {
        doubled(seq.drop_last()).push(seq.last())
    }
}

/// `seq` as it is sent to the terminal: through tmux, where the player runs in it.
pub open spec fn passed_on(seq: Seq<char>, tmux: bool) -> Seq<char> {
    if tmux {
        "\x1bPtmux;"@ + doubled(seq) + "\x1b\\"@
    } else {
        seq
    }
}

/// Makes of a sequence what is sent to the terminal.
pub fn write_kitty_seq(seq: &str, tmux: bool) -> (sent: String)
    ensures
        sent@ == passed_on(seq@, tmux),
{
    if !tmux {
        return seq.to_owned();
    }
    let chars = chars_of(seq);
    let mut sent = "\x1bPtmux;".to_owned();
    let ghost start = sent@;
    let mut i: usize = 0;
    assert(start + doubled(chars@.take(0)) =~= start);
    while i < chars.len()
        invariant
            i <= chars@.len(),
            sent@ == start + doubled(chars@.take(i as int)),
        decreases chars@.len() - i,
    {
        let c: char = chars[i];
        let ghost before = sent@;
        assert(chars@.take(i + 1).drop_last() =~= chars@.take(i as int));
        if c == '\u{1b}' {
            sent.push('\u{1b}');
        }
        sent.push(c);
        assert(sent@ =~= start + doubled(chars@.take(i + 1)));
        i = i + 1;
    }
    assert(chars@.take(i as int) =~= chars@);
    sent.append("\x1b\\");
    sent
}

/// `seq` with one escape character for every two that follow each other.
pub open spec fn undoubled(seq: Seq<char>) -> Seq<char>
    decreases seq.len(),
{
    if seq.len() == 0 {
        seq![]
    } else if seq.len() >= 2 && seq.last() == '\u{1b}' && seq[seq.len() - 2] == '\u{1b}' {
        undoubled(seq.drop_last().drop_last()).push('\u{1b}')
    } else {
        undoubled(seq.drop_last()).push(seq.last())
    }
}

/// What is sent through tmux comes out as it went in: halving the escape characters gives the
/// sequence back.
pub proof fn lemma_doubled(seq: Seq<char>)
    ensures
        undoubled(doubled(seq)) == seq,
    decreases seq.len(),
{
    if seq.len() > 0 {
        lemma_doubled(seq.drop_last());
        let rest = doubled(seq.drop_last());
        if seq.last() == '\u{1b}' {
            let d = rest + seq!['\u{1b}', '\u{1b}'];
            assert(d.drop_last().drop_last() =~= rest);
        } else {
            assert(rest.push(seq.last()).drop_last() =~= rest);
        }
        assert(seq =~= seq.drop_last().push(seq.last()));
    }
}

/// How many pieces `len` characters are sent in.
pub open spec fn chunk_count(len: nat) -> nat {
    (len + 4095) / 4096
}

/// The piece number `i` of a text that is sent in pieces.
pub open spec fn chunk(text: Seq<char>, i: int) -> Seq<char> {
    text.subrange(
        4096 * i,
        if 4096 * (i + 1) < text.len() {
            4096 * (i + 1)
        } else {
            text.len() as int
        },
    )
}

/// `1` where more pieces follow, `0` at the last.
pub open spec fn more_flag(more: bool) -> Seq<char> {
    if more {
        "1"@
    } else {
        "0"@
    }
}

/// The sequence for the piece number `i` of an image. The first says where the image goes.
pub open spec fn image_seq(text: Seq<char>, i: int, rect: Rect) -> Seq<char> {
    let more = more_flag(i + 1 < chunk_count(text.len()));
    if i == 0 {
        "\x1b_Gf=100,a=T,c="@ + decimal(rect.width as nat) + ",r="@ + decimal(rect.height as nat)
            + ",i=1,m="@ + more + ";"@ + chunk(text, i) + "\x1b\\"@
    } else {
        "\x1b_Gm="@ + more + ";"@ + chunk(text, i) + "\x1b\\"@
    }
}

/// The sequences for the first `n` pieces of an image, as they are sent.
pub open spec fn image_sent(text: Seq<char>, n: nat, rect: Rect, tmux: bool) -> Seq<char>
    decreases n,
{
    if n == 0 {
        seq![]
    } else {
        image_sent(text, (n - 1) as nat, rect, tmux) + passed_on(
            image_seq(text, n - 1, rect),
            tmux,
        )
    }
}

/// The pieces of an image, put together again.
pub open spec fn chunks_joined(text: Seq<char>, n: nat) -> Seq<char>
    decreases n,
{
    if n == 0 {
        seq![]
    } else {
        chunks_joined(text, (n - 1) as nat) + chunk(text, n - 1)
    }
}

proof fn lemma_chunks_prefix(text: Seq<char>, n: nat)
    requires
        n <= chunk_count(text.len()),
    ensures
        chunks_joined(text, n) == text.take(
            if 4096 * n < text.len() {
                4096 * n as int
            } else {
                text.len() as int
            },
        ),
    decreases n,
{
    if n == 0 {
        assert(text.take(0) =~= seq![]);
    } else {
        lemma_chunks_prefix(text, (n - 1) as nat);
        assert(4096 * (n - 1) < text.len());
        assert(chunks_joined(text, n) =~= text.take(
            if 4096 * n < text.len() {
                4096 * n as int
            } else {
                text.len() as int
            },
        ));
    }
}

/// No part of an image is lost and none is sent twice: its pieces, put together, are the text of
/// the whole. None of them is empty, and none has more than 4096 characters.
pub proof fn lemma_chunks(text: Seq<char>)
    ensures
        chunks_joined(text, chunk_count(text.len())) == text,
        forall|i: int|
            0 <= i < chunk_count(text.len()) ==> 0 < (#[trigger] chunk(text, i)).len() <= CHUNK,
{
    let n = chunk_count(text.len());
    lemma_chunks_prefix(text, n);
    assert(4096 * n >= text.len());
    assert(text.take(text.len() as int) =~= text);
}

/// The sequence for one piece of an image.
fn piece_seq(piece: &str, first: bool, more: bool, rect: Rect) -> (seq: String)
    ensures
        seq@ == (if first {
            "\x1b_Gf=100,a=T,c="@ + decimal(rect.width as nat) + ",r="@ + decimal(
                rect.height as nat,
            ) + ",i=1,m="@ + more_flag(more) + ";"@ + piece@ + "\x1b\\"@
        } else {
            "\x1b_Gm="@ + more_flag(more) + ";"@ + piece@ + "\x1b\\"@
        }),
{
    let mut seq = String::new();
    if first {
        seq.append("\x1b_Gf=100,a=T,c=");
        seq.append(decimal_text(rect.width as u128).as_str());
        seq.append(",r=");
        seq.append(decimal_text(rect.height as u128).as_str());
        seq.append(",i=1,m=");
    } else {
        seq.append("\x1b_Gm=");
    }
    seq.append(
        if more {
            "1"
        } else {
            "0"
        },
    );
    seq.append(";");
    seq.append(piece);
    seq.append("\x1b\\");
    seq
}

/// What is sent to the terminal to show a PNG file as an image of the size of `rect`, where the
/// cursor is.
pub fn render_kitty_image(rect: Rect, png: &Vec<u8>, tmux: bool) -> (sent: String)
    requires
        base64_len(png@.len()) <= isize::MAX,
    ensures
        sent@ == image_sent(base64(png@), chunk_count(base64(png@).len()), rect, tmux),
{
    let encoded = encode_art_png(png);
    let chars = chars_of(encoded.as_str());
    let ghost text = base64(png@);
    proof {
        lemma_base64_len(png@);
    }
    let mut sent = String::new();
    let mut from: usize = 0;
    let ghost mut n: nat = 0;
    while from < chars.len()
        invariant
            chars@ == text,
            text.len() <= isize::MAX,
            from == (if 4096 * n < text.len() {
                4096 * n as int
            } else {
                text.len() as int
            }),
            n <= chunk_count(text.len()),
            sent@ == image_sent(text, n, rect, tmux),
        decreases chars@.len() - from,
    {
        let to: usize = if chars.len() - from > CHUNK {
            from + CHUNK
        } else {
            chars.len()
        };
        let piece = text_of(&chars, from, to);
        assert(from == 4096 * n);
        assert(piece@ =~= chunk(text, n as int));
        let more = to < chars.len();
        let seq = piece_seq(piece.as_str(), from == 0, more, rect);
        assert(more == (n + 1 < chunk_count(text.len())));
        assert(seq@ == image_seq(text, n as int, rect));
        sent.append(write_kitty_seq(seq.as_str(), tmux).as_str());
        from = to;
        proof {
            n = n + 1;
        }
    }
    assert(n == chunk_count(text.len()));
    sent
}

/// What is sent to the terminal to take the image away.
pub fn clear_kitty_image(tmux: bool) -> (sent: String)
    ensures
        sent@ == passed_on("\x1b_Ga=d,i=1\x1b\\"@, tmux),
{
    write_kitty_seq("\x1b_Ga=d,i=1\x1b\\", tmux)
}

/// Whether `text` is `word` in capital or small letters.
pub open spec fn spells(text: Seq<char>, word: Seq<char>) -> bool {
    text.len() == word.len() && spelled_at(text, word, 0)
}

/// `BU_MP3_KITTY` decides whether the terminal can show images, where it is set: they are on for
/// `1` and for `true`, in capital or small letters, and off for anything else. Where it is not
/// set, they are on in the terminals kitty and ghostty, which are known by the variables that
/// they set and by the names that they give.
pub proof fn lemma_kitty_env(env: TerminalEnv)
    ensures
        env.bu_mp3_kitty matches Some(value) ==> (shows_images(env) <==> value@ == "1"@
            || spells(value@, "true"@)),
        env.bu_mp3_kitty matches Some(value) ==> (switched_on(value@) <==> value@ == "1"@
            || spells(value@, "true"@)),
        env.bu_mp3_kitty is None ==> (shows_images(env) <==> {
            ||| env.kitty_window_id
            ||| env.ghostty
            ||| env.term is Some && has_text(env.term->0@, "kitty"@)
            ||| env.term is Some && has_text(env.term->0@, "ghostty"@)
            ||| env.term_program is Some && exists|i: int| #[trigger]
                spelled_at(env.term_program->0@, "ghostty"@, i)
        }),
{
    reveal_strlit("true");
    reveal_strlit("ghostty");
    assert(lower("ghostty"@) =~= "ghostty"@);
    assert(lower("true"@) =~= "true"@);
    if env.bu_mp3_kitty is Some {
        lemma_spells(env.bu_mp3_kitty->0@, "true"@);
    }
    if env.term_program is Some {
        lemma_has_text(env.term_program->0@, "ghostty"@);
    }
}

proof fn lemma_spells(text: Seq<char>, word: Seq<char>)
    ensures
        spells(text, word) <==> lower(text) == lower(word),
{
    let a = lower(text);
    let b = lower(word);
    if spells(text, word) {
        assert forall|i: int| 0 <= i < a.len() implies a[i] == b[i] by {
            assert(same_letter(word[i], text[0 + i]));
            lemma_lower_char(word[i], text[i]);
        }
        assert(a =~= b);
    }
    if a == b {
        assert(a.len() == text.len() && b.len() == word.len());
        assert forall|k: int| 0 <= k < word.len() implies same_letter(
            #[trigger] word[k],
            text[0 + k],
        ) by {
            assert(a[k] == b[k]);
            lemma_lower_char(word[k], text[k]);
        }
    }
}

/// A picture in letters has a line for each row and a letter for each pixel. The letter is the
/// one of the ten that the brightness of the pixel reaches, where white reaches the last and
/// black the first.
pub proof fn lemma_shaded(pixels: Seq<u8>, width: nat, height: nat, x: int, y: int, k: int)
    requires
        0 <= x < width,
        0 <= y < height,
        255 * k <= 9 * pixels[y * width + x] < 255 * (k + 1),
    ensures
        ({
            let lines = shaded(pixels, width, height);
            &&& lines.len() == height
            &&& lines[y].len() == width
            &&& lines[y][x] == seq![' ', '.', ':', '-', '=', '+', '*', '#', '%', '@'][k]
        }),
{
    reveal_strlit(" .:-=+*#%@");
    assert(ramp() =~= seq![' ', '.', ':', '-', '=', '+', '*', '#', '%', '@']);
    let v = pixels[y * width + x] as int;
    assert(shade(v) == k);
}

/// What is sent outside tmux is sent as it is. Inside tmux it is put between the two ends of a
/// sequence that tmux passes on, with each escape character doubled and nothing else changed.
pub proof fn lemma_passed_on(a: Seq<char>, c: char, b: Seq<char>)
    ensures
        passed_on(a, false) == a,
        passed_on(a, true) == "\x1bPtmux;"@ + doubled(a) + "\x1b\\"@,
        doubled(a + b) == doubled(a) + doubled(b),
        c != '\u{1b}' ==> doubled(seq![c]) == seq![c],
        c == '\u{1b}' ==> doubled(seq![c]) == seq![c, c],
        doubled(seq![]).len() == 0,
{
    lemma_doubled_concat(a, b);
    let one = seq![c];
    assert(one.drop_last() =~= seq![]);
    assert(doubled(one.drop_last()) =~= seq![]);
    assert(one.last() == c);
    if c == '\u{1b}' {
        assert(doubled(one) =~= seq![c, c]);
    } else {
        assert(doubled(one) =~= seq![c]);
    }
}

proof fn lemma_doubled_concat(a: Seq<char>, b: Seq<char>)
    ensures
        doubled(a + b) == doubled(a) + doubled(b),
    decreases b.len(),
{
    if b.len() == 0 {
        assert(a + b =~= a);
        assert(doubled(a) + doubled(b) =~= doubled(a));
    } else {
        assert((a + b).drop_last() =~= a + b.drop_last());
        assert((a + b).last() == b.last());
        lemma_doubled_concat(a, b.drop_last());
        assert(doubled(a + b) =~= doubled(a) + doubled(b));
    }
}

/// An image is sent in pieces of 4096 characters, the last of which may be shorter, one after
/// the other. Each says whether more follow, and the first says how many columns and rows the
/// image takes.
pub proof fn lemma_image_sent(text: Seq<char>, i: int, rect: Rect, tmux: bool)
    requires
        0 <= i < chunk_count(text.len()),
    ensures
        ({
            let n = chunk_count(text.len());
            let last = i == n - 1;
            let more = if last {
                "0"@
            } else {
                "1"@
            };
            let piece = text.subrange(
                4096 * i,
                if last {
                    text.len() as int
                } else {
                    4096 * i + 4096
                },
            );
            &&& 4096 * (n - 1) < text.len() <= 4096 * n
            &&& i > 0 ==> image_seq(text, i, rect) == "\x1b_Gm="@ + more + ";"@ + piece
                + "\x1b\\"@
            &&& i == 0 ==> image_seq(text, i, rect) == "\x1b_Gf=100,a=T,c="@ + decimal(
                rect.width as nat,
            ) + ",r="@ + decimal(rect.height as nat) + ",i=1,m="@ + more + ";"@ + piece
                + "\x1b\\"@
            &&& image_sent(text, (i + 1) as nat, rect, tmux) == image_sent(
                text,
                i as nat,
                rect,
                tmux,
            ) + passed_on(image_seq(text, i, rect), tmux)
            &&& image_sent(text, 0, rect, tmux).len() == 0
        }),
{
    let n = chunk_count(text.len());
    assert(4096 * (n - 1) < text.len() <= 4096 * n);
    if i < n - 1 {
        assert(4096 * (i + 1) < text.len());
    } else {
        assert(4096 * (i + 1) >= text.len());
    }
}

/// Art in letters has the height and the width that were asked for, and each letter is one of
/// the ten.
pub proof fn lemma_letter_art(
    data: Seq<u8>,
    width: nat,
    height: nat,
    lines: Seq<Seq<char>>,
    x: int,
    y: int,
)
    requires
        can_be_art(data, width, height, lines),
    ensures
        lines.len() == height,
        exists|pixels: Seq<u8>| #[trigger]
            can_be_luma(data, width as int, height as int, pixels) && lines == shaded(
                pixels,
                width,
                height,
            ),
        0 <= y < height ==> lines[y].len() == width,
        0 <= x < width && 0 <= y < height ==> seq![
            ' ', '.', ':', '-', '=', '+', '*', '#', '%', '@',
        ].contains(lines[y][x]),
{
    let pixels = choose|pixels: Seq<u8>| #[trigger]
        can_be_luma(data, width as int, height as int, pixels) && pixels.len() == width * height
            && lines == shaded(pixels, width, height);
    if 0 <= x < width && 0 <= y < height {
        let v = pixels[y * width + x] as int;
        let k = v * 9 / 255;
        lemma_shaded(pixels, width, height, x, y, k);
        let all = seq![' ', '.', ':', '-', '=', '+', '*', '#', '%', '@'];
        assert(0 <= k < 10);
        assert(all[k] == lines[y][x]);
    }
}

} // verus!

use bu_mp3::path::{FilePath, PathPart};
use bu_mp3::text::{
    char_is_space, chars_of, contains_text, count_lines, decimal_text, same_text, text_of, to_lower,
    trim, two_digit_text,
};
use std::path::{Path, PathBuf};

fn path(text: &str) -> FilePath {
    FilePath::from_text(text)
}

const SPELLINGS: [&str; 24] = [
    "", "/", "//", ".", "..", "./", "a", "a/", "./a", "a/.", "a/./b", "a//b", "a/b", "/a", "//a",
    "/./a", "../a", "a/..", "a/../b", "/..", "b", "a/b/c.mp3", ".a/b", "a/.b",
];

#[test]
fn white_space_is_that_of_unicode() {
    for n in 0..=0x10ffffu32 {
        if let Some(c) = char::from_u32(n) {
            assert_eq!(char_is_space(c), c.is_whitespace(), "{:?}", c);
        }
    }
}

#[test]
fn trimming_takes_white_space_off_both_ends() {
    for s in ["", " ", "a", " a", "a ", "\u{3000}a b\u{a0}\n", "\t\r\n", "\u{200b}a\u{200b}"] {
        assert_eq!(trim(s), s.trim());
        assert_eq!(trim(&trim(s)), trim(s));
    }
}

#[test]
fn lowering_changes_ascii_letters_only() {
    for s in ["", "ABC xyz", "ÄÖ@[`{Z", "ÉA"] {
        assert_eq!(to_lower(s), s.to_ascii_lowercase());
    }
}

#[test]
fn a_text_contains_its_parts() {
    for (hay, needle) in [
        ("", ""),
        ("abc", ""),
        ("abc", "abc"),
        ("abc", "bc"),
        ("abc", "cb"),
        ("ab", "abc"),
        ("aaab", "aab"),
        ("한국어", "국"),
    ] {
        assert_eq!(contains_text(hay, needle), hay.contains(needle));
    }
}

#[test]
fn lines_are_counted_as_they_are_split() {
    for s in ["", "a", "a\n", "a\nb", "\n", "\n\n", "a\r\nb\r\n", "a\n\nb"] {
        assert_eq!(count_lines(s), s.lines().count(), "{:?}", s);
    }
}

#[test]
fn numbers_are_written_in_decimal() {
    for n in [0u128, 7, 10, 99, 100, 65535, u128::MAX] {
        assert_eq!(decimal_text(n), format!("{}", n));
        assert_eq!(two_digit_text(n), format!("{:02}", n));
    }
}

#[test]
fn characters_and_texts() {
    let chars = chars_of("añb");
    assert_eq!(chars, vec!['a', 'ñ', 'b']);
    assert_eq!(text_of(&chars, 1, 3), "ñb");
    assert!(same_text("añb", "añb"));
    assert!(!same_text("añb", "añ"));
}

#[test]
fn paths_are_equal_part_by_part() {
    for a in SPELLINGS {
        for b in SPELLINGS {
            assert_eq!(path(a).same_as(&path(b)), Path::new(a) == Path::new(b), "{:?} {:?}", a, b);
        }
    }
}

#[test]
fn paths_are_read_into_parts() {
    let parts = path("/a/../b").path_parts();
    assert_eq!(parts.len(), 4);
    assert!(matches!(parts[0], PathPart::Root));
    assert!(matches!(&parts[1], PathPart::Name(n) if n == b"a"));
    assert!(matches!(parts[2], PathPart::Parent));
    assert!(matches!(&parts[3], PathPart::Name(n) if n == b"b"));
    assert!(matches!(path("./x").path_parts()[0], PathPart::Current));
}

#[test]
fn file_names_are_the_last_names() {
    for s in SPELLINGS {
        let want = Path::new(s).file_name().and_then(|n| n.to_str()).map(|n| n.to_string());
        assert_eq!(path(s).name_text(), want, "{:?}", s);
    }
}

#[test]
fn a_file_name_that_is_no_text_is_none() {
    let p = FilePath { bytes: vec![b'a', b'/', 0xff] };
    assert_eq!(p.name(), Some(vec![0xff]));
    assert_eq!(p.name_text(), None);
}

#[test]
fn paths_are_shown_with_replacement_characters() {
    let p = FilePath { bytes: vec![b'a', 0xff, b'b'] };
    assert_eq!(p.lossy(), "a\u{fffd}b");
    assert_eq!(path("/ü/b").lossy(), "/ü/b");
}

#[test]
fn mp3_files_are_told_by_their_extension() {
    for s in [
        "a.mp3", "a.MP3", "a.Mp3", "a.mp3/", "a", ".mp3", "a.mp3.txt", "a.mp", "a.mp33", "a.mp3 ",
        "x/a.b.mp3", "..mp3", "a.",
    ] {
        let want = Path::new(s)
            .extension()
            .and_then(|e| e.to_str())
            .map(|e| e.eq_ignore_ascii_case("mp3"))
            .unwrap_or(false);
        assert_eq!(path(s).is_mp3(), want, "{:?}", s);
    }
}

#[test]
fn joining_paths() {
    for a in ["", "/", "a", "a/", "/a/b"] {
        for b in ["", "x", "/x", "x/y", "./x"] {
            let want = PathBuf::from(a).join(b);
            assert_eq!(path(a).join(&path(b)).lossy(), want.to_string_lossy(), "{:?} {:?}", a, b);
        }
    }
}

#[test]
fn a_copy_of_a_path_is_the_same() {
    let p = FilePath { bytes: vec![b'/', 0, 0xff] };
    assert_eq!(p.clone().bytes, p.bytes);
}

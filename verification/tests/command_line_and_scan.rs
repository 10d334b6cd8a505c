use bu_mp3::args::{parse_args, usage, usage_text, ArgsError, Command};
use bu_mp3::metadata::sort_key_label;
use bu_mp3::models::{Args, SortKey};
use bu_mp3::path::FilePath;
use bu_mp3::scanner::{
    playlist_paths, require_tracks, scan_playlist, scan_track, select_tracks, DirItem, FileStat, NoTracks,
};

fn parse(list: &[&str]) -> Result<Command, ArgsError> {
    parse_args(&list.iter().map(|s| s.to_string()).collect())
}

fn play(list: &[&str]) -> Args {
    match parse(list) {
        Ok(Command::Play(args)) => args,
        _ => panic!("{:?}", list),
    }
}

fn message(list: &[&str]) -> String {
    match parse(list) {
        Err(e) => e.message(),
        Ok(_) => panic!("{:?}", list),
    }
}

#[test]
fn a_path_alone_is_played_by_path() {
    let args = play(&["music"]);
    assert_eq!(args.path.lossy(), "music");
    assert_eq!(args.sort, SortKey::Path);
    assert!(!args.reverse);
}

#[test]
fn options_may_stand_anywhere() {
    for list in [
        ["--sort", "title", "--reverse", "m"],
        ["m", "--sort", "title", "--reverse"],
        ["--reverse", "m", "--sort", "title"],
    ] {
        let args = play(&list);
        assert_eq!(args.path.lossy(), "m");
        assert_eq!(args.sort, SortKey::Title);
        assert!(args.reverse);
    }
}

#[test]
fn one_path_and_named_keys_are_played() {
    let args = play(&["--sort", "album", "path", "--sort", "mtime", "--reverse", "--reverse"]);
    assert_eq!((args.path.lossy().as_str(), args.sort), ("path", SortKey::Mtime));
    assert!(args.reverse);
    assert_eq!(play(&["-x"]).path.lossy(), "-x");
    assert_eq!(message(&["m", "--sort", "--reverse"]), "Unknown sort key '--reverse'");
    assert_eq!(message(&["--sort", "--sort", "path", "m"]), "Unknown sort key '--sort'");
    assert_eq!(message(&["--sort", "title"]), usage());
    assert_eq!(message(&["title", "--sort", "title", "m"]), "Only one path is allowed");
}

#[test]
fn every_sort_key_has_a_name() {
    for (name, key) in [
        ("path", SortKey::Path),
        ("name", SortKey::Name),
        ("mtime", SortKey::Mtime),
        ("title", SortKey::Title),
        ("artist", SortKey::Artist),
        ("album", SortKey::Album),
    ] {
        assert_eq!(play(&["--sort", name, "m"]).sort, key);
    }
    assert_eq!(play(&["--sort", "name", "m", "--sort", "album"]).sort, SortKey::Album);
}

#[test]
fn help_comes_before_what_follows_it() {
    assert!(matches!(parse(&["-h"]), Ok(Command::Help)));
    assert!(matches!(parse(&["m", "--help", "n"]), Ok(Command::Help)));
    assert!(matches!(parse(&["m", "n", "-h"]), Err(ArgsError::ExtraPath)));
}

#[test]
fn wrong_command_lines_are_refused() {
    assert!(matches!(parse(&["m", "--sort"]), Err(ArgsError::MissingSortValue)));
    assert_eq!(message(&["m", "--sort"]), "Missing value for --sort");
    assert!(matches!(parse(&["--sort", "Title"]), Err(ArgsError::UnknownSortKey(k)) if k == "Title"));
    assert_eq!(message(&["--sort", "size", "m"]), "Unknown sort key 'size'");
    assert_eq!(message(&["a", "b"]), "Only one path is allowed");
    assert!(matches!(parse(&[]), Err(ArgsError::MissingPath)));
    assert_eq!(message(&["--reverse"]), usage());
    assert_eq!(play(&["--sort", "path", "-x"]).path.lossy(), "-x");
}

#[test]
fn the_usage_is_printed_in_two_lines() {
    assert_eq!(
        usage_text(),
        "Usage: bu-rust-mp3 [--sort path|name|mtime|title|artist|album] [--reverse] <file.mp3|directory>\nSort defaults to path. Use --reverse to invert order.\n"
    );
}

fn item(path: &str, is_file: bool) -> DirItem {
    DirItem { path: FilePath::from_text(path), is_file }
}

fn stat(size: u64, modified: Option<i64>) -> Option<FileStat> {
    Some(FileStat { size, modified })
}

#[test]
fn mp3_files_are_selected() {
    let items = vec![
        item("m", false),
        item("m/b.MP3", true),
        item("m/a.txt", true),
        item("m/c.mp3", false),
        item("m/a.mp3", true),
    ];
    let paths: Vec<String> = select_tracks(&items).iter().map(|p| p.lossy()).collect();
    assert_eq!(paths, ["m/b.MP3", "m/a.mp3"]);
}

#[test]
fn a_file_is_kept_with_its_size_and_time() {
    let p = FilePath::from_text("a.mp3");
    for (modified, kept) in [(Some(7), 7), (Some(0), 0), (Some(-1), 0), (None, 0)] {
        let t = scan_track(&p, stat(5, modified)).ok().unwrap();
        assert_eq!((t.path.lossy().as_str(), t.size, t.modified_unix_secs), ("a.mp3", 5, kept));
    }
    let e = scan_track(&p, None).err().unwrap();
    assert_eq!(e.message(), "read metadata for a.mp3");
}

#[test]
fn scans_are_sorted_by_path() {
    let paths: Vec<FilePath> =
        ["m/b.mp3", "m.mp3", "m/a.mp3"].iter().map(|p| FilePath::from_text(p)).collect();
    let stats = vec![stat(1, None), stat(2, Some(9)), stat(3, None)];
    let list = scan_playlist(&paths, &stats).ok().unwrap();
    let found: Vec<(String, u64)> = list.iter().map(|t| (t.path.lossy(), t.size)).collect();
    assert_eq!(
        found,
        [("m/a.mp3".to_string(), 3), ("m/b.mp3".to_string(), 1), ("m.mp3".to_string(), 2)]
    );
}

#[test]
fn the_order_in_which_files_are_met_does_not_matter() {
    let names = ["c", "a", "b"];
    let mut first: Vec<FilePath> = names.iter().map(|p| FilePath::from_text(p)).collect();
    let one = scan_playlist(&first, &vec![stat(1, None); 3]).ok().unwrap();
    first.reverse();
    let two = scan_playlist(&first, &vec![stat(1, None); 3]).ok().unwrap();
    for (a, b) in one.iter().zip(&two) {
        assert_eq!(a.path.bytes, b.path.bytes);
    }
}

#[test]
fn a_file_that_cannot_be_read_ends_the_scan() {
    let paths: Vec<FilePath> = ["c", "b", "a"].iter().map(|p| FilePath::from_text(p)).collect();
    let e = scan_playlist(&paths, &vec![stat(1, None), None, None]).err().unwrap();
    assert_eq!(e.path.lossy(), "b");
    assert_eq!(scan_playlist(&vec![], &vec![]).ok().unwrap().len(), 0);
}

#[test]
fn a_playlist_needs_files() {
    assert_eq!(require_tracks(&vec![]), Err(NoTracks));
    let list = scan_playlist(&vec![FilePath::from_text("a")], &vec![stat(1, None)]).ok().unwrap();
    assert_eq!(require_tracks(&list), Ok(()));
}

#[test]
fn a_file_is_a_playlist_by_itself() {
    let root = FilePath::from_text("song.wav");
    let paths = playlist_paths(&root, true, &vec![item("x.mp3", true)]);
    assert_eq!(paths.iter().map(|p| p.lossy()).collect::<Vec<_>>(), ["song.wav"]);
    let paths = playlist_paths(&root, false, &vec![item("x.mp3", true), item("y", true)]);
    assert_eq!(paths.iter().map(|p| p.lossy()).collect::<Vec<_>>(), ["x.mp3"]);
}

#[test]
fn labels_of_sort_keys_can_be_given_back() {
    for key in [
        SortKey::Path,
        SortKey::Name,
        SortKey::Mtime,
        SortKey::Title,
        SortKey::Artist,
        SortKey::Album,
    ] {
        assert_eq!(play(&["--sort", sort_key_label(key), "m"]).sort, key);
    }
}

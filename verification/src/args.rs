//! The command line.

use vstd::prelude::*;
use vstd::string::*;
use vstd::utf8::*;

use crate::metadata::key_label;
use crate::models::{texts, Args, SortKey};
use crate::path::{opt_path, FilePath};
use crate::text::same_text;

verus! {

/// What the command line asks for.
pub enum Command {
    /// To say how the program is used.
    Help,
    /// To play a playlist.
    Play(Args),
}

/// What is wrong with a command line.
pub enum ArgsError {
    /// `--sort` is the last argument.
    MissingSortValue,
    /// What follows `--sort` is no sort key.
    UnknownSortKey(String),
    /// There is a second path.
    ExtraPath,
    /// There is no path.
    MissingPath,
}

/// What a command line comes to.
#[verifier::ext_equal]
pub enum Outcome {
    Help,
    Play { path: Seq<u8>, sort: SortKey, reverse: bool },
    MissingSortValue,
    UnknownSortKey(Seq<char>),
    ExtraPath,
    MissingPath,
}

/// What the result of parsing stands for.
pub open spec fn outcome(result: Result<Command, ArgsError>) -> Outcome {
    match result {
        Ok(Command::Help) => Outcome::Help,
        Ok(Command::Play(args)) => Outcome::Play {
            path: args.path@,
            sort: args.sort,
            reverse: args.reverse,
        },
        Err(ArgsError::MissingSortValue) => Outcome::MissingSortValue,
        Err(ArgsError::UnknownSortKey(key)) => Outcome::UnknownSortKey(key@),
        Err(ArgsError::ExtraPath) => Outcome::ExtraPath,
        Err(ArgsError::MissingPath) => Outcome::MissingPath,
    }
}

/// The sort key that a name on the command line stands for.
pub open spec fn named_key(name: Seq<char>) -> Option<SortKey> {
    if name == "path"@ {
        Some(SortKey::Path)
    } else if name == "name"@ {
        Some(SortKey::Name)
    } else if name == "mtime"@ {
        Some(SortKey::Mtime)
    } else if name == "title"@ {
        Some(SortKey::Title)
    } else if name == "artist"@ {
        Some(SortKey::Artist)
    } else if name == "album"@ {
        Some(SortKey::Album)
    } else {
        None
    }
}

/// The name that the interface gives a sort key is the one that the command line takes.
pub proof fn lemma_named_label(key: SortKey)
    ensures
        named_key(key_label(key)) == Some(key),
{
    reveal_strlit("path");
    reveal_strlit("name");
    reveal_strlit("mtime");
    reveal_strlit("title");
    reveal_strlit("artist");
    reveal_strlit("album");
    assert("path"@[0] == 'p' && "name"@[0] == 'n' && "mtime"@[0] == 'm');
    assert("title"@[0] == 't' && "artist"@[1] == 'r' && "album"@[1] == 'l');
    assert("artist"@[0] == 'a' && "album"@[0] == 'a');
}

/// What the arguments from number `from` on come to, where those before it gave this path, this
/// sort key and this direction.
pub open spec fn parsed(
    args: Seq<Seq<char>>,
    from: int,
    path: Option<Seq<u8>>,
    sort: SortKey,
    reverse: bool,
) -> Outcome
    decreases args.len() - from,
{
    if from < 0 || from >= args.len() {
        match path {
            Some(path) => Outcome::Play { path, sort, reverse },
            None => Outcome::MissingPath,
        }
    } else if args[from] == "-h"@ || args[from] == "--help"@ {
        Outcome::Help
    } else if args[from] == "--reverse"@ {
        parsed(args, from + 1, path, sort, true)
    } else if args[from] == "--sort"@ {
        if from + 1 >= args.len() {
            Outcome::MissingSortValue
        } else {
            match named_key(args[from + 1]) {
                Some(key) => parsed(args, from + 2, path, key, reverse),
                None => Outcome::UnknownSortKey(args[from + 1]),
            }
        }
    } else if path is Some {
        Outcome::ExtraPath
    } else {
        parsed(args, from + 1, Some(encode_utf8(args[from])), sort, reverse)
    }
}

/// Whether the arguments ask for help nowhere.
pub open spec fn no_help(args: Seq<Seq<char>>) -> bool {
    forall|i: int|
        0 <= i < args.len() ==> #[trigger] args[i] != "-h"@ && args[i] != "--help"@
}

/// Whether the argument number `i`, where it is `--sort`, is followed by a sort key.
pub open spec fn sort_named(args: Seq<Seq<char>>, i: int) -> bool {
    args[i] == "--sort"@ ==> i + 1 < args.len() && named_key(args[i + 1]) is Some
}

/// Whether every `--sort` is followed by a sort key.
pub open spec fn sorts_named(args: Seq<Seq<char>>) -> bool {
    forall|i: int| 0 <= i < args.len() ==> #[trigger] sort_named(args, i)
}

/// Whether the argument number `i` is a path: it is no flag, and it does not follow `--sort`.
pub open spec fn is_path(args: Seq<Seq<char>>, i: int) -> bool {
    &&& 0 <= i < args.len()
    &&& args[i] != "--reverse"@
    &&& args[i] != "--sort"@
    &&& i > 0 ==> args[i - 1] != "--sort"@
}

/// Whether the argument number `p` is a path and no other is.
pub open spec fn only_path(args: Seq<Seq<char>>, p: int) -> bool {
    &&& is_path(args, p)
    &&& forall|i: int| #[trigger] is_path(args, i) ==> i == p
}

/// The sort key that follows the last `--sort` among the first `n` arguments. Tracks are sorted
/// by path where there is none.
pub open spec fn chosen_sort(args: Seq<Seq<char>>, n: int) -> SortKey
    decreases n,
{
    if n <= 0 {
        SortKey::Path
    } else if args[n - 1] == "--sort"@ {
        named_key(args[n])->0
    } else {
        chosen_sort(args, n - 1)
    }
}

/// Whether `--reverse` is among the first `n` arguments.
pub open spec fn reversed(args: Seq<Seq<char>>, n: int) -> bool {
    exists|i: int| 0 <= i < n && #[trigger] args[i] == "--reverse"@
}

/// A command line that asks for no help plays if and only if every `--sort` is followed by a
/// sort key and exactly one argument is a path. It then plays that path, by the last sort key,
/// and in reverse if and only if `--reverse` is there.
pub proof fn lemma_plays(args: Seq<Seq<char>>)
    requires
        no_help(args),
    ensures
        ({
            let out = parsed(args, 0, None, SortKey::Path, false);
            &&& out is Play <==> sorts_named(args) && exists|p: int| only_path(args, p)
            &&& forall|p: int| #[trigger]
                only_path(args, p) && sorts_named(args) ==> out == (Outcome::Play {
                    path: encode_utf8(args[p]),
                    sort: chosen_sort(args, args.len() as int),
                    reverse: reversed(args, args.len() as int),
                })
        }),
{
    lemma_parsed_on(args, 0, None, SortKey::Path, false);
}

/// Whether the first `from` arguments give this path, this sort key and this direction.
spec fn given(
    args: Seq<Seq<char>>,
    from: int,
    path: Option<Seq<u8>>,
    sort: SortKey,
    reverse: bool,
) -> bool {
    &&& 0 <= from <= args.len()
    &&& from > 0 ==> args[from - 1] != "--sort"@
    &&& forall|i: int| 0 <= i < from ==> #[trigger] sort_named(args, i)
    &&& sort == chosen_sort(args, from)
    &&& reverse == reversed(args, from)
    &&& match path {
        Some(bytes) => exists|p: int|
            {
                &&& p < from
                &&& #[trigger] is_path(args, p)
                &&& bytes == encode_utf8(args[p])
                &&& forall|i: int| i < from && #[trigger] is_path(args, i) ==> i == p
            },
        None => forall|i: int| i < from ==> !#[trigger] is_path(args, i),
    }
}

proof fn lemma_key_no_flag(name: Seq<char>)
    requires
        named_key(name) is Some,
    ensures
        name != "--sort"@,
        name != "--reverse"@,
{
    reveal_strlit("path");
    reveal_strlit("name");
    reveal_strlit("mtime");
    reveal_strlit("title");
    reveal_strlit("artist");
    reveal_strlit("album");
    reveal_strlit("--sort");
    reveal_strlit("--reverse");
    assert(name[0] != '-');
    assert("--sort"@[0] == '-' && "--reverse"@[0] == '-');
}

proof fn lemma_parsed_on(
    args: Seq<Seq<char>>,
    from: int,
    path: Option<Seq<u8>>,
    sort: SortKey,
    reverse: bool,
)
    requires
        no_help(args),
        given(args, from, path, sort, reverse),
    ensures
        ({
            let out = parsed(args, from, path, sort, reverse);
            &&& out is Play <==> sorts_named(args) && exists|p: int| only_path(args, p)
            &&& forall|p: int| #[trigger]
                only_path(args, p) && sorts_named(args) ==> out == (Outcome::Play {
                    path: encode_utf8(args[p]),
                    sort: chosen_sort(args, args.len() as int),
                    reverse: reversed(args, args.len() as int),
                })
        }),
    decreases args.len() - from,
{
    reveal_strlit("--sort");
    reveal_strlit("--reverse");
    assert("--sort"@.len() != "--reverse"@.len());
    if from == args.len() {
        if path is Some {
            let p = choose|p: int|
                {
                    &&& p < from
                    &&& #[trigger] is_path(args, p)
                    &&& path->0 == encode_utf8(args[p])
                    &&& forall|i: int| i < from && #[trigger] is_path(args, i) ==> i == p
                };
            assert(only_path(args, p));
        }
    } else if args[from] == "--reverse"@ {
        assert(!is_path(args, from));
        assert(sort_named(args, from));
        assert(reversed(args, from + 1));
        lemma_parsed_on(args, from + 1, path, sort, true);
    } else if args[from] == "--sort"@ {
        if sort_named(args, from) {
            let key = named_key(args[from + 1])->0;
            lemma_key_no_flag(args[from + 1]);
            assert(!is_path(args, from) && !is_path(args, from + 1));
            assert(sort_named(args, from + 1));
            assert(chosen_sort(args, from + 1) == key);
            assert(reversed(args, from + 2) == reversed(args, from));
            lemma_parsed_on(args, from + 2, path, key, reverse);
        }
    } else {
        assert(is_path(args, from));
        assert(sort_named(args, from));
        if path is None {
            assert(reversed(args, from + 1) == reversed(args, from));
            lemma_parsed_on(args, from + 1, Some(encode_utf8(args[from])), sort, reverse);
        }
    }
}

/// The sort key that a name on the command line stands for.
fn key_named(name: &str) -> (key: Option<SortKey>)
    ensures
        key == named_key(name@),
{
    if same_text(name, "path") {
        Some(SortKey::Path)
    } else if same_text(name, "name") {
        Some(SortKey::Name)
    } else if same_text(name, "mtime") {
        Some(SortKey::Mtime)
    } else if same_text(name, "title") {
        Some(SortKey::Title)
    } else if same_text(name, "artist") {
        Some(SortKey::Artist)
    } else if same_text(name, "album") {
        Some(SortKey::Album)
    } else {
        None
    }
}

/// Reads the command line, without the name of the program.
pub fn parse_args(args: &Vec<String>) -> (result: Result<Command, ArgsError>)
    ensures
        outcome(result) == parsed(texts(args@), 0, None, SortKey::Path, false),
{
    let ghost list = texts(args@);
    let mut path: Option<FilePath> = None;
    let mut sort = SortKey::Path;
    let mut reverse = false;
    let mut i: usize = 0;
    while i < args.len()
        invariant
            i <= args@.len(),
            list == texts(args@),
            parsed(list, 0, None, SortKey::Path, false) == parsed(
                list,
                i as int,
                opt_path(path),
                sort,
                reverse,
            ),
        decreases args@.len() - i,
    {
        let arg = args[i].as_str();
        assert(list[i as int] == arg@);
        if same_text(arg, "-h") || same_text(arg, "--help") {
            return Ok(Command::Help);
        } else if same_text(arg, "--reverse") {
            reverse = true;
            i = i + 1;
        } else if same_text(arg, "--sort") {
            if i + 1 >= args.len() {
                return Err(ArgsError::MissingSortValue);
            }
            let key = args[i + 1].as_str();
            assert(list[i + 1] == key@);
            match key_named(key) {
                Some(key) => {
                    sort = key;
                },
                None => {
                    return Err(ArgsError::UnknownSortKey(key.to_owned()));
                },
            }
            i = i + 2;
        } else {
            if path.is_some() {
                return Err(ArgsError::ExtraPath);
            }
            path = Some(FilePath::from_text(arg));
            i = i + 1;
        }
    }
    match path {
        Some(path) => Ok(Command::Play(Args { path, sort, reverse })),
        None => Err(ArgsError::MissingPath),
    }
}

/// How the program is used, in one line.
pub open spec fn usage_line() -> Seq<char> {
    "Usage: bu-rust-mp3 [--sort path|name|mtime|title|artist|album] [--reverse] <file.mp3|directory>"@
}

/// How the program is used, in one line.
pub fn usage() -> (line: String)
    ensures
        line@ == usage_line(),
{
    "Usage: bu-rust-mp3 [--sort path|name|mtime|title|artist|album] [--reverse] <file.mp3|directory>".to_owned()
}

/// What is printed where the command line asks for help.
pub fn usage_text() -> (text: String)
    ensures
        text@ == usage_line() + "\nSort defaults to path. Use --reverse to invert order.\n"@,
{
    let mut text = usage();
    text.append("\nSort defaults to path. Use --reverse to invert order.\n");
    text
}

impl ArgsError {
    /// What is said of the error.
    pub open spec fn words(self) -> Seq<char> {
        match self {
            ArgsError::MissingSortValue => "Missing value for --sort"@,
            ArgsError::UnknownSortKey(key) => "Unknown sort key '"@ + key@ + "'"@,
            ArgsError::ExtraPath => "Only one path is allowed"@,
            ArgsError::MissingPath => usage_line(),
        }
    }

    /// What is said of the error.
    pub fn message(&self) -> (text: String)
        ensures
            text@ == self.words(),
    {
        match self {
            ArgsError::MissingSortValue => "Missing value for --sort".to_owned(),
            ArgsError::UnknownSortKey(key) => {
                let mut text = "Unknown sort key '".to_owned();
                text.append(key.as_str());
                text.append("'");
                text
            },
            ArgsError::ExtraPath => "Only one path is allowed".to_owned(),
            ArgsError::MissingPath => usage(),
        }
    }
}

/// A sort key is named by one word, and a word names one sort key at most.
pub proof fn lemma_named_keys(name: Seq<char>, key: SortKey)
    ensures
        named_key(name) == Some(key) <==> name == (match key {
            SortKey::Path => seq!['p', 'a', 't', 'h'],
            SortKey::Name => seq!['n', 'a', 'm', 'e'],
            SortKey::Mtime => seq!['m', 't', 'i', 'm', 'e'],
            SortKey::Title => seq!['t', 'i', 't', 'l', 'e'],
            SortKey::Artist => seq!['a', 'r', 't', 'i', 's', 't'],
            SortKey::Album => seq!['a', 'l', 'b', 'u', 'm'],
        }),
{
    reveal_strlit("path");
    reveal_strlit("name");
    reveal_strlit("mtime");
    reveal_strlit("title");
    reveal_strlit("artist");
    reveal_strlit("album");
    assert("path"@ =~= seq!['p', 'a', 't', 'h']);
    assert("name"@ =~= seq!['n', 'a', 'm', 'e']);
    assert("mtime"@ =~= seq!['m', 't', 'i', 'm', 'e']);
    assert("title"@ =~= seq!['t', 'i', 't', 'l', 'e']);
    assert("artist"@ =~= seq!['a', 'r', 't', 'i', 's', 't']);
    assert("album"@ =~= seq!['a', 'l', 'b', 'u', 'm']);
    assert("path"@[0] == 'p' && "name"@[0] == 'n' && "mtime"@[0] == 'm');
    assert("title"@[0] == 't' && "artist"@[1] == 'r' && "album"@[1] == 'l');
    assert("artist"@[0] == 'a' && "album"@[0] == 'a');
}

/// A command line that is refused gives cause to: a word that names no sort key follows a
/// `--sort`, or nothing follows one, or there are two paths, or there is none at all. It asks for
/// help only if help is asked for somewhere.
pub proof fn lemma_refused(args: Seq<Seq<char>>)
    ensures
        ({
            let out = parsed(args, 0, None, SortKey::Path, false);
            &&& out matches Outcome::UnknownSortKey(word) ==> named_key(word) is None && exists|
                i: int,
            |
                0 <= i < args.len() - 1 && #[trigger] args[i] == "--sort"@ && args[i + 1] == word
            &&& out is MissingSortValue ==> args.len() > 0 && args.last() == "--sort"@
            &&& out is ExtraPath ==> exists|i: int, j: int|
                i < j && #[trigger] is_path(args, i) && #[trigger] is_path(args, j)
            &&& out is MissingPath ==> (forall|i: int| !(#[trigger] is_path(args, i)))
            &&& out is Help ==> exists|i: int|
                0 <= i < args.len() && (#[trigger] args[i] == "-h"@ || args[i] == "--help"@)
        }),
{
    lemma_refused_on(args, 0, None, SortKey::Path, false);
}

proof fn lemma_refused_on(
    args: Seq<Seq<char>>,
    from: int,
    path: Option<Seq<u8>>,
    sort: SortKey,
    reverse: bool,
)
    requires
        given(args, from, path, sort, reverse),
    ensures
        ({
            let out = parsed(args, from, path, sort, reverse);
            &&& out matches Outcome::UnknownSortKey(word) ==> named_key(word) is None && exists|
                i: int,
            |
                0 <= i < args.len() - 1 && #[trigger] args[i] == "--sort"@ && args[i + 1] == word
            &&& out is MissingSortValue ==> args.len() > 0 && args.last() == "--sort"@
            &&& out is ExtraPath ==> exists|i: int, j: int|
                i < j && #[trigger] is_path(args, i) && #[trigger] is_path(args, j)
            &&& out is MissingPath ==> (forall|i: int| !(#[trigger] is_path(args, i)))
            &&& out is Help ==> exists|i: int|
                0 <= i < args.len() && (#[trigger] args[i] == "-h"@ || args[i] == "--help"@)
        }),
    decreases args.len() - from,
{
    reveal_strlit("--sort");
    reveal_strlit("--reverse");
    reveal_strlit("-h");
    reveal_strlit("--help");
    assert("--sort"@.len() != "--reverse"@.len());
    if from == args.len() {
    } else if args[from] == "-h"@ || args[from] == "--help"@ {
    } else if args[from] == "--reverse"@ {
        assert(!is_path(args, from));
        assert(sort_named(args, from));
        assert(reversed(args, from + 1));
        lemma_refused_on(args, from + 1, path, sort, true);
    } else if args[from] == "--sort"@ {
        if sort_named(args, from) {
            let key = named_key(args[from + 1])->0;
            lemma_key_no_flag(args[from + 1]);
            assert(!is_path(args, from) && !is_path(args, from + 1));
            assert(sort_named(args, from + 1));
            assert(chosen_sort(args, from + 1) == key);
            assert(reversed(args, from + 2) == reversed(args, from));
            lemma_refused_on(args, from + 2, path, key, reverse);
        }
    } else {
        assert(is_path(args, from));
        assert(sort_named(args, from));
        if path is None {
            assert(reversed(args, from + 1) == reversed(args, from));
            lemma_refused_on(args, from + 1, Some(encode_utf8(args[from])), sort, reverse);
        }
    }
}

/// Help that is asked for is given, whatever follows, where the arguments before it are ones that
/// a command line can start with.
pub proof fn lemma_help_given(args: Seq<Seq<char>>, i: int)
    requires
        0 <= i < args.len(),
        args[i] == "-h"@ || args[i] == "--help"@,
        ({
            let before = parsed(args.take(i), 0, None, SortKey::Path, false);
            before is Play || before is MissingPath
        }),
    ensures
        parsed(args, 0, None, SortKey::Path, false) is Help,
{
    lemma_help_on(args, i, 0, None, SortKey::Path, false);
}

proof fn lemma_help_on(
    args: Seq<Seq<char>>,
    i: int,
    from: int,
    path: Option<Seq<u8>>,
    sort: SortKey,
    reverse: bool,
)
    requires
        0 <= from <= i < args.len(),
        args[i] == "-h"@ || args[i] == "--help"@,
        ({
            let before = parsed(args.take(i), from, path, sort, reverse);
            before is Play || before is MissingPath
        }),
    ensures
        parsed(args, from, path, sort, reverse) is Help,
    decreases i - from,
{
    let start = args.take(i);
    if from < i {
        assert(start[from] == args[from]);
        if args[from] == "-h"@ || args[from] == "--help"@ {
        } else if args[from] == "--reverse"@ {
            lemma_help_on(args, i, from + 1, path, sort, true);
        } else if args[from] == "--sort"@ {
            assert(from + 1 < i);
            assert(start[from + 1] == args[from + 1]);
            lemma_help_on(args, i, from + 2, path, named_key(args[from + 1])->0, reverse);
        } else {
            lemma_help_on(args, i, from + 1, Some(encode_utf8(args[from])), sort, reverse);
        }
    }
}

/// What the result of parsing stands for is what it holds, and each error has its own words.
pub proof fn lemma_outcome(result: Result<Command, ArgsError>)
    ensures
        result matches Ok(Command::Play(args)) ==> outcome(result) == (Outcome::Play {
            path: args.path.bytes@,
            sort: args.sort,
            reverse: args.reverse,
        }),
        result matches Ok(Command::Help) <==> outcome(result) is Help,
        result matches Err(ArgsError::MissingSortValue) <==> outcome(result) is MissingSortValue,
        result matches Err(ArgsError::ExtraPath) <==> outcome(result) is ExtraPath,
        result matches Err(ArgsError::MissingPath) <==> outcome(result) is MissingPath,
        result matches Err(ArgsError::UnknownSortKey(key)) ==> outcome(result)
            == Outcome::UnknownSortKey(key@),
        result matches Err(e) ==> {
            &&& e is MissingSortValue ==> e.words() == "Missing value for --sort"@
            &&& e matches ArgsError::UnknownSortKey(key) ==> e.words() == "Unknown sort key '"@
                + key@ + "'"@
            &&& e is ExtraPath ==> e.words() == "Only one path is allowed"@
            &&& e is MissingPath ==> e.words()
                == "Usage: bu-rust-mp3 [--sort path|name|mtime|title|artist|album] [--reverse] <file.mp3|directory>"@
        },
{
}

} // verus!

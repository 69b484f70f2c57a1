//! Decisions taken while loading a grammar document: which loader a file
//! needs, how a script runtime is invoked, how its output is read, and what
//! a grammar directory's name says about the language.
use vstd::prelude::*;
use vstd::string::*;
use crate::text::{chars_of, text_is};

verus! {

/// How a grammar file is turned into a grammar document.
#[derive(Clone, Copy, Debug, PartialEq, Eq, Structural)]
pub enum GrammarFileKind {
    /// A grammar written in the JavaScript DSL, evaluated by a runtime.
    JavaScript,
    /// A grammar document already in JSON.
    Json,
}

/// Why no grammar document could be obtained.
#[derive(Clone, Copy, Debug, PartialEq, Eq, Structural)]
pub enum GrammarLoadError {
    /// The path names a directory, not a grammar file.
    Directory,
    /// The file's extension is neither `js` nor `json`.
    UnknownExtension,
    /// The runtime process ended without an exit status.
    ProcessKilled,
    /// The runtime process exited with a non-zero status.
    ExitStatus { code: i32 },
    /// The runtime's last output line is not a JSON document.
    InvalidJson,
}

pub open spec fn opt_view(o: Option<&str>) -> Option<Seq<char>> {
    match o {
        Some(s) => Some(s@),
        None => None,
    }
}

pub open spec fn file_kind_of(is_directory: bool, extension: Option<Seq<char>>) -> Result<
    GrammarFileKind,
    GrammarLoadError,
> {
    if is_directory {
        Err(GrammarLoadError::Directory)
    } else {
        match extension {
            Some(e) => if e == "js"@ {
                Ok(GrammarFileKind::JavaScript)
            } else if e == "json"@ {
                Ok(GrammarFileKind::Json)
            } else {
                Err(GrammarLoadError::UnknownExtension)
            },
            None => Err(GrammarLoadError::UnknownExtension),
        }
    }
}

/// Chooses the loader for a grammar path from whether it is a directory and
/// from its extension.
pub fn grammar_file_kind(is_directory: bool, extension: Option<&str>) -> (r: Result<
    GrammarFileKind,
    GrammarLoadError,
>)
    ensures
        r == file_kind_of(is_directory, opt_view(extension)),
{
    if is_directory {
        return Err(GrammarLoadError::Directory);
    }
    match extension {
        Some(e) => if text_is(e, "js") {
            Ok(GrammarFileKind::JavaScript)
        } else if text_is(e, "json") {
            Ok(GrammarFileKind::Json)
        } else {
            Err(GrammarLoadError::UnknownExtension)
        },
        None => Err(GrammarLoadError::UnknownExtension),
    }
}

pub open spec fn runtime_name_of(runtime: Option<Seq<char>>) -> Seq<char> {
    match runtime {
        Some(r) => r,
        None => "node"@,
    }
}

/// The arguments that make a runtime read a module from standard input.
pub open spec fn runtime_args_of(runtime: Seq<char>) -> Seq<Seq<char>> {
    if runtime == "node"@ {
        seq!["--input-type=module"@, "-"@]
    } else if runtime == "bun"@ {
        seq!["-"@]
    } else if runtime == "deno"@ {
        seq!["run"@, "--allow-all"@, "-"@]
    } else {
        seq![]
    }
}

pub open spec fn views(v: Seq<String>) -> Seq<Seq<char>> {
    v.map_values(|a: String| a@)
}

/// The program to run for a JavaScript grammar, `node` unless another is
/// named, and the arguments that make it evaluate standard input.
pub fn runtime_command(js_runtime: Option<&str>) -> (r: (String, Vec<String>))
    ensures
        r.0@ == runtime_name_of(opt_view(js_runtime)),
        views(r.1@) == runtime_args_of(r.0@),
{
    let name = match js_runtime {
        Some(n) => String::from_str(n),
        None => String::from_str("node"),
    };
    let args: Vec<String> = if text_is(name.as_str(), "node") {
        vec![String::from_str("--input-type=module"), String::from_str("-")]
    } else if text_is(name.as_str(), "bun") {
        vec![String::from_str("-")]
    } else if text_is(name.as_str(), "deno") {
        vec![String::from_str("run"), String::from_str("--allow-all"), String::from_str("-")]
    } else {
        Vec::new()
    };
    assert(views(args@) =~= runtime_args_of(name@));
    (name, args)
}

/// Splits a runtime's standard output: everything before the last newline is
/// the grammar's own console output, the last line is the grammar document.
/// A killed process or a non-zero exit status is an error.
pub fn split_runtime_output(exit_code: Option<i32>, stdout: &str) -> (r: Result<
    (Option<String>, String),
    GrammarLoadError,
>)
    ensures
        exit_code is None ==> r == Err::<(Option<String>, String), _>(
            GrammarLoadError::ProcessKilled,
        ),
        exit_code is Some && exit_code.unwrap() != 0 ==> r == Err::<(Option<String>, String), _>(
            GrammarLoadError::ExitStatus { code: exit_code.unwrap() },
        ),
        exit_code == Some(0i32) ==> r is Ok,
        r matches Ok((Some(log), doc)) ==> stdout@ == log@ + seq!['\n'] + doc@ && !doc@.contains(
            '\n',
        ),
        r matches Ok((None, doc)) ==> doc@ == stdout@ && !stdout@.contains('\n'),
{
    match exit_code {
        None => Err(GrammarLoadError::ProcessKilled),
        Some(code) => {
            if code != 0 {
                return Err(GrammarLoadError::ExitStatus { code });
            }
            let cs = chars_of(stdout);
            let mut i: usize = cs.len();
            while i > 0
                invariant
                    exit_code == Some(0i32),
                    cs@ == stdout@,
                    0 <= i <= cs.len(),
                    forall|k: int| i <= k < cs.len() ==> cs@[k] != '\n',
                decreases i,
            {
                if cs[i - 1] == '\n' {
                    let log = String::from_str(stdout.substring_char(0, i - 1));
                    let doc = String::from_str(stdout.substring_char(i, cs.len()));
                    assert(stdout@ =~= log@ + seq!['\n'] + doc@);
                    assert(!doc@.contains('\n')) by {
                        if doc@.contains('\n') {
                            let k = choose|k: int| 0 <= k < doc@.len() && doc@[k] == '\n';
                            assert(cs@[i + k] == '\n');
                        }
                    }
                    return Ok((Some(log), doc));
                }
                i = i - 1;
            }
            assert(!stdout@.contains('\n')) by {
                if stdout@.contains('\n') {
                    let k = choose|k: int| 0 <= k < stdout@.len() && stdout@[k] == '\n';
                    assert(cs@[k] == '\n');
                }
            }
            Ok((None, String::from_str(stdout)))
        },
    }
}

/// Whether `lower` is `text` with its ASCII capitals made small.
pub open spec fn ascii_lowered(text: Seq<char>, lower: Seq<char>) -> bool {
    &&& lower.len() == text.len()
    &&& forall|i: int|
        0 <= i < text.len() ==> if 'A' <= #[trigger] text[i] <= 'Z' {
            lower[i] as u32 == text[i] as u32 + 32
        } else {
            lower[i] == text[i]
        }
}

/// The small letter for an ASCII capital, as text of one character.
fn small_letter(c: char) -> (r: &'static str)
    requires
        'A' <= c <= 'Z',
    ensures
        r@.len() == 1 && r@[0] as u32 == c as u32 + 32,
{
    proof {
        reveal_strlit("a");
        reveal_strlit("b");
        reveal_strlit("c");
        reveal_strlit("d");
        reveal_strlit("e");
        reveal_strlit("f");
        reveal_strlit("g");
        reveal_strlit("h");
        reveal_strlit("i");
        reveal_strlit("j");
        reveal_strlit("k");
        reveal_strlit("l");
        reveal_strlit("m");
        reveal_strlit("n");
        reveal_strlit("o");
        reveal_strlit("p");
        reveal_strlit("q");
        reveal_strlit("r");
        reveal_strlit("s");
        reveal_strlit("t");
        reveal_strlit("u");
        reveal_strlit("v");
        reveal_strlit("w");
        reveal_strlit("x");
        reveal_strlit("y");
        reveal_strlit("z");
    }
    if c == 'A' {
        "a"
    } else if c == 'B' {
        "b"
    } else if c == 'C' {
        "c"
    } else if c == 'D' {
        "d"
    } else if c == 'E' {
        "e"
    } else if c == 'F' {
        "f"
    } else if c == 'G' {
        "g"
    } else if c == 'H' {
        "h"
    } else if c == 'I' {
        "i"
    } else if c == 'J' {
        "j"
    } else if c == 'K' {
        "k"
    } else if c == 'L' {
        "l"
    } else if c == 'M' {
        "m"
    } else if c == 'N' {
        "n"
    } else if c == 'O' {
        "o"
    } else if c == 'P' {
        "p"
    } else if c == 'Q' {
        "q"
    } else if c == 'R' {
        "r"
    } else if c == 'S' {
        "s"
    } else if c == 'T' {
        "t"
    } else if c == 'U' {
        "u"
    } else if c == 'V' {
        "v"
    } else if c == 'W' {
        "w"
    } else if c == 'X' {
        "x"
    } else if c == 'Y' {
        "y"
    } else if c == 'Z' {
        "z"
    } else {
        ""
    }
}

/// `text` with ASCII capitals `A` to `Z` made small, every other character
/// kept.
fn ascii_lowercase(text: &str) -> (r: String)
    ensures
        ascii_lowered(text@, r@),
{
    let cs = chars_of(text);
    let mut out = String::new();
    let mut i: usize = 0;
    while i < cs.len()
        invariant
            cs@ == text@,
            0 <= i <= cs.len(),
            ascii_lowered(text@.subrange(0, i as int), out@),
        decreases cs.len() - i,
    {
        let ghost before = out@;
        let c = cs[i];
        if 'A' <= c && c <= 'Z' {
            out.append(small_letter(c));
        } else {
            out.append(text.substring_char(i, i + 1));
        }
        assert forall|j: int| 0 <= j < i + 1 implies if 'A' <= #[trigger] text@.subrange(0, i + 1)[j]
            <= 'Z' {
            out@[j] as u32 == text@.subrange(0, i + 1)[j] as u32 + 32
        } else {
            out@[j] == text@.subrange(0, i + 1)[j]
        } by {
            if j < i {
                assert(text@.subrange(0, i + 1)[j] == text@.subrange(0, i as int)[j]);
                assert(out@[j] == before[j]);
            }
        }
        i = i + 1;
    }
    assert(text@.subrange(0, cs.len() as int) =~= text@);
    out
}

/// A lowered directory name without its conventional `tree-sitter-` prefix.
pub open spec fn language_name_of(lower: Seq<char>) -> Seq<char> {
    if lower.len() >= 12 && lower.subrange(0, 12) == "tree-sitter-"@ {
        lower.subrange(12, lower.len() as int)
    } else {
        lower
    }
}

/// The language name that a grammar directory's name gives: the name in
/// ASCII lower case, without a leading `tree-sitter-`.
pub fn language_name_for_directory(directory_name: &str) -> (r: String)
    ensures
        exists|lower: Seq<char>|
            ascii_lowered(directory_name@, lower) && r@ == language_name_of(lower),
{
    let lower = ascii_lowercase(directory_name);
    let n = lower.as_str().unicode_len();
    proof {
        reveal_strlit("tree-sitter-");
    }
    if n >= 12 && text_is(lower.as_str().substring_char(0, 12), "tree-sitter-") {
        let rest = String::from_str(lower.as_str().substring_char(12, n));
        assert(ascii_lowered(directory_name@, lower@) && rest@ == language_name_of(lower@));
        return rest;
    }
    assert(ascii_lowered(directory_name@, lower@) && lower@ == language_name_of(lower@));
    lower
}

/// What to do around generating a parser in a grammar directory.
#[derive(Clone, Copy, Debug, PartialEq, Eq, Structural)]
pub struct DirectoryPlan {
    /// Create the project files before reading the grammar.
    pub scaffold_first: bool,
    /// Copy the grammar document to `src/grammar.json`.
    pub copy_grammar_json: bool,
    /// Create or refresh the project files once the parser is written.
    pub scaffold_after: bool,
}

/// Decides the file work around generation. `grammar_file_name` is the name
/// of the grammar file, `default_grammar_path` whether it is the directory's
/// own `grammar.js`, `ignored` whether the directory lies in an ignored path.
pub fn directory_plan(
    repo_is_dir: bool,
    grammar_exists: bool,
    ignored: bool,
    default_grammar_path: bool,
    grammar_file_name: &str,
) -> (r: DirectoryPlan)
    ensures
        r.scaffold_first == (repo_is_dir && !grammar_exists && !ignored),
        r.copy_grammar_json == (grammar_file_name@ != "grammar.json"@),
        r.scaffold_after == (!ignored && default_grammar_path),
{
    DirectoryPlan {
        scaffold_first: repo_is_dir && !grammar_exists && !ignored,
        copy_grammar_json: !text_is(grammar_file_name, "grammar.json"),
        scaffold_after: !ignored && default_grammar_path,
    }
}

} // verus!

//! The logic of Scope's CLI subcommands.
//!
//! Each module corresponds to one `scope` subcommand: its arguments, the
//! records it reports, and the decisions and post-processing it applies to
//! what the graph returns. Opening the database, reading files and printing
//! happen around these functions.
use vstd::prelude::*;
use crate::engine::graph::{Symbol};
use crate::num::{decimal, u64_text, usize_text};
use crate::text::{
    chars_of, contains_char, contains_seq, contains_str, ends_with, ends_with_str, extend_chars,
    extend_str, string_of,
};

pub mod deps;
pub mod diff;
pub mod entrypoints;
pub mod find;
pub mod flow;
pub mod impact;
pub mod index;
pub mod init;
pub mod map;
pub mod rdeps;
pub mod refs;
pub mod setup;
pub mod similar;
pub mod sketch;
pub mod source;
pub mod status;
pub mod summary;
pub mod trace;
pub mod workspace;

verus! {

/// An input names a file: it holds a path separator or ends in a known
/// source extension.
pub open spec fn spec_looks_like_file_path(input: Seq<char>) -> bool {
    ||| input.contains('/')
    ||| input.contains('\\')
    ||| ends_with(input, ".ts"@)
    ||| ends_with(input, ".tsx"@)
    ||| ends_with(input, ".js"@)
    ||| ends_with(input, ".jsx"@)
    ||| ends_with(input, ".cs"@)
    ||| ends_with(input, ".rs"@)
    ||| ends_with(input, ".py"@)
    ||| ends_with(input, ".go"@)
    ||| ends_with(input, ".java"@)
}

/// An argument is taken for a file whenever it could only name one: it
/// holds a `/` or `\` path separator, or it ends in `.` and the extension
/// of a language the parser indexes (`.ts`, `.tsx`, `.cs`, `.py`, `.go`,
/// `.java`, `.rs`) or in `.js` or `.jsx`.
pub proof fn lemma_file_arguments_recognised(input: Seq<char>, ext: Seq<char>)
    ensures
        input.contains('/') || input.contains('\\') ==> spec_looks_like_file_path(input),
        crate::engine::parser::language_for_extension(ext) is Some && ends_with(input, "."@ + ext)
            ==> spec_looks_like_file_path(input),
        ends_with(input, ".js"@) || ends_with(input, ".jsx"@) ==> spec_looks_like_file_path(input),
{
    reveal_strlit(".");
    reveal_strlit("ts");
    reveal_strlit("tsx");
    reveal_strlit("cs");
    reveal_strlit("py");
    reveal_strlit("go");
    reveal_strlit("java");
    reveal_strlit("rs");
    reveal_strlit(".ts");
    reveal_strlit(".tsx");
    reveal_strlit(".cs");
    reveal_strlit(".py");
    reveal_strlit(".go");
    reveal_strlit(".java");
    reveal_strlit(".rs");
    if crate::engine::parser::language_for_extension(ext) is Some && ends_with(input, "."@ + ext) {
        let d = "."@ + ext;
        if ext == "ts"@ {
            assert(d =~= ".ts"@);
        } else if ext == "tsx"@ {
            assert(d =~= ".tsx"@);
        } else if ext == "cs"@ {
            assert(d =~= ".cs"@);
        } else if ext == "py"@ {
            assert(d =~= ".py"@);
        } else if ext == "go"@ {
            assert(d =~= ".go"@);
        } else if ext == "java"@ {
            assert(d =~= ".java"@);
        } else {
            assert(ext == "rs"@);
            assert(d =~= ".rs"@);
        }
    }
}

/// Check if an input string looks like a file path rather than a symbol name.
pub fn looks_like_file_path(input: &str) -> (r: bool)
    ensures
        r == spec_looks_like_file_path(input@),
{
    let s = chars_of(input);
    contains_char(&s, '/') || contains_char(&s, '\\') || ends_with_str(&s, ".ts")
        || ends_with_str(&s, ".tsx") || ends_with_str(&s, ".js") || ends_with_str(&s, ".jsx")
        || ends_with_str(&s, ".cs") || ends_with_str(&s, ".rs") || ends_with_str(&s, ".py")
        || ends_with_str(&s, ".go") || ends_with_str(&s, ".java")
}


/// The line listing the `i`-th (from 1) of several matching definitions.
pub open spec fn candidate_line(i: nat, s: Symbol) -> Seq<char> {
    "  "@ + decimal(i) + ". "@ + s.name@ + " ("@ + s.kind@ + ")  "@ + s.file_path@ + ":"@ + decimal(
        s.line_start as nat,
    ) + "\n"@
}

/// The lines listing the first `n` matching definitions.
pub open spec fn candidate_lines(all: Seq<Symbol>, n: nat) -> Seq<char>
    decreases n,
{
    if n == 0 || n > all.len() {
        Seq::empty()
    } else {
        candidate_lines(all, (n - 1) as nat) + candidate_line(n, all[n - 1])
    }
}

/// The message for a name that matches several definitions: each listed
/// with its kind and location, then how to name the first one exactly.
pub open spec fn spec_ambiguity_message(name: Seq<char>, all: Seq<Symbol>) -> Seq<char> {
    "Ambiguous symbol '"@ + name + "' matches "@ + decimal(all.len()) + " definitions:\n"@
        + candidate_lines(all, all.len()) + "\nUse a qualified name to disambiguate:\n  scope <cmd> "@
        + all[0].file_path@ + "::"@ + all[0].name@ + "::"@ + all[0].kind@
}

/// The message for a name that matches nothing.
pub open spec fn spec_not_found_message(name: Seq<char>) -> Seq<char> {
    "Symbol '"@ + name + "' not found in index.\nTip: Check spelling, or use 'scope find \""@ + name
        + "\"' for semantic search."@
}

/// Why a name could not be resolved to one symbol; each carries the
/// message shown to the user.
#[derive(Debug)]
pub enum ResolveError {
    /// Several definitions have the name.
    Ambiguous(String),
    /// No definition has the name.
    NotFound(String),
}

/// Whether a name is looked up by ID prefix first (it contains `::`).
pub fn is_qualified_name(name: &str) -> (r: bool)
    ensures
        r == contains_seq(name@, "::"@),
{
    contains_str(&chars_of(name), "::")
}

/// The message for a name that matches several definitions.
pub fn ambiguity_message(name: &str, all: &Vec<Symbol>) -> (r: String)
    requires
        all@.len() > 0,
    ensures
        r@ == spec_ambiguity_message(name@, all@),
{
    let mut v = chars_of("Ambiguous symbol '");
    extend_str(&mut v, name);
    extend_str(&mut v, "' matches ");
    extend_chars(&mut v, &usize_text(all.len()));
    extend_str(&mut v, " definitions:\n");
    let ghost head = v@;
    let mut i: usize = 0;
    while i < all.len()
        invariant
            i <= all@.len(),
            v@ == head + candidate_lines(all@, i as nat),
        decreases all.len() - i,
    {
        let s = &all[i];
        let ghost before = v@;
        extend_str(&mut v, "  ");
        extend_chars(&mut v, &usize_text(i + 1));
        extend_str(&mut v, ". ");
        extend_str(&mut v, s.name.as_str());
        extend_str(&mut v, " (");
        extend_str(&mut v, s.kind.as_str());
        extend_str(&mut v, ")  ");
        extend_str(&mut v, s.file_path.as_str());
        extend_str(&mut v, ":");
        extend_chars(&mut v, &u64_text(s.line_start as u64));
        extend_str(&mut v, "\n");
        assert(v@ =~= before + candidate_line((i + 1) as nat, all@[i as int]));
        i = i + 1;
    }
    extend_str(&mut v, "\nUse a qualified name to disambiguate:\n  scope <cmd> ");
    extend_str(&mut v, all[0].file_path.as_str());
    extend_str(&mut v, "::");
    extend_str(&mut v, all[0].name.as_str());
    extend_str(&mut v, "::");
    extend_str(&mut v, all[0].kind.as_str());
    assert(v@ =~= spec_ambiguity_message(name@, all@));
    string_of(&v)
}

/// The message for a name that matches nothing.
pub fn not_found_message(name: &str) -> (r: String)
    ensures
        r@ == spec_not_found_message(name@),
{
    let mut v = chars_of("Symbol '");
    extend_str(&mut v, name);
    extend_str(&mut v, "' not found in index.\nTip: Check spelling, or use 'scope find \"");
    extend_str(&mut v, name);
    extend_str(&mut v, "\"' for semantic search.");
    assert(v@ =~= spec_not_found_message(name@));
    string_of(&v)
}

/// Resolve a symbol name from what the graph returned for it.
///
/// `by_prefix` is the symbol whose ID starts with the name at a `::`
/// boundary (asked only for a name containing `::`); `found` is the
/// preferred symbol of that name; `all` are every symbol of that name.
/// A prefix match wins; otherwise the found symbol, unless several share
/// the name; otherwise the name is unknown.
pub fn resolve_from(name: &str, by_prefix: Option<Symbol>, found: Option<Symbol>, all: &Vec<Symbol>) -> (r: Result<Symbol, ResolveError>)
    ensures
        match r {
            Ok(s) => (contains_seq(name@, "::"@) && by_prefix == Some(s)) || ((!contains_seq(name@, "::"@)
                || by_prefix is None) && found == Some(s) && all@.len() <= 1),
            Err(ResolveError::Ambiguous(m)) => (!contains_seq(name@, "::"@) || by_prefix is None)
                && found is Some && all@.len() > 1 && m@ == spec_ambiguity_message(name@, all@),
            Err(ResolveError::NotFound(m)) => (!contains_seq(name@, "::"@) || by_prefix is None)
                && found is None && m@ == spec_not_found_message(name@),
        },
        (contains_seq(name@, "::"@) && by_prefix is Some) ==> r == Ok::<Symbol, ResolveError>(by_prefix.unwrap()),
        ((!contains_seq(name@, "::"@) || by_prefix is None) && found is Some && all@.len() <= 1)
            ==> r == Ok::<Symbol, ResolveError>(found.unwrap()),
{
    if is_qualified_name(name) {
        if let Some(s) = by_prefix {
            return Ok(s);
        }
    }
    match found {
        Some(s) => {
            if all.len() > 1 {
                Err(ResolveError::Ambiguous(ambiguity_message(name, all)))
            } else {
                Ok(s)
            }
        },
        None => Err(ResolveError::NotFound(not_found_message(name))),
    }
}

/// `Class.method` split at its first `.`, for finding a method by its class.
pub open spec fn spec_split_qualified(name: Seq<char>) -> Option<(Seq<char>, Seq<char>)> {
    match crate::text::find_seq(name, seq!['.']) {
        Some(k) => Some((name.take(k), name.skip(k + 1))),
        None => None,
    }
}

/// A name `Class.method` split into class and method at its first `.`, if
/// it has one.
pub fn split_qualified(name: &str) -> (r: Option<(String, String)>)
    ensures
        match r {
            Some((c, m)) => spec_split_qualified(name@) == Some((c@, m@)),
            None => spec_split_qualified(name@) is None,
        },
{
    let v = chars_of(name);
    let mut dot: Vec<char> = Vec::new();
    dot.push('.');
    assert(dot@ =~= seq!['.']);
    match crate::text::find_exec(&v, &dot) {
        Some(k) => {
            proof {
                crate::text::lemma_find_from(v@, dot@, 0);
            }
            let n = v.len();
            let c = crate::text::slice_chars(&v, 0, k);
            let m = crate::text::slice_chars(&v, k + 1, n);
            assert(c@ =~= v@.take(k as int));
            assert(m@ =~= v@.skip(k + 1));
            Some((string_of(&c), string_of(&m)))
        },
        None => None,
    }
}
} // verus!

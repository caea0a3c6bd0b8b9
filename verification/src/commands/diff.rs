//! `scope diff <ref>` — symbols in files changed since a git ref.
//!
//! `git diff --name-only` and the graph lookups run outside this crate;
//! here are the check on the ref, the reading of git's output, and the
//! records reported per changed symbol.
use vstd::prelude::*;
use crate::engine::graph::Symbol;
use crate::text::{char_views, chars_of, clone_opt_string, lines_exec, lines_seq, string_of, views};

verus! {

/// Arguments for the `scope diff` command.
#[derive(Debug, Clone)]
pub struct DiffArgs {
    /// Git ref to compare against (branch, tag, or commit).
    pub git_ref: String,
    /// Output as JSON instead of human-readable format.
    pub json: bool,
}

/// A symbol in a changed file.
#[derive(Debug, Clone)]
pub struct ChangedSymbol {
    /// Symbol name.
    pub name: String,
    /// Symbol kind.
    pub kind: String,
    /// File path relative to project root.
    pub file_path: String,
    /// First line of the definition.
    pub line_start: u32,
    /// Last line of the definition.
    pub line_end: u32,
    /// Signature, when known.
    pub signature: Option<String>,
}

/// The `scope diff` JSON payload.
#[derive(Debug, Clone)]
pub struct DiffOutput {
    /// The git ref compared against.
    pub git_ref: String,
    /// Files changed since the ref.
    pub changed_files: Vec<String>,
    /// Indexed symbols in those files.
    pub symbols: Vec<ChangedSymbol>,
}

/// A ref is passed to git only when it cannot be read as an option.
pub open spec fn spec_valid_git_ref(r: Seq<char>) -> bool {
    !(r.len() > 0 && r[0] == '-')
}

/// Whether a git ref is accepted (it must not start with `-`).
pub fn valid_git_ref(git_ref: &str) -> (r: bool)
    ensures
        r == spec_valid_git_ref(git_ref@),
{
    let v = chars_of(git_ref);
    !(v.len() > 0 && v[0] == '-')
}

/// The non-empty lines of git's output.
pub open spec fn spec_changed_files(output: Seq<char>) -> Seq<Seq<char>> {
    lines_seq(output).filter(|l: Seq<char>| l.len() > 0)
}

/// The changed files listed in `git diff --name-only` output: its
/// non-empty lines.
pub fn changed_files(output: &str) -> (r: Vec<String>)
    ensures
        views(r@) == spec_changed_files(output@),
{
    let s = chars_of(output);
    let lines = lines_exec(&s);
    let ghost lv = char_views(lines@);
    let ghost keep = |l: Seq<char>| l.len() > 0;
    let mut out: Vec<String> = Vec::new();
    let mut i: usize = 0;
    while i < lines.len()
        invariant
            i <= lines.len(),
            lv == char_views(lines@),
            keep == (|l: Seq<char>| l.len() > 0),
            views(out@) == lv.take(i as int).filter(keep),
        decreases lines.len() - i,
    {
        let line = &lines[i];
        proof {
            assert(lv[i as int] == line@);
            assert(lv.take(i + 1) =~= lv.take(i as int).push(line@));
            crate::text::lemma_filter_push(lv.take(i as int), line@, keep);
        }
        if line.len() > 0 {
            let ghost before = views(out@);
            out.push(string_of(line));
            assert(views(out@) =~= before.push(line@));
        }
        i = i + 1;
    }
    assert(lv.take(lv.len() as int) =~= lv);
    out
}

/// The changed-symbol record of an indexed symbol.
pub open spec fn changed_symbol_of(s: Symbol) -> ChangedSymbol {
    ChangedSymbol {
        name: s.name,
        kind: s.kind,
        file_path: s.file_path,
        line_start: s.line_start,
        line_end: s.line_end,
        signature: s.signature,
    }
}

/// The changed-symbol records of the symbols found in the changed files.
pub fn changed_symbols(symbols: &Vec<Symbol>) -> (r: Vec<ChangedSymbol>)
    ensures
        r@ == symbols@.map_values(|s: Symbol| changed_symbol_of(s)),
{
    let mut out: Vec<ChangedSymbol> = Vec::new();
    let mut i: usize = 0;
    while i < symbols.len()
        invariant
            i <= symbols.len(),
            out@ == symbols@.take(i as int).map_values(|s: Symbol| changed_symbol_of(s)),
        decreases symbols.len() - i,
    {
        let s = &symbols[i];
        out.push(
            ChangedSymbol {
                name: s.name.clone(),
                kind: s.kind.clone(),
                file_path: s.file_path.clone(),
                line_start: s.line_start,
                line_end: s.line_end,
                signature: clone_opt_string(&s.signature),
            },
        );
        assert(symbols@.take(i + 1).map_values(|s: Symbol| changed_symbol_of(s))
            =~= symbols@.take(i as int).map_values(|s: Symbol| changed_symbol_of(s)).push(
            changed_symbol_of(*s),
        ));
        i = i + 1;
    }
    assert(symbols@.take(symbols@.len() as int) =~= symbols@);
    out
}

} // verus!

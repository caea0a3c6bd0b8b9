//! The dependency graph's records and the rules applied to query results.
//!
//! The graph itself lives in a SQLite database (symbols, edges, and file
//! hashes). The queries run outside this crate; this module holds the
//! records they produce and everything computed from those records:
//! test-file detection, caller counting, impact grouping, entry-point
//! selection, change detection, and call-path assembly.
use vstd::prelude::*;
use crate::text::{
    clone_opt_string,
    chars_of, contains_seq, contains_str, lowercase_of, starts_with, starts_with_str,
    to_lowercase_str,
};

verus! {

/// A code symbol extracted from source and stored in the graph.
#[derive(Debug, Clone)]
pub struct Symbol {
    /// Unique identifier: `"{file_path}::{name}::{kind}"`.
    pub id: String,
    /// The symbol name (e.g. `PaymentService`, `processPayment`).
    pub name: String,
    /// The kind of symbol (function, class, method, etc.).
    pub kind: String,
    /// File path relative to project root, always forward slashes.
    pub file_path: String,
    /// First line of the symbol definition (1-based).
    pub line_start: u32,
    /// Last line of the symbol definition (1-based).
    pub line_end: u32,
    /// Full type signature where available.
    pub signature: Option<String>,
    /// Extracted doc comment.
    pub docstring: Option<String>,
    /// Parent symbol ID (e.g. class ID for a method).
    pub parent_id: Option<String>,
    /// Source language.
    pub language: String,
    /// JSON blob with modifiers, parameters, return type, etc.
    pub metadata: String,
}

/// A relationship between two symbols.
#[derive(Debug, Clone)]
pub struct Edge {
    /// Source symbol ID.
    pub from_id: String,
    /// Target symbol ID (may reference external symbols not in the index).
    pub to_id: String,
    /// Edge kind: calls, imports, extends, implements, instantiates, references, references_type.
    pub kind: String,
    /// File where this edge was observed.
    pub file_path: String,
    /// Line number where the edge was observed.
    pub line: Option<u32>,
}

/// Result of comparing current file hashes against the stored index.
#[derive(Debug)]
pub struct ChangedFiles {
    /// Files that are new (not previously indexed).
    pub added: Vec<String>,
    /// Files whose content hash has changed.
    pub modified: Vec<String>,
    /// Files that were previously indexed but no longer exist.
    pub deleted: Vec<String>,
}

impl ChangedFiles {
    /// Returns true if there are no changes.
    pub fn is_empty(&self) -> (r: bool)
        ensures
            r == (self.added@.len() == 0 && self.modified@.len() == 0 && self.deleted@.len() == 0),
    {
        self.added.len() == 0 && self.modified.len() == 0 && self.deleted.len() == 0
    }
}

impl Default for ChangedFiles {
    fn default() -> (r: Self)
        ensures
            r.added@.len() == 0,
            r.modified@.len() == 0,
            r.deleted@.len() == 0,
    {
        ChangedFiles { added: Vec::new(), modified: Vec::new(), deleted: Vec::new() }
    }
}

/// Relationships of a class symbol: inheritance, interfaces, and dependencies.
#[derive(Debug, Clone)]
pub struct ClassRelationships {
    /// Classes this class extends.
    pub extends: Vec<String>,
    /// Interfaces this class implements.
    pub implements: Vec<String>,
    /// Distinct symbol names from outgoing edges (imports, calls, etc.).
    pub dependencies: Vec<String>,
}

impl Default for ClassRelationships {
    fn default() -> (r: Self)
        ensures
            r.extends@.len() == 0,
            r.implements@.len() == 0,
            r.dependencies@.len() == 0,
    {
        ClassRelationships { extends: Vec::new(), implements: Vec::new(), dependencies: Vec::new() }
    }
}

/// Information about a caller of a symbol.
#[derive(Debug, Clone)]
pub struct CallerInfo {
    /// Display name of the caller (e.g. `OrderController.checkout`).
    pub name: String,
    /// Number of call sites from this caller.
    pub count: usize,
}

/// A reference to a symbol from elsewhere in the codebase.
#[derive(Debug, Clone)]
pub struct Reference {
    /// The ID of the symbol making the reference.
    pub from_id: String,
    /// The human-readable name of the referencing symbol.
    pub from_name: String,
    /// The kind of reference (calls, imports, extends, etc.).
    pub kind: String,
    /// File path where the reference occurs.
    pub file_path: String,
    /// Line number of the reference, if known.
    pub line: Option<i64>,
    /// Context string (caller name or description).
    pub context: String,
    /// The actual source line at the reference location (if available).
    pub snippet_line: Option<String>,
    /// Multi-line context around the reference (if --context N was used).
    pub snippet: Option<Vec<String>>,
}

/// A node in an impact analysis result.
#[derive(Debug, Clone)]
pub struct ImpactNode {
    /// Symbol ID.
    pub id: String,
    /// Symbol name.
    pub name: String,
    /// File path where this symbol is defined.
    pub file_path: String,
    /// Symbol kind (function, class, method, etc.).
    pub kind: String,
    /// Depth in the impact graph (1 = direct caller).
    pub depth: usize,
}

/// Result of an impact analysis query.
#[derive(Debug)]
pub struct ImpactResult {
    /// Nodes grouped by depth level: `(depth, nodes_at_that_depth)`.
    pub nodes_by_depth: Vec<(usize, Vec<ImpactNode>)>,
    /// Test files that are affected (separated from main results).
    pub test_files: Vec<ImpactNode>,
    /// Total number of distinct affected symbols (excluding test files).
    pub total_affected: usize,
}

/// A dependency of a symbol.
#[derive(Debug, Clone)]
pub struct Dependency {
    /// The name of the dependency.
    pub name: String,
    /// File path of the dependency, if it exists in the index.
    pub file_path: Option<String>,
    /// Kind of dependency relationship (imports, calls, extends, etc.).
    pub kind: String,
    /// True if the dependency is not in the index (external package).
    pub is_external: bool,
    /// Depth in the dependency tree (1 = direct).
    pub depth: usize,
}

/// A single step in a call path from entry point to target.
#[derive(Debug, Clone)]
pub struct CallPathStep {
    /// Display name of the symbol at this step.
    pub symbol_name: String,
    /// Full symbol ID.
    pub symbol_id: String,
    /// File path where this symbol is defined.
    pub file_path: String,
    /// Line number of the symbol definition.
    pub line: u32,
    /// Symbol kind (function, class, method, etc.).
    pub kind: String,
}

/// A complete call path from an entry point to the target symbol.
#[derive(Debug, Clone)]
pub struct CallPath {
    /// Ordered steps from entry point (first) to target (last).
    pub steps: Vec<CallPathStep>,
}

/// Result of a trace query — all call paths reaching a target symbol.
#[derive(Debug)]
pub struct TraceResult {
    /// The target symbol name.
    pub target: String,
    /// All discovered call paths from entry points to the target.
    pub paths: Vec<CallPath>,
}

// ---------------------------------------------------------------------------
// Test files
// ---------------------------------------------------------------------------

/// `s` with every backslash replaced by a forward slash.
pub open spec fn slashes_forward(s: Seq<char>) -> Seq<char> {
    s.map_values(|c: char| if c == '\\' { '/' } else { c })
}

/// A (lowercased, forward-slashed) path looks like a test file.
pub open spec fn test_path_marker(p: Seq<char>) -> bool {
    ||| contains_seq(p, "/test/"@)
    ||| contains_seq(p, "/tests/"@)
    ||| contains_seq(p, ".test."@)
    ||| contains_seq(p, ".spec."@)
    ||| contains_seq(p, "_test."@)
    ||| contains_seq(p, "_spec."@)
    ||| starts_with(p, "test/"@)
    ||| starts_with(p, "tests/"@)
}

/// A file path belongs to a test file: its lowercase form, with forward
/// slashes, contains a test directory segment or a test file-name marker.
pub open spec fn spec_is_test_file(file_path: Seq<char>) -> bool {
    test_path_marker(slashes_forward(lowercase_of(file_path)))
}

/// A copy of `s` with backslashes turned into forward slashes.
pub fn slashes_forward_exec(s: &Vec<char>) -> (r: Vec<char>)
    ensures
        r@ == slashes_forward(s@),
{
    let mut r = Vec::new();
    let mut i: usize = 0;
    while i < s.len()
        invariant
            i <= s.len(),
            r@ == slashes_forward(s@.subrange(0, i as int)),
        decreases s.len() - i,
    {
        let c = s[i];
        r.push(if c == '\\' { '/' } else { c });
        i = i + 1;
        assert(r@ =~= slashes_forward(s@.subrange(0, i as int)));
    }
    assert(s@.subrange(0, s@.len() as int) =~= s@);
    r
}

/// Check if a file path belongs to a test file.
///
/// Heuristic: returns `true` if the lowercase path contains common test path
/// segments or test file naming patterns.
pub fn is_test_file(file_path: &str) -> (r: bool)
    ensures
        r == spec_is_test_file(file_path@),
{
    let lowered = to_lowercase_str(file_path);
    let lower = slashes_forward_exec(&chars_of(lowered.as_str()));
    contains_str(&lower, "/test/") || contains_str(&lower, "/tests/") || contains_str(
        &lower,
        ".test.",
    ) || contains_str(&lower, ".spec.") || contains_str(&lower, "_test.") || contains_str(
        &lower,
        "_spec.",
    ) || starts_with_str(&lower, "test/") || starts_with_str(&lower, "tests/")
}

} // verus!

verus! {

// ---------------------------------------------------------------------------
// Caller counts
// ---------------------------------------------------------------------------

/// Pre-computed caller count tables for symbol resolution.
#[derive(Debug)]
pub struct CallerCountMaps {
    /// Exact `to_id` → count (for pattern 1: exact ID, pattern 2: bare name).
    pub by_id: Vec<(String, usize)>,
    /// Bare name (after last `.`) → count (for pattern 3: member-call suffix).
    pub by_suffix: Vec<(String, usize)>,
}

/// The count stored for `key` in a table: the first entry with that key, or 0.
pub open spec fn table_count(m: Seq<(String, usize)>, key: Seq<char>) -> nat
    decreases m.len(),
{
    if m.len() == 0 {
        0
    } else if m[0].0@ == key {
        m[0].1 as nat
    } else {
        table_count(m.skip(1), key)
    }
}

/// Total callers of a symbol: calls to its exact ID, plus calls to its bare
/// name (when that differs from the ID), plus member calls `x.name`.
pub open spec fn spec_resolve_caller_count(maps: CallerCountMaps, id: Seq<char>, name: Seq<char>) -> nat {
    table_count(maps.by_id@, id) + (if name != id {
        table_count(maps.by_id@, name)
    } else {
        0
    }) + table_count(maps.by_suffix@, name)
}

/// The count stored for `key` in a table.
pub fn table_lookup(m: &Vec<(String, usize)>, key: &str) -> (r: usize)
    ensures
        r == table_count(m@, key@),
{
    let mut i: usize = 0;
    assert(m@.skip(0) =~= m@);
    while i < m.len()
        invariant
            i <= m.len(),
            table_count(m@, key@) == table_count(m@.skip(i as int), key@),
        decreases m.len() - i,
    {
        assert(m@.skip(i as int).skip(1) =~= m@.skip(i + 1));
        if crate::text::str_eq(m[i].0.as_str(), key) {
            return m[i].1;
        }
        i = i + 1;
    }
    0
}

/// Resolve a symbol's caller count from pre-computed tables.
///
/// Matches using three patterns:
/// 1. Exact ID match
/// 2. Bare name match (only if different from the ID)
/// 3. Member-call suffix match via the suffix table
pub fn resolve_caller_count(maps: &CallerCountMaps, symbol_id: &str, symbol_name: &str) -> (r: usize)
    requires
        spec_resolve_caller_count(*maps, symbol_id@, symbol_name@) <= usize::MAX,
    ensures
        r == spec_resolve_caller_count(*maps, symbol_id@, symbol_name@),
{
    let mut total: usize = table_lookup(&maps.by_id, symbol_id);
    if !crate::text::str_eq(symbol_name, symbol_id) {
        total = total + table_lookup(&maps.by_id, symbol_name);
    }
    total = total + table_lookup(&maps.by_suffix, symbol_name);
    total
}

// ---------------------------------------------------------------------------
// Names from symbol IDs
// ---------------------------------------------------------------------------

/// The name of a symbol ID when it is not in the index: the second
/// `::`-separated piece, or the whole ID when there is none.
pub open spec fn spec_name_from_id_text(id: Seq<char>) -> Seq<char> {
    let parts = crate::text::split_seq(id, "::"@);
    if parts.len() >= 2 {
        parts[1]
    } else {
        id
    }
}

/// The name shown for a symbol ID: the indexed symbol's name when the ID is
/// in the index, else the name parsed from the ID text.
pub open spec fn spec_symbol_name_from_id(indexed: Option<String>, id: Seq<char>) -> Seq<char> {
    match indexed {
        Some(n) => n@,
        None => spec_name_from_id_text(id),
    }
}

/// Extract a human-readable name from a symbol ID.
///
/// `indexed` is the name of the symbol with this ID in the index, if any.
/// Otherwise the name portion is parsed from the ID format `file::name::kind`.
pub fn symbol_name_from_id(indexed: Option<String>, id: &str) -> (r: String)
    ensures
        r@ == spec_symbol_name_from_id(indexed, id@),
{
    if let Some(n) = indexed {
        return n;
    }
    let cs = chars_of(id);
    proof {
        reveal_strlit("::");
    }
    let parts = crate::text::split_str(&cs, "::");
    if parts.len() >= 2 {
        assert(crate::text::char_views(parts@)[1] == parts@[1]@);
        crate::text::string_of(&parts[1])
    } else {
        crate::text::string_of(&cs)
    }
}

/// The display name of a synthetic module-level ID `file_path::__module__::kind`:
/// the file name of its first `::` piece without its last extension.
pub open spec fn spec_module_display_name(from_id: Seq<char>) -> Seq<char> {
    let file_part = crate::text::split_seq(from_id, "::"@)[0];
    let segs = crate::text::split_seq(file_part, "/"@);
    let filename = segs[segs.len() - 1];
    match crate::text::rfind_seq(filename, "."@) {
        Some(i) => filename.subrange(0, i),
        None => filename,
    }
}

/// The display name of a caller: `Parent.name` for an indexed method with an
/// indexed parent, the name for another indexed symbol, the file stem for a
/// synthetic module-level ID, else the name parsed from the ID.
pub open spec fn spec_caller_display_name(
    row: Option<(String, Option<String>)>,
    from_id: Seq<char>,
    indexed: Option<String>,
) -> Seq<char> {
    match row {
        Some((name, Some(parent))) => parent@ + "."@ + name@,
        Some((name, None)) => name@,
        None => if contains_seq(from_id, "__module__"@) {
            spec_module_display_name(from_id)
        } else {
            spec_symbol_name_from_id(indexed, from_id)
        },
    }
}

/// Build a display name for a caller, including parent class if available.
///
/// `row` is the caller's indexed name and parent name (if the ID is in the
/// index); `indexed` is the indexed name for the ID. For `__module__`
/// synthetic IDs, extracts the file stem.
pub fn caller_display_name(
    row: Option<(String, Option<String>)>,
    from_id: &str,
    indexed: Option<String>,
) -> (r: String)
    ensures
        r@ == spec_caller_display_name(row, from_id@, indexed),
{
    match row {
        Some((name, Some(parent))) => {
            let mut v = chars_of(parent.as_str());
            crate::text::extend_str(&mut v, ".");
            crate::text::extend_str(&mut v, name.as_str());
            crate::text::string_of(&v)
        },
        Some((name, None)) => name,
        None => {
            let id = chars_of(from_id);
            if contains_str(&id, "__module__") {
                proof {
                    reveal_strlit("::");
                    reveal_strlit("/");
                    reveal_strlit(".");
                }
                let pieces = crate::text::split_str(&id, "::");
                assert(crate::text::char_views(pieces@).len() > 0);
                let file_part = &pieces[0];
                assert(crate::text::char_views(pieces@)[0] == file_part@);
                let segs = crate::text::split_str(file_part, "/");
                assert(crate::text::char_views(segs@).len() > 0);
                let filename = &segs[segs.len() - 1];
                assert(crate::text::char_views(segs@)[segs@.len() - 1] == filename@);
                let mut dot = Vec::new();
                dot.push('.');
                assert(dot@ =~= "."@);
                match crate::text::rfind_exec(filename, &dot) {
                    Some(i) => {
                        proof {
                            crate::text::lemma_rfind_upto(filename@, dot@, filename@.len() - dot@.len());
                        }
                        let n = filename.len();
                        assert(i <= n);
                        crate::text::string_of_range(filename, 0, i)
                    },
                    None => crate::text::string_of(filename),
                }
            } else {
                symbol_name_from_id(indexed, from_id)
            }
        },
    }
}

} // verus!

verus! {

/// A copy of a symbol.
pub fn clone_symbol(s: &Symbol) -> (c: Symbol)
    ensures
        c == *s,
{
    Symbol {
        id: s.id.clone(),
        name: s.name.clone(),
        kind: s.kind.clone(),
        file_path: s.file_path.clone(),
        line_start: s.line_start,
        line_end: s.line_end,
        signature: clone_opt_string(&s.signature),
        docstring: clone_opt_string(&s.docstring),
        parent_id: clone_opt_string(&s.parent_id),
        language: s.language.clone(),
        metadata: s.metadata.clone(),
    }
}

/// What the file system says of an indexed file's modification time:
/// unreadable metadata, metadata without a modification time, or the time
/// in Unix seconds.
#[derive(Debug, Clone, Copy, PartialEq, Eq, Structural)]
pub enum FileModified {
    /// The file's metadata could not be read (it is gone, for instance).
    Missing,
    /// The metadata holds no modification time.
    Unknown,
    /// Modified at this Unix time (seconds).
    At(i64),
}

/// An indexed file is stale when it is gone or was modified after it was
/// indexed.
pub open spec fn spec_is_stale(indexed_at: i64, modified: FileModified) -> bool {
    match modified {
        FileModified::Missing => true,
        FileModified::Unknown => false,
        FileModified::At(m) => m > indexed_at,
    }
}

/// Whether any indexed file `(indexed_at, modified)` is stale, so that the
/// index no longer reflects the files on disk.
pub fn has_stale_files(files: &Vec<(i64, FileModified)>) -> (r: bool)
    ensures
        r == exists|i: int| 0 <= i < files@.len() && #[trigger] spec_is_stale(files@[i].0, files@[i].1),
{
    let mut i: usize = 0;
    while i < files.len()
        invariant
            i <= files.len(),
            forall|j: int| 0 <= j < i ==> !#[trigger] spec_is_stale(files@[j].0, files@[j].1),
        decreases files.len() - i,
    {
        let (at, m) = files[i];
        let stale = match m {
            FileModified::Missing => true,
            FileModified::Unknown => false,
            FileModified::At(t) => t > at,
        };
        if stale {
            assert(spec_is_stale(files@[i as int].0, files@[i as int].1));
            return true;
        }
        i = i + 1;
    }
    false
}

/// Test files are recognised by their path, whatever its case and slash
/// style: a path whose lowercase, forward-slashed form holds a `/test/` or
/// `/tests/` directory, starts in `test/` or `tests/`, or names a file with
/// `.test.`, `.spec.` (JavaScript/TypeScript), `_test.` (Go, Python) or
/// `_spec.` (Ruby) in it, is a test file.
pub proof fn lemma_test_file_markers(file_path: Seq<char>)
    ensures
        ({
            let p = slashes_forward(lowercase_of(file_path));
            &&& contains_seq(p, "_test."@) ==> spec_is_test_file(file_path)
            &&& contains_seq(p, ".test."@) ==> spec_is_test_file(file_path)
            &&& contains_seq(p, ".spec."@) ==> spec_is_test_file(file_path)
            &&& contains_seq(p, "_spec."@) ==> spec_is_test_file(file_path)
            &&& contains_seq(p, "/test/"@) ==> spec_is_test_file(file_path)
            &&& contains_seq(p, "/tests/"@) ==> spec_is_test_file(file_path)
            &&& starts_with(p, "test/"@) ==> spec_is_test_file(file_path)
            &&& starts_with(p, "tests/"@) ==> spec_is_test_file(file_path)
        }),
{
}

} // verus!

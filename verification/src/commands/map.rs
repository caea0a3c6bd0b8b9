//! `scope map` — a repository overview: stats, entry points, core symbols
//! and directory-level architecture.
//!
//! The graph supplies each part; this module shapes them into the reported
//! records, cuts entry-point groups down in compact mode, and merges the
//! members' parts in workspace mode (core symbols by caller count,
//! directories by symbol count, both largest first).
use vstd::prelude::*;
use crate::commands::entrypoints::EntrypointInfo;
use crate::engine::graph::Symbol;
use crate::order::{lemma_first_before, sort_stable, sorted_by, strict_order, lemma_sort_stable_sorted};
use crate::text::{chars_of, extend_str, string_of};

verus! {

/// Arguments for the `scope map` command.
#[derive(Debug, Clone)]
pub struct MapArgs {
    /// Number of core symbols to show.
    pub limit: usize,
    /// Output as JSON instead of human-readable format.
    pub json: bool,
    /// Compact JSON output (top entry points per category only).
    pub compact: bool,
}

/// Overall index statistics.
#[derive(Debug, Clone)]
pub struct MapStats {
    /// Number of indexed files.
    pub file_count: usize,
    /// Number of indexed symbols.
    pub symbol_count: usize,
    /// Number of edges.
    pub edge_count: usize,
    /// Languages present in the index.
    pub languages: Vec<String>,
}

/// A core symbol, ranked by how often it is called.
#[derive(Debug, Clone)]
pub struct CoreSymbol {
    /// Symbol name.
    pub name: String,
    /// Symbol kind.
    pub kind: String,
    /// File path relative to the project root.
    pub file_path: String,
    /// Number of incoming calls.
    pub caller_count: usize,
    /// Workspace member the symbol belongs to (workspace mode only).
    pub project: Option<String>,
}

/// Symbol and file counts of one directory.
#[derive(Debug, Clone)]
pub struct DirStats {
    /// Directory path.
    pub directory: String,
    /// Number of files in it.
    pub file_count: usize,
    /// Number of symbols in it.
    pub symbol_count: usize,
}

/// The `scope map` payload.
#[derive(Debug, Clone)]
pub struct MapData {
    /// Overall statistics.
    pub stats: MapStats,
    /// Entry points grouped by classification.
    pub entrypoints: Vec<(String, Vec<EntrypointInfo>)>,
    /// Core symbols by importance.
    pub core_symbols: Vec<CoreSymbol>,
    /// Directory-level architecture.
    pub architecture: Vec<DirStats>,
}

/// How many entry points per category compact output keeps.
pub const COMPACT_GROUP_SIZE: usize = 10;

/// A group with at most `n` of its members.
pub open spec fn cut_group(g: (Seq<char>, Seq<EntrypointInfo>), n: int) -> (Seq<char>, Seq<EntrypointInfo>) {
    (g.0, if g.1.len() > n { g.1.take(n) } else { g.1 })
}

/// In compact mode each entry-point category keeps only its first ten members.
pub fn compact_groups(groups: Vec<(String, Vec<EntrypointInfo>)>) -> (r: Vec<(String, Vec<EntrypointInfo>)>)
    ensures
        r@.len() == groups@.len(),
        forall|i: int|
            0 <= i < r@.len() ==> (r@[i].0@, r@[i].1@) == #[trigger] cut_group(
                (groups@[i].0@, groups@[i].1@),
                COMPACT_GROUP_SIZE as int,
            ),
{
    let ghost all = groups@;
    let total = groups.len();
    let mut rest = groups;
    let mut out: Vec<(String, Vec<EntrypointInfo>)> = Vec::new();
    let mut taken: usize = 0;
    while rest.len() > 0
        invariant
            taken <= total,
            all.len() == total,
            rest@ == all.skip(taken as int),
            out@.len() == taken,
            forall|i: int|
                0 <= i < taken ==> (out@[i].0@, out@[i].1@) == #[trigger] cut_group(
                    (all[i].0@, all[i].1@),
                    COMPACT_GROUP_SIZE as int,
                ),
        decreases rest.len(),
    {
        let (name, mut members) = rest.remove(0);
        proof {
            assert(rest@ =~= all.skip(taken + 1));
        }
        let ghost m = members@;
        members.truncate(COMPACT_GROUP_SIZE);
        out.push((name, members));
        proof {
            assert(out@[taken as int].1@ == if m.len() > 10 { m.take(10) } else { m });
        }
        taken = taken + 1;
    }
    out
}

/// The core-symbol record of a ranked symbol of a single project.
pub open spec fn core_of(e: (Symbol, usize), project: Option<String>) -> CoreSymbol {
    CoreSymbol {
        name: e.0.name,
        kind: e.0.kind,
        file_path: e.0.file_path,
        caller_count: e.1,
        project: project,
    }
}

/// The core-symbol records of ranked symbols, all tagged with `project`.
pub fn core_symbols(ranked: &Vec<(Symbol, usize)>, project: &Option<String>) -> (r: Vec<CoreSymbol>)
    ensures
        r@ == ranked@.map_values(|e: (Symbol, usize)| core_of(e, *project)),
{
    let mut out: Vec<CoreSymbol> = Vec::new();
    let mut i: usize = 0;
    while i < ranked.len()
        invariant
            i <= ranked.len(),
            out@ == ranked@.take(i as int).map_values(|e: (Symbol, usize)| core_of(e, *project)),
        decreases ranked.len() - i,
    {
        let e = &ranked[i];
        out.push(
            CoreSymbol {
                name: e.0.name.clone(),
                kind: e.0.kind.clone(),
                file_path: e.0.file_path.clone(),
                caller_count: e.1,
                project: crate::text::clone_opt_string(project),
            },
        );
        assert(ranked@.take(i + 1).map_values(|e: (Symbol, usize)| core_of(e, *project))
            =~= ranked@.take(i as int).map_values(|e: (Symbol, usize)| core_of(e, *project)).push(
            core_of(*e, *project),
        ));
        i = i + 1;
    }
    assert(ranked@.take(ranked@.len() as int) =~= ranked@);
    out
}

/// The record of a directory row `(directory, files, symbols)` whose name
/// is prefixed with `prefix`.
pub open spec fn dir_of(row: (String, usize, usize), prefix: Seq<char>) -> (Seq<char>, usize, usize) {
    (prefix + row.0@, row.1, row.2)
}

/// The view of a directory record.
pub open spec fn dir_view(d: DirStats) -> (Seq<char>, usize, usize) {
    (d.directory@, d.file_count, d.symbol_count)
}

/// Directory records from the graph's rows, each name prefixed with
/// `prefix` (empty for a single project, `member/` in a workspace).
pub fn dir_stats(rows: &Vec<(String, usize, usize)>, prefix: &str) -> (r: Vec<DirStats>)
    ensures
        r@.map_values(|d: DirStats| dir_view(d)) == rows@.map_values(
            |row: (String, usize, usize)| dir_of(row, prefix@),
        ),
{
    let mut out: Vec<DirStats> = Vec::new();
    let mut i: usize = 0;
    while i < rows.len()
        invariant
            i <= rows.len(),
            out@.map_values(|d: DirStats| dir_view(d)) == rows@.take(i as int).map_values(
                |row: (String, usize, usize)| dir_of(row, prefix@),
            ),
        decreases rows.len() - i,
    {
        let row = &rows[i];
        let mut name = chars_of(prefix);
        extend_str(&mut name, row.0.as_str());
        let ghost before = out@;
        out.push(DirStats { directory: string_of(&name), file_count: row.1, symbol_count: row.2 });
        assert(out@.map_values(|d: DirStats| dir_view(d)) =~= before.map_values(
            |d: DirStats| dir_view(d),
        ).push(dir_of(*row, prefix@)));
        assert(rows@.take(i + 1).map_values(|row: (String, usize, usize)| dir_of(row, prefix@))
            =~= rows@.take(i as int).map_values(
            |row: (String, usize, usize)| dir_of(row, prefix@),
        ).push(dir_of(*row, prefix@)));
        i = i + 1;
    }
    assert(rows@.take(rows@.len() as int) =~= rows@);
    out
}

/// Core symbols are ranked by caller count, highest first.
pub open spec fn core_before() -> spec_fn(CoreSymbol, CoreSymbol) -> bool {
    |a: CoreSymbol, b: CoreSymbol| a.caller_count > b.caller_count
}

/// Directories are ranked by symbol count, highest first.
pub open spec fn dir_before() -> spec_fn(DirStats, DirStats) -> bool {
    |a: DirStats, b: DirStats| a.symbol_count > b.symbol_count
}

/// The workspace's core symbols: all members' core symbols, stably sorted
/// by caller count (highest first), cut to `limit`.
pub open spec fn spec_rank_core(all: Seq<CoreSymbol>, limit: usize) -> Seq<CoreSymbol> {
    let s = sort_stable(all, core_before());
    if limit < s.len() { s.take(limit as int) } else { s }
}

/// Rank the members' core symbols together and keep the top `limit`.
pub fn rank_core_symbols(all: Vec<CoreSymbol>, limit: usize) -> (r: Vec<CoreSymbol>)
    ensures
        r@ == spec_rank_core(all@, limit),
{
    let ghost before = core_before();
    let ghost src = all@;
    let total = all.len();
    let mut rest = all;
    let mut out: Vec<CoreSymbol> = Vec::new();
    let mut taken: usize = 0;
    assert(src.take(0) =~= Seq::<CoreSymbol>::empty());
    while rest.len() > 0
        invariant
            taken <= total,
            src.len() == total,
            before == core_before(),
            rest@ == src.skip(taken as int),
            out@ == sort_stable(src.take(taken as int), before),
        decreases rest.len(),
    {
        let x = rest.remove(0);
        let mut p: usize = 0;
        while p < out.len() && !(x.caller_count > out[p].caller_count)
            invariant
                p <= out.len(),
                before == core_before(),
                forall|k: int| 0 <= k < p ==> !before(x, #[trigger] out@[k]),
            decreases out.len() - p,
        {
            p = p + 1;
        }
        proof {
            lemma_first_before(out@, x, before, p as int);
            assert(src.take(taken + 1).drop_last() =~= src.take(taken as int));
            assert(src.take(taken + 1).last() == x);
            assert(rest@ =~= src.skip(taken + 1));
        }
        out.insert(p, x);
        taken = taken + 1;
    }
    assert(src.take(total as int) =~= src);
    out.truncate(limit);
    out
}

/// Rank the members' directories together by symbol count, highest first.
pub fn rank_directories(all: Vec<DirStats>) -> (r: Vec<DirStats>)
    ensures
        r@ == sort_stable(all@, dir_before()),
{
    let ghost before = dir_before();
    let ghost src = all@;
    let total = all.len();
    let mut rest = all;
    let mut out: Vec<DirStats> = Vec::new();
    let mut taken: usize = 0;
    assert(src.take(0) =~= Seq::<DirStats>::empty());
    while rest.len() > 0
        invariant
            taken <= total,
            src.len() == total,
            before == dir_before(),
            rest@ == src.skip(taken as int),
            out@ == sort_stable(src.take(taken as int), before),
        decreases rest.len(),
    {
        let x = rest.remove(0);
        let mut p: usize = 0;
        while p < out.len() && !(x.symbol_count > out[p].symbol_count)
            invariant
                p <= out.len(),
                before == dir_before(),
                forall|k: int| 0 <= k < p ==> !before(x, #[trigger] out@[k]),
            decreases out.len() - p,
        {
            p = p + 1;
        }
        proof {
            lemma_first_before(out@, x, before, p as int);
            assert(src.take(taken + 1).drop_last() =~= src.take(taken as int));
            assert(src.take(taken + 1).last() == x);
            assert(rest@ =~= src.skip(taken + 1));
        }
        out.insert(p, x);
        taken = taken + 1;
    }
    assert(src.take(total as int) =~= src);
    out
}

/// Ranked core symbols come out highest caller count first.
pub proof fn lemma_rank_core_sorted(all: Seq<CoreSymbol>, limit: usize)
    ensures
        forall|i: int, j: int|
            0 <= i < j < spec_rank_core(all, limit).len() ==> #[trigger] spec_rank_core(all, limit)[i].caller_count
                >= #[trigger] spec_rank_core(all, limit)[j].caller_count,
{
    assert(strict_order(core_before()));
    lemma_sort_stable_sorted(all, core_before());
    let s = sort_stable(all, core_before());
    assert(sorted_by(s, core_before()));
    let r = spec_rank_core(all, limit);
    assert forall|i: int, j: int| 0 <= i < j < r.len() implies #[trigger] r[i].caller_count
        >= #[trigger] r[j].caller_count by {
        assert(r[i] == s[i] && r[j] == s[j]);
        assert(!(core_before())(s[j], s[i]));
    }
}

/// Ranked directories come out highest symbol count first.
pub proof fn lemma_rank_directories_sorted(all: Seq<DirStats>)
    ensures
        forall|i: int, j: int|
            0 <= i < j < all.len() ==> #[trigger] sort_stable(all, dir_before())[i].symbol_count
                >= #[trigger] sort_stable(all, dir_before())[j].symbol_count,
{
    assert(strict_order(dir_before()));
    lemma_sort_stable_sorted(all, dir_before());
    let s = sort_stable(all, dir_before());
    crate::order::lemma_sort_stable_permutation(all, dir_before());
    assert(s.len() == all.len()) by {
        s.to_multiset_ensures();
        all.to_multiset_ensures();
    }
    assert forall|i: int, j: int| 0 <= i < j < all.len() implies #[trigger] s[i].symbol_count
        >= #[trigger] s[j].symbol_count by {
        assert(!(dir_before())(s[j], s[i]));
    }
}

} // verus!

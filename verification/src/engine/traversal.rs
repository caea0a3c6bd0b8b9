//! What the graph's traversal queries return, put in the shape callers see.
//!
//! The recursive queries run in the database; each row they produce is
//! handed here together with what the database said about it. This module
//! decides which rows are kept, how they are grouped, and in what order
//! they come out.
use vstd::prelude::*;
use crate::engine::graph::{
    CallPath, CallPathStep, Dependency, ImpactNode, ImpactResult, Reference, Symbol, TraceResult,
    is_test_file, slashes_forward, spec_is_test_file, spec_name_from_id_text, symbol_name_from_id,
};
use crate::order::{
    lemma_first_before, lemma_sort_stable_permutation, lemma_sort_stable_sorted,
    lemma_text_lt_asymmetric, lemma_text_lt_transitive, sort_stable, sorted_by, strict_order,
    text_lt, text_lt_exec,
};
use crate::text::{
    add_new, char_views, chars_eq, chars_of, contains_seq, contains_string, extend_str, lemma_filter_push, lowercase_of,
    lemma_split_nonempty, split_seq, split_str, str_eq, string_of, strings_of, views,
};

verus! {

// ---------------------------------------------------------------------------
// Impact
// ---------------------------------------------------------------------------

/// A node whose ID is not one of the seeds.
pub open spec fn not_seed(seeds: Seq<Seq<char>>) -> spec_fn(ImpactNode) -> bool {
    |n: ImpactNode| !seeds.contains(n.id@)
}

/// A node defined in a test file.
pub open spec fn in_test_file() -> spec_fn(ImpactNode) -> bool {
    |n: ImpactNode| spec_is_test_file(n.file_path@)
}

/// A node defined outside test files.
pub open spec fn outside_test_files() -> spec_fn(ImpactNode) -> bool {
    |n: ImpactNode| !spec_is_test_file(n.file_path@)
}

/// A node at depth `d`.
pub open spec fn at_depth(d: usize) -> spec_fn(ImpactNode) -> bool {
    |n: ImpactNode| n.depth == d
}

/// The affected nodes in test files, in row order.
pub open spec fn impact_tests(rows: Seq<ImpactNode>, seeds: Seq<Seq<char>>) -> Seq<ImpactNode> {
    rows.filter(not_seed(seeds)).filter(in_test_file())
}

/// The affected nodes outside test files, in row order.
pub open spec fn impact_affected(rows: Seq<ImpactNode>, seeds: Seq<Seq<char>>) -> Seq<ImpactNode> {
    rows.filter(not_seed(seeds)).filter(outside_test_files())
}

/// Splitting nodes by test-file membership loses and duplicates nothing.
proof fn lemma_test_split_len(s: Seq<ImpactNode>)
    ensures
        s.filter(in_test_file()).len() + s.filter(outside_test_files()).len() == s.len(),
    decreases s.len(),
{
    reveal(Seq::filter);
    if s.len() > 0 {
        lemma_test_split_len(s.drop_last());
    }
}

/// Every affected node that is not a seed is reported exactly once: either
/// among the test files or counted in the total.
pub proof fn lemma_impact_accounts_for_every_node(rows: Seq<ImpactNode>, seeds: Seq<Seq<char>>)
    ensures
        impact_tests(rows, seeds).len() + impact_affected(rows, seeds).len() == rows.filter(
            not_seed(seeds),
        ).len(),
{
    lemma_test_split_len(rows.filter(not_seed(seeds)));
}

/// Impact keeps test code apart: a node that is not a seed and lies in a
/// file whose lowercase, forward-slashed path holds `_test.` (a Go or Python
/// test file), or any other test marker, is listed among the test files and
/// never among the affected symbols; a node outside test files is counted
/// among the affected symbols and not listed as a test.
pub proof fn lemma_impact_keeps_tests_apart(rows: Seq<ImpactNode>, seeds: Seq<Seq<char>>, k: int)
    requires
        0 <= k < rows.len(),
        !seeds.contains(rows[k].id@),
    ensures
        contains_seq(slashes_forward(lowercase_of(rows[k].file_path@)), "_test."@) ==> impact_tests(rows, seeds).contains(
            rows[k],
        ) && !impact_affected(rows, seeds).contains(rows[k]),
        spec_is_test_file(rows[k].file_path@) ==> impact_tests(rows, seeds).contains(rows[k])
            && !impact_affected(rows, seeds).contains(rows[k]),
        !spec_is_test_file(rows[k].file_path@) ==> impact_affected(rows, seeds).contains(rows[k])
            && !impact_tests(rows, seeds).contains(rows[k]),
{
    let n = rows[k];
    crate::engine::graph::lemma_test_file_markers(n.file_path@);
    rows.lemma_filter_contains(not_seed(seeds), k);
    let kept = rows.filter(not_seed(seeds));
    assert(kept.contains(n));
    let j = choose|j: int| 0 <= j < kept.len() && kept[j] == n;
    if spec_is_test_file(n.file_path@) {
        kept.lemma_filter_contains(in_test_file(), j);
        if impact_affected(rows, seeds).contains(n) {
            let q = choose|q: int| 0 <= q < impact_affected(rows, seeds).len() && impact_affected(rows, seeds)[q] == n;
            kept.lemma_filter_pred(outside_test_files(), q);
        }
    } else {
        kept.lemma_filter_contains(outside_test_files(), j);
        if impact_tests(rows, seeds).contains(n) {
            let q = choose|q: int| 0 <= q < impact_tests(rows, seeds).len() && impact_tests(rows, seeds)[q] == n;
            kept.lemma_filter_pred(in_test_file(), q);
        }
    }
}

/// `groups` lists `nodes` by depth: the depths ascend without repeats, each
/// group holds exactly the nodes at its depth in their original order and is
/// not empty, and every node's depth has a group.
pub open spec fn grouped_by_depth(nodes: Seq<ImpactNode>, groups: Seq<(usize, Vec<ImpactNode>)>) -> bool {
    &&& forall|i: int, j: int|
        #![trigger groups[i], groups[j]]
        0 <= i < j < groups.len() ==> groups[i].0 < groups[j].0
    &&& forall|i: int|
        0 <= i < groups.len() ==> (#[trigger] groups[i]).1@ == nodes.filter(at_depth(groups[i].0))
    &&& forall|i: int| 0 <= i < groups.len() ==> (#[trigger] groups[i]).1@.len() > 0
    &&& forall|k: int| 0 <= k < nodes.len() ==> has_group(groups, #[trigger] nodes[k].depth)
}

/// One of `groups` is for depth `d`.
pub open spec fn has_group(groups: Seq<(usize, Vec<ImpactNode>)>, d: usize) -> bool {
    exists|i: int| 0 <= i < groups.len() && groups[i].0 == d
}

/// A copy of an impact node.
fn clone_impact_node(n: &ImpactNode) -> (c: ImpactNode)
    ensures
        c == *n,
{
    ImpactNode {
        id: n.id.clone(),
        name: n.name.clone(),
        file_path: n.file_path.clone(),
        kind: n.kind.clone(),
        depth: n.depth,
    }
}

/// Some node is at depth `d`.
spec fn has_depth(nodes: Seq<ImpactNode>, d: usize) -> bool {
    exists|k: int| 0 <= k < nodes.len() && nodes[k].depth == d
}

/// The distinct depths of `nodes`, ascending.
fn distinct_depths(nodes: &Vec<ImpactNode>) -> (r: Vec<usize>)
    ensures
        forall|i: int, j: int| #![trigger r@[i], r@[j]] 0 <= i < j < r.len() ==> r@[i] < r@[j],
        forall|i: int| 0 <= i < r.len() ==> has_depth(nodes@, #[trigger] r@[i]),
        forall|k: int| 0 <= k < nodes.len() ==> r@.contains(#[trigger] nodes@[k].depth),
{
    let mut r: Vec<usize> = Vec::new();
    let mut i: usize = 0;
    while i < nodes.len()
        invariant
            i <= nodes.len(),
            forall|a: int, b: int| #![trigger r@[a], r@[b]] 0 <= a < b < r.len() ==> r@[a] < r@[b],
            forall|q: int| 0 <= q < r.len() ==> has_depth(nodes@, #[trigger] r@[q]),
            forall|k: int| 0 <= k < i ==> r@.contains(#[trigger] nodes@[k].depth),
        decreases nodes.len() - i,
    {
        let d = nodes[i].depth;
        let mut p: usize = 0;
        while p < r.len() && r[p] < d
            invariant
                p <= r.len(),
                forall|q: int| 0 <= q < p ==> #[trigger] r@[q] < d,
            decreases r.len() - p,
        {
            p = p + 1;
        }
        if p < r.len() && r[p] == d {
            assert(r@.contains(nodes@[i as int].depth)) by {
                assert(r@[p as int] == d);
            }
        } else {
            let ghost old_r = r@;
            r.insert(p, d);
            proof {
                old_r.insert_ensures(p as int, d);
                assert(r@[p as int] == d);
                assert forall|a: int, b: int| #![trigger r@[a], r@[b]] 0 <= a < b < r.len() implies r@[a] < r@[b] by {
                    if b < p {
                    } else if a < p && b == p {
                    } else if a < p {
                        assert(r@[b] == old_r[b - 1]);
                    } else if a == p {
                        assert(r@[b] == old_r[b - 1]);
                        assert(old_r[p as int] >= d);
                        if b - 1 > p {
                            assert(old_r[p as int] < old_r[b - 1]);
                        }
                    } else {
                        assert(r@[a] == old_r[a - 1]);
                        assert(r@[b] == old_r[b - 1]);
                    }
                }
                assert forall|q: int| 0 <= q < r.len() implies has_depth(nodes@, #[trigger] r@[q]) by {
                    if q < p {
                        assert(r@[q] == old_r[q]);
                    } else if q == p {
                        assert(nodes@[i as int].depth == r@[q]);
                    } else {
                        assert(r@[q] == old_r[q - 1]);
                    }
                }
                assert forall|k: int| 0 <= k < i implies r@.contains(#[trigger] nodes@[k].depth) by {
                    let q = choose|q: int| 0 <= q < old_r.len() && old_r[q] == nodes@[k].depth;
                    if q < p {
                        assert(r@[q] == old_r[q]);
                    } else {
                        assert(r@[q + 1] == old_r[q]);
                    }
                }
            }
        }
        i = i + 1;
    }
    r
}

/// The nodes at depth `d`, in order.
fn nodes_at_depth(nodes: &Vec<ImpactNode>, d: usize) -> (r: Vec<ImpactNode>)
    ensures
        r@ == nodes@.filter(at_depth(d)),
{
    let mut r: Vec<ImpactNode> = Vec::new();
    let mut i: usize = 0;
    while i < nodes.len()
        invariant
            i <= nodes.len(),
            r@ == nodes@.take(i as int).filter(at_depth(d)),
        decreases nodes.len() - i,
    {
        proof {
            assert(nodes@.take(i + 1) =~= nodes@.take(i as int).push(nodes@[i as int]));
            lemma_filter_push(nodes@.take(i as int), nodes@[i as int], at_depth(d));
        }
        if nodes[i].depth == d {
            r.push(clone_impact_node(&nodes[i]));
        }
        i = i + 1;
    }
    assert(nodes@.take(nodes.len() as int) =~= nodes@);
    r
}

/// Groups nodes by depth, ascending.
fn group_by_depth(nodes: &Vec<ImpactNode>) -> (r: Vec<(usize, Vec<ImpactNode>)>)
    ensures
        grouped_by_depth(nodes@, r@),
{
    let depths = distinct_depths(nodes);
    let mut r: Vec<(usize, Vec<ImpactNode>)> = Vec::new();
    let mut i: usize = 0;
    while i < depths.len()
        invariant
            i <= depths.len(),
            r.len() == i,
            forall|a: int, b: int|
                #![trigger depths@[a], depths@[b]]
                0 <= a < b < depths.len() ==> depths@[a] < depths@[b],
            forall|q: int| 0 <= q < depths.len() ==> has_depth(nodes@, #[trigger] depths@[q]),
            forall|q: int| 0 <= q < i ==> (#[trigger] r@[q]).0 == depths@[q],
            forall|q: int| 0 <= q < i ==> (#[trigger] r@[q]).1@ == nodes@.filter(at_depth(r@[q].0)),
            forall|q: int| 0 <= q < i ==> (#[trigger] r@[q]).1@.len() > 0,
        decreases depths.len() - i,
    {
        let d = depths[i];
        let g = nodes_at_depth(nodes, d);
        proof {
            assert(depths@[i as int] == d);
            assert(has_depth(nodes@, depths@[i as int]));
            let k = choose|k: int| 0 <= k < nodes.len() && nodes@[k].depth == depths@[i as int];
            nodes@.lemma_filter_contains(at_depth(d), k);
        }
        r.push((d, g));
        i = i + 1;
    }
    proof {
        assert forall|a: int, b: int| #![trigger r@[a], r@[b]] 0 <= a < b < r.len() implies r@[a].0 < r@[b].0 by {
            assert(depths@[a] < depths@[b]);
        }
        assert forall|k: int| 0 <= k < nodes.len() implies has_group(r@, #[trigger] nodes@[k].depth) by {
            assert(depths@.contains(nodes@[k].depth));
            let q = choose|q: int| 0 <= q < depths.len() && depths@[q] == nodes@[k].depth;
            assert(r@[q].0 == nodes@[k].depth);
        }
    }
    r
}

/// Assemble the result of an impact traversal from its rows.
///
/// Seeds never appear in the result. Nodes in test files are kept apart, in
/// row order; the others are counted and grouped by depth, ascending.
pub fn assemble_impact(rows: &Vec<ImpactNode>, seed_ids: &Vec<String>) -> (r: ImpactResult)
    ensures
        r.test_files@ == impact_tests(rows@, views(seed_ids@)),
        r.total_affected == impact_affected(rows@, views(seed_ids@)).len(),
        grouped_by_depth(impact_affected(rows@, views(seed_ids@)), r.nodes_by_depth@),
{
    let ghost seeds = views(seed_ids@);
    let mut tests: Vec<ImpactNode> = Vec::new();
    let mut affected: Vec<ImpactNode> = Vec::new();
    let mut i: usize = 0;
    while i < rows.len()
        invariant
            i <= rows.len(),
            seeds == views(seed_ids@),
            tests@ == rows@.take(i as int).filter(not_seed(seeds)).filter(in_test_file()),
            affected@ == rows@.take(i as int).filter(not_seed(seeds)).filter(outside_test_files()),
        decreases rows.len() - i,
    {
        let node = &rows[i];
        let seed = contains_string(seed_ids.as_slice(), node.id.as_str());
        proof {
            let x = rows@[i as int];
            let before = rows@.take(i as int);
            assert(rows@.take(i + 1) =~= before.push(x));
            lemma_filter_push(before, x, not_seed(seeds));
            lemma_filter_push(before.filter(not_seed(seeds)), x, in_test_file());
            lemma_filter_push(before.filter(not_seed(seeds)), x, outside_test_files());
        }
        if !seed {
            if is_test_file(node.file_path.as_str()) {
                tests.push(clone_impact_node(node));
            } else {
                affected.push(clone_impact_node(node));
            }
        }
        i = i + 1;
    }
    assert(rows@.take(rows.len() as int) =~= rows@);
    let total_affected = affected.len();
    let nodes_by_depth = group_by_depth(&affected);
    ImpactResult { nodes_by_depth, test_files: tests, total_affected }
}

// ---------------------------------------------------------------------------
// Seeds
// ---------------------------------------------------------------------------

/// Kinds whose members' edges count as their own: classes, structs and
/// interfaces.
pub open spec fn spec_is_class_like(kind: Seq<char>) -> bool {
    kind == "class"@ || kind == "struct"@ || kind == "interface"@
}

/// Whether a symbol of this kind takes its members' edges as its own.
pub fn is_class_like_kind(kind: &str) -> (r: bool)
    ensures
        r == spec_is_class_like(kind@),
{
    str_eq(kind, "class") || str_eq(kind, "struct") || str_eq(kind, "interface")
}

/// The IDs a traversal from a symbol starts at: its own ID, then its
/// members' IDs when it is class-like.
pub open spec fn spec_symbol_seeds(id: Seq<char>, kind: Seq<char>, member_ids: Seq<Seq<char>>) -> Seq<Seq<char>> {
    if spec_is_class_like(kind) {
        seq![id] + member_ids
    } else {
        seq![id]
    }
}

/// The IDs an impact or dependency traversal from `symbol` starts at.
/// `member_ids` are the IDs of the symbol's methods.
pub fn symbol_seed_ids(symbol: &Symbol, member_ids: &Vec<String>) -> (r: Vec<String>)
    ensures
        views(r@) == spec_symbol_seeds(symbol.id@, symbol.kind@, views(member_ids@)),
{
    let mut r: Vec<String> = Vec::new();
    r.push(symbol.id.clone());
    if is_class_like_kind(symbol.kind.as_str()) {
        let mut i: usize = 0;
        while i < member_ids.len()
            invariant
                i <= member_ids.len(),
                views(r@) == seq![symbol.id@] + views(member_ids@).take(i as int),
            decreases member_ids.len() - i,
        {
            let ghost before = views(r@);
            r.push(member_ids[i].clone());
            assert(views(r@) =~= before.push(member_ids@[i as int]@));
            assert(views(member_ids@).take(i + 1) =~= views(member_ids@).take(i as int).push(
                member_ids@[i as int]@,
            ));
            assert(views(r@) =~= seq![symbol.id@] + views(member_ids@).take(i + 1));
            i = i + 1;
        }
        assert(views(member_ids@).take(member_ids.len() as int) =~= views(member_ids@));
    } else {
        assert(views(r@) =~= seq![symbol.id@]);
    }
    r
}

/// The synthetic module-level ID of a file, which import edges start from.
pub open spec fn spec_module_id(file_path: Seq<char>) -> Seq<char> {
    file_path + "::__module__::function"@
}

/// `ids` with the file's module-level ID added at the end, unless present.
pub open spec fn spec_with_module_id(ids: Seq<Seq<char>>, file_path: Seq<char>) -> Seq<Seq<char>> {
    if ids.contains(spec_module_id(file_path)) {
        ids
    } else {
        ids.push(spec_module_id(file_path))
    }
}

/// Adds the file's module-level ID to the sources of a dependency query,
/// unless it is already one of them.
pub fn with_module_id(ids: Vec<String>, file_path: &str) -> (r: Vec<String>)
    ensures
        views(r@) == spec_with_module_id(views(ids@), file_path@),
{
    let mut m = chars_of(file_path);
    extend_str(&mut m, "::__module__::function");
    let module_id = string_of(&m);
    if contains_string(ids.as_slice(), module_id.as_str()) {
        ids
    } else {
        let mut r = ids;
        let ghost before = views(r@);
        r.push(module_id);
        assert(views(r@) =~= before.push(spec_module_id(file_path@)));
        r
    }
}

// ---------------------------------------------------------------------------
// Dependencies
// ---------------------------------------------------------------------------

/// A row of a dependency query together with what the index holds for its
/// target.
#[derive(Debug)]
pub struct DependencyRow {
    /// Target ID as stored on the edge.
    pub to_id: String,
    /// Edge kind.
    pub kind: String,
    /// Shallowest depth at which the target was reached (1 = direct).
    pub depth: usize,
    /// `(name, file_path)` of the indexed symbol whose ID is `to_id`, if any.
    pub by_id: Option<(String, String)>,
    /// `(name, file_path)` of an indexed symbol named like the target,
    /// top-level symbols first, if any.
    pub by_name: Option<(String, String)>,
}

/// The name of a row's target: the indexed name, else the name in the ID.
pub open spec fn row_name(r: DependencyRow) -> Seq<char> {
    match r.by_id {
        Some(p) => p.0@,
        None => spec_name_from_id_text(r.to_id@),
    }
}

/// The key rows are deduplicated by: `name::kind`.
pub open spec fn row_key(r: DependencyRow) -> Seq<char> {
    row_name(r) + "::"@ + r.kind@
}

/// The row points back at one of the query's sources.
pub open spec fn is_self_ref(r: DependencyRow, sources: Seq<Seq<char>>) -> bool {
    sources.contains(r.to_id@)
}

/// Row `i` is listed: it is no self-reference, and no earlier listed row
/// has its key.
pub open spec fn row_accepted(rows: Seq<DependencyRow>, sources: Seq<Seq<char>>, i: int) -> bool {
    &&& !is_self_ref(rows[i], sources)
    &&& forall|j: int|
        0 <= j < i && !is_self_ref(#[trigger] rows[j], sources) ==> row_key(rows[j]) != row_key(rows[i])
}

/// The listed rows among the first `n`, in order.
pub open spec fn accepted_rows(rows: Seq<DependencyRow>, sources: Seq<Seq<char>>, n: nat) -> Seq<DependencyRow>
    decreases n,
{
    if n == 0 {
        Seq::empty()
    } else {
        let before = accepted_rows(rows, sources, (n - 1) as nat);
        if row_accepted(rows, sources, n - 1) {
            before.push(rows[n - 1])
        } else {
            before
        }
    }
}

/// The symbol a row's target resolves to: by ID, else by name.
pub open spec fn row_resolved(r: DependencyRow) -> Option<(String, String)> {
    if r.by_id is Some {
        r.by_id
    } else {
        r.by_name
    }
}

/// `d` is the dependency listed for row `r`: a resolved target gives its
/// indexed name and file; an unresolved one is external, under the name
/// taken from its ID.
pub open spec fn describes(d: Dependency, r: DependencyRow) -> bool {
    &&& d.kind == r.kind
    &&& d.depth == r.depth
    &&& match row_resolved(r) {
        Some(p) => d.name == p.0 && d.file_path == Some(p.1) && !d.is_external,
        None => d.name@ == row_name(r) && d.file_path is None && d.is_external,
    }
}

/// `x` is one of the buffers of `v`.
fn contains_chars(v: &Vec<Vec<char>>, x: &Vec<char>) -> (r: bool)
    ensures
        r == char_views(v@).contains(x@),
{
    let mut i: usize = 0;
    while i < v.len()
        invariant
            i <= v.len(),
            forall|j: int| 0 <= j < i ==> char_views(v@)[j] != x@,
        decreases v.len() - i,
    {
        if chars_eq(&v[i], x) {
            assert(char_views(v@)[i as int] == x@);
            return true;
        }
        i = i + 1;
    }
    false
}

/// A copy of an optional `(name, file_path)` pair.
fn clone_pair(p: &Option<(String, String)>) -> (r: Option<(String, String)>)
    ensures
        r == *p,
{
    match p {
        Some(q) => Some((q.0.clone(), q.1.clone())),
        None => None,
    }
}

/// The dependency listed for a row.
fn dependency_of(row: &DependencyRow, name: String) -> (d: Dependency)
    requires
        name@ == row_name(*row),
    ensures
        describes(d, *row),
{
    let resolved = if row.by_id.is_some() {
        clone_pair(&row.by_id)
    } else {
        clone_pair(&row.by_name)
    };
    match resolved {
        Some((n, fp)) => Dependency {
            name: n,
            file_path: Some(fp),
            kind: row.kind.clone(),
            is_external: false,
            depth: row.depth,
        },
        None => Dependency { name, file_path: None, kind: row.kind.clone(), is_external: true, depth: row.depth },
    }
}

/// List the dependencies found by a dependency query.
///
/// Rows pointing back at a source are skipped, and so is every row whose
/// `name::kind` was listed before; each listed row resolves to the indexed
/// symbol by ID, else by name, else is reported as external.
pub fn collect_dependencies(rows: &Vec<DependencyRow>, source_ids: &Vec<String>) -> (r: Vec<Dependency>)
    ensures
        r.len() == accepted_rows(rows@, views(source_ids@), rows@.len()).len(),
        forall|i: int|
            0 <= i < r.len() ==> describes(
                #[trigger] r@[i],
                accepted_rows(rows@, views(source_ids@), rows@.len())[i],
            ),
{
    let ghost sources = views(source_ids@);
    let mut out: Vec<Dependency> = Vec::new();
    let mut seen: Vec<Vec<char>> = Vec::new();
    let mut i: usize = 0;
    while i < rows.len()
        invariant
            i <= rows.len(),
            sources == views(source_ids@),
            out.len() == accepted_rows(rows@, sources, i as nat).len(),
            forall|q: int|
                0 <= q < out.len() ==> describes(#[trigger] out@[q], accepted_rows(rows@, sources, i as nat)[q]),
            forall|kk: Seq<char>|
                char_views(seen@).contains(kk) <==> exists|j: int|
                    0 <= j < i && !is_self_ref(#[trigger] rows@[j], sources) && row_key(rows@[j]) == kk,
        decreases rows.len() - i,
    {
        let row = &rows[i];
        let ghost prev = accepted_rows(rows@, sources, i as nat);
        let ghost seen_before = char_views(seen@);
        if contains_string(source_ids.as_slice(), row.to_id.as_str()) {
            assert(!row_accepted(rows@, sources, i as int));
            assert(accepted_rows(rows@, sources, (i + 1) as nat) == prev);
            assert forall|kk: Seq<char>|
                char_views(seen@).contains(kk) <==> exists|j: int|
                    0 <= j < i + 1 && !is_self_ref(#[trigger] rows@[j], sources) && row_key(rows@[j]) == kk by {
                if exists|j: int| 0 <= j < i + 1 && !is_self_ref(#[trigger] rows@[j], sources) && row_key(rows@[j]) == kk {
                    let j = choose|j: int| 0 <= j < i + 1 && !is_self_ref(#[trigger] rows@[j], sources) && row_key(rows@[j]) == kk;
                    assert(j < i);
                }
            }
        } else {
            let indexed = match &row.by_id {
                Some(p) => Some(p.0.clone()),
                None => None,
            };
            let name = symbol_name_from_id(indexed, row.to_id.as_str());
            let mut key = chars_of(name.as_str());
            extend_str(&mut key, "::");
            extend_str(&mut key, row.kind.as_str());
            assert(key@ == row_key(rows@[i as int]));
            if contains_chars(&seen, &key) {
                let ghost j0 = choose|j: int|
                    0 <= j < i && !is_self_ref(#[trigger] rows@[j], sources) && row_key(rows@[j]) == key@;
                assert(!row_accepted(rows@, sources, i as int));
                assert(accepted_rows(rows@, sources, (i + 1) as nat) == prev);
                assert forall|kk: Seq<char>|
                    char_views(seen@).contains(kk) <==> exists|j: int|
                        0 <= j < i + 1 && !is_self_ref(#[trigger] rows@[j], sources) && row_key(rows@[j]) == kk by {
                    if exists|j: int| 0 <= j < i + 1 && !is_self_ref(#[trigger] rows@[j], sources) && row_key(rows@[j]) == kk {
                        let j = choose|j: int| 0 <= j < i + 1 && !is_self_ref(#[trigger] rows@[j], sources) && row_key(rows@[j]) == kk;
                        if j == i {
                            assert(kk == key@);
                            assert(rows@[j0] == rows@[j0]);
                        }
                    }
                }
            } else {
                assert(row_accepted(rows@, sources, i as int)) by {
                    assert forall|j: int|
                        0 <= j < i && !is_self_ref(#[trigger] rows@[j], sources) implies row_key(rows@[j]) != row_key(rows@[i as int]) by {
                        if row_key(rows@[j]) == row_key(rows@[i as int]) {
                            assert(char_views(seen@).contains(key@));
                        }
                    }
                }
                assert(accepted_rows(rows@, sources, (i + 1) as nat) == prev.push(rows@[i as int]));
                out.push(dependency_of(row, name));
                seen.push(key);
                assert(char_views(seen@) =~= seen_before.push(row_key(rows@[i as int])));
                assert forall|kk: Seq<char>|
                    char_views(seen@).contains(kk) <==> exists|j: int|
                        0 <= j < i + 1 && !is_self_ref(#[trigger] rows@[j], sources) && row_key(rows@[j]) == kk by {
                    if seen_before.contains(kk) {
                    } else if kk == row_key(rows@[i as int]) {
                        assert(char_views(seen@)[seen_before.len() as int] == kk);
                    }
                    if exists|j: int| 0 <= j < i + 1 && !is_self_ref(#[trigger] rows@[j], sources) && row_key(rows@[j]) == kk {
                        let j = choose|j: int| 0 <= j < i + 1 && !is_self_ref(#[trigger] rows@[j], sources) && row_key(rows@[j]) == kk;
                        if j < i {
                            assert(seen_before.contains(kk));
                            let q = choose|q: int| 0 <= q < seen_before.len() && seen_before[q] == kk;
                            assert(char_views(seen@)[q] == kk);
                        } else {
                            assert(char_views(seen@)[seen_before.len() as int] == kk);
                        }
                    }
                }
            }
        }
        i = i + 1;
    }
    out
}

// ---------------------------------------------------------------------------
// Call paths
// ---------------------------------------------------------------------------

/// The IDs along a stored path `a>b>c`, first to last.
pub fn path_ids(raw: &str) -> (r: Vec<String>)
    ensures
        views(r@) == split_seq(raw@, ">"@),
{
    proof {
        reveal_strlit(">");
    }
    let parts = split_str(&chars_of(raw), ">");
    strings_of(&parts)
}

/// The kind read from an ID `file::name::kind`, or `unknown`.
pub open spec fn spec_kind_from_id_text(id: Seq<char>) -> Seq<char> {
    let parts = split_seq(id, "::"@);
    if parts.len() >= 3 {
        parts[2]
    } else {
        "unknown"@
    }
}

/// `s` is the step read from an ID that is not in the index: its file,
/// name and kind are the pieces of `file::name::kind`, its line is 0.
pub open spec fn is_fallback_step(s: CallPathStep, id: Seq<char>) -> bool {
    &&& s.symbol_id@ == id
    &&& s.symbol_name@ == spec_name_from_id_text(id)
    &&& s.file_path@ == split_seq(id, "::"@)[0]
    &&& s.line == 0
    &&& s.kind@ == spec_kind_from_id_text(id)
}

/// The step of a call path for symbol ID `id`: the indexed symbol's step
/// when there is one, else the step read from the ID's own text.
pub fn call_path_step(indexed: Option<CallPathStep>, id: &str) -> (r: CallPathStep)
    ensures
        match indexed {
            Some(s) => r == s,
            None => is_fallback_step(r, id@),
        },
{
    match indexed {
        Some(s) => s,
        None => {
            proof {
                reveal_strlit("::");
                reveal_strlit("unknown");
                lemma_split_nonempty(id@, "::"@);
            }
            let parts = split_str(&chars_of(id), "::");
            assert(char_views(parts@)[0] == parts@[0]@);
            let file_path = string_of(&parts[0]);
            let kind = if parts.len() >= 3 {
                assert(char_views(parts@)[2] == parts@[2]@);
                string_of(&parts[2])
            } else {
                "unknown".to_string()
            };
            CallPathStep {
                symbol_name: symbol_name_from_id(None, id),
                symbol_id: id.to_string(),
                file_path,
                line: 0,
                kind,
            }
        },
    }
}

/// Paths as returned by the query, each kept at its first occurrence.
pub fn dedup_paths(raw: &Vec<String>) -> (r: Vec<String>)
    ensures
        views(r@) == add_new(Seq::empty(), views(raw@)),
{
    let mut out: Vec<String> = Vec::new();
    let mut i: usize = 0;
    assert(views(raw@).take(0) =~= Seq::<Seq<char>>::empty());
    while i < raw.len()
        invariant
            i <= raw.len(),
            views(out@) == add_new(Seq::empty(), views(raw@).take(i as int)),
        decreases raw.len() - i,
    {
        let p = &raw[i];
        proof {
            assert(views(raw@).take(i + 1).drop_last() =~= views(raw@).take(i as int));
            assert(views(raw@).take(i + 1).last() == p@);
        }
        if !contains_string(out.as_slice(), p.as_str()) {
            let ghost before = views(out@);
            out.push(p.clone());
            assert(views(out@) =~= before.push(p@));
        }
        i = i + 1;
    }
    assert(views(raw@).take(raw.len() as int) =~= views(raw@));
    out
}

/// The name a path is ordered by: its first step's, or empty.
pub open spec fn path_head(p: CallPath) -> Seq<char> {
    if p.steps@.len() > 0 {
        p.steps@[0].symbol_name@
    } else {
        Seq::empty()
    }
}

/// Shorter paths first, then by the first step's name.
pub open spec fn path_before() -> spec_fn(CallPath, CallPath) -> bool {
    |a: CallPath, b: CallPath|
        a.steps@.len() < b.steps@.len() || (a.steps@.len() == b.steps@.len() && text_lt(
            path_head(a),
            path_head(b),
        ))
}

/// Whether `a` sorts before `b`.
fn path_before_exec(a: &CallPath, b: &CallPath) -> (r: bool)
    ensures
        r == (path_before())(*a, *b),
{
    let la = a.steps.len();
    let lb = b.steps.len();
    if la != lb {
        return la < lb;
    }
    let ha: &str = if la > 0 { a.steps[0].symbol_name.as_str() } else { "" };
    let hb: &str = if lb > 0 { b.steps[0].symbol_name.as_str() } else { "" };
    proof {
        reveal_strlit("");
    }
    text_lt_exec(ha, hb)
}

/// Sort paths stably: shorter first, then by the first step's name.
fn sort_paths(v: Vec<CallPath>) -> (r: Vec<CallPath>)
    ensures
        r@ == sort_stable(v@, path_before()),
{
    let ghost before = path_before();
    let ghost all = v@;
    let total = v.len();
    let mut rest = v;
    let mut out: Vec<CallPath> = Vec::new();
    let mut taken: usize = 0;
    assert(all.take(0) =~= Seq::<CallPath>::empty());
    while rest.len() > 0
        invariant
            taken <= total,
            all.len() == total,
            before == path_before(),
            rest@ == all.skip(taken as int),
            out@ == sort_stable(all.take(taken as int), before),
        decreases rest.len(),
    {
        let x = rest.remove(0);
        let mut p: usize = 0;
        while p < out.len() && !path_before_exec(&x, &out[p])
            invariant
                p <= out.len(),
                before == path_before(),
                forall|k: int| 0 <= k < p ==> !before(x, #[trigger] out@[k]),
            decreases out.len() - p,
        {
            p = p + 1;
        }
        proof {
            lemma_first_before(out@, x, before, p as int);
            assert(all.take(taken + 1).drop_last() =~= all.take(taken as int));
            assert(all.take(taken + 1).last() == x);
            assert(rest@ =~= all.skip(taken + 1));
        }
        out.insert(p, x);
        taken = taken + 1;
    }
    assert(all.take(total as int) =~= all);
    out
}

/// The result of a trace: the target's name and its call paths, shortest
/// first and then by the first step's name.
pub fn trace_result(target_name: &str, paths: Vec<CallPath>) -> (r: TraceResult)
    ensures
        r.target@ == target_name@,
        r.paths@ == sort_stable(paths@, path_before()),
{
    TraceResult { target: target_name.to_string(), paths: sort_paths(paths) }
}

/// The call-path order is a strict order.
pub proof fn lemma_path_before_strict()
    ensures
        strict_order(path_before()),
{
    assert forall|a: CallPath, b: CallPath| #[trigger] (path_before())(a, b) implies !(path_before())(b, a) by {
        lemma_text_lt_asymmetric(path_head(a), path_head(b));
    }
    assert forall|a: CallPath, b: CallPath, c: CallPath|
        #[trigger] (path_before())(a, b) && #[trigger] (path_before())(b, c) implies (path_before())(a, c) by {
        lemma_text_lt_transitive(path_head(a), path_head(b), path_head(c));
    }
}

/// A trace lists its paths shortest first, ties broken by the first step's
/// name, and it lists exactly the paths it was given.
pub proof fn lemma_trace_paths_ordered(paths: Seq<CallPath>)
    ensures
        sorted_by(sort_stable(paths, path_before()), path_before()),
        sort_stable(paths, path_before()).to_multiset() == paths.to_multiset(),
{
    lemma_path_before_strict();
    lemma_sort_stable_sorted(paths, path_before());
    lemma_sort_stable_permutation(paths, path_before());
}

// ---------------------------------------------------------------------------
// References
// ---------------------------------------------------------------------------

/// The names and IDs of `syms`, in order: name, then ID, for each.
pub open spec fn names_and_ids(syms: Seq<Symbol>) -> Seq<Seq<char>>
    decreases syms.len(),
{
    if syms.len() == 0 {
        Seq::empty()
    } else {
        names_and_ids(syms.drop_last()) + seq![syms.last().name@, syms.last().id@]
    }
}

/// What edges to a symbol may target: its name and ID, then its members'
/// names and IDs when it is class-like.
pub open spec fn spec_ref_match_names(symbol: Symbol, members: Seq<Symbol>) -> Seq<Seq<char>> {
    if spec_is_class_like(symbol.kind@) {
        seq![symbol.name@, symbol.id@] + names_and_ids(members)
    } else {
        seq![symbol.name@, symbol.id@]
    }
}

/// Appends the names and IDs of `syms` to `out`.
fn push_names_and_ids(out: &mut Vec<String>, syms: &Vec<Symbol>)
    ensures
        views(final(out)@) == views(old(out)@) + names_and_ids(syms@),
{
    let ghost start = views(out@);
    let mut i: usize = 0;
    assert(syms@.take(0) =~= Seq::<Symbol>::empty());
    assert(views(out@) =~= start + names_and_ids(syms@.take(0)));
    while i < syms.len()
        invariant
            i <= syms.len(),
            views(out@) == start + names_and_ids(syms@.take(i as int)),
        decreases syms.len() - i,
    {
        let ghost before = views(out@);
        out.push(syms[i].name.clone());
        out.push(syms[i].id.clone());
        proof {
            assert(syms@.take(i + 1).drop_last() =~= syms@.take(i as int));
            assert(syms@.take(i + 1).last() == syms@[i as int]);
            assert(views(out@) =~= before + seq![syms@[i as int].name@, syms@[i as int].id@]);
            assert(views(out@) =~= start + names_and_ids(syms@.take(i + 1)));
        }
        i = i + 1;
    }
    assert(syms@.take(syms.len() as int) =~= syms@);
}

/// The names and IDs that edges to `symbol` may target; `members` are its
/// methods.
pub fn ref_match_names(symbol: &Symbol, members: &Vec<Symbol>) -> (r: Vec<String>)
    ensures
        views(r@) == spec_ref_match_names(*symbol, members@),
{
    let mut r: Vec<String> = Vec::new();
    r.push(symbol.name.clone());
    r.push(symbol.id.clone());
    assert(views(r@) =~= seq![symbol.name@, symbol.id@]);
    if is_class_like_kind(symbol.kind.as_str()) {
        push_names_and_ids(&mut r, members);
    }
    r
}

/// The names and IDs that edges to the symbols of a file may target.
pub fn file_ref_match_names(symbols: &Vec<Symbol>) -> (r: Vec<String>)
    ensures
        views(r@) == names_and_ids(symbols@),
{
    let mut r: Vec<String> = Vec::new();
    push_names_and_ids(&mut r, symbols);
    assert(views(r@) =~= names_and_ids(symbols@));
    r
}

/// A reference of kind `kind`.
pub open spec fn of_kind(kind: Seq<char>) -> spec_fn(Reference) -> bool {
    |r: Reference| r.kind@ == kind
}

/// The kind of a reference.
pub open spec fn kind_of_ref() -> spec_fn(Reference) -> Seq<char> {
    |r: Reference| r.kind@
}

/// The kinds of `refs`, each once, in order of first appearance.
pub open spec fn ref_kinds(refs: Seq<Reference>) -> Seq<Seq<char>> {
    add_new(Seq::empty(), refs.map_values(kind_of_ref()))
}

/// References grouped by kind: the kinds in order of first appearance,
/// each with its references in their original order.
pub open spec fn grouped_by_kind(refs: Seq<Reference>, groups: Seq<(String, Vec<Reference>)>) -> bool {
    &&& groups.len() == ref_kinds(refs).len()
    &&& forall|j: int|
        0 <= j < groups.len() ==> (#[trigger] groups[j]).0@ == ref_kinds(refs)[j] && groups[j].1@ == refs.filter(
            of_kind(groups[j].0@),
        )
}

/// Group references by kind, keeping the order in which kinds first appear
/// and the order of the references within each kind.
pub fn group_refs_by_kind(refs: Vec<Reference>) -> (r: Vec<(String, Vec<Reference>)>)
    ensures
        grouped_by_kind(refs@, r@),
{
    let ghost all = refs@;
    let ghost kinds = all.map_values(kind_of_ref());
    let total = refs.len();
    let mut rest = refs;
    let mut groups: Vec<(String, Vec<Reference>)> = Vec::new();
    let mut taken: usize = 0;
    assert(kinds.take(0) =~= Seq::<Seq<char>>::empty());
    while rest.len() > 0
        invariant
            taken <= total,
            all.len() == total,
            kinds == all.map_values(kind_of_ref()),
            rest@ == all.skip(taken as int),
            groups@.len() == add_new(Seq::empty(), kinds.take(taken as int)).len(),
            forall|j: int|
                0 <= j < groups@.len() ==> (#[trigger] groups@[j]).0@ == add_new(
                    Seq::empty(),
                    kinds.take(taken as int),
                )[j] && groups@[j].1@ == all.take(taken as int).filter(of_kind(groups@[j].0@)),
        decreases rest.len(),
    {
        let x = rest.remove(0);
        let ghost prev_groups = groups@;
        let ghost seen = add_new(Seq::empty(), kinds.take(taken as int));
        proof {
            assert(rest@ =~= all.skip(taken + 1));
            assert(x == all[taken as int]);
            assert(all.take(taken + 1) =~= all.take(taken as int).push(x));
            assert(kinds.take(taken + 1).drop_last() =~= kinds.take(taken as int));
            assert(kinds.take(taken + 1).last() == x.kind@);
            assert forall|k: Seq<char>| all.take(taken + 1).filter(of_kind(k)) == if x.kind@ == k {
                all.take(taken as int).filter(of_kind(k)).push(x)
            } else {
                all.take(taken as int).filter(of_kind(k))
            } by {
                lemma_filter_push(all.take(taken as int), x, of_kind(k));
            }
        }
        let mut j: usize = 0;
        while j < groups.len() && !str_eq(groups[j].0.as_str(), x.kind.as_str())
            invariant
                j <= groups@.len(),
                forall|q: int| 0 <= q < j ==> groups@[q].0@ != x.kind@,
            decreases groups.len() - j,
        {
            j = j + 1;
        }
        if j < groups.len() {
            let (k, mut members) = groups.remove(j);
            members.push(x);
            groups.insert(j, (k, members));
            proof {
                assert(seen.contains(x.kind@)) by {
                    assert(seen[j as int] == x.kind@);
                }
                assert forall|q: int| 0 <= q < groups@.len() implies (#[trigger] groups@[q]).0@ == seen[q]
                    && groups@[q].1@ == all.take(taken + 1).filter(of_kind(groups@[q].0@)) by {
                    if q != j {
                        assert(groups@[q] == prev_groups[q]);
                        assert(prev_groups[q].0@ != x.kind@ || q > j) ;
                        if prev_groups[q].0@ == x.kind@ {
                            // kinds in `seen` are distinct
                            lemma_add_new_distinct(Seq::empty(), kinds.take(taken as int));
                            assert(seen[q] == seen[j as int]);
                        }
                    }
                }
            }
        } else {
            let ghost before = groups@;
            let mut members: Vec<Reference> = Vec::new();
            let k = x.kind.clone();
            members.push(x);
            groups.push((k, members));
            proof {
                assert forall|q: int| 0 <= q < seen.len() implies seen[q] != x.kind@ by {
                    assert(prev_groups[q].0@ == seen[q]);
                }
                assert(!seen.contains(x.kind@));
                assert(all.take(taken as int).filter(of_kind(x.kind@)).len() == 0) by {
                    if all.take(taken as int).filter(of_kind(x.kind@)).len() > 0 {
                        let pre = all.take(taken as int);
                        let f = pre.filter(of_kind(x.kind@));
                        let y = f[0];
                        pre.lemma_filter_pred(of_kind(x.kind@), 0);
                        assert(y.kind@ == x.kind@);
                        assert(f.contains(y));
                        pre.lemma_filter_contains_rev(of_kind(x.kind@), y);
                        assert(pre.contains(y));
                        let t = choose|t: int| 0 <= t < pre.len() && pre[t] == y;
                        assert(pre.len() == taken);
                        assert(all[t] == y);
                        assert(kinds[t] == y.kind@);
                        assert(kinds.take(taken as int)[t] == x.kind@);
                        lemma_add_new_covers(Seq::empty(), kinds.take(taken as int), t);
                    }
                }
                assert(all.take(taken + 1).filter(of_kind(x.kind@)) =~= seq![x]);
                assert forall|q: int| 0 <= q < groups@.len() implies (#[trigger] groups@[q]).0@ == seen.push(x.kind@)[q]
                    && groups@[q].1@ == all.take(taken + 1).filter(of_kind(groups@[q].0@)) by {
                    if q < before.len() {
                        assert(groups@[q] == before[q]);
                    }
                }
            }
        }
        taken = taken + 1;
    }
    assert(all.take(total as int) =~= all);
    assert(kinds.take(total as int) =~= kinds);
    groups
}

/// `add_new` keeps its new elements distinct from each other and from `acc`.
proof fn lemma_add_new_distinct(acc: Seq<Seq<char>>, more: Seq<Seq<char>>)
    requires
        forall|a: int, b: int| 0 <= a < b < acc.len() ==> acc[a] != acc[b],
    ensures
        forall|a: int, b: int|
            0 <= a < b < add_new(acc, more).len() ==> add_new(acc, more)[a] != add_new(acc, more)[b],
    decreases more.len(),
{
    if more.len() > 0 {
        lemma_add_new_distinct(acc, more.drop_last());
        let prev = add_new(acc, more.drop_last());
        if !prev.contains(more.last()) {
            assert forall|a: int, b: int|
                0 <= a < b < prev.push(more.last()).len() implies prev.push(more.last())[a] != prev.push(
                more.last(),
            )[b] by {
                if b == prev.len() {
                    assert(prev[a] == prev.push(more.last())[a]);
                }
            }
        }
    }
}

/// Every element of `more` ends up in `add_new(acc, more)`.
proof fn lemma_add_new_covers(acc: Seq<Seq<char>>, more: Seq<Seq<char>>, t: int)
    requires
        0 <= t < more.len(),
    ensures
        add_new(acc, more).contains(more[t]),
    decreases more.len(),
{
    let prev = add_new(acc, more.drop_last());
    if t < more.len() - 1 {
        lemma_add_new_covers(acc, more.drop_last(), t);
        assert(more.drop_last()[t] == more[t]);
        if !prev.contains(more.last()) {
            let w = choose|w: int| 0 <= w < prev.len() && prev[w] == more[t];
            assert(prev.push(more.last())[w] == more[t]);
        }
    } else if !prev.contains(more.last()) {
        assert(prev.push(more.last())[prev.len() as int] == more[t]);
    }
}

} // verus!

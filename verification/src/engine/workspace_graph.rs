//! Workspace-level queries over multiple independent project graphs.
//!
//! Each workspace member keeps its own `.scope/graph.db`; queries fan out to
//! every member and their results are merged here, tagged with the member's
//! name. Symbol IDs are never modified on disk: project prefixing happens at
//! the output boundary only.
use vstd::prelude::*;
use crate::engine::graph::{Reference, Symbol};
use crate::order::{
    lemma_pair_lt_strict, lemma_sort_stable_permutation, lemma_sort_stable_sorted,
    lemma_text_before_strict, sorted_by, strict_order, lemma_first_before, pair_lt, sort_stable, sort_texts, text_before, text_lt_exec,
};
use crate::text::{add_new, chars_of, extend_str, string_of, views};

verus! {

/// A symbol result tagged with its source project.
#[derive(Debug, Clone)]
pub struct WorkspaceSymbol {
    /// The workspace member name this symbol belongs to.
    pub project: String,
    /// Symbol ID (relative to project root, not prefixed).
    pub id: String,
    /// Symbol name.
    pub name: String,
    /// Symbol kind (function, class, method, etc.).
    pub kind: String,
    /// File path relative to the project root.
    pub file_path: String,
    /// First line of the symbol definition (1-based).
    pub line_start: u32,
    /// Last line of the symbol definition (1-based).
    pub line_end: u32,
}

/// A reference result tagged with its source project.
#[derive(Debug, Clone)]
pub struct WorkspaceRef {
    /// The workspace member name this reference belongs to.
    pub project: String,
    /// The underlying reference.
    pub reference: Reference,
}

/// The display form of a symbol ID inside a workspace: `project::id`.
pub open spec fn spec_workspace_display_id(project: Seq<char>, id: Seq<char>) -> Seq<char> {
    project + "::"@ + id
}

/// Prefix a symbol ID with the project name for workspace display.
pub fn workspace_display_id(project: &str, id: &str) -> (r: String)
    ensures
        r@ == spec_workspace_display_id(project@, id@),
{
    let mut v = chars_of(project);
    extend_str(&mut v, "::");
    extend_str(&mut v, id);
    string_of(&v)
}

/// The workspace record of a symbol found in member `project`.
pub open spec fn tagged_symbol(project: Seq<char>, s: Symbol) -> (Seq<char>, Seq<char>, Seq<char>, Seq<char>, Seq<char>, u32, u32) {
    (project, s.id@, s.name@, s.kind@, s.file_path@, s.line_start, s.line_end)
}

/// The view of a workspace symbol.
pub open spec fn symbol_view(w: WorkspaceSymbol) -> (Seq<char>, Seq<char>, Seq<char>, Seq<char>, Seq<char>, u32, u32) {
    (w.project@, w.id@, w.name@, w.kind@, w.file_path@, w.line_start, w.line_end)
}

/// The members' answers that found a symbol, tagged with the member's name,
/// in member order.
pub open spec fn found_symbols(found: Seq<(String, Option<Symbol>)>) -> Seq<(Seq<char>, Seq<char>, Seq<char>, Seq<char>, Seq<char>, u32, u32)>
    decreases found.len(),
{
    if found.len() == 0 {
        Seq::empty()
    } else {
        let rest = found_symbols(found.drop_last());
        match found.last().1 {
            Some(s) => rest.push(tagged_symbol(found.last().0@, s)),
            None => rest,
        }
    }
}

/// Collects the symbols that the members found, tagged with their project
/// (a member that found none contributes nothing).
pub fn collect_found_symbols(found: Vec<(String, Option<Symbol>)>) -> (r: Vec<WorkspaceSymbol>)
    ensures
        r@.map_values(|w: WorkspaceSymbol| symbol_view(w)) == found_symbols(found@),
{
    let mut out: Vec<WorkspaceSymbol> = Vec::new();
    let mut i: usize = 0;
    while i < found.len()
        invariant
            i <= found.len(),
            out@.map_values(|w: WorkspaceSymbol| symbol_view(w)) == found_symbols(
                found@.take(i as int),
            ),
        decreases found.len() - i,
    {
        let (project, sym) = (&found[i].0, &found[i].1);
        proof {
            assert(found@.take(i + 1).drop_last() =~= found@.take(i as int));
        }
        match sym {
            Some(s) => {
                let ghost before = out@;
                out.push(
                    WorkspaceSymbol {
                        project: project.clone(),
                        id: s.id.clone(),
                        name: s.name.clone(),
                        kind: s.kind.clone(),
                        file_path: s.file_path.clone(),
                        line_start: s.line_start,
                        line_end: s.line_end,
                    },
                );
                assert(out@.map_values(|w: WorkspaceSymbol| symbol_view(w)) =~= before.map_values(
                    |w: WorkspaceSymbol| symbol_view(w),
                ).push(tagged_symbol(project@, *s)));
            },
            None => {},
        }
        i = i + 1;
    }
    assert(found@.take(found@.len() as int) =~= found@);
    out
}

/// How many references each member is asked for: twice the limit, so that
/// the merged order is fair (the limit itself if doubling overflows).
pub open spec fn spec_per_member_limit(limit: usize) -> usize {
    if limit * 2 <= usize::MAX { (limit * 2) as usize } else { usize::MAX }
}

/// The per-member reference limit.
pub fn per_member_limit(limit: usize) -> (r: usize)
    ensures
        r == spec_per_member_limit(limit),
        r >= limit,
{
    if limit <= usize::MAX / 2 {
        limit * 2
    } else {
        usize::MAX
    }
}

/// The sort key of a workspace reference: its kind, then its source name.
pub open spec fn ref_key(w: WorkspaceRef) -> (Seq<char>, Seq<char>) {
    (w.reference.kind@, w.reference.from_name@)
}

/// Workspace references are ordered by kind, then by source name.
pub open spec fn ref_before() -> spec_fn(WorkspaceRef, WorkspaceRef) -> bool {
    |a: WorkspaceRef, b: WorkspaceRef| pair_lt(ref_key(a), ref_key(b))
}

/// The members' references tagged with the member's name, in member order.
pub open spec fn tagged_refs(per_member: Seq<(String, Vec<Reference>)>) -> Seq<WorkspaceRef>
    decreases per_member.len(),
{
    if per_member.len() == 0 {
        Seq::empty()
    } else {
        let last = per_member.last();
        tagged_refs(per_member.drop_last()) + last.1@.map_values(
            |r: Reference| WorkspaceRef { project: last.0, reference: r },
        )
    }
}

/// The merged references: all members' references sorted by kind and then
/// by source name (stably), cut to `limit`.
pub open spec fn spec_merge_refs(per_member: Seq<(String, Vec<Reference>)>, limit: usize) -> Seq<WorkspaceRef> {
    let sorted = sort_stable(tagged_refs(per_member), ref_before());
    if limit < sorted.len() { sorted.take(limit as int) } else { sorted }
}

/// Whether `a` sorts before `b`.
fn ref_before_exec(a: &WorkspaceRef, b: &WorkspaceRef) -> (r: bool)
    ensures
        r == (ref_before())(*a, *b),
{
    let ka = a.reference.kind.as_str();
    let kb = b.reference.kind.as_str();
    text_lt_exec(ka, kb) || (crate::text::str_eq(ka, kb) && text_lt_exec(
        a.reference.from_name.as_str(),
        b.reference.from_name.as_str(),
    ))
}

/// Tags every member's references with the member's name.
fn tag_refs(per_member: Vec<(String, Vec<Reference>)>) -> (r: Vec<WorkspaceRef>)
    ensures
        r@ == tagged_refs(per_member@),
{
    let ghost all = per_member@;
    let mut rest = per_member;
    let mut out: Vec<WorkspaceRef> = Vec::new();
    let total = rest.len();
    let mut taken: usize = 0;
    while rest.len() > 0
        invariant
            taken <= total,
            all.len() == total,
            rest@ == all.skip(taken as int),
            out@ == tagged_refs(all.take(taken as int)),
        decreases rest.len(),
    {
        let (project, refs) = rest.remove(0);
        proof {
            assert(all.take(taken + 1).drop_last() =~= all.take(taken as int));
            assert(rest@ =~= all.skip(taken + 1));
        }
        let ghost base = out@;
        let ghost member_refs = refs@;
        let mut inner = refs;
        let mut k: usize = 0;
        let n = inner.len();
        while inner.len() > 0
            invariant
                k <= n,
                member_refs.len() == n,
                inner@ == member_refs.skip(k as int),
                out@ == base + member_refs.take(k as int).map_values(
                    |r: Reference| WorkspaceRef { project: project, reference: r },
                ),
            decreases inner.len(),
        {
            let r = inner.remove(0);
            let ghost prev = out@;
            out.push(WorkspaceRef { project: project.clone(), reference: r });
            proof {
                assert(member_refs.take(k + 1) =~= member_refs.take(k as int).push(r));
                assert(out@ =~= base + member_refs.take(k + 1).map_values(
                    |r: Reference| WorkspaceRef { project: project, reference: r },
                ));
                assert(inner@ =~= member_refs.skip(k + 1));
            }
            k = k + 1;
        }
        proof {
            assert(member_refs.take(n as int) =~= member_refs);
        }
        taken = taken + 1;
    }
    assert(all.take(total as int) =~= all);
    out
}

/// Sorts workspace references stably by kind and source name.
fn sort_refs(v: Vec<WorkspaceRef>) -> (r: Vec<WorkspaceRef>)
    ensures
        r@ == sort_stable(v@, ref_before()),
{
    let ghost before = ref_before();
    let ghost all = v@;
    let total = v.len();
    let mut rest = v;
    let mut out: Vec<WorkspaceRef> = Vec::new();
    let mut taken: usize = 0;
    assert(all.take(0) =~= Seq::<WorkspaceRef>::empty());
    while rest.len() > 0
        invariant
            taken <= total,
            all.len() == total,
            before == ref_before(),
            rest@ == all.skip(taken as int),
            out@ == sort_stable(all.take(taken as int), before),
        decreases rest.len(),
    {
        let x = rest.remove(0);
        let mut p: usize = 0;
        while p < out.len() && !ref_before_exec(&x, &out[p])
            invariant
                p <= out.len(),
                before == ref_before(),
                forall|k: int| 0 <= k < p ==> !before(x, #[trigger] out@[k]),
            decreases out.len() - p,
        {
            p = p + 1;
        }
        proof {
            lemma_first_before(out@, x, before, p as int);
            assert(all.take(taken + 1).drop_last() =~= all.take(taken as int));
            assert(all.take(taken + 1).last() == x);
            assert(rest@ =~= all.skip(taken + 1));
        }
        out.insert(p, x);
        taken = taken + 1;
    }
    assert(all.take(total as int) =~= all);
    out
}

/// Merge the members' references: tag each with its member, sort by
/// `(kind, from_name)` for deterministic output, and apply the global limit.
pub fn merge_refs(per_member: Vec<(String, Vec<Reference>)>, limit: usize) -> (r: Vec<WorkspaceRef>)
    ensures
        r@ == spec_merge_refs(per_member@, limit),
{
    let tagged = tag_refs(per_member);
    let mut sorted = sort_refs(tagged);
    sorted.truncate(limit);
    sorted
}

/// All members' languages, each kept at its first appearance.
pub open spec fn language_union(per_member: Seq<Seq<Seq<char>>>) -> Seq<Seq<char>>
    decreases per_member.len(),
{
    if per_member.len() == 0 {
        Seq::empty()
    } else {
        add_new(language_union(per_member.drop_last()), per_member.last())
    }
}

/// Get the deduplicated union of languages across all members, sorted.
pub fn merge_languages(per_member: &Vec<Vec<String>>) -> (r: Vec<String>)
    ensures
        views(r@) == sort_stable(
            language_union(per_member@.map_values(|v: Vec<String>| views(v@))),
            text_before(),
        ),
{
    let ghost pm = per_member@.map_values(|v: Vec<String>| views(v@));
    let mut langs: Vec<String> = Vec::new();
    let mut i: usize = 0;
    while i < per_member.len()
        invariant
            i <= per_member.len(),
            pm == per_member@.map_values(|v: Vec<String>| views(v@)),
            views(langs@) == language_union(pm.take(i as int)),
        decreases per_member.len() - i,
    {
        let member = &per_member[i];
        let ghost base = views(langs@);
        let mut j: usize = 0;
        while j < member.len()
            invariant
                j <= member.len(),
                views(langs@) == add_new(base, views(member@).take(j as int)),
            decreases member.len() - j,
        {
            let lang = &member[j];
            let mut seen = false;
            let mut k: usize = 0;
            while k < langs.len()
                invariant
                    k <= langs.len(),
                    !seen ==> forall|q: int| 0 <= q < k ==> views(langs@)[q] != lang@,
                    seen ==> views(langs@).contains(lang@),
                decreases langs.len() - k,
            {
                if langs[k] == *lang {
                    assert(views(langs@)[k as int] == lang@);
                    seen = true;
                }
                k = k + 1;
            }
            proof {
                assert(views(member@).take(j + 1).drop_last() =~= views(member@).take(j as int));
                assert(views(member@).take(j + 1).last() == lang@);
            }
            if !seen {
                let ghost prev = views(langs@);
                langs.push(lang.clone());
                assert(views(langs@) =~= prev.push(lang@));
            }
            j = j + 1;
        }
        proof {
            assert(views(member@).take(member@.len() as int) =~= views(member@));
            assert(pm.take(i + 1).drop_last() =~= pm.take(i as int));
            assert(pm.take(i + 1).last() == views(member@));
        }
        i = i + 1;
    }
    assert(pm.take(per_member@.len() as int) =~= pm);
    sort_texts(langs)
}

/// A total over the members' counts (a member whose count could not be read
/// contributes 0).
pub open spec fn sum_counts(counts: Seq<usize>) -> int
    decreases counts.len(),
{
    if counts.len() == 0 {
        0
    } else {
        sum_counts(counts.drop_last()) + counts.last()
    }
}

/// Sums the members' counts.
pub fn total_count(counts: &Vec<usize>) -> (r: usize)
    requires
        sum_counts(counts@) <= usize::MAX,
    ensures
        r == sum_counts(counts@),
{
    let mut total: usize = 0;
    let mut i: usize = 0;
    while i < counts.len()
        invariant
            i <= counts.len(),
            sum_counts(counts@) <= usize::MAX,
            total == sum_counts(counts@.take(i as int)),
        decreases counts.len() - i,
    {
        proof {
            assert(counts@.take(i + 1).drop_last() =~= counts@.take(i as int));
            lemma_sum_prefix(counts@, i + 1);
        }
        total = total + counts[i];
        i = i + 1;
    }
    assert(counts@.take(counts@.len() as int) =~= counts@);
    total
}

/// A prefix sums to no more than the whole.
proof fn lemma_sum_prefix(counts: Seq<usize>, k: int)
    requires
        0 <= k <= counts.len(),
    ensures
        sum_counts(counts.take(k)) <= sum_counts(counts),
    decreases counts.len(),
{
    if k == counts.len() {
        assert(counts.take(k) =~= counts);
    } else {
        lemma_sum_prefix(counts.drop_last(), k);
        assert(counts.drop_last().take(k) =~= counts.take(k));
    }
}

/// Reference order is a strict order.
pub proof fn lemma_ref_before_strict()
    ensures
        strict_order(ref_before()),
{
    assert forall|a: WorkspaceRef, b: WorkspaceRef| #[trigger] (ref_before())(a, b) implies !(ref_before())(
        b,
        a,
    ) by {
        lemma_pair_lt_strict(ref_key(a), ref_key(b), ref_key(a));
    }
    assert forall|a: WorkspaceRef, b: WorkspaceRef, c: WorkspaceRef|
        #[trigger] (ref_before())(a, b) && #[trigger] (ref_before())(b, c) implies (ref_before())(
        a,
        c,
    ) by {
        lemma_pair_lt_strict(ref_key(a), ref_key(b), ref_key(c));
    }
}

/// Merged workspace references come out ordered by kind and then by source
/// name, and they are references that the members returned: every merged
/// reference occurs among the tagged references at least as often.
pub proof fn lemma_merge_refs_sorted(per_member: Seq<(String, Vec<Reference>)>, limit: usize)
    ensures
        sorted_by(spec_merge_refs(per_member, limit), ref_before()),
        spec_merge_refs(per_member, limit).to_multiset().subset_of(
            tagged_refs(per_member).to_multiset(),
        ),
        spec_merge_refs(per_member, limit).len() == if limit < tagged_refs(per_member).len() {
            limit as int
        } else {
            tagged_refs(per_member).len() as int
        },
{
    broadcast use vstd::seq_lib::group_seq_properties;
    broadcast use vstd::multiset::group_multiset_axioms;

    let t = tagged_refs(per_member);
    let sorted = sort_stable(t, ref_before());
    lemma_ref_before_strict();
    lemma_sort_stable_sorted(t, ref_before());
    lemma_sort_stable_permutation(t, ref_before());
    sorted.to_multiset_ensures();
    t.to_multiset_ensures();
    if limit < sorted.len() {
        let m = sorted.take(limit as int);
        assert(sorted =~= m + sorted.skip(limit as int));
        vstd::seq_lib::lemma_multiset_commutative(m, sorted.skip(limit as int));
        assert((m + sorted.skip(limit as int)).to_multiset() =~= m.to_multiset().add(
            sorted.skip(limit as int).to_multiset(),
        ));
    }
}

/// The merged language list is sorted.
pub proof fn lemma_merged_languages_sorted(per_member: Seq<Seq<Seq<char>>>)
    ensures
        sorted_by(sort_stable(language_union(per_member), text_before()), text_before()),
{
    lemma_text_before_strict();
    lemma_sort_stable_sorted(language_union(per_member), text_before());
}

} // verus!

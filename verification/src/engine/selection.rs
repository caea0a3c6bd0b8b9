//! Selections and summaries over whole-graph query rows: entry points,
//! the importance ranking, per-directory statistics and per-symbol name
//! lists.
//!
//! The database hands over plain rows; what is kept, counted and in which
//! order it comes out is decided here.
use vstd::prelude::*;
use crate::engine::graph::{
    CallerCountMaps, Symbol, clone_symbol, is_test_file, resolve_caller_count, slashes_forward,
    slashes_forward_exec, spec_is_test_file, spec_resolve_caller_count, table_count, table_lookup,
};
use crate::order::{
    lemma_first_before, lemma_sort_stable_permutation, lemma_sort_stable_sorted,
    lemma_text_lt_asymmetric, lemma_text_lt_transitive, sort_stable, sort_texts, sorted_by,
    strict_order, text_before, text_lt, text_lt_exec,
};
use crate::text::{
    add_new, chars_of, contains_string, extend_str, lemma_filter_push, lemma_rfind_upto,
    rfind_exec, rfind_seq, rfind_upto, starts_with, starts_with_str, slice_chars, string_of, views,
};

verus! {

// ---------------------------------------------------------------------------
// Entry points
// ---------------------------------------------------------------------------

/// The text after the last `.` of `s`, or all of `s` without one.
pub open spec fn after_last_dot(s: Seq<char>) -> Seq<char> {
    match rfind_seq(s, seq!['.']) {
        Some(k) => s.subrange(k + 1, s.len() as int),
        None => s,
    }
}

/// The text after the last `.` of `s`, or all of `s` without one.
pub fn after_last_dot_exec(s: &str) -> (r: String)
    ensures
        r@ == after_last_dot(s@),
{
    let cs = chars_of(s);
    let mut dot: Vec<char> = Vec::new();
    dot.push('.');
    assert(dot@ =~= seq!['.']);
    match rfind_exec(&cs, &dot) {
        Some(k) => {
            proof {
                lemma_rfind_upto(cs@, dot@, cs@.len() - dot@.len());
                assert(rfind_upto(cs@, dot@, cs@.len() - dot@.len()) == Some(k as int));
                assert(crate::text::occurs_at(cs@, dot@, k as int));
            }
            let n = cs.len();
            string_of(&slice_chars(&cs, k + 1, n))
        },
        None => s.to_string(),
    }
}

/// A symbol is called when some call edge targets its ID or its name, or
/// ends in `.name`.
pub open spec fn spec_is_called(s: Symbol, called: Seq<Seq<char>>) -> bool {
    ||| called.contains(s.id@)
    ||| called.contains(s.name@)
    ||| called.map_values(|t: Seq<char>| after_last_dot(t)).contains(s.name@)
}

/// A candidate is an entry point: outside test files and never called.
pub open spec fn is_entrypoint(called: Seq<Seq<char>>) -> spec_fn(Symbol) -> bool {
    |s: Symbol| !spec_is_test_file(s.file_path@) && !spec_is_called(s, called)
}

/// Select the entry points among candidate symbols: those outside test
/// files that no call edge targets, in candidate order, each with its number
/// of outgoing calls.
///
/// `called` are the targets of call edges; `outgoing` maps a symbol ID to its
/// number of outgoing calls (an ID that is absent has none).
pub fn select_entrypoints(
    candidates: &Vec<Symbol>,
    called: &Vec<String>,
    outgoing: &Vec<(String, usize)>,
) -> (r: Vec<(Symbol, usize)>)
    ensures
        r@.len() == candidates@.filter(is_entrypoint(views(called@))).len(),
        forall|i: int|
            0 <= i < r@.len() ==> (#[trigger] r@[i]).0 == candidates@.filter(
                is_entrypoint(views(called@)),
            )[i] && r@[i].1 == table_count(outgoing@, r@[i].0.id@),
{
    let ghost cv = views(called@);
    let mut bare: Vec<String> = Vec::new();
    let mut j: usize = 0;
    while j < called.len()
        invariant
            j <= called.len(),
            cv == views(called@),
            views(bare@) == cv.take(j as int).map_values(|t: Seq<char>| after_last_dot(t)),
        decreases called.len() - j,
    {
        let ghost before = views(bare@);
        bare.push(after_last_dot_exec(called[j].as_str()));
        assert(views(bare@) =~= before.push(after_last_dot(cv[j as int])));
        assert(cv.take(j + 1) =~= cv.take(j as int).push(cv[j as int]));
        assert(cv.take(j + 1).map_values(|t: Seq<char>| after_last_dot(t)) =~= cv.take(
            j as int,
        ).map_values(|t: Seq<char>| after_last_dot(t)).push(after_last_dot(cv[j as int])));
        j = j + 1;
    }
    assert(cv.take(called.len() as int) =~= cv);
    let ghost keep = is_entrypoint(cv);
    let mut out: Vec<(Symbol, usize)> = Vec::new();
    let mut i: usize = 0;
    while i < candidates.len()
        invariant
            i <= candidates.len(),
            cv == views(called@),
            keep == is_entrypoint(cv),
            views(bare@) == cv.map_values(|t: Seq<char>| after_last_dot(t)),
            out@.len() == candidates@.take(i as int).filter(keep).len(),
            forall|q: int|
                0 <= q < out@.len() ==> (#[trigger] out@[q]).0 == candidates@.take(i as int).filter(
                    keep,
                )[q] && out@[q].1 == table_count(outgoing@, out@[q].0.id@),
        decreases candidates.len() - i,
    {
        let sym = &candidates[i];
        proof {
            assert(candidates@.take(i + 1) =~= candidates@.take(i as int).push(candidates@[i as int]));
            lemma_filter_push(candidates@.take(i as int), candidates@[i as int], keep);
        }
        let test = is_test_file(sym.file_path.as_str());
        let is_called = contains_string(called.as_slice(), sym.id.as_str()) || contains_string(
            called.as_slice(),
            sym.name.as_str(),
        ) || contains_string(bare.as_slice(), sym.name.as_str());
        if !test && !is_called {
            let n = table_lookup(outgoing, sym.id.as_str());
            out.push((clone_symbol(sym), n));
        }
        i = i + 1;
    }
    assert(candidates@.take(candidates.len() as int) =~= candidates@);
    out
}

// ---------------------------------------------------------------------------
// Directory statistics
// ---------------------------------------------------------------------------

/// A path with forward slashes and without a leading `src/`.
pub open spec fn under_src(normalized: Seq<char>) -> Seq<char> {
    if starts_with(normalized, "src/"@) {
        normalized.subrange(4, normalized.len() as int)
    } else {
        normalized
    }
}

/// The directory key of a symbol's file: its top-level directory (after a
/// leading `src/`) followed by `/`, or `(root)/` for a file at the top.
pub open spec fn spec_dir_key(file_path: Seq<char>) -> Seq<char> {
    let stripped = under_src(slashes_forward(file_path));
    match crate::text::find_seq(stripped, seq!['/']) {
        Some(k) => stripped.subrange(0, k) + seq!['/'],
        None => "(root)/"@,
    }
}

/// The directory key of a symbol's file.
pub fn dir_key(file_path: &str) -> (r: String)
    ensures
        r@ == spec_dir_key(file_path@),
{
    proof {
        reveal_strlit("src/");
        reveal_strlit("(root)/");
    }
    let normalized = slashes_forward_exec(&chars_of(file_path));
    let stripped = if starts_with_str(&normalized, "src/") {
        slice_chars(&normalized, 4, normalized.len())
    } else {
        normalized
    };
    let mut slash: Vec<char> = Vec::new();
    slash.push('/');
    assert(slash@ =~= seq!['/']);
    match crate::text::find_exec(&stripped, &slash) {
        Some(k) => {
            proof {
                crate::text::lemma_find_from(stripped@, slash@, 0);
            }
            let mut key = slice_chars(&stripped, 0, k);
            key.push('/');
            string_of(&key)
        },
        None => "(root)/".to_string(),
    }
}

/// A path whose directory key is `key`.
pub open spec fn has_dir_key(key: Seq<char>) -> spec_fn(Seq<char>) -> bool {
    |p: Seq<char>| spec_dir_key(p) == key
}

/// A path with forward slashes.
pub open spec fn forward() -> spec_fn(Seq<char>) -> Seq<char> {
    |p: Seq<char>| slashes_forward(p)
}

/// The directory key of a path.
pub open spec fn key_of() -> spec_fn(Seq<char>) -> Seq<char> {
    |p: Seq<char>| spec_dir_key(p)
}

/// The files (with forward slashes) of the given symbol paths whose key is `key`.
pub open spec fn files_in(paths: Seq<Seq<char>>, key: Seq<char>) -> Seq<Seq<char>> {
    paths.filter(has_dir_key(key)).map_values(forward())
}

/// The directory statistics of the symbols' file paths: for each directory
/// key in text order, the number of distinct files and of symbols under it.
pub open spec fn is_directory_stats(paths: Seq<Seq<char>>, r: Seq<(String, usize, usize)>) -> bool {
    &&& r.len() == dir_keys(paths).len()
    &&& forall|i: int|
        0 <= i < r.len() ==> (#[trigger] r[i]).0@ == dir_keys(paths)[i]
            && r[i].1 == add_new(Seq::empty(), files_in(paths, r[i].0@)).len()
            && r[i].2 == paths.filter(has_dir_key(r[i].0@)).len()
}

/// The distinct directory keys of the paths, in text order.
pub open spec fn dir_keys(paths: Seq<Seq<char>>) -> Seq<Seq<char>> {
    sort_stable(add_new(Seq::empty(), paths.map_values(key_of())), text_before())
}

/// The number of distinct files and of symbols whose path has directory key `key`.
fn stats_for(paths: &Vec<String>, key: &str) -> (r: (usize, usize))
    ensures
        r.0 == add_new(Seq::empty(), files_in(views(paths@), key@)).len(),
        r.1 == views(paths@).filter(has_dir_key(key@)).len(),
{
    let ghost pv = views(paths@);
    let mut files: Vec<String> = Vec::new();
    let mut count: usize = 0;
    let mut i: usize = 0;
    assert(pv.take(0).filter(has_dir_key(key@)) =~= Seq::<Seq<char>>::empty()) by {
        reveal(Seq::filter);
    }
    assert(files_in(pv.take(0), key@) =~= Seq::<Seq<char>>::empty());
    while i < paths.len()
        invariant
            i <= paths.len(),
            pv == views(paths@),
            count <= i,
            count == pv.take(i as int).filter(has_dir_key(key@)).len(),
            views(files@) == add_new(Seq::empty(), files_in(pv.take(i as int), key@)),
        decreases paths.len() - i,
    {
        let p = &paths[i];
        let ghost x = pv[i as int];
        proof {
            assert(x == p@);
            assert(pv.take(i + 1) =~= pv.take(i as int).push(x));
            lemma_filter_push(pv.take(i as int), x, has_dir_key(key@));
        }
        let k = dir_key(p.as_str());
        if crate::text::str_eq(k.as_str(), key) {
            count = count + 1;
            let normalized = string_of(&slashes_forward_exec(&chars_of(p.as_str())));
            proof {
                let f = pv.take(i as int).filter(has_dir_key(key@));
                assert(f.push(x).map_values(forward()) =~= f.map_values(forward()).push(slashes_forward(x)));
                assert(files_in(pv.take(i + 1), key@).drop_last() =~= files_in(pv.take(i as int), key@));
            }
            if !contains_string(files.as_slice(), normalized.as_str()) {
                let ghost before = views(files@);
                files.push(normalized);
                assert(views(files@) =~= before.push(slashes_forward(x)));
            }
        }
        i = i + 1;
    }
    assert(pv.take(paths.len() as int) =~= pv);
    (files.len(), count)
}

/// Directory-level statistics of the symbols' file paths.
///
/// Each path is grouped under its top-level directory (after a leading
/// `src/`, or `(root)/` for a file at the top); for each directory, in text
/// order, the number of distinct files and the number of symbols under it.
pub fn directory_stats(paths: &Vec<String>) -> (r: Vec<(String, usize, usize)>)
    ensures
        is_directory_stats(views(paths@), r@),
{
    let ghost pv = views(paths@);
    let ghost ks = pv.map_values(key_of());
    let mut keys: Vec<String> = Vec::new();
    let mut i: usize = 0;
    assert(ks.take(0) =~= Seq::<Seq<char>>::empty());
    while i < paths.len()
        invariant
            i <= paths.len(),
            pv == views(paths@),
            ks == pv.map_values(key_of()),
            views(keys@) == add_new(Seq::empty(), ks.take(i as int)),
        decreases paths.len() - i,
    {
        let k = dir_key(paths[i].as_str());
        proof {
            assert(ks.take(i + 1).drop_last() =~= ks.take(i as int));
            assert(ks.take(i + 1).last() == k@);
        }
        if !contains_string(keys.as_slice(), k.as_str()) {
            let ghost before = views(keys@);
            keys.push(k);
            assert(views(keys@) =~= before.push(ks[i as int]));
        }
        i = i + 1;
    }
    assert(ks.take(paths.len() as int) =~= ks);
    let sorted = sort_texts(keys);
    let mut r: Vec<(String, usize, usize)> = Vec::new();
    let mut j: usize = 0;
    while j < sorted.len()
        invariant
            j <= sorted.len(),
            pv == views(paths@),
            views(sorted@) == dir_keys(pv),
            r.len() == j,
            forall|q: int|
                0 <= q < j ==> (#[trigger] r@[q]).0@ == dir_keys(pv)[q]
                    && r@[q].1 == add_new(Seq::empty(), files_in(pv, r@[q].0@)).len()
                    && r@[q].2 == pv.filter(has_dir_key(r@[q].0@)).len(),
        decreases sorted.len() - j,
    {
        let key = &sorted[j];
        assert(views(sorted@)[j as int] == key@);
        let (files, count) = stats_for(paths, key.as_str());
        r.push((key.clone(), files, count));
        j = j + 1;
    }
    r
}

// ---------------------------------------------------------------------------
// Importance
// ---------------------------------------------------------------------------

/// A symbol's number of callers according to the count tables.
pub open spec fn importance_of(maps: CallerCountMaps, s: Symbol) -> nat {
    spec_resolve_caller_count(maps, s.id@, s.name@)
}

/// The symbols that have callers, in order, each with its number of callers.
pub open spec fn scored(symbols: Seq<Symbol>, maps: CallerCountMaps) -> Seq<(Symbol, usize)>
    decreases symbols.len(),
{
    if symbols.len() == 0 {
        Seq::empty()
    } else {
        let before = scored(symbols.drop_last(), maps);
        let c = importance_of(maps, symbols.last());
        if c > 0 {
            before.push((symbols.last(), c as usize))
        } else {
            before
        }
    }
}

/// More callers first, then by name.
pub open spec fn importance_before() -> spec_fn((Symbol, usize), (Symbol, usize)) -> bool {
    |a: (Symbol, usize), b: (Symbol, usize)|
        a.1 > b.1 || (a.1 == b.1 && text_lt(a.0.name@, b.0.name@))
}

/// The most-called symbols: those with callers, ordered by caller count
/// (highest first) and then by name, cut to `limit`.
pub open spec fn spec_rank_by_importance(symbols: Seq<Symbol>, maps: CallerCountMaps, limit: usize) -> Seq<(Symbol, usize)> {
    let sorted = sort_stable(scored(symbols, maps), importance_before());
    if limit < sorted.len() {
        sorted.take(limit as int)
    } else {
        sorted
    }
}

/// Whether `a` ranks before `b`.
fn importance_before_exec(a: &(Symbol, usize), b: &(Symbol, usize)) -> (r: bool)
    ensures
        r == (importance_before())(*a, *b),
{
    a.1 > b.1 || (a.1 == b.1 && text_lt_exec(a.0.name.as_str(), b.0.name.as_str()))
}

/// Sorts scored symbols stably by importance.
fn sort_by_importance(v: Vec<(Symbol, usize)>) -> (r: Vec<(Symbol, usize)>)
    ensures
        r@ == sort_stable(v@, importance_before()),
{
    let ghost before = importance_before();
    let ghost all = v@;
    let total = v.len();
    let mut rest = v;
    let mut out: Vec<(Symbol, usize)> = Vec::new();
    let mut taken: usize = 0;
    assert(all.take(0) =~= Seq::<(Symbol, usize)>::empty());
    while rest.len() > 0
        invariant
            taken <= total,
            all.len() == total,
            before == importance_before(),
            rest@ == all.skip(taken as int),
            out@ == sort_stable(all.take(taken as int), before),
        decreases rest.len(),
    {
        let x = rest.remove(0);
        let mut p: usize = 0;
        while p < out.len() && !importance_before_exec(&x, &out[p])
            invariant
                p <= out.len(),
                before == importance_before(),
                forall|k: int| 0 <= k < p ==> !before(x, #[trigger] out@[k]),
            decreases out.len() - p,
        {
            p = p + 1;
        }
        proof {
            lemma_first_before(out@, x, before, p as int);
            assert(all.take(taken + 1).drop_last() =~= all.take(taken as int));
            assert(all.take(taken + 1).last() == x);
            assert(rest@ =~= all.skip(taken + 1));
        }
        out.insert(p, x);
        taken = taken + 1;
    }
    assert(all.take(total as int) =~= all);
    out
}

/// The top `limit` symbols by number of callers (counted by exact ID, bare
/// name and member call), highest first and then by name; symbols without
/// callers are left out.
pub fn rank_by_importance(symbols: &Vec<Symbol>, maps: &CallerCountMaps, limit: usize) -> (r: Vec<(Symbol, usize)>)
    requires
        forall|i: int| 0 <= i < symbols@.len() ==> importance_of(*maps, #[trigger] symbols@[i]) <= usize::MAX,
    ensures
        r@ == spec_rank_by_importance(symbols@, *maps, limit),
{
    let mut out: Vec<(Symbol, usize)> = Vec::new();
    let mut i: usize = 0;
    while i < symbols.len()
        invariant
            i <= symbols.len(),
            forall|q: int| 0 <= q < symbols@.len() ==> importance_of(*maps, #[trigger] symbols@[q]) <= usize::MAX,
            out@ == scored(symbols@.take(i as int), *maps),
        decreases symbols.len() - i,
    {
        let sym = &symbols[i];
        proof {
            assert(symbols@.take(i + 1).drop_last() =~= symbols@.take(i as int));
            assert(symbols@.take(i + 1).last() == symbols@[i as int]);
            assert(importance_of(*maps, symbols@[i as int]) <= usize::MAX);
        }
        let c = resolve_caller_count(maps, sym.id.as_str(), sym.name.as_str());
        if c > 0 {
            out.push((clone_symbol(sym), c));
        }
        i = i + 1;
    }
    assert(symbols@.take(symbols.len() as int) =~= symbols@);
    let mut sorted = sort_by_importance(out);
    sorted.truncate(limit);
    sorted
}

/// The importance order is a strict order.
pub proof fn lemma_importance_before_strict()
    ensures
        strict_order(importance_before()),
{
    assert forall|a: (Symbol, usize), b: (Symbol, usize)| #[trigger] (importance_before())(a, b) implies !(
    importance_before())(b, a) by {
        lemma_text_lt_asymmetric(a.0.name@, b.0.name@);
    }
    assert forall|a: (Symbol, usize), b: (Symbol, usize), c: (Symbol, usize)|
        #[trigger] (importance_before())(a, b) && #[trigger] (importance_before())(b, c) implies (
    importance_before())(a, c) by {
        lemma_text_lt_transitive(a.0.name@, b.0.name@, c.0.name@);
    }
}

/// The importance ranking comes out ordered: more callers first, ties by
/// name; and every ranked symbol has at least one caller.
pub proof fn lemma_rank_by_importance_ordered(symbols: Seq<Symbol>, maps: CallerCountMaps, limit: usize)
    requires
        forall|i: int| 0 <= i < symbols.len() ==> importance_of(maps, #[trigger] symbols[i]) <= usize::MAX,
    ensures
        sorted_by(spec_rank_by_importance(symbols, maps, limit), importance_before()),
        spec_rank_by_importance(symbols, maps, limit).len() <= limit,
        forall|i: int|
            0 <= i < spec_rank_by_importance(symbols, maps, limit).len() ==> (#[trigger] spec_rank_by_importance(
                symbols,
                maps,
                limit,
            )[i]).1 > 0,
{
    let sc = scored(symbols, maps);
    let sorted = sort_stable(sc, importance_before());
    lemma_importance_before_strict();
    lemma_sort_stable_sorted(sc, importance_before());
    lemma_sort_stable_permutation(sc, importance_before());
    lemma_scored_positive(symbols, maps);
    assert forall|i: int| 0 <= i < sorted.len() implies (#[trigger] sorted[i]).1 > 0 by {
        sorted.to_multiset_ensures();
        sc.to_multiset_ensures();
        assert(sorted.to_multiset().count(sorted[i]) > 0);
        assert(sc.contains(sorted[i]));
    }
}

/// Every scored symbol has at least one caller.
proof fn lemma_scored_positive(symbols: Seq<Symbol>, maps: CallerCountMaps)
    requires
        forall|i: int| 0 <= i < symbols.len() ==> importance_of(maps, #[trigger] symbols[i]) <= usize::MAX,
    ensures
        forall|i: int| 0 <= i < scored(symbols, maps).len() ==> (#[trigger] scored(symbols, maps)[i]).1 > 0,
    decreases symbols.len(),
{
    if symbols.len() > 0 {
        assert forall|i: int| 0 <= i < symbols.drop_last().len() implies importance_of(
            maps,
            #[trigger] symbols.drop_last()[i],
        ) <= usize::MAX by {
            assert(symbols.drop_last()[i] == symbols[i]);
        }
        lemma_scored_positive(symbols.drop_last(), maps);
        let prev = scored(symbols.drop_last(), maps);
        let c = importance_of(maps, symbols.last());
        assert(c <= usize::MAX);
        assert forall|i: int| 0 <= i < scored(symbols, maps).len() implies (#[trigger] scored(symbols, maps)[i]).1 > 0 by {
            if i < prev.len() {
                assert(scored(symbols, maps)[i] == prev[i]);
            } else {
                assert(scored(symbols, maps)[i] == (symbols.last(), c as usize));
            }
        }
    }
}

// ---------------------------------------------------------------------------
// Related names
// ---------------------------------------------------------------------------

/// The most names kept per symbol in the search text.
pub const MAX_RELATED_NAMES: usize = 10;

/// The symbol ID of a `(symbol_id, name)` row.
pub open spec fn row_symbol() -> spec_fn((String, String)) -> Seq<char> {
    |r: (String, String)| r.0@
}

/// The name of a `(symbol_id, name)` row.
pub open spec fn row_related() -> spec_fn((String, String)) -> Seq<char> {
    |r: (String, String)| r.1@
}

/// A row about symbol `id`.
pub open spec fn about(id: Seq<char>) -> spec_fn((String, String)) -> bool {
    |r: (String, String)| r.0@ == id
}

/// The distinct names related to symbol `id`, in row order, at most
/// `MAX_RELATED_NAMES` of them.
pub open spec fn related_names_of(rows: Seq<(String, String)>, id: Seq<char>) -> Seq<Seq<char>> {
    let names = add_new(Seq::empty(), rows.filter(about(id)).map_values(row_related()));
    if names.len() > MAX_RELATED_NAMES {
        names.take(MAX_RELATED_NAMES as int)
    } else {
        names
    }
}

/// The symbols that rows are about, each once, in order of first row.
pub open spec fn related_symbols(rows: Seq<(String, String)>) -> Seq<Seq<char>> {
    add_new(Seq::empty(), rows.map_values(row_symbol()))
}

/// The distinct names related to symbol `id`, at most `MAX_RELATED_NAMES`.
fn related_names_for(rows: &Vec<(String, String)>, id: &str) -> (r: Vec<String>)
    ensures
        views(r@) == related_names_of(rows@, id@),
{
    let mut names: Vec<String> = Vec::new();
    let mut i: usize = 0;
    assert(rows@.take(0).filter(about(id@)) =~= Seq::<(String, String)>::empty()) by {
        reveal(Seq::filter);
    }
    assert(rows@.take(0).filter(about(id@)).map_values(row_related()) =~= Seq::<Seq<char>>::empty());
    while i < rows.len()
        invariant
            i <= rows.len(),
            views(names@) == add_new(Seq::empty(), rows@.take(i as int).filter(about(id@)).map_values(row_related())),
        decreases rows.len() - i,
    {
        let row = &rows[i];
        let ghost x = rows@[i as int];
        proof {
            assert(rows@.take(i + 1) =~= rows@.take(i as int).push(x));
            lemma_filter_push(rows@.take(i as int), x, about(id@));
        }
        if crate::text::str_eq(row.0.as_str(), id) {
            proof {
                let f = rows@.take(i as int).filter(about(id@));
                assert(f.push(x).map_values(row_related()) =~= f.map_values(row_related()).push(x.1@));
                assert(rows@.take(i + 1).filter(about(id@)).map_values(row_related()).drop_last()
                    =~= f.map_values(row_related()));
            }
            if !contains_string(names.as_slice(), row.1.as_str()) {
                let ghost before = views(names@);
                names.push(row.1.clone());
                assert(views(names@) =~= before.push(x.1@));
            }
        }
        i = i + 1;
    }
    assert(rows@.take(rows.len() as int) =~= rows@);
    let ghost all = views(names@);
    names.truncate(MAX_RELATED_NAMES);
    assert(views(names@) =~= if all.len() > MAX_RELATED_NAMES {
        all.take(MAX_RELATED_NAMES as int)
    } else {
        all
    });
    names
}

/// Group `(symbol_id, name)` rows by symbol: for each symbol, in order of
/// its first row, the distinct names related to it in row order, at most
/// `MAX_RELATED_NAMES`. Used for the callers and the callees that enrich a
/// symbol's search text.
pub fn group_related_names(rows: &Vec<(String, String)>) -> (r: Vec<(String, Vec<String>)>)
    ensures
        r@.len() == related_symbols(rows@).len(),
        forall|i: int|
            0 <= i < r@.len() ==> (#[trigger] r@[i]).0@ == related_symbols(rows@)[i] && views(r@[i].1@)
                == related_names_of(rows@, r@[i].0@),
{
    let ghost ids = rows@.map_values(row_symbol());
    let mut syms: Vec<String> = Vec::new();
    let mut i: usize = 0;
    assert(ids.take(0) =~= Seq::<Seq<char>>::empty());
    while i < rows.len()
        invariant
            i <= rows.len(),
            ids == rows@.map_values(row_symbol()),
            views(syms@) == add_new(Seq::empty(), ids.take(i as int)),
        decreases rows.len() - i,
    {
        let id = &rows[i].0;
        proof {
            assert(ids.take(i + 1).drop_last() =~= ids.take(i as int));
            assert(ids.take(i + 1).last() == id@);
        }
        if !contains_string(syms.as_slice(), id.as_str()) {
            let ghost before = views(syms@);
            syms.push(id.clone());
            assert(views(syms@) =~= before.push(id@));
        }
        i = i + 1;
    }
    assert(ids.take(rows.len() as int) =~= ids);
    let mut r: Vec<(String, Vec<String>)> = Vec::new();
    let mut j: usize = 0;
    while j < syms.len()
        invariant
            j <= syms.len(),
            views(syms@) == related_symbols(rows@),
            r@.len() == j,
            forall|q: int|
                0 <= q < j ==> (#[trigger] r@[q]).0@ == related_symbols(rows@)[q] && views(r@[q].1@)
                    == related_names_of(rows@, r@[q].0@),
        decreases syms.len() - j,
    {
        let id = &syms[j];
        assert(views(syms@)[j as int] == id@);
        let names = related_names_for(rows, id.as_str());
        r.push((id.clone(), names));
        j = j + 1;
    }
    r
}

// ---------------------------------------------------------------------------
// Caller-count tables
// ---------------------------------------------------------------------------

/// The count of the last row whose target is `key`, or 0.
pub open spec fn last_count(rows: Seq<(String, usize)>, key: Seq<char>) -> nat
    decreases rows.len(),
{
    if rows.len() == 0 {
        0
    } else if rows.last().0@ == key {
        rows.last().1 as nat
    } else {
        last_count(rows.drop_last(), key)
    }
}

/// The counts of the rows whose target has a `.` and ends in `.key`, added up.
pub open spec fn suffix_total(rows: Seq<(String, usize)>, key: Seq<char>) -> nat
    decreases rows.len(),
{
    if rows.len() == 0 {
        0
    } else {
        let t = rows.last().0@;
        suffix_total(rows.drop_last(), key) + if after_last_dot(t) != t && after_last_dot(t) == key {
            rows.last().1 as nat
        } else {
            0
        }
    }
}

/// Replacing the first entry for a key changes only that key's count.
proof fn lemma_table_update(m: Seq<(String, usize)>, j: int, e: (String, usize), k: Seq<char>)
    requires
        0 <= j < m.len(),
        m[j].0@ == e.0@,
        forall|q: int| 0 <= q < j ==> m[q].0@ != e.0@,
    ensures
        table_count(m.update(j, e), k) == if k == e.0@ {
            e.1 as nat
        } else {
            table_count(m, k)
        },
    decreases j,
{
    let u = m.update(j, e);
    if j == 0 {
        assert(u.skip(1) =~= m.skip(1));
    } else {
        assert(u.skip(1) =~= m.skip(1).update(j - 1, e));
        assert(u[0] == m[0]);
        lemma_table_update(m.skip(1), j - 1, e, k);
    }
}

/// Appending an entry for a new key changes only that key's count.
proof fn lemma_table_push(m: Seq<(String, usize)>, e: (String, usize), k: Seq<char>)
    requires
        forall|q: int| 0 <= q < m.len() ==> m[q].0@ != e.0@,
    ensures
        table_count(m.push(e), k) == if k == e.0@ {
            e.1 as nat
        } else {
            table_count(m, k)
        },
    decreases m.len(),
{
    let p = m.push(e);
    if m.len() == 0 {
        assert(p.skip(1) =~= Seq::<(String, usize)>::empty());
        assert(table_count(p.skip(1), k) == 0);
    } else {
        assert(p.skip(1) =~= m.skip(1).push(e));
        assert(p[0] == m[0]);
        lemma_table_push(m.skip(1), e, k);
    }
}

/// A key without an entry counts 0.
proof fn lemma_table_absent(m: Seq<(String, usize)>, k: Seq<char>)
    requires
        forall|q: int| 0 <= q < m.len() ==> m[q].0@ != k,
    ensures
        table_count(m, k) == 0,
    decreases m.len(),
{
    if m.len() > 0 {
        lemma_table_absent(m.skip(1), k);
    }
}

/// The index of the first entry for `key`, if any.
fn table_position(m: &Vec<(String, usize)>, key: &str) -> (r: Option<usize>)
    ensures
        match r {
            Some(j) => j < m@.len() && m@[j as int].0@ == key@ && forall|q: int| 0 <= q < j ==> m@[q].0@ != key@,
            None => forall|q: int| 0 <= q < m@.len() ==> m@[q].0@ != key@,
        },
{
    let mut j: usize = 0;
    while j < m.len()
        invariant
            j <= m@.len(),
            forall|q: int| 0 <= q < j ==> m@[q].0@ != key@,
        decreases m.len() - j,
    {
        if crate::text::str_eq(m[j].0.as_str(), key) {
            return Some(j);
        }
        j = j + 1;
    }
    None
}

/// Sets the count of `key`.
fn table_set(m: &mut Vec<(String, usize)>, key: &str, v: usize)
    ensures
        forall|k: Seq<char>| table_count(final(m)@, k) == if k == key@ {
            v as nat
        } else {
            table_count(old(m)@, k)
        },
{
    let e = (key.to_string(), v);
    match table_position(m, key) {
        Some(j) => {
            let ghost before = m@;
            m[j] = e;
            proof {
                assert(m@ == before.update(j as int, e));
                assert forall|k: Seq<char>| table_count(m@, k) == if k == key@ {
                    v as nat
                } else {
                    table_count(before, k)
                } by {
                    lemma_table_update(before, j as int, e, k);
                }
            }
        },
        None => {
            let ghost before = m@;
            m.push(e);
            proof {
                assert forall|k: Seq<char>| table_count(m@, k) == if k == key@ {
                    v as nat
                } else {
                    table_count(before, k)
                } by {
                    lemma_table_push(before, e, k);
                }
            }
        },
    }
}

/// Adds `v` to the count of `key`.
fn table_add(m: &mut Vec<(String, usize)>, key: &str, v: usize)
    requires
        table_count(old(m)@, key@) + v <= usize::MAX,
    ensures
        forall|k: Seq<char>| table_count(final(m)@, k) == if k == key@ {
            table_count(old(m)@, k) + v
        } else {
            table_count(old(m)@, k) as int
        },
{
    let old_count = match table_position(m, key) {
        Some(j) => {
            proof {
                assert(m@.update(j as int, m@[j as int]) =~= m@);
                lemma_table_update(m@, j as int, m@[j as int], key@);
            }
            m[j].1
        },
        None => {
            proof {
                lemma_table_absent(m@, key@);
            }
            0
        },
    };
    table_set(m, key, old_count + v);
}

/// The caller-count tables built from `(target, count)` rows of call edges:
/// `by_id` holds each target's count; `by_suffix` holds, for each name, the
/// added counts of the targets that have a `.` and end in `.name`.
pub fn caller_count_maps(rows: &Vec<(String, usize)>) -> (r: CallerCountMaps)
    requires
        forall|k: Seq<char>| suffix_total(rows@, k) <= usize::MAX,
    ensures
        forall|k: Seq<char>| table_count(r.by_id@, k) == last_count(rows@, k),
        forall|k: Seq<char>| table_count(r.by_suffix@, k) == suffix_total(rows@, k),
{
    let mut by_id: Vec<(String, usize)> = Vec::new();
    let mut by_suffix: Vec<(String, usize)> = Vec::new();
    let mut i: usize = 0;
    while i < rows.len()
        invariant
            i <= rows.len(),
            forall|k: Seq<char>| suffix_total(rows@, k) <= usize::MAX,
            forall|k: Seq<char>| table_count(by_id@, k) == last_count(rows@.take(i as int), k),
            forall|k: Seq<char>| table_count(by_suffix@, k) == suffix_total(rows@.take(i as int), k),
        decreases rows.len() - i,
    {
        let (to_id, count) = (&rows[i].0, rows[i].1);
        proof {
            assert(rows@.take(i + 1).drop_last() =~= rows@.take(i as int));
            assert(rows@.take(i + 1).last() == rows@[i as int]);
        }
        let bare = after_last_dot_exec(to_id.as_str());
        if !crate::text::str_eq(bare.as_str(), to_id.as_str()) {
            proof {
                lemma_suffix_total_prefix(rows@, bare@, i + 1);
            }
            table_add(&mut by_suffix, bare.as_str(), count);
        }
        table_set(&mut by_id, to_id.as_str(), count);
        i = i + 1;
    }
    assert(rows@.take(rows.len() as int) =~= rows@);
    CallerCountMaps { by_id, by_suffix }
}

/// A suffix total over a prefix is at most the one over all rows.
proof fn lemma_suffix_total_prefix(rows: Seq<(String, usize)>, k: Seq<char>, n: int)
    requires
        0 <= n <= rows.len(),
    ensures
        suffix_total(rows.take(n), k) <= suffix_total(rows, k),
    decreases rows.len(),
{
    if n < rows.len() {
        assert(rows.drop_last().take(n) =~= rows.take(n));
        lemma_suffix_total_prefix(rows.drop_last(), k, n);
    } else {
        assert(rows.take(n) =~= rows);
    }
}

// ---------------------------------------------------------------------------
// Class relationships
// ---------------------------------------------------------------------------

/// The module-level ID that class edges of a file may start from:
/// `file::__module__::class`, with the file taken from the class ID.
pub open spec fn spec_class_module_id(class_id: Seq<char>) -> Seq<char> {
    crate::text::split_seq(class_id, "::"@)[0] + "::__module__::class"@
}

/// The module-level ID that class edges of the class's file may start from.
pub fn class_module_id(class_id: &str) -> (r: String)
    ensures
        r@ == spec_class_module_id(class_id@),
{
    proof {
        reveal_strlit("::");
        crate::text::lemma_split_nonempty(class_id@, "::"@);
    }
    let parts = crate::text::split_str(&chars_of(class_id), "::");
    assert(crate::text::char_views(parts@)[0] == parts@[0]@);
    let mut id = crate::text::copy_chars(&parts[0]);
    extend_str(&mut id, "::__module__::class");
    string_of(&id)
}

/// The name shown for an edge target `(to_id, indexed name)`.
pub open spec fn target_name() -> spec_fn((String, Option<String>)) -> Seq<char> {
    |t: (String, Option<String>)| crate::engine::graph::spec_symbol_name_from_id(t.1, t.0@)
}

/// The names of edge targets, in order.
fn target_names(targets: &Vec<(String, Option<String>)>) -> (r: Vec<String>)
    ensures
        views(r@) == targets@.map_values(target_name()),
{
    let mut r: Vec<String> = Vec::new();
    let mut i: usize = 0;
    while i < targets.len()
        invariant
            i <= targets.len(),
            views(r@) == targets@.take(i as int).map_values(target_name()),
        decreases targets.len() - i,
    {
        let t = &targets[i];
        let indexed = crate::text::clone_opt_string(&t.1);
        let ghost before = views(r@);
        r.push(crate::engine::graph::symbol_name_from_id(indexed, t.0.as_str()));
        assert(views(r@) =~= before.push((target_name())(targets@[i as int])));
        assert(targets@.take(i + 1).map_values(target_name()) =~= targets@.take(i as int).map_values(
            target_name(),
        ).push((target_name())(targets@[i as int])));
        i = i + 1;
    }
    assert(targets@.take(targets.len() as int) =~= targets@);
    r
}

/// The relationships of a class from the targets of its edges, each given
/// as `(to_id, name of the indexed symbol with that ID)`: the names of what
/// it extends and implements, in edge order, and the distinct names of what
/// it otherwise depends on, in edge order.
pub fn class_relationships(
    extends: &Vec<(String, Option<String>)>,
    implements: &Vec<(String, Option<String>)>,
    dependencies: &Vec<(String, Option<String>)>,
) -> (r: crate::engine::graph::ClassRelationships)
    ensures
        views(r.extends@) == extends@.map_values(target_name()),
        views(r.implements@) == implements@.map_values(target_name()),
        views(r.dependencies@) == add_new(Seq::empty(), dependencies@.map_values(target_name())),
{
    let ext = target_names(extends);
    let imp = target_names(implements);
    let all = target_names(dependencies);
    let mut deps: Vec<String> = Vec::new();
    let mut i: usize = 0;
    assert(views(all@).take(0) =~= Seq::<Seq<char>>::empty());
    while i < all.len()
        invariant
            i <= all.len(),
            views(deps@) == add_new(Seq::empty(), views(all@).take(i as int)),
        decreases all.len() - i,
    {
        let n = &all[i];
        proof {
            assert(views(all@).take(i + 1).drop_last() =~= views(all@).take(i as int));
            assert(views(all@).take(i + 1).last() == n@);
        }
        if !contains_string(deps.as_slice(), n.as_str()) {
            let ghost before = views(deps@);
            deps.push(n.clone());
            assert(views(deps@) =~= before.push(n@));
        }
        i = i + 1;
    }
    assert(views(all@).take(all.len() as int) =~= views(all@));
    crate::engine::graph::ClassRelationships { extends: ext, implements: imp, dependencies: deps }
}

} // verus!

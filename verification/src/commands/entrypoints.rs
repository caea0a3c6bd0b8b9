//! `scope entrypoints` — list entry points in the codebase.
//!
//! Entry points are symbols with no incoming call edges. The graph finds
//! them; this module folds the methods of entry-point classes into their
//! class, and groups what remains by the kind of file it lives in: API
//! controllers, background workers, event handlers, and other.
use vstd::prelude::*;
use crate::engine::graph::{table_count, table_lookup, Symbol};
use crate::text::{chars_of, contains_seq, contains_str, lowercase_of, to_lowercase_str, views};

verus! {

/// Arguments for the `scope entrypoints` command.
#[derive(Debug, Clone)]
pub struct EntrypointsArgs {
    /// Output as JSON instead of human-readable format.
    pub json: bool,
}

/// Information about an entry point for display and JSON output.
#[derive(Debug, Clone)]
pub struct EntrypointInfo {
    /// Symbol name.
    pub name: String,
    /// File path relative to project root.
    pub file_path: String,
    /// Number of child methods (for class-level entries).
    pub method_count: usize,
    /// Number of outgoing call edges (fan-out).
    pub outgoing_call_count: usize,
    /// Symbol kind (function, class, method).
    pub kind: String,
}

/// The group of an entry point, by words in its lowercase file path.
pub open spec fn spec_classify_group(file_path: Seq<char>) -> Seq<char> {
    let lower = lowercase_of(file_path);
    if contains_seq(lower, "controller"@) {
        "API Controllers"@
    } else if contains_seq(lower, "worker"@) || contains_seq(lower, "job"@) {
        "Background Workers"@
    } else if contains_seq(lower, "handler"@) || contains_seq(lower, "listener"@) {
        "Event Handlers"@
    } else {
        "Other"@
    }
}

/// How entry points are grouped, by words in the lowercase file path
/// (case does not matter): a path naming a controller is an API
/// controller; else one naming a worker or a job is a background worker;
/// else one naming a handler or a listener (such as
/// `src/handlers/OrderCreatedHandler.ts`) is an event handler; and only a
/// path naming none of these is "Other". Every entry point lands in one of
/// the reported groups.
pub proof fn lemma_classify_group_by_path_words(file_path: Seq<char>)
    ensures
        ({
            let lower = lowercase_of(file_path);
            let controller = contains_seq(lower, "controller"@);
            let worker = contains_seq(lower, "worker"@) || contains_seq(lower, "job"@);
            let handler = contains_seq(lower, "handler"@) || contains_seq(lower, "listener"@);
            &&& controller ==> spec_classify_group(file_path) == "API Controllers"@
            &&& !controller && worker ==> spec_classify_group(file_path) == "Background Workers"@
            &&& !controller && !worker && contains_seq(lower, "handler"@) ==> spec_classify_group(file_path)
                == "Event Handlers"@
            &&& !controller && !worker && contains_seq(lower, "listener"@) ==> spec_classify_group(file_path)
                == "Event Handlers"@
            &&& spec_classify_group(file_path) == "Other"@ <==> !controller && !worker && !handler
        }),
        group_order().contains(spec_classify_group(file_path)),
{
    reveal_strlit("API Controllers");
    reveal_strlit("Background Workers");
    reveal_strlit("Event Handlers");
    reveal_strlit("Other");
    assert("Other"@.len() == 5 && "API Controllers"@.len() == 15 && "Background Workers"@.len() == 18);
    assert("Event Handlers"@.len() == 14);
    let g = spec_classify_group(file_path);
    let o = group_order();
    if g == "API Controllers"@ {
        assert(o[0] == g);
    } else if g == "Background Workers"@ {
        assert(o[1] == g);
    } else if g == "Event Handlers"@ {
        assert(o[2] == g);
    } else {
        assert(o[3] == g);
    }
}

/// Classify an entry point into a group based on its file path.
pub fn classify_group(file_path: &str) -> (r: &'static str)
    ensures
        r@ == spec_classify_group(file_path@),
{
    let lowered = to_lowercase_str(file_path);
    let lower = chars_of(lowered.as_str());
    if contains_str(&lower, "controller") {
        "API Controllers"
    } else if contains_str(&lower, "worker") || contains_str(&lower, "job") {
        "Background Workers"
    } else if contains_str(&lower, "handler") || contains_str(&lower, "listener") {
        "Event Handlers"
    } else {
        "Other"
    }
}

/// The groups in the order they are reported.
pub open spec fn group_order() -> Seq<Seq<char>> {
    seq!["API Controllers"@, "Background Workers"@, "Event Handlers"@, "Other"@]
}

/// The ids of the class entries among the raw entry points.
pub open spec fn class_ids(raw: Seq<(Symbol, usize)>) -> Set<Seq<char>> {
    Set::new(|id: Seq<char>| exists|i: int| 0 <= i < raw.len() && #[trigger] raw[i].0.kind@ == "class"@ && raw[i].0.id@ == id)
}

/// An entry is reported on its own: it is not a method of a class that is
/// itself an entry point.
pub open spec fn reported_alone(e: (Symbol, usize), classes: Set<Seq<char>>) -> bool {
    !(e.0.parent_id is Some && classes.contains(e.0.parent_id.unwrap()@))
}

/// The reported record of an entry point; `method_counts` gives the number
/// of methods of each class entry, by class id.
pub open spec fn info_of(e: (Symbol, usize), method_counts: Seq<(String, usize)>) -> EntrypointInfo {
    EntrypointInfo {
        name: e.0.name,
        file_path: e.0.file_path,
        method_count: table_count(method_counts, e.0.id@) as usize,
        outgoing_call_count: e.1,
        kind: e.0.kind,
    }
}

/// The entry points reported, in the order the graph returned them.
pub open spec fn collapsed(raw: Seq<(Symbol, usize)>, method_counts: Seq<(String, usize)>) -> Seq<EntrypointInfo> {
    raw.filter(|e: (Symbol, usize)| reported_alone(e, class_ids(raw))).map_values(
        |e: (Symbol, usize)| info_of(e, method_counts),
    )
}

/// The members of one group, in order.
pub open spec fn group_members(infos: Seq<EntrypointInfo>, g: Seq<char>) -> Seq<EntrypointInfo> {
    infos.filter(|e: EntrypointInfo| spec_classify_group(e.file_path@) == g)
}

/// The non-empty groups, in reporting order, each with its members.
pub open spec fn grouped(infos: Seq<EntrypointInfo>) -> Seq<(Seq<char>, Seq<EntrypointInfo>)> {
    group_order().filter(|g: Seq<char>| group_members(infos, g).len() > 0).map_values(
        |g: Seq<char>| (g, group_members(infos, g)),
    )
}

/// The view of a list of groups.
pub open spec fn groups_view(gs: Seq<(String, Vec<EntrypointInfo>)>) -> Seq<(Seq<char>, Seq<EntrypointInfo>)> {
    gs.map_values(|g: (String, Vec<EntrypointInfo>)| (g.0@, g.1@))
}

/// The number of distinct file paths among the reported entry points.
pub open spec fn distinct_files(infos: Seq<EntrypointInfo>) -> nat {
    infos.map_values(|e: EntrypointInfo| e.file_path@).to_set().len()
}

/// A copy of an entry point record.
fn clone_info(e: &EntrypointInfo) -> (c: EntrypointInfo)
    ensures
        c == *e,
{
    EntrypointInfo {
        name: e.name.clone(),
        file_path: e.file_path.clone(),
        method_count: e.method_count,
        outgoing_call_count: e.outgoing_call_count,
        kind: e.kind.clone(),
    }
}

/// `id` is the id of one of the class entries.
fn is_class_id(raw: &[(Symbol, usize)], id: &String) -> (r: bool)
    ensures
        r == class_ids(raw@).contains(id@),
{
    let mut i: usize = 0;
    while i < raw.len()
        invariant
            i <= raw.len(),
            forall|j: int| 0 <= j < i ==> !(#[trigger] raw@[j].0.kind@ == "class"@ && raw@[j].0.id@ == id@),
        decreases raw.len() - i,
    {
        if crate::text::str_eq(raw[i].0.kind.as_str(), "class") && raw[i].0.id == *id {
            assert(raw@[i as int].0.kind@ == "class"@ && raw@[i as int].0.id@ == id@);
            return true;
        }
        i = i + 1;
    }
    false
}

/// The reported entry points.
fn collapse(raw: &[(Symbol, usize)], method_counts: &Vec<(String, usize)>) -> (r: Vec<EntrypointInfo>)
    ensures
        r@ == collapsed(raw@, method_counts@),
{
    let ghost classes = class_ids(raw@);
    let ghost keep = |e: (Symbol, usize)| reported_alone(e, classes);
    let ghost info = |e: (Symbol, usize)| info_of(e, method_counts@);
    let mut out: Vec<EntrypointInfo> = Vec::new();
    let mut i: usize = 0;
    while i < raw.len()
        invariant
            i <= raw.len(),
            classes == class_ids(raw@),
            keep == (|e: (Symbol, usize)| reported_alone(e, classes)),
            info == (|e: (Symbol, usize)| info_of(e, method_counts@)),
            out@ == raw@.take(i as int).filter(keep).map_values(info),
        decreases raw.len() - i,
    {
        let e = &raw[i];
        proof {
            assert(raw@.take(i + 1) =~= raw@.take(i as int).push(*e));
            crate::text::lemma_filter_push(raw@.take(i as int), *e, keep);
        }
        let skip = match &e.0.parent_id {
            Some(p) => is_class_id(raw, p),
            None => false,
        };
        if !skip {
            let count = table_lookup(method_counts, e.0.id.as_str());
            let ghost before = out@;
            out.push(
                EntrypointInfo {
                    name: e.0.name.clone(),
                    file_path: e.0.file_path.clone(),
                    method_count: count,
                    outgoing_call_count: e.1,
                    kind: e.0.kind.clone(),
                },
            );
            proof {
                let f = raw@.take(i as int).filter(keep);
                assert(f.push(*e).map_values(info) =~= f.map_values(info).push(info(*e)));
            }
        }
        i = i + 1;
    }
    assert(raw@.take(raw@.len() as int) =~= raw@);
    out
}

/// The members of group `g`.
fn members_of(infos: &Vec<EntrypointInfo>, g: &str) -> (r: Vec<EntrypointInfo>)
    ensures
        r@ == group_members(infos@, g@),
{
    let ghost f = |e: EntrypointInfo| spec_classify_group(e.file_path@) == g@;
    let mut out: Vec<EntrypointInfo> = Vec::new();
    let mut i: usize = 0;
    while i < infos.len()
        invariant
            i <= infos.len(),
            f == (|e: EntrypointInfo| spec_classify_group(e.file_path@) == g@),
            out@ == infos@.take(i as int).filter(f),
        decreases infos.len() - i,
    {
        let e = &infos[i];
        proof {
            assert(infos@.take(i + 1) =~= infos@.take(i as int).push(*e));
            crate::text::lemma_filter_push(infos@.take(i as int), *e, f);
        }
        let c = classify_group(e.file_path.as_str());
        if crate::text::str_eq(c, g) {
            out.push(clone_info(e));
        }
        i = i + 1;
    }
    assert(infos@.take(infos@.len() as int) =~= infos@);
    out
}

/// The number of distinct file paths among the entry points.
fn count_files(infos: &Vec<EntrypointInfo>) -> (r: usize)
    ensures
        r == distinct_files(infos@),
{
    let ghost paths = infos@.map_values(|e: EntrypointInfo| e.file_path@);
    let mut seen: Vec<String> = Vec::new();
    let mut i: usize = 0;
    while i < infos.len()
        invariant
            i <= infos.len(),
            paths == infos@.map_values(|e: EntrypointInfo| e.file_path@),
            views(seen@).no_duplicates(),
            views(seen@).to_set() == paths.take(i as int).to_set(),
            seen@.len() <= i,
        decreases infos.len() - i,
    {
        let p = &infos[i].file_path;
        let mut found = false;
        let mut j: usize = 0;
        while j < seen.len()
            invariant
                j <= seen.len(),
                !found ==> forall|k: int| 0 <= k < j ==> views(seen@)[k] != p@,
                found ==> views(seen@).contains(p@),
            decreases seen.len() - j,
        {
            if seen[j] == *p {
                assert(views(seen@)[j as int] == p@);
                found = true;
            }
            j = j + 1;
        }
        proof {
            assert(paths.take(i + 1) =~= paths.take(i as int).push(p@));
            paths.take(i as int).lemma_push_to_set_commute(p@);
        }
        if !found {
            let ghost before = views(seen@);
            seen.push(p.clone());
            proof {
                assert(views(seen@) =~= before.push(p@));
                before.lemma_push_to_set_commute(p@);
                assert(views(seen@).no_duplicates()) by {
                    assert forall|a: int, b: int|
                        0 <= a < b < views(seen@).len() implies views(seen@)[a] != views(seen@)[b] by {
                        if b == before.len() {
                            assert(views(seen@)[a] == before[a]);
                        }
                    }
                }
            }
        } else {
            proof {
                assert(views(seen@).to_set().insert(p@) =~= views(seen@).to_set());
            }
        }
        i = i + 1;
    }
    proof {
        assert(paths.take(infos@.len() as int) =~= paths);
        views(seen@).unique_seq_to_set();
    }
    seen.len()
}

/// Collapse and group raw entrypoints into classified groups.
///
/// Collapses class-level entries (each class carries the count of its
/// methods from `method_counts`, keyed by class id, and methods of
/// entry-point classes are not listed on their own), then groups by
/// classification (API Controllers, Background Workers, Event Handlers,
/// Other), leaving out empty groups.
///
/// Returns `(groups, total_count, file_count)`.
pub fn collapse_and_group(
    raw_entrypoints: &[(Symbol, usize)],
    method_counts: &Vec<(String, usize)>,
) -> (r: (Vec<(String, Vec<EntrypointInfo>)>, usize, usize))
    ensures
        groups_view(r.0@) == grouped(collapsed(raw_entrypoints@, method_counts@)),
        r.1 == collapsed(raw_entrypoints@, method_counts@).len(),
        r.2 == distinct_files(collapsed(raw_entrypoints@, method_counts@)),
{
    let infos = collapse(raw_entrypoints, method_counts);
    let file_count = count_files(&infos);
    let total = infos.len();
    let names: [&str; 4] = ["API Controllers", "Background Workers", "Event Handlers", "Other"];
    let ghost order = group_order();
    let ghost nonempty = |g: Seq<char>| group_members(infos@, g).len() > 0;
    let ghost entry = |g: Seq<char>| (g, group_members(infos@, g));
    let mut groups: Vec<(String, Vec<EntrypointInfo>)> = Vec::new();
    let mut k: usize = 0;
    assert(names@.len() == 4);
    assert(forall|j: int| 0 <= j < 4 ==> #[trigger] names@[j]@ == order[j]);
    while k < 4
        invariant
            k <= 4,
            names@.len() == 4,
            order == group_order(),
            forall|j: int| 0 <= j < 4 ==> #[trigger] names@[j]@ == order[j],
            nonempty == (|g: Seq<char>| group_members(infos@, g).len() > 0),
            entry == (|g: Seq<char>| (g, group_members(infos@, g))),
            groups_view(groups@) == order.take(k as int).filter(nonempty).map_values(entry),
        decreases 4 - k,
    {
        let name = names[k];
        let members = members_of(&infos, name);
        proof {
            assert(order.take(k + 1) =~= order.take(k as int).push(name@));
            crate::text::lemma_filter_push(order.take(k as int), name@, nonempty);
        }
        if members.len() > 0 {
            let ghost before = groups@;
            groups.push((name.to_string(), members));
            proof {
                let f = order.take(k as int).filter(nonempty);
                assert(f.push(name@).map_values(entry) =~= f.map_values(entry).push(entry(name@)));
                assert(groups_view(groups@) =~= groups_view(before).push(entry(name@)));
            }
        }
        k = k + 1;
    }
    assert(order.take(4) =~= order);
    (groups, total, file_count)
}

} // verus!

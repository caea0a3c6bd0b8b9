//! Planning a benchmark run: which conditions run, the order of the runs,
//! what each run's files are called, and which runs a resumed benchmark
//! still has to do.
use vstd::prelude::*;
use crate::bench::cli::{PrepareArgs, RunArgs};
use crate::num::{decimal, is_digit, lemma_decimal_digits, lemma_decimal_injective, u64_text};
use crate::path::{join_relative, join_relative_exec};
use crate::text::{chars_of, extend_chars, extend_str, string_of, views};

verus! {

/// The conditions of a benchmark, each with whether Scope is enabled:
/// four with `count >= 4` (adding MCP), three with `count >= 3` (adding a
/// preloaded map), both with and without Scope for a comparison (or
/// `count == 2`), only without Scope when asked, and otherwise only with it.
pub open spec fn conditions_for(count: u32, compare: bool, no_scope: bool) -> Seq<(Seq<char>, bool)> {
    if count >= 4 {
        seq![("without-scope"@, false), ("with-scope"@, true), ("with-scope-preloaded"@, true), ("with-mcp"@, true)]
    } else if count >= 3 {
        seq![("without-scope"@, false), ("with-scope"@, true), ("with-scope-preloaded"@, true)]
    } else if compare || count == 2 {
        seq![("with-scope"@, true), ("without-scope"@, false)]
    } else if no_scope {
        seq![("without-scope"@, false)]
    } else {
        seq![("with-scope"@, true)]
    }
}

/// The view of a list of conditions.
pub open spec fn conditions_view(c: Seq<(String, bool)>) -> Seq<(Seq<char>, bool)> {
    c.map_values(|p: (String, bool)| (p.0@, p.1))
}

/// A list of conditions.
fn conditions_list(items: &[(&str, bool)]) -> (r: Vec<(String, bool)>)
    ensures
        conditions_view(r@) == items@.map_values(|p: (&str, bool)| (p.0@, p.1)),
{
    let mut out: Vec<(String, bool)> = Vec::new();
    let mut i: usize = 0;
    while i < items.len()
        invariant
            i <= items@.len(),
            conditions_view(out@) == items@.take(i as int).map_values(|p: (&str, bool)| (p.0@, p.1)),
        decreases items.len() - i,
    {
        let ghost before = out@;
        out.push((items[i].0.to_string(), items[i].1));
        assert(conditions_view(out@) =~= conditions_view(before).push((items@[i as int].0@, items@[i as int].1)));
        assert(items@.take(i + 1).map_values(|p: (&str, bool)| (p.0@, p.1)) =~= items@.take(
            i as int,
        ).map_values(|p: (&str, bool)| (p.0@, p.1)).push((items@[i as int].0@, items@[i as int].1)));
        i = i + 1;
    }
    assert(items@.take(items@.len() as int) =~= items@);
    out
}

/// The conditions for a count and flags.
fn conditions(count: u32, compare: bool, no_scope: bool) -> (r: Vec<(String, bool)>)
    ensures
        conditions_view(r@) == conditions_for(count, compare, no_scope),
{
    let r = if count >= 4 {
        conditions_list(
            &[("without-scope", false), ("with-scope", true), ("with-scope-preloaded", true), ("with-mcp", true)],
        )
    } else if count >= 3 {
        conditions_list(&[("without-scope", false), ("with-scope", true), ("with-scope-preloaded", true)])
    } else if compare || count == 2 {
        conditions_list(&[("with-scope", true), ("without-scope", false)])
    } else if no_scope {
        conditions_list(&[("without-scope", false)])
    } else {
        conditions_list(&[("with-scope", true)])
    };
    r
}

/// The conditions a `run` covers (`--scope-only` runs with Scope only, as
/// the default does).
pub fn run_conditions(args: &RunArgs) -> (r: Vec<(String, bool)>)
    ensures
        conditions_view(r@) == conditions_for(args.conditions, args.compare, args.no_scope),
{
    conditions(args.conditions, args.compare, args.no_scope)
}

/// The conditions a `prepare` covers.
pub fn prepare_conditions(args: &PrepareArgs) -> (r: Vec<(String, bool)>)
    ensures
        conditions_view(r@) == conditions_for(args.conditions, args.compare, false),
{
    conditions(args.conditions, args.compare, false)
}

/// Where a run keeps raw NDJSON streams: the directory given, else
/// `ndjson` under the output directory, else nowhere.
pub open spec fn spec_ndjson_dir(save_ndjson: Option<Seq<char>>, output_dir: Option<Seq<char>>) -> Option<Seq<char>> {
    match save_ndjson {
        Some(d) => Some(d),
        None => match output_dir {
            Some(o) => Some(join_relative(o, "ndjson"@)),
            None => None,
        },
    }
}

/// The NDJSON directory of a run.
pub fn ndjson_dir(args: &RunArgs) -> (r: Option<String>)
    ensures
        match r {
            Some(d) => spec_ndjson_dir(
                match args.save_ndjson { Some(s) => Some(s@), None => None },
                match args.output_dir { Some(s) => Some(s@), None => None },
            ) == Some(d@),
            None => spec_ndjson_dir(
                match args.save_ndjson { Some(s) => Some(s@), None => None },
                match args.output_dir { Some(s) => Some(s@), None => None },
            ) is None,
        },
{
    match &args.save_ndjson {
        Some(d) => Some(d.clone()),
        None => match &args.output_dir {
            Some(o) => Some(join_relative_exec(o.as_str(), "ndjson")),
            None => None,
        },
    }
}

/// One planned run: a task (by position), a repetition and a condition.
#[derive(Debug, Clone)]
pub struct JobPlan {
    /// Position of the task in the selection.
    pub task_index: usize,
    /// Repetition, from 1.
    pub rep: u32,
    /// Condition label.
    pub condition: String,
    /// Whether Scope is enabled in this condition.
    pub scope_enabled: bool,
}

/// The view of a planned run.
pub open spec fn job_view(j: JobPlan) -> (int, int, Seq<char>, bool) {
    (j.task_index as int, j.rep as int, j.condition@, j.scope_enabled)
}

/// Plans every run of a benchmark.
pub fn plan_jobs(task_count: usize, reps: u32, conds: &Vec<(String, bool)>) -> (r: Vec<JobPlan>)
    requires
        task_count * reps * conds@.len() <= usize::MAX,
    ensures
        r@.len() == task_count * reps * conds@.len(),
        forall|t: int, rep: int, c: int|
            0 <= t < task_count && 0 <= rep < reps && 0 <= c < conds@.len() ==> #[trigger] job_view(
                r@[(t * reps + rep) * conds@.len() + c],
            ) == (t, rep + 1, conds@[c].0@, conds@[c].1),
{
    let nc = conds.len();
    let mut out: Vec<JobPlan> = Vec::new();
    let mut t: usize = 0;
    while t < task_count
        invariant
            t <= task_count,
            nc == conds@.len(),
            task_count * reps * nc <= usize::MAX,
            out@.len() == t * reps * nc,
            forall|t2: int, rep: int, c: int|
                0 <= t2 < t && 0 <= rep < reps && 0 <= c < nc ==> #[trigger] job_view(
                    out@[(t2 * reps + rep) * nc + c],
                ) == (t2, rep + 1, conds@[c].0@, conds@[c].1),
        decreases task_count - t,
    {
        let mut rep: u32 = 0;
        while rep < reps
            invariant
                t < task_count,
                rep <= reps,
                nc == conds@.len(),
                task_count * reps * nc <= usize::MAX,
                out@.len() == (t * reps + rep) * nc,
                forall|t2: int, r2: int, c: int|
                    0 <= t2 < t && 0 <= r2 < reps && 0 <= c < nc ==> #[trigger] job_view(
                        out@[(t2 * reps + r2) * nc + c],
                    ) == (t2, r2 + 1, conds@[c].0@, conds@[c].1),
                forall|r2: int, c: int|
                    0 <= r2 < rep && 0 <= c < nc ==> #[trigger] job_view(out@[(t * reps + r2) * nc + c])
                        == (t as int, r2 + 1, conds@[c].0@, conds@[c].1),
            decreases reps - rep,
        {
            let mut c: usize = 0;
            while c < nc
                invariant
                    t < task_count,
                    rep < reps,
                    c <= nc,
                    nc == conds@.len(),
                    task_count * reps * nc <= usize::MAX,
                    out@.len() == (t * reps + rep) * nc + c,
                    forall|t2: int, r2: int, c2: int|
                        0 <= t2 < t && 0 <= r2 < reps && 0 <= c2 < nc ==> #[trigger] job_view(
                            out@[(t2 * reps + r2) * nc + c2],
                        ) == (t2, r2 + 1, conds@[c2].0@, conds@[c2].1),
                    forall|r2: int, c2: int|
                        0 <= r2 < rep && 0 <= c2 < nc ==> #[trigger] job_view(out@[(t * reps + r2) * nc + c2])
                            == (t as int, r2 + 1, conds@[c2].0@, conds@[c2].1),
                    forall|c2: int| 0 <= c2 < c ==> #[trigger] job_view(out@[(t * reps + rep) * nc + c2])
                        == (t as int, rep + 1, conds@[c2].0@, conds@[c2].1),
                decreases nc - c,
            {
                proof {
                    assert((t * reps + rep) * nc + c < task_count * reps * nc) by (nonlinear_arith)
                        requires
                            t < task_count,
                            rep < reps,
                            c < nc,
                    ;
                }
                let ghost before = out@;
                out.push(
                    JobPlan {
                        task_index: t,
                        rep: rep + 1,
                        condition: conds[c].0.clone(),
                        scope_enabled: conds[c].1,
                    },
                );
                proof {
                    assert forall|t2: int, r2: int, c2: int|
                        0 <= t2 < t && 0 <= r2 < reps && 0 <= c2 < nc implies #[trigger] job_view(
                            out@[(t2 * reps + r2) * nc + c2],
                        ) == (t2, r2 + 1, conds@[c2].0@, conds@[c2].1) by {
                        assert((t2 * reps + r2) * nc + c2 < t * reps * nc) by (nonlinear_arith)
                            requires
                                t2 < t,
                                r2 < reps,
                                c2 < nc,
                        ;
                        assert((t * reps + rep) * nc >= t * reps * nc) by (nonlinear_arith)
                            requires
                                rep >= 0,
                                nc >= 0,
                        ;
                    }
                    assert forall|r2: int, c2: int|
                        0 <= r2 < rep && 0 <= c2 < nc implies #[trigger] job_view(out@[(t * reps + r2) * nc + c2])
                            == (t as int, r2 + 1, conds@[c2].0@, conds@[c2].1) by {
                        assert((t * reps + r2) * nc + c2 < (t * reps + rep) * nc) by (nonlinear_arith)
                            requires
                                r2 < rep,
                                c2 < nc,
                        ;
                    }
                }
                c = c + 1;
            }
            proof {
                assert((t * reps + rep) * nc + nc == (t * reps + (rep + 1)) * nc) by (nonlinear_arith);
            }
            rep = rep + 1;
        }
        proof {
            assert((t * reps + reps) * nc == (t + 1) * reps * nc) by (nonlinear_arith);
        }
        t = t + 1;
    }
    out
}

/// `{id}-{condition}-rep{rep}`, the stem of a run's files.
pub open spec fn run_stem(task_id: Seq<char>, condition: Seq<char>, rep: nat) -> Seq<char> {
    task_id + "-"@ + condition + "-rep"@ + decimal(rep)
}

/// The file name of a run's raw NDJSON stream.
pub fn ndjson_file_name(task_id: &str, condition: &str, rep: u32) -> (r: String)
    ensures
        r@ == run_stem(task_id@, condition@, rep as nat) + ".ndjson"@,
{
    let mut v = chars_of(task_id);
    extend_str(&mut v, "-");
    extend_str(&mut v, condition);
    extend_str(&mut v, "-rep");
    extend_chars(&mut v, &u64_text(rep as u64));
    extend_str(&mut v, ".ndjson");
    string_of(&v)
}

/// The raw NDJSON stream saved for a task under a condition (one
/// repetition): `{task}-{condition}.ndjson`.
pub open spec fn spec_stream_file_name(task_id: Seq<char>, condition: Seq<char>) -> Seq<char> {
    task_id + "-"@ + condition + ".ndjson"@
}

/// Name the NDJSON stream saved for a task under a condition.
pub fn stream_file_name(task_id: &str, condition: &str) -> (r: String)
    ensures
        r@ == spec_stream_file_name(task_id@, condition@),
{
    let mut v = chars_of(task_id);
    extend_str(&mut v, "-");
    extend_str(&mut v, condition);
    extend_str(&mut v, ".ndjson");
    string_of(&v)
}

/// The condition of an imported run: the recorded one, or for runs saved
/// without it, `with-scope` or `without-scope` by whether Scope was on.
pub open spec fn spec_imported_condition(condition: Seq<char>, scope_enabled: bool) -> Seq<char> {
    if condition.len() > 0 {
        condition
    } else if scope_enabled {
        "with-scope"@
    } else {
        "without-scope"@
    }
}

/// Recover the condition label of an imported run.
pub fn imported_condition(condition: &str, scope_enabled: bool) -> (r: String)
    ensures
        r@ == spec_imported_condition(condition@, scope_enabled),
{
    if condition.unicode_len() > 0 {
        condition.to_string()
    } else if scope_enabled {
        "with-scope".to_string()
    } else {
        "without-scope".to_string()
    }
}

/// The key of a completed run in saved results: `{id}|{condition}|{rep}`.
pub open spec fn spec_resume_key(task_id: Seq<char>, condition: Seq<char>, rep: nat) -> Seq<char> {
    task_id + "|"@ + condition + "|"@ + decimal(rep)
}

/// The key that identifies a run when resuming.
pub fn resume_key(task_id: &str, condition: &str, rep: u32) -> (r: String)
    ensures
        r@ == spec_resume_key(task_id@, condition@, rep as nat),
{
    let mut v = chars_of(task_id);
    extend_str(&mut v, "|");
    extend_str(&mut v, condition);
    extend_str(&mut v, "|");
    extend_chars(&mut v, &u64_text(rep as u64));
    string_of(&v)
}

/// The text holds no `|`, the separator of resume keys.
pub open spec fn no_bar(s: Seq<char>) -> bool {
    !s.contains('|')
}

/// Resume keys tell runs apart: two runs whose task ids and conditions hold
/// no `|` have the same key only when they are the same
/// task/condition/repetition.
pub proof fn lemma_resume_key_injective(t1: Seq<char>, c1: Seq<char>, r1: nat, t2: Seq<char>, c2: Seq<char>, r2: nat)
    requires
        no_bar(t1),
        no_bar(c1),
        no_bar(t2),
        no_bar(c2),
        spec_resume_key(t1, c1, r1) == spec_resume_key(t2, c2, r2),
    ensures
        t1 == t2,
        c1 == c2,
        r1 == r2,
{
    reveal_strlit("|");
    let k = spec_resume_key(t1, c1, r1);
    assert(k == spec_resume_key(t2, c2, r2));
    lemma_decimal_digits(r1);
    lemma_decimal_digits(r2);
    // The first `|` ends the task id.
    assert(k[t1.len() as int] == '|');
    assert(k[t2.len() as int] == '|');
    if t1.len() < t2.len() {
        assert(k[t1.len() as int] == t2[t1.len() as int]);
        assert(t2.contains(t2[t1.len() as int]));
    } else if t2.len() < t1.len() {
        assert(k[t2.len() as int] == t1[t2.len() as int]);
        assert(t1.contains(t1[t2.len() as int]));
    }
    assert(t1 =~= k.subrange(0, t1.len() as int));
    assert(t2 =~= k.subrange(0, t2.len() as int));
    // The next `|` ends the condition.
    let o: int = t1.len() as int + 1;
    assert(k[o + c1.len()] == '|');
    assert(k[o + c2.len()] == '|');
    if c1.len() < c2.len() {
        assert(k[o + c1.len()] == c2[c1.len() as int]);
        assert(c2.contains(c2[c1.len() as int]));
    } else if c2.len() < c1.len() {
        assert(k[o + c2.len()] == c1[c2.len() as int]);
        assert(c1.contains(c1[c2.len() as int]));
    }
    assert(c1 =~= k.subrange(o, o + c1.len()));
    assert(c2 =~= k.subrange(o, o + c2.len()));
    assert(decimal(r1) =~= k.subrange(o + c1.len() + 1, k.len() as int));
    assert(decimal(r2) =~= k.subrange(o + c2.len() + 1, k.len() as int));
    lemma_decimal_injective(r1, r2);
}

/// Resuming skips exactly the completed runs: when the completed keys are
/// those of the saved runs, a planned run is still to do exactly when no
/// saved run has its task, condition and repetition (task ids and
/// conditions holding no `|`).
pub proof fn lemma_resume_skips_exactly_completed(
    j: JobPlan,
    task_ids: Seq<Seq<char>>,
    saved: Seq<(Seq<char>, Seq<char>, nat)>,
)
    requires
        j.task_index < task_ids.len(),
        no_bar(task_ids[j.task_index as int]),
        no_bar(j.condition@),
        forall|i: int| 0 <= i < saved.len() ==> no_bar((#[trigger] saved[i]).0) && no_bar(saved[i].1),
    ensures
        job_pending(j, task_ids, saved.map_values(|r: (Seq<char>, Seq<char>, nat)| spec_resume_key(r.0, r.1, r.2)))
            <==> !exists|i: int|
            0 <= i < saved.len() && #[trigger] saved[i] == (task_ids[j.task_index as int], j.condition@, j.rep as nat),
{
    let keys = saved.map_values(|r: (Seq<char>, Seq<char>, nat)| spec_resume_key(r.0, r.1, r.2));
    let want = spec_resume_key(task_ids[j.task_index as int], j.condition@, j.rep as nat);
    if keys.contains(want) {
        let i = choose|i: int| 0 <= i < keys.len() && keys[i] == want;
        assert(keys[i] == spec_resume_key(saved[i].0, saved[i].1, saved[i].2));
        lemma_resume_key_injective(saved[i].0, saved[i].1, saved[i].2, task_ids[j.task_index as int], j.condition@, j.rep as nat);
        assert(saved[i] == (task_ids[j.task_index as int], j.condition@, j.rep as nat));
    }
    if exists|i: int| 0 <= i < saved.len() && #[trigger] saved[i] == (task_ids[j.task_index as int], j.condition@, j.rep as nat) {
        let i = choose|i: int| 0 <= i < saved.len() && #[trigger] saved[i] == (task_ids[j.task_index as int], j.condition@, j.rep as nat);
        assert(keys[i] == want);
        assert(keys.contains(want));
    }
}

/// A planned run is still to do: its key is not among the completed ones.
pub open spec fn job_pending(j: JobPlan, task_ids: Seq<Seq<char>>, completed: Seq<Seq<char>>) -> bool {
    !completed.contains(spec_resume_key(task_ids[j.task_index as int], j.condition@, j.rep as nat))
}

/// The planned runs that a resumed benchmark still has to do, in order.
pub fn pending_jobs(jobs: Vec<JobPlan>, task_ids: &Vec<String>, completed: &Vec<String>) -> (r: Vec<JobPlan>)
    requires
        forall|i: int| 0 <= i < jobs@.len() ==> (#[trigger] jobs@[i]).task_index < task_ids@.len(),
    ensures
        r@ == jobs@.filter(|j: JobPlan| job_pending(j, views(task_ids@), views(completed@))),
{
    let ghost ids = views(task_ids@);
    let ghost done = views(completed@);
    let ghost keep = |j: JobPlan| job_pending(j, ids, done);
    let ghost all = jobs@;
    let total = jobs.len();
    let mut rest = jobs;
    let mut out: Vec<JobPlan> = Vec::new();
    let mut taken: usize = 0;
    while rest.len() > 0
        invariant
            taken <= total,
            all.len() == total,
            rest@ == all.skip(taken as int),
            ids == views(task_ids@),
            done == views(completed@),
            keep == (|j: JobPlan| job_pending(j, ids, done)),
            forall|i: int| 0 <= i < all.len() ==> (#[trigger] all[i]).task_index < task_ids@.len(),
            out@ == all.take(taken as int).filter(keep),
        decreases rest.len(),
    {
        let j = rest.remove(0);
        proof {
            assert(rest@ =~= all.skip(taken + 1));
            assert(all.take(taken + 1) =~= all.take(taken as int).push(j));
            assert(j == all[taken as int]);
            crate::text::lemma_filter_push(all.take(taken as int), j, keep);
        }
        let key = resume_key(task_ids[j.task_index].as_str(), j.condition.as_str(), j.rep);
        let mut seen = false;
        let mut k: usize = 0;
        while k < completed.len()
            invariant
                k <= completed@.len(),
                !seen ==> forall|q: int| 0 <= q < k ==> views(completed@)[q] != key@,
                seen ==> views(completed@).contains(key@),
            decreases completed.len() - k,
        {
            if completed[k] == key {
                assert(views(completed@)[k as int] == key@);
                seen = true;
            }
            k = k + 1;
        }
        if !seen {
            out.push(j);
        }
        taken = taken + 1;
    }
    assert(all.take(total as int) =~= all);
    out
}

/// Where a task's corpus may be, in the order tried: for the shared
/// `fixture` corpus, the language's large and then API fixture (each under
/// three base directories); for a named corpus, that corpus under three
/// base directories.
pub open spec fn spec_corpus_candidates(corpus: Seq<char>, language: Seq<char>) -> Seq<Seq<char>> {
    if corpus == "fixture"@ {
        seq![
            "benchmarks/fixtures/"@ + language + "-large"@,
            "../fixtures/"@ + language + "-large"@,
            "../../benchmarks/fixtures/"@ + language + "-large"@,
            "benchmarks/fixtures/"@ + language + "-api"@,
            "../fixtures/"@ + language + "-api"@,
            "../../benchmarks/fixtures/"@ + language + "-api"@,
        ]
    } else {
        seq![
            "benchmarks/corpora/"@ + corpus,
            "../corpora/"@ + corpus,
            "../../benchmarks/corpora/"@ + corpus,
        ]
    }
}

/// `a` + `b` + `c`.
fn concat3(a: &str, b: &str, c: &str) -> (r: String)
    ensures
        r@ == a@ + b@ + c@,
{
    let mut v = chars_of(a);
    extend_str(&mut v, b);
    extend_str(&mut v, c);
    string_of(&v)
}

/// The directories where a task's corpus is looked for, in order.
pub fn corpus_candidates(corpus: &str, language: &str) -> (r: Vec<String>)
    ensures
        views(r@) == spec_corpus_candidates(corpus@, language@),
{
    let mut v: Vec<String> = Vec::new();
    if crate::text::str_eq(corpus, "fixture") {
        v.push(concat3("benchmarks/fixtures/", language, "-large"));
        v.push(concat3("../fixtures/", language, "-large"));
        v.push(concat3("../../benchmarks/fixtures/", language, "-large"));
        v.push(concat3("benchmarks/fixtures/", language, "-api"));
        v.push(concat3("../fixtures/", language, "-api"));
        v.push(concat3("../../benchmarks/fixtures/", language, "-api"));
    } else {
        v.push(concat3("benchmarks/corpora/", corpus, ""));
        v.push(concat3("../corpora/", corpus, ""));
        v.push(concat3("../../benchmarks/corpora/", corpus, ""));
        proof {
            reveal_strlit("");
        }
    }
    assert(views(v@) =~= spec_corpus_candidates(corpus@, language@));
    v
}

} // verus!

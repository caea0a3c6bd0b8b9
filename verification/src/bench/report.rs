//! Summaries of benchmark results.
use vstd::prelude::*;
use crate::order::{lemma_sort_stable_sorted, lemma_text_before_strict, sort_stable, sort_texts, sorted_by, text_before};
use crate::text::{
    add_new, char_views, chars_of, contains_string, extend_chars, split_seq, split_str, string_of,
    views,
};

verus! {

/// The category of a task id: its second and third `-`-separated parts
/// (`ts-cat-a-01` is in `cat-a`), or "unknown".
pub open spec fn spec_task_category(task_id: Seq<char>) -> Seq<char> {
    let parts = split_seq(task_id, seq!['-']);
    if parts.len() >= 3 {
        parts[1] + seq!['-'] + parts[2]
    } else {
        "unknown"@
    }
}

/// Extract category from a task ID (e.g. "ts-cat-a-01" => "cat-a").
pub fn task_category(task_id: &str) -> (r: String)
    ensures
        r@ == spec_task_category(task_id@),
{
    proof {
        reveal_strlit("-");
    }
    let s = chars_of(task_id);
    let parts = split_str(&s, "-");
    assert("-"@ =~= seq!['-']);
    if parts.len() >= 3 {
        let mut v = crate::text::copy_chars(&parts[1]);
        v.push('-');
        extend_chars(&mut v, &parts[2]);
        assert(char_views(parts@)[1] == parts@[1]@);
        assert(char_views(parts@)[2] == parts@[2]@);
        string_of(&v)
    } else {
        "unknown".to_string()
    }
}


/// The categories of the task ids.
pub open spec fn categories_of(task_ids: Seq<Seq<char>>) -> Seq<Seq<char>> {
    task_ids.map_values(|t: Seq<char>| spec_task_category(t))
}

/// The distinct categories of the task ids, in text order.
pub open spec fn spec_categories(task_ids: Seq<Seq<char>>) -> Seq<Seq<char>> {
    sort_stable(add_new(Seq::empty(), categories_of(task_ids)), text_before())
}

/// The distinct categories of the runs' task ids, sorted.
pub fn extract_categories(task_ids: &Vec<String>) -> (r: Vec<String>)
    ensures
        views(r@) == spec_categories(views(task_ids@)),
{
    let ghost cats = categories_of(views(task_ids@));
    let mut out: Vec<String> = Vec::new();
    let mut i: usize = 0;
    assert(cats.take(0) =~= Seq::<Seq<char>>::empty());
    while i < task_ids.len()
        invariant
            i <= task_ids.len(),
            cats == categories_of(views(task_ids@)),
            views(out@) == add_new(Seq::empty(), cats.take(i as int)),
        decreases task_ids.len() - i,
    {
        let c = task_category(task_ids[i].as_str());
        proof {
            assert(cats.take(i + 1).drop_last() =~= cats.take(i as int));
            assert(cats.take(i + 1).last() == c@);
        }
        if !contains_string(out.as_slice(), c.as_str()) {
            let ghost before = views(out@);
            out.push(c);
            assert(views(out@) =~= before.push(cats[i as int]));
        }
        i = i + 1;
    }
    assert(cats.take(task_ids.len() as int) =~= cats);
    sort_texts(out)
}

/// The number of distinct task ids among the runs.
pub fn distinct_task_count(task_ids: &Vec<String>) -> (r: usize)
    ensures
        r == add_new(Seq::empty(), views(task_ids@)).len(),
{
    let mut seen: Vec<String> = Vec::new();
    let mut i: usize = 0;
    assert(views(task_ids@).take(0) =~= Seq::<Seq<char>>::empty());
    while i < task_ids.len()
        invariant
            i <= task_ids.len(),
            views(seen@) == add_new(Seq::empty(), views(task_ids@).take(i as int)),
        decreases task_ids.len() - i,
    {
        let t = &task_ids[i];
        proof {
            assert(views(task_ids@).take(i + 1).drop_last() =~= views(task_ids@).take(i as int));
            assert(views(task_ids@).take(i + 1).last() == t@);
        }
        if !contains_string(seen.as_slice(), t.as_str()) {
            let ghost before = views(seen@);
            seen.push(t.clone());
            assert(views(seen@) =~= before.push(t@));
        }
        i = i + 1;
    }
    assert(views(task_ids@).take(task_ids.len() as int) =~= views(task_ids@));
    seen.len()
}

/// The largest repetition number, or 1 when there are no runs.
pub open spec fn spec_max_repetition(reps: Seq<u32>) -> u32
    decreases reps.len(),
{
    if reps.len() == 0 {
        1
    } else if reps.len() == 1 {
        reps[0]
    } else {
        let m = spec_max_repetition(reps.drop_last());
        if reps.last() > m { reps.last() } else { m }
    }
}

/// The repetitions per task shown in the summary: the largest repetition
/// number among the runs, or 1 without runs.
pub fn max_repetition(reps: &Vec<u32>) -> (r: u32)
    ensures
        r == spec_max_repetition(reps@),
        reps@.len() > 0 ==> reps@.contains(r),
        forall|i: int| 0 <= i < reps@.len() ==> reps@[i] <= r,
{
    if reps.len() == 0 {
        return 1;
    }
    let mut m: u32 = reps[0];
    let mut i: usize = 1;
    assert(reps@.take(1) =~= seq![reps@[0]]);
    while i < reps.len()
        invariant
            1 <= i <= reps.len(),
            m == spec_max_repetition(reps@.take(i as int)),
            reps@.take(i as int).contains(m),
            forall|k: int| 0 <= k < i ==> reps@[k] <= m,
        decreases reps.len() - i,
    {
        proof {
            assert(reps@.take(i + 1).drop_last() =~= reps@.take(i as int));
            assert(reps@.take(i + 1).last() == reps@[i as int]);
        }
        let ghost old_m = m;
        if reps[i] > m {
            m = reps[i];
            assert(reps@.take(i + 1)[i as int] == m);
        } else {
            let ghost k = choose|k: int| 0 <= k < i && reps@.take(i as int)[k] == old_m;
            assert(reps@.take(i + 1)[k] == m);
        }
        i = i + 1;
    }
    assert(reps@.take(reps.len() as int) =~= reps@);
    m
}

/// The summary's categories come out in text order.
pub proof fn lemma_categories_sorted(task_ids: Seq<Seq<char>>)
    ensures
        sorted_by(spec_categories(task_ids), text_before()),
{
    lemma_text_before_strict();
    lemma_sort_stable_sorted(add_new(Seq::empty(), categories_of(task_ids)), text_before());
}

} // verus!

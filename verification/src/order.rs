//! Orders and stable sorting.
//!
//! Results are sorted the way std's stable `sort_by` sorts them: by a strict
//! "comes before" relation, with elements that neither precedes kept in
//! their original order. `sort_stable` is that result built by inserting
//! one element at a time; the laws below state what it is directly: it is
//! sorted, a permutation of its input, and (for a strict weak order) keeps
//! each class of equivalent elements in input order.
//! Text is ordered as `String`'s `Ord` orders it: lexicographically by
//! character (UTF-8 byte order and code point order agree).
use vstd::prelude::*;
use crate::text::views;

verus! {

/// The first position in `t` of an element that `x` comes before, or the
/// length of `t` if there is none.
pub open spec fn first_before<T>(t: Seq<T>, x: T, before: spec_fn(T, T) -> bool) -> int
    decreases t.len(),
{
    if t.len() == 0 {
        0
    } else if before(x, t[0]) {
        0
    } else {
        1 + first_before(t.drop_first(), x, before)
    }
}

/// `x` inserted into `t` after every element it does not come before.
pub open spec fn insert_sorted<T>(t: Seq<T>, x: T, before: spec_fn(T, T) -> bool) -> Seq<T> {
    t.insert(first_before(t, x, before), x)
}

/// `s` stably sorted by `before`.
pub open spec fn sort_stable<T>(s: Seq<T>, before: spec_fn(T, T) -> bool) -> Seq<T>
    decreases s.len(),
{
    if s.len() == 0 {
        s
    } else {
        insert_sorted(sort_stable(s.drop_last(), before), s.last(), before)
    }
}

/// No element comes before an element that precedes it in `s`.
pub open spec fn sorted_by<T>(s: Seq<T>, before: spec_fn(T, T) -> bool) -> bool {
    forall|i: int, j: int| 0 <= i < j < s.len() ==> !before(#[trigger] s[j], #[trigger] s[i])
}

/// `before` is a strict order: asymmetric and transitive.
pub open spec fn strict_order<T>(before: spec_fn(T, T) -> bool) -> bool {
    &&& forall|a: T, b: T| #[trigger] before(a, b) ==> !before(b, a)
    &&& forall|a: T, b: T, c: T| #[trigger] before(a, b) && #[trigger] before(b, c) ==> before(a, c)
}

/// The position found by a scan that stops at the first element `x` comes
/// before is `first_before`.
pub proof fn lemma_first_before<T>(t: Seq<T>, x: T, before: spec_fn(T, T) -> bool, p: int)
    requires
        0 <= p <= t.len(),
        forall|k: int| 0 <= k < p ==> !before(x, #[trigger] t[k]),
        p == t.len() || before(x, t[p]),
    ensures
        first_before(t, x, before) == p,
    decreases t.len(),
{
    if t.len() > 0 && p > 0 {
        assert(!before(x, t[0]));
        assert forall|k: int| 0 <= k < p - 1 implies !before(x, #[trigger] t.drop_first()[k]) by {
            assert(t.drop_first()[k] == t[k + 1]);
        }
        if p - 1 < t.len() - 1 {
            assert(t.drop_first()[p - 1] == t[p]);
        }
        lemma_first_before(t.drop_first(), x, before, p - 1);
    }
}

/// `first_before` lies within `t`'s bounds and no earlier element is one
/// that `x` comes before.
pub proof fn lemma_first_before_bounds<T>(t: Seq<T>, x: T, before: spec_fn(T, T) -> bool)
    ensures
        0 <= first_before(t, x, before) <= t.len(),
        forall|k: int| 0 <= k < first_before(t, x, before) ==> !before(x, #[trigger] t[k]),
        first_before(t, x, before) < t.len() ==> before(x, t[first_before(t, x, before)]),
    decreases t.len(),
{
    if t.len() > 0 && !before(x, t[0]) {
        lemma_first_before_bounds(t.drop_first(), x, before);
        let p = first_before(t, x, before);
        assert forall|k: int| 0 <= k < p implies !before(x, #[trigger] t[k]) by {
            if k > 0 {
                assert(t[k] == t.drop_first()[k - 1]);
            }
        }
        if p < t.len() {
            assert(t[p] == t.drop_first()[p - 1]);
        }
    }
}

/// Inserting into a sorted sequence keeps it sorted.
pub proof fn lemma_insert_sorted_sorted<T>(t: Seq<T>, x: T, before: spec_fn(T, T) -> bool)
    requires
        strict_order(before),
        sorted_by(t, before),
    ensures
        sorted_by(insert_sorted(t, x, before), before),
{
    lemma_first_before_bounds(t, x, before);
    let p = first_before(t, x, before);
    let u = insert_sorted(t, x, before);
    assert(u.len() == t.len() + 1);
    assert forall|i: int, j: int| 0 <= i < j < u.len() implies !before(
        #[trigger] u[j],
        #[trigger] u[i],
    ) by {
        if j < p {
            assert(u[i] == t[i] && u[j] == t[j]);
        } else if j == p {
            assert(u[j] == x && u[i] == t[i]);
        } else if i > p {
            assert(u[i] == t[i - 1] && u[j] == t[j - 1]);
        } else if i == p {
            assert(u[i] == x && u[j] == t[j - 1]);
            assert(before(x, t[p]));
            if j - 1 > p {
                assert(!before(t[j - 1], t[p]));
            }
            if before(t[j - 1], x) {
                assert(before(t[j - 1], t[p]));
            }
        } else {
            assert(u[i] == t[i] && u[j] == t[j - 1]);
        }
    }
}

/// A stably sorted sequence is sorted.
pub proof fn lemma_sort_stable_sorted<T>(s: Seq<T>, before: spec_fn(T, T) -> bool)
    requires
        strict_order(before),
    ensures
        sorted_by(sort_stable(s, before), before),
    decreases s.len(),
{
    if s.len() > 0 {
        lemma_sort_stable_sorted(s.drop_last(), before);
        lemma_insert_sorted_sorted(sort_stable(s.drop_last(), before), s.last(), before);
    }
}

/// Sorting stably only reorders: the result holds the same elements, each
/// as many times.
pub proof fn lemma_sort_stable_permutation<T>(s: Seq<T>, before: spec_fn(T, T) -> bool)
    ensures
        sort_stable(s, before).to_multiset() == s.to_multiset(),
    decreases s.len(),
{
    broadcast use vstd::seq_lib::group_seq_properties;
    broadcast use vstd::multiset::group_multiset_axioms;

    if s.len() > 0 {
        let rest = sort_stable(s.drop_last(), before);
        lemma_sort_stable_permutation(s.drop_last(), before);
        lemma_first_before_bounds(rest, s.last(), before);
        let p = first_before(rest, s.last(), before);
        vstd::seq_lib::to_multiset_insert(rest, p, s.last());
        vstd::seq_lib::to_multiset_build(s.drop_last(), s.last());
        assert(s =~= s.drop_last().push(s.last()));
    }
}

/// `before` is a strict weak order: a strict order whose incomparable
/// elements come in classes (if `a` comes before `c`, any `b` comes after
/// `a` or before `c`).
pub open spec fn strict_weak_order<T>(before: spec_fn(T, T) -> bool) -> bool {
    &&& strict_order(before)
    &&& forall|a: T, b: T, c: T|
        #![trigger before(a, c), before(a, b)]
        #![trigger before(a, c), before(b, c)]
        before(a, c) ==> before(a, b) || before(b, c)
}

/// Neither of `a` and `b` comes before the other.
pub open spec fn equivalent<T>(before: spec_fn(T, T) -> bool, a: T, b: T) -> bool {
    !before(a, b) && !before(b, a)
}

/// The elements of `s` equivalent to `k`, in order.
pub open spec fn class_of<T>(s: Seq<T>, before: spec_fn(T, T) -> bool, k: T) -> Seq<T> {
    s.filter(|x: T| equivalent(before, x, k))
}

/// Filtering `t` with `x` put in at `p` is filtering the parts around it.
proof fn lemma_filter_insert<T>(t: Seq<T>, p: int, x: T, f: spec_fn(T) -> bool)
    requires
        0 <= p <= t.len(),
    ensures
        t.insert(p, x).filter(f) == t.take(p).filter(f) + seq![x].filter(f) + t.skip(p).filter(f),
        t.filter(f) == t.take(p).filter(f) + t.skip(p).filter(f),
{
    assert(t.insert(p, x) =~= t.take(p) + seq![x] + t.skip(p));
    assert(t =~= t.take(p) + t.skip(p));
    Seq::filter_distributes_over_add(t.take(p) + seq![x], t.skip(p), f);
    Seq::filter_distributes_over_add(t.take(p), seq![x], f);
    Seq::filter_distributes_over_add(t.take(p), t.skip(p), f);
}

/// Sorting stably keeps equivalent elements in their input order: for
/// every `k`, the elements equivalent to `k` appear in the result in the
/// order they have in the input. With [`lemma_sort_stable_sorted`] and
/// [`lemma_sort_stable_permutation`] this says what a stable sort is.
pub proof fn lemma_sort_stable_keeps_classes<T>(s: Seq<T>, before: spec_fn(T, T) -> bool, k: T)
    requires
        strict_weak_order(before),
    ensures
        class_of(sort_stable(s, before), before, k) == class_of(s, before, k),
    decreases s.len(),
{
    if s.len() > 0 {
        let f = |x: T| equivalent(before, x, k);
        let t = sort_stable(s.drop_last(), before);
        let x = s.last();
        lemma_sort_stable_keeps_classes(s.drop_last(), before, k);
        lemma_sort_stable_sorted(s.drop_last(), before);
        lemma_first_before_bounds(t, x, before);
        let p = first_before(t, x, before);
        lemma_filter_insert(t, p, x, f);
        crate::text::lemma_filter_push(s.drop_last(), x, f);
        assert(s =~= s.drop_last().push(x));
        assert(class_of(s, before, k) == s.filter(f));
        assert(class_of(sort_stable(s, before), before, k) == sort_stable(s, before).filter(f));
        assert(class_of(s.drop_last(), before, k) == s.drop_last().filter(f));
        assert(class_of(t, before, k) == t.filter(f));
        crate::text::lemma_filter_push(Seq::<T>::empty(), x, f);
        assert(Seq::<T>::empty().push(x) =~= seq![x]);
        assert(Seq::<T>::empty().filter(f) =~= Seq::<T>::empty()) by {
            reveal(Seq::filter);
        }
        if f(x) {
            // Nothing after the insertion point is equivalent to `x`.
            assert(t.skip(p).filter(f) =~= Seq::<T>::empty()) by {
                assert forall|q: int| 0 <= q < t.skip(p).len() implies !f(#[trigger] t.skip(p)[q]) by {
                    let y = t.skip(p)[q];
                    assert(y == t[p + q]);
                    assert(before(x, t[p]));
                    if q > 0 {
                        assert(!before(t[p + q], t[p]));
                    }
                    if f(y) {
                        assert(before(x, y) || before(y, t[p]));
                    }
                }
                t.skip(p).lemma_all_neg_filter_empty(f);
            }
            assert(seq![x].filter(f) =~= seq![x]);
        } else {
            assert(seq![x].filter(f) =~= Seq::<T>::empty());
        }
    }
}

/// Text order: `a` sorts before `b` (lexicographic by character, a proper
/// prefix first).
pub open spec fn text_lt(a: Seq<char>, b: Seq<char>) -> bool
    decreases a.len(),
{
    if a.len() == 0 {
        b.len() > 0
    } else if b.len() == 0 {
        false
    } else if a[0] != b[0] {
        a[0] < b[0]
    } else {
        text_lt(a.drop_first(), b.drop_first())
    }
}

/// Text order is asymmetric.
pub proof fn lemma_text_lt_asymmetric(a: Seq<char>, b: Seq<char>)
    ensures
        text_lt(a, b) ==> !text_lt(b, a),
    decreases a.len(),
{
    if a.len() > 0 && b.len() > 0 && a[0] == b[0] {
        lemma_text_lt_asymmetric(a.drop_first(), b.drop_first());
    }
}

/// Text order is transitive.
pub proof fn lemma_text_lt_transitive(a: Seq<char>, b: Seq<char>, c: Seq<char>)
    ensures
        text_lt(a, b) && text_lt(b, c) ==> text_lt(a, c),
    decreases a.len(),
{
    if a.len() > 0 && b.len() > 0 && c.len() > 0 && a[0] == b[0] && b[0] == c[0] {
        lemma_text_lt_transitive(a.drop_first(), b.drop_first(), c.drop_first());
    }
}

/// Two texts that neither sorts before are equal.
pub proof fn lemma_text_lt_total(a: Seq<char>, b: Seq<char>)
    ensures
        !text_lt(a, b) && !text_lt(b, a) ==> a == b,
    decreases a.len(),
{
    if a.len() > 0 && b.len() > 0 && a[0] == b[0] {
        lemma_text_lt_total(a.drop_first(), b.drop_first());
        if a.drop_first() == b.drop_first() {
            assert(a =~= seq![a[0]] + a.drop_first());
            assert(b =~= seq![b[0]] + b.drop_first());
        }
    } else if a.len() == 0 && b.len() == 0 {
        assert(a =~= b);
    }
}

/// Whether `a` sorts before `b` in text order.
pub fn text_lt_exec(a: &str, b: &str) -> (r: bool)
    ensures
        r == text_lt(a@, b@),
{
    let x = crate::text::chars_of(a);
    let y = crate::text::chars_of(b);
    let mut i: usize = 0;
    assert(x@.skip(0) =~= x@);
    assert(y@.skip(0) =~= y@);
    while i < x.len() && i < y.len() && x[i] == y[i]
        invariant
            i <= x.len(),
            i <= y.len(),
            text_lt(x@, y@) == text_lt(x@.skip(i as int), y@.skip(i as int)),
        decreases x.len() - i,
    {
        assert(x@.skip(i as int).drop_first() =~= x@.skip(i + 1));
        assert(y@.skip(i as int).drop_first() =~= y@.skip(i + 1));
        i = i + 1;
    }
    if i == x.len() {
        i < y.len()
    } else if i == y.len() {
        false
    } else {
        assert(x@.skip(i as int)[0] == x@[i as int]);
        assert(y@.skip(i as int)[0] == y@[i as int]);
        x[i] < y[i]
    }
}

/// Order by a pair of texts: the first, then the second.
pub open spec fn pair_lt(a: (Seq<char>, Seq<char>), b: (Seq<char>, Seq<char>)) -> bool {
    text_lt(a.0, b.0) || (a.0 == b.0 && text_lt(a.1, b.1))
}

/// Pair order is a strict order.
pub proof fn lemma_pair_lt_strict(a: (Seq<char>, Seq<char>), b: (Seq<char>, Seq<char>), c: (Seq<char>, Seq<char>))
    ensures
        pair_lt(a, b) ==> !pair_lt(b, a),
        pair_lt(a, b) && pair_lt(b, c) ==> pair_lt(a, c),
{
    lemma_text_lt_asymmetric(a.0, b.0);
    lemma_text_lt_asymmetric(a.1, b.1);
    lemma_text_lt_transitive(a.0, b.0, c.0);
    lemma_text_lt_transitive(a.1, b.1, c.1);
    lemma_text_lt_asymmetric(b.0, a.0);
    lemma_text_lt_asymmetric(a.0, a.0);
    lemma_text_lt_asymmetric(b.0, c.0);
}

/// Text order as a relation.
pub open spec fn text_before() -> spec_fn(Seq<char>, Seq<char>) -> bool {
    |a: Seq<char>, b: Seq<char>| text_lt(a, b)
}

/// Sorts strings in text order.
pub fn sort_texts(v: Vec<String>) -> (r: Vec<String>)
    ensures
        views(r@) == sort_stable(views(v@), text_before()),
{
    let ghost before = text_before();
    let ghost raw = v@;
    let ghost all = views(v@);
    let total = v.len();
    let mut rest = v;
    let mut out: Vec<String> = Vec::new();
    let mut taken: usize = 0;
    assert(all.take(0) =~= Seq::<Seq<char>>::empty());
    while rest.len() > 0
        invariant
            taken <= total,
            all.len() == total,
            before == text_before(),
            all == views(raw),
            raw.len() == total,
            rest@ == raw.skip(taken as int),
            views(out@) == sort_stable(all.take(taken as int), before),
        decreases rest.len(),
    {
        let x = rest.remove(0);
        proof {
            assert(rest@ =~= raw.skip(taken + 1));
            assert(x == raw[taken as int]);
        }
        let mut p: usize = 0;
        while p < out.len() && !text_lt_exec(x.as_str(), out[p].as_str())
            invariant
                p <= out.len(),
                before == text_before(),
                forall|k: int| 0 <= k < p ==> !before(x@, #[trigger] views(out@)[k]),
            decreases out.len() - p,
        {
            p = p + 1;
        }
        proof {
            lemma_first_before(views(out@), x@, before, p as int);
            assert(all.take(taken + 1).drop_last() =~= all.take(taken as int));
            assert(all.take(taken + 1).last() == x@);
        }
        let ghost prev = views(out@);
        out.insert(p, x);
        assert(views(out@) =~= prev.insert(p as int, x@));
        taken = taken + 1;
    }
    assert(all.take(total as int) =~= all);
    out
}

/// Text order is a strict order.
pub proof fn lemma_text_before_strict()
    ensures
        strict_order(text_before()),
{
    assert forall|a: Seq<char>, b: Seq<char>| #[trigger] (text_before())(a, b) implies !(text_before())(
        b,
        a,
    ) by {
        lemma_text_lt_asymmetric(a, b);
    }
    assert forall|a: Seq<char>, b: Seq<char>, c: Seq<char>|
        #[trigger] (text_before())(a, b) && #[trigger] (text_before())(b, c) implies (text_before())(
        a,
        c,
    ) by {
        lemma_text_lt_transitive(a, b, c);
    }
}

} // verus!

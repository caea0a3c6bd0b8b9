//! Character-level text model shared by the whole library.
//!
//! Strings are reasoned about through their view, a `Seq<char>`. The
//! executable helpers here work on `Vec<char>` buffers and convert to and
//! from `String` at the boundaries of the public API.
use vstd::prelude::*;
use vstd::string::*;

verus! {

// ---------------------------------------------------------------------------
// Specifications
// ---------------------------------------------------------------------------

/// `pat` occurs in `s` starting at index `i`.
pub open spec fn occurs_at(s: Seq<char>, pat: Seq<char>, i: int) -> bool {
    &&& 0 <= i
    &&& i + pat.len() <= s.len()
    &&& s.subrange(i, i + pat.len()) == pat
}

/// `pat` occurs somewhere in `s`.
pub open spec fn contains_seq(s: Seq<char>, pat: Seq<char>) -> bool {
    exists|i: int| occurs_at(s, pat, i)
}

/// Index of the first occurrence of `pat` in `s` at or after `from`.
pub open spec fn find_from(s: Seq<char>, pat: Seq<char>, from: int) -> Option<int>
    decreases s.len() + 1 - from,
{
    if from < 0 || from + pat.len() > s.len() {
        None
    } else if occurs_at(s, pat, from) {
        Some(from)
    } else {
        find_from(s, pat, from + 1)
    }
}

/// Index of the first occurrence of `pat` in `s`.
pub open spec fn find_seq(s: Seq<char>, pat: Seq<char>) -> Option<int> {
    find_from(s, pat, 0)
}

/// Index of the last occurrence of `pat` in `s` that starts at or before `upto`.
pub open spec fn rfind_upto(s: Seq<char>, pat: Seq<char>, upto: int) -> Option<int>
    decreases upto + 1,
{
    if upto < 0 {
        None
    } else if occurs_at(s, pat, upto) {
        Some(upto)
    } else {
        rfind_upto(s, pat, upto - 1)
    }
}

/// Index of the last occurrence of `pat` in `s`.
pub open spec fn rfind_seq(s: Seq<char>, pat: Seq<char>) -> Option<int> {
    rfind_upto(s, pat, s.len() - pat.len())
}

/// `s` starts with `p`.
pub open spec fn starts_with(s: Seq<char>, p: Seq<char>) -> bool {
    p.len() <= s.len() && s.subrange(0, p.len() as int) == p
}

/// `s` ends with `p`.
pub open spec fn ends_with(s: Seq<char>, p: Seq<char>) -> bool {
    p.len() <= s.len() && s.subrange(s.len() - p.len(), s.len() as int) == p
}

/// A single-character sequence.
pub open spec fn single(c: char) -> Seq<char> {
    seq![c]
}

/// The pieces of `s` between occurrences of the non-empty separator `sep`,
/// found left to right without overlap.
pub open spec fn split_seq(s: Seq<char>, sep: Seq<char>) -> Seq<Seq<char>>
    decreases s.len(),
{
    if sep.len() == 0 {
        seq![s]
    } else {
        match find_seq(s, sep) {
            Some(k) => {
                if 0 <= k && k + sep.len() <= s.len() {
                    seq![s.subrange(0, k)] + split_seq(s.subrange(k + sep.len(), s.len() as int), sep)
                } else {
                    seq![s]
                }
            },
            None => seq![s],
        }
    }
}

/// Concatenation of `parts` with `sep` between consecutive parts.
pub open spec fn join_seq(parts: Seq<Seq<char>>, sep: Seq<char>) -> Seq<char>
    decreases parts.len(),
{
    if parts.len() == 0 {
        Seq::empty()
    } else if parts.len() == 1 {
        parts[0]
    } else {
        join_seq(parts.drop_last(), sep) + sep + parts.last()
    }
}

/// The views of a vector of strings.
pub open spec fn views(v: Seq<String>) -> Seq<Seq<char>> {
    v.map_values(|x: String| x@)
}

/// The views of a vector of character buffers.
pub open spec fn char_views(v: Seq<Vec<char>>) -> Seq<Seq<char>> {
    v.map_values(|x: Vec<char>| x@)
}


/// Pieces of `s` between characters satisfying `is_sep` (empty pieces kept):
/// a separator starts a new empty piece, any other character extends the
/// last piece.
pub open spec fn split_by_pred(s: Seq<char>, is_sep: spec_fn(char) -> bool) -> Seq<Seq<char>>
    decreases s.len(),
{
    if s.len() == 0 {
        seq![Seq::empty()]
    } else {
        let r = split_by_pred(s.drop_last(), is_sep);
        if is_sep(s.last()) {
            r.push(Seq::empty())
        } else {
            r.update(r.len() - 1, r.last().push(s.last()))
        }
    }
}

/// The non-empty pieces of a sequence of pieces.
pub open spec fn non_empty(parts: Seq<Seq<char>>) -> Seq<Seq<char>> {
    parts.filter(|w: Seq<char>| w.len() > 0)
}

/// Whitespace-separated words of `s` (std's `split_whitespace`).
pub open spec fn words(s: Seq<char>) -> Seq<Seq<char>> {
    non_empty(split_by_pred(s, |c: char| is_whitespace_char(c)))
}

/// Whether `c` is whitespace, as std's `char::is_whitespace` decides: it
/// has Unicode's `White_Space` property, which these 25 code points have.
pub open spec fn is_whitespace_char(c: char) -> bool {
    let n = c as u32;
    ||| 0x09 <= n <= 0x0d
    ||| n == 0x20
    ||| n == 0x85
    ||| n == 0xa0
    ||| n == 0x1680
    ||| 0x2000 <= n <= 0x200a
    ||| n == 0x2028
    ||| n == 0x2029
    ||| n == 0x202f
    ||| n == 0x205f
    ||| n == 0x3000
}

/// Whether `c` is uppercase, as std's `char::is_uppercase` decides.
pub uninterp spec fn is_uppercase_char(c: char) -> bool;

/// Whether `c` is lowercase, as std's `char::is_lowercase` decides.
pub uninterp spec fn is_lowercase_char(c: char) -> bool;

/// Whether `c` is alphanumeric, as std's `char::is_alphanumeric` decides.
pub uninterp spec fn is_alphanumeric_char(c: char) -> bool;

/// The lowercase form of a string, as std's `str::to_lowercase` computes it.
pub uninterp spec fn lowercase_of(s: Seq<char>) -> Seq<char>;

// ---------------------------------------------------------------------------
// Lemmas
// ---------------------------------------------------------------------------

/// Searching a suffix of `s` is searching `s` from the suffix's start.
pub proof fn lemma_find_in_suffix(s: Seq<char>, pat: Seq<char>, p: int, i: int)
    requires
        0 <= p <= s.len(),
        0 <= i,
    ensures
        find_from(s.subrange(p, s.len() as int), pat, i) == match find_from(s, pat, p + i) {
            Some(k) => Some(k - p),
            None => None::<int>,
        },
    decreases s.len() + 1 - (p + i),
{
    let t = s.subrange(p, s.len() as int);
    if i + pat.len() > t.len() {
    } else {
        assert(t.subrange(i, i + pat.len()) =~= s.subrange(p + i, p + i + pat.len()));
        if occurs_at(t, pat, i) {
        } else {
            lemma_find_in_suffix(s, pat, p, i + 1);
        }
    }
}

/// Filtering distributes over a final push.
pub proof fn lemma_filter_push<A>(parts: Seq<A>, w: A, f: spec_fn(A) -> bool)
    ensures
        parts.push(w).filter(f) == if f(w) {
            parts.filter(f).push(w)
        } else {
            parts.filter(f)
        },
{
    reveal(Seq::filter);
    assert(parts.push(w).drop_last() =~= parts);
}

/// Filtering the non-empty pieces distributes over a final push.
pub proof fn lemma_non_empty_push(parts: Seq<Seq<char>>, w: Seq<char>)
    ensures
        non_empty(parts.push(w)) == if w.len() > 0 {
            non_empty(parts).push(w)
        } else {
            non_empty(parts)
        },
{
    reveal(Seq::filter);
    assert(parts.push(w).drop_last() =~= parts);
}

/// What `find_from` returns is an occurrence, and nothing earlier in range is one.
pub proof fn lemma_find_from(s: Seq<char>, pat: Seq<char>, from: int)
    requires
        0 <= from,
    ensures
        match find_from(s, pat, from) {
            Some(k) => from <= k && occurs_at(s, pat, k) && forall|j: int|
                from <= j < k ==> !occurs_at(s, pat, j),
            None => forall|j: int| from <= j ==> !occurs_at(s, pat, j),
        },
    decreases s.len() + 1 - from,
{
    if from + pat.len() > s.len() {
    } else if occurs_at(s, pat, from) {
    } else {
        lemma_find_from(s, pat, from + 1);
    }
}

/// What `rfind_upto` returns is an occurrence, and nothing later up to `upto` is one.
pub proof fn lemma_rfind_upto(s: Seq<char>, pat: Seq<char>, upto: int)
    ensures
        match rfind_upto(s, pat, upto) {
            Some(k) => 0 <= k <= upto && occurs_at(s, pat, k) && forall|j: int|
                k < j <= upto ==> !occurs_at(s, pat, j),
            None => forall|j: int| j <= upto ==> !occurs_at(s, pat, j),
        },
    decreases upto + 1,
{
    if upto < 0 {
    } else if occurs_at(s, pat, upto) {
    } else {
        lemma_rfind_upto(s, pat, upto - 1);
    }
}

/// `find_seq` finds something exactly when `pat` occurs in `s`.
pub proof fn lemma_find_contains(s: Seq<char>, pat: Seq<char>)
    ensures
        find_seq(s, pat) is Some <==> contains_seq(s, pat),
{
    lemma_find_from(s, pat, 0);
    if let Some(k) = find_seq(s, pat) {
        assert(occurs_at(s, pat, k));
    }
}

// ---------------------------------------------------------------------------
// Executable helpers
// ---------------------------------------------------------------------------

/// Appends one character to a `String` (std's `String::push`).
#[verifier::external_body]
pub(crate) fn push_char(s: &mut String, c: char)
    ensures
        final(s)@ == old(s)@.push(c),
{
    s.push(c);
}

/// The characters of a string slice, in order.
pub fn chars_of(s: &str) -> (r: Vec<char>)
    ensures
        r@ == s@,
{
    let n = s.unicode_len();
    let mut r: Vec<char> = Vec::new();
    let mut i: usize = 0;
    while i < n
        invariant
            n == s@.len(),
            i <= n,
            r@ == s@.subrange(0, i as int),
        decreases n - i,
    {
        let c = s.get_char(i);
        r.push(c);
        i = i + 1;
        assert(r@ =~= s@.subrange(0, i as int));
    }
    assert(r@ =~= s@);
    r
}

/// A `String` holding exactly the given characters.
pub fn string_of(v: &Vec<char>) -> (r: String)
    ensures
        r@ == v@,
{
    let mut r = String::new();
    let mut i: usize = 0;
    while i < v.len()
        invariant
            i <= v.len(),
            r@ == v@.subrange(0, i as int),
        decreases v.len() - i,
    {
        push_char(&mut r, v[i]);
        i = i + 1;
        assert(r@ =~= v@.subrange(0, i as int));
    }
    assert(r@ =~= v@);
    r
}

/// A `String` holding the characters of `s[from..to]`.
pub fn string_of_range(v: &Vec<char>, from: usize, to: usize) -> (r: String)
    requires
        from <= to <= v.len(),
    ensures
        r@ == v@.subrange(from as int, to as int),
{
    let mut r = String::new();
    let mut i: usize = from;
    while i < to
        invariant
            from <= i <= to <= v.len(),
            r@ == v@.subrange(from as int, i as int),
        decreases to - i,
    {
        push_char(&mut r, v[i]);
        i = i + 1;
        assert(r@ =~= v@.subrange(from as int, i as int));
    }
    r
}

/// The characters `v[from..to]` as a new buffer.
pub fn slice_chars(v: &Vec<char>, from: usize, to: usize) -> (r: Vec<char>)
    requires
        from <= to <= v.len(),
    ensures
        r@ == v@.subrange(from as int, to as int),
{
    let mut r: Vec<char> = Vec::new();
    let mut i: usize = from;
    while i < to
        invariant
            from <= i <= to <= v.len(),
            r@ == v@.subrange(from as int, i as int),
        decreases to - i,
    {
        r.push(v[i]);
        i = i + 1;
        assert(r@ =~= v@.subrange(from as int, i as int));
    }
    r
}

/// A copy of a character buffer.
pub fn copy_chars(v: &Vec<char>) -> (r: Vec<char>)
    ensures
        r@ == v@,
{
    let r = slice_chars(v, 0, v.len());
    assert(v@.subrange(0, v@.len() as int) =~= v@);
    r
}

/// Appends the characters of `src` to `dst`.
pub fn extend_chars(dst: &mut Vec<char>, src: &Vec<char>)
    ensures
        final(dst)@ == old(dst)@ + src@,
{
    let mut i: usize = 0;
    while i < src.len()
        invariant
            i <= src.len(),
            dst@ == old(dst)@ + src@.subrange(0, i as int),
        decreases src.len() - i,
    {
        dst.push(src[i]);
        i = i + 1;
        assert(dst@ =~= old(dst)@ + src@.subrange(0, i as int));
    }
    assert(src@.subrange(0, src@.len() as int) =~= src@);
}

/// Appends the characters of a string slice to `dst`.
pub fn extend_str(dst: &mut Vec<char>, src: &str)
    ensures
        final(dst)@ == old(dst)@ + src@,
{
    let v = chars_of(src);
    extend_chars(dst, &v);
}

/// Two character buffers are equal.
pub fn chars_eq(a: &Vec<char>, b: &Vec<char>) -> (r: bool)
    ensures
        r == (a@ == b@),
{
    if a.len() != b.len() {
        return false;
    }
    let mut i: usize = 0;
    while i < a.len()
        invariant
            a.len() == b.len(),
            i <= a.len(),
            forall|j: int| 0 <= j < i ==> a@[j] == b@[j],
        decreases a.len() - i,
    {
        if a[i] != b[i] {
            return false;
        }
        i = i + 1;
    }
    assert(a@ =~= b@);
    true
}

/// Two string slices hold the same characters.
pub fn str_eq(a: &str, b: &str) -> (r: bool)
    ensures
        r == (a@ == b@),
{
    let va = chars_of(a);
    let vb = chars_of(b);
    chars_eq(&va, &vb)
}

/// `pat` occurs in `s` at index `i`.
pub fn occurs_at_exec(s: &Vec<char>, pat: &Vec<char>, i: usize) -> (r: bool)
    ensures
        r == occurs_at(s@, pat@, i as int),
{
    if i > s.len() || pat.len() > s.len() - i {
        return false;
    }
    let mut j: usize = 0;
    while j < pat.len()
        invariant
            i + pat.len() <= s.len(),
            j <= pat.len(),
            forall|k: int| 0 <= k < j ==> s@[i + k] == pat@[k],
        decreases pat.len() - j,
    {
        if s[i + j] != pat[j] {
            assert(s@.subrange(i as int, i + pat.len())[j as int] != pat@[j as int]);
            return false;
        }
        j = j + 1;
    }
    assert(s@.subrange(i as int, i + pat.len()) =~= pat@);
    true
}

/// First occurrence of `pat` in `s` at or after `from`.
pub fn find_from_exec(s: &Vec<char>, pat: &Vec<char>, from: usize) -> (r: Option<usize>)
    ensures
        match r {
            Some(k) => find_from(s@, pat@, from as int) == Some(k as int),
            None => find_from(s@, pat@, from as int) is None,
        },
{
    let mut i: usize = from;
    while i <= s.len() && pat.len() <= s.len() - i
        invariant
            from <= i,
            find_from(s@, pat@, from as int) == find_from(s@, pat@, i as int),
        decreases s.len() + 1 - i,
    {
        if occurs_at_exec(s, pat, i) {
            return Some(i);
        }
        if i == s.len() {
            assert(find_from(s@, pat@, i + 1) is None);
            return None;
        }
        i = i + 1;
    }
    None
}

/// First occurrence of `pat` in `s`.
pub fn find_exec(s: &Vec<char>, pat: &Vec<char>) -> (r: Option<usize>)
    ensures
        match r {
            Some(k) => find_seq(s@, pat@) == Some(k as int),
            None => find_seq(s@, pat@) is None,
        },
{
    find_from_exec(s, pat, 0)
}

/// `pat` occurs in `s`.
pub fn contains_exec(s: &Vec<char>, pat: &Vec<char>) -> (r: bool)
    ensures
        r == contains_seq(s@, pat@),
{
    proof {
        lemma_find_contains(s@, pat@);
    }
    find_exec(s, pat).is_some()
}

/// Last occurrence of `pat` in `s`.
pub fn rfind_exec(s: &Vec<char>, pat: &Vec<char>) -> (r: Option<usize>)
    ensures
        match r {
            Some(k) => rfind_seq(s@, pat@) == Some(k as int),
            None => rfind_seq(s@, pat@) is None,
        },
{
    if pat.len() > s.len() {
        return None;
    }
    let mut i: usize = s.len() - pat.len();
    loop
        invariant
            i <= s.len() - pat.len(),
            pat.len() <= s.len(),
            rfind_seq(s@, pat@) == rfind_upto(s@, pat@, i as int),
        decreases i,
    {
        if occurs_at_exec(s, pat, i) {
            return Some(i);
        }
        if i == 0 {
            assert(rfind_upto(s@, pat@, -1) is None);
            return None;
        }
        i = i - 1;
    }
}

/// `s` starts with `p`.
pub fn starts_with_exec(s: &Vec<char>, p: &Vec<char>) -> (r: bool)
    ensures
        r == starts_with(s@, p@),
{
    let r = occurs_at_exec(s, p, 0);
    proof {
        if starts_with(s@, p@) {
            assert(occurs_at(s@, p@, 0));
        }
    }
    r
}

/// `s` ends with `p`.
pub fn ends_with_exec(s: &Vec<char>, p: &Vec<char>) -> (r: bool)
    ensures
        r == ends_with(s@, p@),
{
    if p.len() > s.len() {
        return false;
    }
    occurs_at_exec(s, p, s.len() - p.len())
}

/// `s` starts with the string slice `p`.
pub fn starts_with_str(s: &Vec<char>, p: &str) -> (r: bool)
    ensures
        r == starts_with(s@, p@),
{
    let pv = chars_of(p);
    starts_with_exec(s, &pv)
}

/// `s` ends with the string slice `p`.
pub fn ends_with_str(s: &Vec<char>, p: &str) -> (r: bool)
    ensures
        r == ends_with(s@, p@),
{
    let pv = chars_of(p);
    ends_with_exec(s, &pv)
}

/// `p` occurs in `s`.
pub fn contains_str(s: &Vec<char>, p: &str) -> (r: bool)
    ensures
        r == contains_seq(s@, p@),
{
    let pv = chars_of(p);
    contains_exec(s, &pv)
}

/// `c` occurs in `s`.
pub fn contains_char(s: &Vec<char>, c: char) -> (r: bool)
    ensures
        r == s@.contains(c),
{
    let mut i: usize = 0;
    while i < s.len()
        invariant
            i <= s.len(),
            forall|j: int| 0 <= j < i ==> s@[j] != c,
        decreases s.len() - i,
    {
        if s[i] == c {
            assert(s@[i as int] == c);
            return true;
        }
        i = i + 1;
    }
    false
}

/// Joins character buffers with a separator.
pub fn join_exec(parts: &Vec<Vec<char>>, sep: &str) -> (r: Vec<char>)
    ensures
        r@ == join_seq(char_views(parts@), sep@),
{
    let mut out: Vec<char> = Vec::new();
    let mut i: usize = 0;
    while i < parts.len()
        invariant
            i <= parts.len(),
            out@ == join_seq(char_views(parts@).take(i as int), sep@),
        decreases parts.len() - i,
    {
        let ghost pre = char_views(parts@).take(i as int);
        assert(char_views(parts@).take(i + 1) =~= pre.push(parts@[i as int]@));
        assert(pre.push(parts@[i as int]@).drop_last() =~= pre);
        if i > 0 {
            extend_str(&mut out, sep);
        } else {
            assert(pre.push(parts@[i as int]@) =~= seq![parts@[i as int]@]);
        }
        extend_chars(&mut out, &parts[i]);
        i = i + 1;
    }
    assert(char_views(parts@).take(parts@.len() as int) =~= char_views(parts@));
    out
}

/// `s` with each run of equal adjacent elements reduced to one (std's `Vec::dedup`).
pub open spec fn dedup_adjacent(s: Seq<Seq<char>>) -> Seq<Seq<char>>
    decreases s.len(),
{
    if s.len() == 0 {
        s
    } else {
        let d = dedup_adjacent(s.drop_last());
        if d.len() > 0 && d.last() == s.last() {
            d
        } else {
            d.push(s.last())
        }
    }
}

/// Removes adjacent duplicates (std's `Vec::dedup`).
pub fn dedup_adjacent_exec(v: &Vec<Vec<char>>) -> (r: Vec<Vec<char>>)
    ensures
        char_views(r@) == dedup_adjacent(char_views(v@)),
{
    let mut out: Vec<Vec<char>> = Vec::new();
    let mut i: usize = 0;
    while i < v.len()
        invariant
            i <= v.len(),
            char_views(out@) == dedup_adjacent(char_views(v@).take(i as int)),
        decreases v.len() - i,
    {
        let ghost pre = char_views(v@).take(i as int);
        assert(char_views(v@).take(i + 1).drop_last() =~= pre);
        assert(char_views(v@).take(i + 1).last() == v@[i as int]@);
        let dup = out.len() > 0 && chars_eq(&out[out.len() - 1], &v[i]);
        proof {
            if out@.len() > 0 {
                assert(char_views(out@).last() == out@[out@.len() - 1]@);
            }
        }
        if !dup {
            let ghost before = out@;
            out.push(copy_chars(&v[i]));
            assert(char_views(out@) =~= char_views(before).push(v@[i as int]@));
        }
        i = i + 1;
    }
    assert(char_views(v@).take(v@.len() as int) =~= char_views(v@));
    out
}

/// Whether `c` is whitespace (std's `char::is_whitespace`).
pub(crate) fn char_is_whitespace(c: char) -> (r: bool)
    ensures
        r == is_whitespace_char(c),
{
    let n = c as u32;
    (0x09 <= n && n <= 0x0d) || n == 0x20 || n == 0x85 || n == 0xa0 || n == 0x1680 || (0x2000 <= n && n
        <= 0x200a) || n == 0x2028 || n == 0x2029 || n == 0x202f || n == 0x205f || n == 0x3000
}

/// Whether `c` is uppercase (std's `char::is_uppercase`).
#[verifier::external_body]
pub(crate) fn char_is_uppercase(c: char) -> (r: bool)
    ensures
        r == is_uppercase_char(c),
{
    c.is_uppercase()
}

/// Whether `c` is lowercase (std's `char::is_lowercase`).
#[verifier::external_body]
pub(crate) fn char_is_lowercase(c: char) -> (r: bool)
    ensures
        r == is_lowercase_char(c),
{
    c.is_lowercase()
}

/// Whether `c` is alphanumeric (std's `char::is_alphanumeric`).
#[verifier::external_body]
pub(crate) fn char_is_alphanumeric(c: char) -> (r: bool)
    ensures
        r == is_alphanumeric_char(c),
{
    c.is_alphanumeric()
}

/// The lowercase form of `s` (std's `str::to_lowercase`).
#[verifier::external_body]
pub(crate) fn to_lowercase_str(s: &str) -> (r: String)
    ensures
        r@ == lowercase_of(s@),
{
    s.to_lowercase()
}

/// The lowercase form of a character buffer.
pub fn to_lowercase_chars(v: &Vec<char>) -> (r: Vec<char>)
    ensures
        r@ == lowercase_of(v@),
{
    let s = string_of(v);
    let l = to_lowercase_str(s.as_str());
    chars_of(l.as_str())
}

/// Splits `s` on the non-empty separator `sep` (std's `str::split` with a
/// string pattern).
pub fn split_exec(s: &Vec<char>, sep: &Vec<char>) -> (r: Vec<Vec<char>>)
    requires
        sep@.len() > 0,
    ensures
        char_views(r@) == split_seq(s@, sep@),
{
    let mut parts: Vec<Vec<char>> = Vec::new();
    let mut pos: usize = 0;
    assert(s@.subrange(0, s@.len() as int) =~= s@);
    loop
        invariant
            sep@.len() > 0,
            pos <= s.len(),
            char_views(parts@) + split_seq(s@.subrange(pos as int, s@.len() as int), sep@)
                == split_seq(s@, sep@),
        decreases s.len() - pos,
    {
        let ghost t = s@.subrange(pos as int, s@.len() as int);
        proof {
            lemma_find_in_suffix(s@, sep@, pos as int, 0);
            lemma_find_from(s@, sep@, pos as int);
        }
        match find_from_exec(s, sep, pos) {
            Some(k) => {
                let piece = slice_chars(s, pos, k);
                proof {
                    let kk = k - pos;
                    assert(find_seq(t, sep@) == Some(kk));
                    assert(t.subrange(0, kk) =~= s@.subrange(pos as int, k as int));
                    assert(t.subrange(kk + sep@.len(), t.len() as int) =~= s@.subrange(
                        k + sep@.len(),
                        s@.len() as int,
                    ));
                    assert(split_seq(t, sep@) == seq![t.subrange(0, kk)] + split_seq(
                        t.subrange(kk + sep@.len(), t.len() as int),
                        sep@,
                    ));
                }
                let ghost old_parts = parts@;
                parts.push(piece);
                proof {
                    assert(char_views(parts@) =~= char_views(old_parts).push(
                        s@.subrange(pos as int, k as int),
                    ));
                    assert(char_views(parts@) + split_seq(
                        s@.subrange(k + sep@.len(), s@.len() as int),
                        sep@,
                    ) =~= char_views(old_parts) + split_seq(t, sep@));
                }
                pos = k + sep.len();
            },
            None => {
                let piece = slice_chars(s, pos, s.len());
                proof {
                    assert(find_seq(t, sep@) is None);
                    assert(split_seq(t, sep@) == seq![t]);
                }
                let ghost old_parts = parts@;
                parts.push(piece);
                proof {
                    assert(char_views(parts@) =~= char_views(old_parts) + seq![t]);
                }
                return parts;
            },
        }
    }
}

/// Splits on a separator given as a string slice.
pub fn split_str(s: &Vec<char>, sep: &str) -> (r: Vec<Vec<char>>)
    requires
        sep@.len() > 0,
    ensures
        char_views(r@) == split_seq(s@, sep@),
{
    let sv = chars_of(sep);
    split_exec(s, &sv)
}

/// Whitespace-separated words of `s` (std's `split_whitespace`).
pub fn words_exec(s: &Vec<char>) -> (r: Vec<Vec<char>>)
    ensures
        char_views(r@) == words(s@),
{
    let ghost ws = |c: char| is_whitespace_char(c);
    let mut out: Vec<Vec<char>> = Vec::new();
    let mut cur: Vec<char> = Vec::new();
    let mut i: usize = 0;
    assert(s@.subrange(0, 0) =~= Seq::<char>::empty());
    while i < s.len()
        invariant
            i <= s.len(),
            ws == (|c: char| is_whitespace_char(c)),
            split_by_pred(s@.subrange(0, i as int), ws).len() > 0,
            cur@ == split_by_pred(s@.subrange(0, i as int), ws).last(),
            char_views(out@) == non_empty(split_by_pred(s@.subrange(0, i as int), ws).drop_last()),
        decreases s.len() - i,
    {
        let c = s[i];
        let ghost pre = s@.subrange(0, i as int);
        let ghost r = split_by_pred(pre, ws);
        let ghost post = s@.subrange(0, i + 1);
        assert(post.drop_last() =~= pre);
        assert(post.last() == c);
        if char_is_whitespace(c) {
            proof {
                assert(split_by_pred(post, ws) == r.push(Seq::empty()));
                lemma_non_empty_push(r.drop_last(), r.last());
                assert(r.drop_last().push(r.last()) =~= r);
                assert(r.push(Seq::<char>::empty()).drop_last() =~= r);
            }
            if cur.len() > 0 {
                let ghost old_out = out@;
                out.push(cur);
                assert(char_views(out@) =~= char_views(old_out).push(r.last()));
            }
            cur = Vec::new();
            assert(cur@ =~= Seq::<char>::empty());
        } else {
            proof {
                assert(split_by_pred(post, ws) == r.update(r.len() - 1, r.last().push(c)));
                assert(r.update(r.len() - 1, r.last().push(c)).drop_last() =~= r.drop_last());
            }
            cur.push(c);
        }
        i = i + 1;
    }
    proof {
        let r = split_by_pred(s@.subrange(0, i as int), ws);
        assert(s@.subrange(0, i as int) =~= s@);
        lemma_non_empty_push(r.drop_last(), r.last());
        assert(r.drop_last().push(r.last()) =~= r);
    }
    if cur.len() > 0 {
        let ghost old_out = out@;
        out.push(cur);
        assert(char_views(out@) =~= char_views(old_out).push(
            split_by_pred(s@, |c: char| is_whitespace_char(c)).last(),
        ));
    }
    out
}

} // verus!

verus! {

/// `s` without its trailing whitespace (std's `str::trim_end`).
pub open spec fn trim_end_seq(s: Seq<char>) -> Seq<char>
    decreases s.len(),
{
    if s.len() > 0 && is_whitespace_char(s.last()) {
        trim_end_seq(s.drop_last())
    } else {
        s
    }
}

/// `s` without its leading whitespace (std's `str::trim_start`).
pub open spec fn trim_start_seq(s: Seq<char>) -> Seq<char>
    decreases s.len(),
{
    if s.len() > 0 && is_whitespace_char(s[0]) {
        trim_start_seq(s.drop_first())
    } else {
        s
    }
}

/// `s` without leading and trailing whitespace (std's `str::trim`).
pub open spec fn trim_seq(s: Seq<char>) -> Seq<char> {
    trim_start_seq(trim_end_seq(s))
}

/// The number of characters that remain once trailing whitespace is removed.
fn trim_end_len(v: &Vec<char>) -> (n: usize)
    ensures
        n <= v.len(),
        trim_end_seq(v@) == v@.subrange(0, n as int),
{
    let mut n = v.len();
    assert(v@.subrange(0, n as int) =~= v@);
    while n > 0 && char_is_whitespace(v[n - 1])
        invariant
            n <= v.len(),
            trim_end_seq(v@) == trim_end_seq(v@.subrange(0, n as int)),
        decreases n,
    {
        assert(v@.subrange(0, n as int).drop_last() =~= v@.subrange(0, n - 1));
        n = n - 1;
    }
    n
}

/// The number of leading whitespace characters.
fn trim_start_len(v: &Vec<char>) -> (n: usize)
    ensures
        n <= v.len(),
        trim_start_seq(v@) == v@.subrange(n as int, v@.len() as int),
{
    let mut n: usize = 0;
    assert(v@.subrange(0, v@.len() as int) =~= v@);
    while n < v.len() && char_is_whitespace(v[n])
        invariant
            n <= v.len(),
            trim_start_seq(v@) == trim_start_seq(v@.subrange(n as int, v@.len() as int)),
        decreases v.len() - n,
    {
        assert(v@.subrange(n as int, v@.len() as int).drop_first() =~= v@.subrange(
            n + 1,
            v@.len() as int,
        ));
        n = n + 1;
    }
    n
}

/// A copy of `v` without trailing whitespace.
pub fn trim_end_chars(v: &Vec<char>) -> (r: Vec<char>)
    ensures
        r@ == trim_end_seq(v@),
{
    let n = trim_end_len(v);
    slice_chars(v, 0, n)
}

/// A copy of `v` without leading and trailing whitespace.
pub fn trim_chars(v: &Vec<char>) -> (r: Vec<char>)
    ensures
        r@ == trim_seq(v@),
{
    let e = trim_end_chars(v);
    let n = trim_start_len(&e);
    let m = e.len();
    slice_chars(&e, n, m)
}

/// The string `s` without trailing whitespace.
pub fn trim_end_str(s: &str) -> (r: String)
    ensures
        r@ == trim_end_seq(s@),
{
    let v = chars_of(s);
    let t = trim_end_chars(&v);
    string_of(&t)
}

/// A copy of a list of strings.
pub fn clone_strings(v: &Vec<String>) -> (r: Vec<String>)
    ensures
        r@ == v@,
{
    let mut r: Vec<String> = Vec::new();
    let mut i: usize = 0;
    while i < v.len()
        invariant
            i <= v.len(),
            r@ == v@.subrange(0, i as int),
        decreases v.len() - i,
    {
        r.push(v[i].clone());
        i = i + 1;
        assert(r@ =~= v@.subrange(0, i as int));
    }
    assert(v@.subrange(0, v@.len() as int) =~= v@);
    r
}

/// `x` is one of the strings of `v`.
pub fn contains_string(v: &[String], x: &str) -> (r: bool)
    ensures
        r == views(v@).contains(x@),
{
    let mut i: usize = 0;
    while i < v.len()
        invariant
            i <= v.len(),
            forall|j: int| 0 <= j < i ==> views(v@)[j] != x@,
        decreases v.len() - i,
    {
        if str_eq(v[i].as_str(), x) {
            assert(views(v@)[i as int] == x@);
            return true;
        }
        i = i + 1;
    }
    false
}

/// The buffers of `parts` as strings.
pub fn strings_of(parts: &Vec<Vec<char>>) -> (r: Vec<String>)
    ensures
        views(r@) == char_views(parts@),
{
    let mut r: Vec<String> = Vec::new();
    let mut i: usize = 0;
    while i < parts.len()
        invariant
            i <= parts.len(),
            views(r@) == char_views(parts@).take(i as int),
        decreases parts.len() - i,
    {
        let ghost before = views(r@);
        r.push(string_of(&parts[i]));
        assert(views(r@) =~= before.push(parts@[i as int]@));
        assert(char_views(parts@).take(i + 1) =~= char_views(parts@).take(i as int).push(parts@[i as int]@));
        i = i + 1;
    }
    assert(char_views(parts@).take(parts.len() as int) =~= char_views(parts@));
    r
}

/// A copy of an optional string.
pub fn clone_opt_string(s: &Option<String>) -> (r: Option<String>)
    ensures
        r == *s,
{
    match s {
        Some(x) => Some(x.clone()),
        None => None,
    }
}

} // verus!

verus! {

/// A line without the carriage return of a CRLF ending.
pub open spec fn strip_cr(l: Seq<char>) -> Seq<char> {
    if l.len() > 0 && l.last() == '\r' {
        l.drop_last()
    } else {
        l
    }
}

/// The lines of `s` (std's `str::lines`): the pieces between `\n`s, each
/// ended line without a trailing `\r`, and a last piece only when it is not
/// empty.
pub open spec fn lines_seq(s: Seq<char>) -> Seq<Seq<char>> {
    let parts = split_seq(s, seq!['\n']);
    let ended = parts.drop_last().map_values(|l: Seq<char>| strip_cr(l));
    if parts.last().len() > 0 {
        ended.push(parts.last())
    } else {
        ended
    }
}

/// The lines of a character buffer.
pub fn lines_exec(s: &Vec<char>) -> (r: Vec<Vec<char>>)
    ensures
        char_views(r@) == lines_seq(s@),
{
    let mut nl: Vec<char> = Vec::new();
    nl.push('\n');
    assert(nl@ =~= seq!['\n']);
    let parts = split_exec(s, &nl);
    proof {
        lemma_split_nonempty(s@, seq!['\n']);
    }
    let n = parts.len();
    let ghost pv = char_views(parts@);
    let mut out: Vec<Vec<char>> = Vec::new();
    let mut i: usize = 0;
    while i + 1 < n
        invariant
            n == parts.len(),
            n >= 1,
            i < n,
            pv == char_views(parts@),
            pv == split_seq(s@, seq!['\n']),
            char_views(out@) == pv.take(i as int).map_values(|l: Seq<char>| strip_cr(l)),
        decreases n - i,
    {
        let p = &parts[i];
        let m = p.len();
        let line = if m > 0 && p[m - 1] == '\r' {
            slice_chars(p, 0, m - 1)
        } else {
            copy_chars(p)
        };
        proof {
            assert(pv[i as int] == p@);
            assert(line@ == strip_cr(p@)) by {
                if m > 0 && p@.last() == '\r' {
                    assert(p@.drop_last() =~= p@.subrange(0, m - 1));
                }
            }
        }
        let ghost before = char_views(out@);
        out.push(line);
        proof {
            assert(char_views(out@) =~= before.push(strip_cr(pv[i as int])));
            assert(pv.take(i + 1).map_values(|l: Seq<char>| strip_cr(l)) =~= pv.take(
                i as int,
            ).map_values(|l: Seq<char>| strip_cr(l)).push(strip_cr(pv[i as int])));
        }
        i = i + 1;
    }
    assert(pv.take(i as int) =~= pv.drop_last());
    let last = &parts[n - 1];
    assert(pv.last() == last@);
    if last.len() > 0 {
        let ghost before = char_views(out@);
        out.push(copy_chars(last));
        assert(char_views(out@) =~= before.push(last@));
    }
    out
}

/// Splitting always yields at least one piece.
pub proof fn lemma_split_nonempty(s: Seq<char>, sep: Seq<char>)
    requires
        sep.len() > 0,
    ensures
        split_seq(s, sep).len() >= 1,
{
}

/// `acc` followed by the elements of `more` not seen before, in order.
pub open spec fn add_new(acc: Seq<Seq<char>>, more: Seq<Seq<char>>) -> Seq<Seq<char>>
    decreases more.len(),
{
    if more.len() == 0 {
        acc
    } else {
        let a = add_new(acc, more.drop_last());
        if a.contains(more.last()) {
            a
        } else {
            a.push(more.last())
        }
    }
}

} // verus!

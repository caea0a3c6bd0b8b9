//! Checking an agent's edits: which lines a diff modified, and whether the
//! known callers of the target symbol were among them.
use vstd::prelude::*;
use crate::num::{parse_i64, parse_i64_spec};
use crate::text::{
    char_views, chars_of, lines_exec, lines_seq, rfind_exec, rfind_seq, slice_chars, starts_with,
    starts_with_str, string_of,
};

verus! {

/// The lines a diff modified, per file: a set of `(file, line)` marks.
#[derive(Debug, Clone)]
pub struct DiffModifications {
    marks: Vec<(String, i64)>,
}

impl DiffModifications {
    /// The modified lines of each file.
    pub closed spec fn view(&self) -> Map<Seq<char>, Set<int>> {
        Map::new(
            |f: Seq<char>| exists|i: int| 0 <= i < self.marks@.len() && #[trigger] self.marks@[i].0@ == f,
            |f: Seq<char>| Set::new(|l: int| exists|i: int| 0 <= i < self.marks@.len() && #[trigger] self.marks@[i].0@ == f && self.marks@[i].1 == l),
        )
    }

    /// No modifications.
    pub fn new() -> (r: Self)
        ensures
            r.view() == Map::<Seq<char>, Set<int>>::empty(),
    {
        let r = DiffModifications { marks: Vec::new() };
        assert(r.view() =~= Map::<Seq<char>, Set<int>>::empty());
        r
    }

    /// Records that `line` of `file` was modified.
    pub fn insert(&mut self, file: String, line: i64)
        ensures
            final(self).view() == old(self).view().insert(
                file@,
                if old(self).view().contains_key(file@) {
                    old(self).view()[file@].insert(line as int)
                } else {
                    Set::empty().insert(line as int)
                },
            ),
    {
        let ghost old_marks = self.marks@;
        let ghost f = file@;
        self.marks.push((file, line));
        proof {
            let m = self.marks@;
            assert(m[m.len() - 1].0@ == f);
            assert forall|k: int| 0 <= k < old_marks.len() implies m[k] == old_marks[k] by {}
            let old_view = Map::new(
                |g: Seq<char>| exists|i: int| 0 <= i < old_marks.len() && #[trigger] old_marks[i].0@ == g,
                |g: Seq<char>| Set::new(|l: int| exists|i: int| 0 <= i < old_marks.len() && #[trigger] old_marks[i].0@ == g && old_marks[i].1 == l),
            );
            assert(self.view().dom() =~= old_view.dom().insert(f)) by {
                assert forall|g: Seq<char>| #[trigger] self.view().dom().contains(g) <==> old_view.dom().contains(g) || g == f by {
                    if g == f {
                        assert(m[m.len() - 1].0@ == g);
                    }
                    if old_view.dom().contains(g) {
                        let i = choose|i: int| 0 <= i < old_marks.len() && #[trigger] old_marks[i].0@ == g;
                        assert(m[i].0@ == g);
                    }
                }
            }
            assert forall|g: Seq<char>| #[trigger] self.view().dom().contains(g) implies self.view()[g] =~= (if g == f {
                if old_view.dom().contains(f) {
                    old_view[f].insert(line as int)
                } else {
                    Set::empty().insert(line as int)
                }
            } else {
                old_view[g]
            }) by {
                assert forall|l: int| #[trigger] self.view()[g].contains(l) <==> (if g == f {
                    if old_view.dom().contains(f) {
                        old_view[f].insert(line as int)
                    } else {
                        Set::empty().insert(line as int)
                    }
                } else {
                    old_view[g]
                }).contains(l) by {
                    if self.view()[g].contains(l) {
                        let i = choose|i: int| 0 <= i < m.len() && #[trigger] m[i].0@ == g && m[i].1 == l;
                        if i < old_marks.len() {
                            assert(old_marks[i].0@ == g && old_marks[i].1 == l);
                        }
                    }
                    if g == f && l == line as int {
                        assert(m[m.len() - 1].0@ == g && m[m.len() - 1].1 == l);
                    }
                    if old_view.dom().contains(g) && old_view[g].contains(l) {
                        let i = choose|i: int| 0 <= i < old_marks.len() && #[trigger] old_marks[i].0@ == g && old_marks[i].1 == l;
                        assert(m[i].0@ == g && m[i].1 == l);
                    }
                }
            }
            assert(self.view() =~= old_view.insert(
                f,
                if old_view.dom().contains(f) {
                    old_view[f].insert(line as int)
                } else {
                    Set::empty().insert(line as int)
                },
            ));
        }
    }

    /// Whether any line of `file` was modified.
    pub fn contains_key(&self, file: &str) -> (r: bool)
        ensures
            r == self.view().contains_key(file@),
    {
        let mut i: usize = 0;
        while i < self.marks.len()
            invariant
                i <= self.marks@.len(),
                forall|k: int| 0 <= k < i ==> #[trigger] self.marks@[k].0@ != file@,
            decreases self.marks.len() - i,
        {
            if crate::text::str_eq(self.marks[i].0.as_str(), file) {
                assert(self.marks@[i as int].0@ == file@);
                return true;
            }
            i = i + 1;
        }
        false
    }

    /// The modified lines of `file` (each at least once).
    pub fn lines_of(&self, file: &str) -> (r: Vec<i64>)
        ensures
            forall|l: i64| #[trigger] r@.contains(l) <==> (self.view().contains_key(file@) && self.view()[file@].contains(
                l as int,
            )),
    {
        let mut r: Vec<i64> = Vec::new();
        let mut i: usize = 0;
        while i < self.marks.len()
            invariant
                i <= self.marks@.len(),
                forall|l: i64| #[trigger] r@.contains(l) <==> exists|k: int|
                    0 <= k < i && #[trigger] self.marks@[k].0@ == file@ && self.marks@[k].1 == l,
            decreases self.marks.len() - i,
        {
            let ghost before = r@;
            if crate::text::str_eq(self.marks[i].0.as_str(), file) {
                r.push(self.marks[i].1);
                proof {
                    assert forall|l: i64| #[trigger] r@.contains(l) <==> exists|k: int|
                        0 <= k < i + 1 && #[trigger] self.marks@[k].0@ == file@ && self.marks@[k].1 == l by {
                        if r@.contains(l) {
                            let q = choose|q: int| 0 <= q < r@.len() && r@[q] == l;
                            if q < before.len() {
                                assert(before[q] == l);
                                assert(before.contains(l));
                            } else {
                                assert(self.marks@[i as int].0@ == file@ && self.marks@[i as int].1 == l);
                            }
                        }
                        if exists|k: int| 0 <= k < i + 1 && #[trigger] self.marks@[k].0@ == file@ && self.marks@[k].1 == l {
                            let k = choose|k: int| 0 <= k < i + 1 && #[trigger] self.marks@[k].0@ == file@ && self.marks@[k].1 == l;
                            if k < i {
                                assert(exists|k2: int| 0 <= k2 < i && #[trigger] self.marks@[k2].0@ == file@ && self.marks@[k2].1 == l);
                                assert(before.contains(l));
                                let q = choose|q: int| 0 <= q < before.len() && before[q] == l;
                                assert(r@[q] == l);
                            } else {
                                assert(r@[before.len() as int] == l);
                            }
                        }
                    }
                }
            } else {
                proof {
                    assert forall|l: i64| #[trigger] r@.contains(l) <==> exists|k: int|
                        0 <= k < i + 1 && #[trigger] self.marks@[k].0@ == file@ && self.marks@[k].1 == l by {
                        if exists|k: int| 0 <= k < i + 1 && #[trigger] self.marks@[k].0@ == file@ && self.marks@[k].1 == l {
                            let k = choose|k: int| 0 <= k < i + 1 && #[trigger] self.marks@[k].0@ == file@ && self.marks@[k].1 == l;
                            assert(k < i);
                        }
                    }
                }
            }
            i = i + 1;
        }
        proof {
            assert forall|l: i64| #[trigger] r@.contains(l) <==> (self.view().contains_key(file@) && self.view()[file@].contains(
                l as int,
            )) by {
                if self.view().contains_key(file@) && self.view()[file@].contains(l as int) {
                    let k = choose|k: int| 0 <= k < self.marks@.len() && #[trigger] self.marks@[k].0@ == file@ && self.marks@[k].1 == l as int;
                    assert(self.marks@[k].1 == l);
                }
                if r@.contains(l) {
                    let k = choose|k: int| 0 <= k < self.marks@.len() && #[trigger] self.marks@[k].0@ == file@ && self.marks@[k].1 == l;
                    assert(self.view().contains_key(file@));
                    assert(self.view()[file@].contains(l as int));
                }
            }
        }
        r
    }

    /// Whether `line` of `file` was modified.
    pub fn contains_line(&self, file: &str, line: i64) -> (r: bool)
        ensures
            r == (self.view().contains_key(file@) && self.view()[file@].contains(line as int)),
    {
        let mut i: usize = 0;
        while i < self.marks.len()
            invariant
                i <= self.marks@.len(),
                forall|k: int| 0 <= k < i ==> !(#[trigger] self.marks@[k].0@ == file@ && self.marks@[k].1 == line),
            decreases self.marks.len() - i,
        {
            if crate::text::str_eq(self.marks[i].0.as_str(), file) && self.marks[i].1 == line {
                assert(self.marks@[i as int].0@ == file@ && self.marks@[i as int].1 == line);
                return true;
            }
            i = i + 1;
        }
        false
    }

    /// Whether no file was modified.
    pub fn is_empty(&self) -> (r: bool)
        ensures
            r == (self.view().dom() == Set::<Seq<char>>::empty()),
    {
        proof {
            if self.marks@.len() > 0 {
                assert(self.view().dom().contains(self.marks@[0].0@));
            } else {
                assert(self.view().dom() =~= Set::<Seq<char>>::empty());
            }
        }
        self.marks.len() == 0
    }

    /// The number of files with modifications.
    pub fn len(&self) -> (r: usize)
        ensures
            r == self.view().dom().len(),
    {
        let mut seen: Vec<String> = Vec::new();
        let mut i: usize = 0;
        while i < self.marks.len()
            invariant
                i <= self.marks@.len(),
                crate::text::views(seen@).no_duplicates(),
                crate::text::views(seen@).to_set() == Set::new(
                    |f: Seq<char>| exists|k: int| 0 <= k < i && #[trigger] self.marks@[k].0@ == f,
                ),
                seen@.len() <= i,
            decreases self.marks.len() - i,
        {
            let f = &self.marks[i].0;
            let mut found = false;
            let mut j: usize = 0;
            while j < seen.len()
                invariant
                    j <= seen@.len(),
                    !found ==> forall|q: int| 0 <= q < j ==> crate::text::views(seen@)[q] != f@,
                    found ==> crate::text::views(seen@).contains(f@),
                decreases seen.len() - j,
            {
                if seen[j] == *f {
                    assert(crate::text::views(seen@)[j as int] == f@);
                    found = true;
                }
                j = j + 1;
            }
            let ghost before = crate::text::views(seen@);
            if !found {
                seen.push(f.clone());
                proof {
                    assert(crate::text::views(seen@) =~= before.push(f@));
                    assert(crate::text::views(seen@).no_duplicates()) by {
                        assert forall|a: int, b: int|
                            0 <= a < b < crate::text::views(seen@).len() implies crate::text::views(seen@)[a]
                            != crate::text::views(seen@)[b] by {
                            if b == before.len() {
                                assert(crate::text::views(seen@)[a] == before[a]);
                            }
                        }
                    }
                }
            }
            proof {
                assert(crate::text::views(seen@).to_set() =~= Set::new(
                    |g: Seq<char>| exists|k: int| 0 <= k < i + 1 && #[trigger] self.marks@[k].0@ == g,
                )) by {
                    assert forall|g: Seq<char>| #[trigger] crate::text::views(seen@).to_set().contains(g) <==> exists|k: int|
                        0 <= k < i + 1 && #[trigger] self.marks@[k].0@ == g by {
                        if g == f@ {
                            assert(self.marks@[i as int].0@ == g);
                        }
                        if crate::text::views(seen@).contains(g) && g != f@ {
                            assert(before.contains(g));
                            assert(before.to_set().contains(g));
                        }
                        if exists|k: int| 0 <= k < i + 1 && #[trigger] self.marks@[k].0@ == g {
                            if g != f@ {
                                let k = choose|k: int| 0 <= k < i + 1 && #[trigger] self.marks@[k].0@ == g;
                                assert(k < i);
                                assert(before.to_set().contains(g));
                                assert(before.contains(g));
                                let q = choose|q: int| 0 <= q < before.len() && before[q] == g;
                                assert(crate::text::views(seen@)[q] == g);
                            } else {
                                assert(crate::text::views(seen@).contains(f@)) by {
                                    if !found {
                                        assert(crate::text::views(seen@)[before.len() as int] == f@);
                                    }
                                }
                            }
                        }
                    }
                }
            }
            i = i + 1;
        }
        proof {
            crate::text::views(seen@).unique_seq_to_set();
            assert(self.view().dom() =~= crate::text::views(seen@).to_set());
        }
        seen.len()
    }
}

/// State of a diff scan: the file of the current section, the line the
/// next added or context line of it has, and the modifications so far.
pub struct DiffScan {
    /// The current file (from the last `+++ b/` header).
    pub file: Option<Seq<char>>,
    /// The new-file line number of the next line.
    pub line: int,
    /// Modified lines per file.
    pub mods: Map<Seq<char>, Set<int>>,
}

/// The digits that open `s`.
pub open spec fn leading_digits(s: Seq<char>) -> Seq<char>
    decreases s.len(),
{
    if s.len() > 0 && '0' <= s[0] <= '9' {
        seq![s[0]] + leading_digits(s.drop_first())
    } else {
        Seq::empty()
    }
}

/// The new-file start line of a hunk header, if it has one: the digits
/// after its first `+`, when they read as an `i64`.
pub open spec fn hunk_start(line: Seq<char>) -> Option<int> {
    match crate::text::find_seq(line, seq!['+']) {
        Some(p) => parse_i64_spec(leading_digits(line.skip(p + 1))),
        None => None,
    }
}

/// `m` with `line` added to `file`'s set.
pub open spec fn mark(m: Map<Seq<char>, Set<int>>, file: Seq<char>, line: int) -> Map<Seq<char>, Set<int>> {
    m.insert(file, if m.contains_key(file) { m[file].insert(line) } else { Set::empty().insert(line) })
}

/// One line of a unified diff: `+++ b/` opens a file; other `+++ ` and
/// `--- ` headers are skipped; a hunk header `@@ ` resets the line number;
/// inside a file an added line is marked and advances the number, a removed
/// line does not, and any other line advances it.
pub open spec fn scan_line(st: DiffScan, l: Seq<char>) -> DiffScan {
    if starts_with(l, "+++ b/"@) {
        DiffScan { file: Some(l.skip(6)), ..st }
    } else if starts_with(l, "+++ "@) || starts_with(l, "--- "@) {
        st
    } else if starts_with(l, "@@ "@) {
        match hunk_start(l) {
            Some(n) => DiffScan { line: n, ..st },
            None => st,
        }
    } else {
        match st.file {
            Some(f) => if l.len() > 0 && l[0] == '+' {
                DiffScan { line: st.line + 1, mods: mark(st.mods, f, st.line), ..st }
            } else if l.len() > 0 && l[0] == '-' {
                st
            } else {
                DiffScan { line: st.line + 1, ..st }
            },
            None => st,
        }
    }
}

/// The scan of a sequence of diff lines from the start state.
pub open spec fn scan_lines(ls: Seq<Seq<char>>) -> DiffScan
    decreases ls.len(),
{
    if ls.len() == 0 {
        DiffScan { file: None, line: 0, mods: Map::empty() }
    } else {
        scan_line(scan_lines(ls.drop_last()), ls.last())
    }
}

/// The line counter never passes `i64::MAX` during the scan (the count
/// would overflow).
pub open spec fn scan_fits(ls: Seq<Seq<char>>) -> bool {
    forall|k: int| 0 <= k <= ls.len() ==> #[trigger] scan_lines(ls.take(k)).line < i64::MAX
}

/// Some line of `ls` is the header `+++ b/` followed by `file`.
pub open spec fn has_file_header(ls: Seq<Seq<char>>, file: Seq<char>) -> bool {
    exists|i: int| 0 <= i < ls.len() && starts_with(#[trigger] ls[i], "+++ b/"@) && ls[i].skip(6) == file
}

/// Every line of `ls` that starts with `+` is a `+++ ` header.
pub open spec fn only_plus_headers(ls: Seq<Seq<char>>) -> bool {
    forall|i: int| 0 <= i < ls.len() && (#[trigger] ls[i]).len() > 0 && ls[i][0] == '+' ==> starts_with(ls[i], "+++ "@)
}

/// A header found among the first lines is found among all of them.
proof fn lemma_header_kept(ls: Seq<Seq<char>>, file: Seq<char>)
    requires
        ls.len() > 0,
        has_file_header(ls.drop_last(), file),
    ensures
        has_file_header(ls, file),
{
    let i = choose|i: int| 0 <= i < ls.drop_last().len() && starts_with(#[trigger] ls.drop_last()[i], "+++ b/"@)
        && ls.drop_last()[i].skip(6) == file;
    assert(ls.drop_last()[i] == ls[i]);
}

/// What the scan of a diff records comes from its added lines: every file
/// with modifications has its own `+++ b/` header in the diff and at least
/// one modified line; and a diff whose only lines starting with `+` are
/// `+++ ` headers records nothing. (So the empty diff records nothing, and
/// removed lines never add an entry.)
pub proof fn lemma_diff_marks_come_from_added_lines(ls: Seq<Seq<char>>)
    ensures
        scan_lines(ls).file is Some ==> has_file_header(ls, scan_lines(ls).file.unwrap()),
        forall|f: Seq<char>|
            #[trigger] scan_lines(ls).mods.contains_key(f) ==> has_file_header(ls, f) && exists|n: int|
                scan_lines(ls).mods[f].contains(n),
        only_plus_headers(ls) ==> scan_lines(ls).mods == Map::<Seq<char>, Set<int>>::empty(),
    decreases ls.len(),
{
    if ls.len() > 0 {
        let prev = ls.drop_last();
        lemma_diff_marks_come_from_added_lines(prev);
        let st = scan_lines(prev);
        let l = ls.last();
        assert(ls[ls.len() - 1] == l);
        let st2 = scan_lines(ls);
        if st.file is Some {
            lemma_header_kept(ls, st.file.unwrap());
        }
        if starts_with(l, "+++ b/"@) {
            assert(has_file_header(ls, l.skip(6)));
        }
        assert forall|f: Seq<char>| #[trigger] st2.mods.contains_key(f) implies has_file_header(ls, f) && exists|n: int|
            st2.mods[f].contains(n) by {
            if st.mods.contains_key(f) {
                lemma_header_kept(ls, f);
            }
            if st2.mods[f].contains(st.line) {
            } else {
                let n = choose|n: int| st.mods[f].contains(n);
                assert(st2.mods[f].contains(n));
            }
        }
        if only_plus_headers(ls) {
            assert(only_plus_headers(prev)) by {
                assert forall|i: int| 0 <= i < prev.len() && (#[trigger] prev[i]).len() > 0 && prev[i][0] == '+'
                    implies starts_with(prev[i], "+++ "@) by {
                    assert(prev[i] == ls[i]);
                }
            }
        }
    }
}

/// Parse a unified diff and extract modified line numbers per file.
///
/// Only tracks lines in the new version (lines with `+` prefix in the diff).
pub fn parse_diff_modifications(diff_text: &str) -> (r: DiffModifications)
    requires
        scan_fits(lines_seq(diff_text@)),
    ensures
        r.view() == scan_lines(lines_seq(diff_text@)).mods,
{
    proof {
        reveal_strlit("+++ b/");
        reveal_strlit("+++ ");
        reveal_strlit("--- ");
        reveal_strlit("@@ ");
    }
    let text = chars_of(diff_text);
    let lines = lines_exec(&text);
    let ghost ls = char_views(lines@);
    let mut mods = DiffModifications::new();
    let mut file: Option<Vec<char>> = None;
    let mut current: i64 = 0;
    let mut i: usize = 0;
    while i < lines.len()
        invariant
            i <= lines@.len(),
            ls == char_views(lines@),
            ls == lines_seq(diff_text@),
            scan_fits(ls),
            ({
                let st = scan_lines(ls.take(i as int));
                &&& mods.view() == st.mods
                &&& current == st.line
                &&& match file {
                    Some(f) => st.file == Some(f@),
                    None => st.file is None,
                }
            }),
        decreases lines.len() - i,
    {
        proof {
            reveal_strlit("+++ b/");
            reveal_strlit("+++ ");
            reveal_strlit("--- ");
            reveal_strlit("@@ ");
            assert(ls.take(i + 1).drop_last() =~= ls.take(i as int));
            assert(ls.take(i + 1).last() == lines@[i as int]@);
            assert(scan_lines(ls.take(i as int)).line < i64::MAX);
        }
        let l = &lines[i];
        let n = l.len();
        if starts_with_str(l, "+++ b/") {
            let f = slice_chars(l, 6, n);
            assert(f@ =~= l@.skip(6));
            file = Some(f);
        } else if starts_with_str(l, "+++ ") || starts_with_str(l, "--- ") {
        } else if starts_with_str(l, "@@ ") {
            let mut plus: Vec<char> = Vec::new();
            plus.push('+');
            assert(plus@ =~= seq!['+']);
            match crate::text::find_exec(l, &plus) {
                Some(p) => {
                    proof {
                        crate::text::lemma_find_from(l@, plus@, 0);
                    }
                    let after = slice_chars(l, p + 1, n);
                    assert(after@ =~= l@.skip(p + 1));
                    let digits = leading_digits_exec(&after);
                    match parse_i64(&digits) {
                        Some(v) => {
                            current = v;
                        },
                        None => {},
                    }
                },
                None => {},
            }
        } else {
            match &file {
                Some(f) => {
                    if n > 0 && l[0] == '+' {
                        mods.insert(string_of(f), current);
                        current = current + 1;
                    } else if n > 0 && l[0] == '-' {
                    } else {
                        current = current + 1;
                    }
                },
                None => {},
            }
        }
        i = i + 1;
    }
    assert(ls.take(ls.len() as int) =~= ls);
    mods
}

/// The digits that open a buffer.
fn leading_digits_exec(s: &Vec<char>) -> (r: Vec<char>)
    ensures
        r@ == leading_digits(s@),
{
    let mut k: usize = 0;
    while k < s.len() && '0' <= s[k] && s[k] <= '9'
        invariant
            k <= s.len(),
            forall|j: int| 0 <= j < k ==> '0' <= #[trigger] s@[j] <= '9',
        decreases s.len() - k,
    {
        k = k + 1;
    }
    let r = slice_chars(s, 0, k);
    proof {
        lemma_leading_digits(s@, k as int);
    }
    r
}

/// `leading_digits` is the longest prefix of digits.
proof fn lemma_leading_digits(s: Seq<char>, k: int)
    requires
        0 <= k <= s.len(),
        forall|j: int| 0 <= j < k ==> '0' <= #[trigger] s[j] <= '9',
        k == s.len() || !('0' <= s[k] <= '9'),
    ensures
        leading_digits(s) == s.subrange(0, k),
    decreases k,
{
    if k == 0 {
        assert(s.subrange(0, 0) =~= Seq::<char>::empty());
    } else {
        assert forall|j: int| 0 <= j < k - 1 implies '0' <= #[trigger] s.drop_first()[j] <= '9' by {
            assert(s.drop_first()[j] == s[j + 1]);
        }
        if k - 1 < s.drop_first().len() {
            assert(s.drop_first()[k - 1] == s[k]);
        }
        lemma_leading_digits(s.drop_first(), k - 1);
        assert(s.subrange(0, k) =~= seq![s[0]] + s.drop_first().subrange(0, k - 1));
    }
}

/// Some modified line of `file` lies within `context` lines of `line`.
pub open spec fn spec_is_line_modified(mods: Map<Seq<char>, Set<int>>, file: Seq<char>, line: int, context: int) -> bool {
    mods.contains_key(file) && exists|m: int| #[trigger] mods[file].contains(m) && -context <= line - m <= context
}

impl DiffModifications {
    /// Check if a line (within a context window) appears in the diff modifications.
    pub fn is_line_modified(&self, file_path: &str, line: i64, context: i64) -> (r: bool)
        requires
            self.view().contains_key(file_path@) ==> forall|m: int|
                #[trigger] self.view()[file_path@].contains(m) ==> i64::MIN < line - m <= i64::MAX,
        ensures
            r == spec_is_line_modified(self.view(), file_path@, line as int, context as int),
    {
        let mut i: usize = 0;
        while i < self.marks.len()
            invariant
                i <= self.marks@.len(),
                self.view().contains_key(file_path@) ==> forall|m: int|
                    #[trigger] self.view()[file_path@].contains(m) ==> i64::MIN < line - m <= i64::MAX,
                forall|k: int|
                    0 <= k < i && #[trigger] self.marks@[k].0@ == file_path@ ==> !(-context <= line
                        - self.marks@[k].1 <= context),
            decreases self.marks.len() - i,
        {
            let (f, m) = (&self.marks[i].0, self.marks[i].1);
            if crate::text::str_eq(f.as_str(), file_path) {
                proof {
                    assert(self.marks@[i as int].0@ == file_path@);
                    assert(self.view().contains_key(file_path@));
                    assert(self.view()[file_path@].contains(m as int));
                }
                let d = line - m;
                let a = if d < 0 { -d } else { d };
                if a <= context {
                    proof {
                        assert(self.marks@[i as int].0@ == file_path@);
                        assert(self.view()[file_path@].contains(m as int));
                    }
                    return true;
                }
            }
            i = i + 1;
        }
        proof {
            if self.view().contains_key(file_path@) {
                assert forall|m: int| #[trigger] self.view()[file_path@].contains(m) implies !(-context
                    <= line - m <= context) by {
                    let k = choose|k: int| 0 <= k < self.marks@.len() && #[trigger] self.marks@[k].0@ == file_path@ && self.marks@[k].1 == m;
                }
            }
        }
        false
    }
}

/// Why a caller location could not be read.
#[derive(Debug, Clone, PartialEq, Eq)]
pub enum CallerLocationError {
    /// There is no `:` in it.
    MissingColon(String),
    /// The text after the last `:` is not a line number.
    BadLineNumber(String),
}

/// A caller location `file:line`: the text before the last `:`, and the
/// line number after it (as `str::parse::<i64>` reads it).
pub open spec fn spec_parse_caller_location(s: Seq<char>) -> Option<(Seq<char>, int)> {
    match rfind_seq(s, seq![':']) {
        None => None,
        Some(i) => match parse_i64_spec(s.skip(i + 1)) {
            Some(n) => Some((s.take(i), n)),
            None => None,
        },
    }
}

/// Parse a caller location string in "file_path:line" format.
pub fn parse_caller_location(s: &str) -> (r: Result<(String, i64), CallerLocationError>)
    ensures
        match r {
            Ok((f, n)) => spec_parse_caller_location(s@) == Some((f@, n as int)),
            Err(CallerLocationError::MissingColon(t)) => rfind_seq(s@, seq![':']) is None && t@ == s@,
            Err(CallerLocationError::BadLineNumber(t)) => rfind_seq(s@, seq![':']) is Some
                && spec_parse_caller_location(s@) is None && t@ == s@,
        },
{
    let v = chars_of(s);
    let mut colon: Vec<char> = Vec::new();
    colon.push(':');
    assert(colon@ =~= seq![':']);
    let idx = match rfind_exec(&v, &colon) {
        Some(i) => i,
        None => return Err(CallerLocationError::MissingColon(s.to_string())),
    };
    proof {
        crate::text::lemma_rfind_upto(v@, colon@, v@.len() - colon@.len());
    }
    let n = v.len();
    let file = slice_chars(&v, 0, idx);
    let rest = slice_chars(&v, idx + 1, n);
    assert(file@ =~= v@.take(idx as int));
    assert(rest@ =~= v@.skip(idx + 1));
    match parse_i64(&rest) {
        Some(line) => Ok((string_of(&file), line)),
        None => Err(CallerLocationError::BadLineNumber(s.to_string())),
    }
}

/// A caller location can be compared against every modified line of its
/// file without the difference leaving the `i64` range.
pub open spec fn caller_in_range(mods: Map<Seq<char>, Set<int>>, loc: (Seq<char>, int)) -> bool {
    mods.contains_key(loc.0) ==> forall|m: int| #[trigger] mods[loc.0].contains(m) ==> i64::MIN < loc.1 - m <= i64::MAX
}

/// How many of the first `k` callers lie within `context` lines of a
/// modified line of their file.
pub open spec fn covered_upto(mods: Map<Seq<char>, Set<int>>, callers: Seq<Seq<char>>, context: int, k: int) -> int
    decreases k,
{
    if k <= 0 {
        0
    } else {
        covered_upto(mods, callers, context, k - 1) + match spec_parse_caller_location(callers[k - 1]) {
            Some(loc) => if spec_is_line_modified(mods, loc.0, loc.1, context) { 1int } else { 0int },
            None => 0int,
        }
    }
}

/// Every caller before position `k` is a well-formed `file:line`.
pub open spec fn callers_parse_upto(callers: Seq<Seq<char>>, k: int) -> bool {
    forall|j: int| 0 <= j < k ==> #[trigger] spec_parse_caller_location(callers[j]) is Some
}

impl DiffModifications {
    /// The number of callers (`file:line`) that lie within `context` lines
    /// of a modified line. The callers are read in order; the first one that
    /// is not a well-formed location stops the count with its error.
    pub fn count_covered_callers(&self, callers: &Vec<String>, context: i64) -> (r: Result<usize, CallerLocationError>)
        requires
            forall|i: int|
                0 <= i < callers.len() && callers_parse_upto(crate::text::views(callers@), i)
                    && #[trigger] spec_parse_caller_location(callers@[i]@) is Some ==> caller_in_range(
                    self.view(),
                    spec_parse_caller_location(callers@[i]@).unwrap(),
                ),
        ensures
            match r {
                Ok(n) => callers_parse_upto(crate::text::views(callers@), callers.len() as int) && n
                    == covered_upto(self.view(), crate::text::views(callers@), context as int, callers.len() as int),
                Err(e) => exists|i: int|
                    0 <= i < callers.len() && callers_parse_upto(crate::text::views(callers@), i)
                        && spec_parse_caller_location(callers@[i]@) is None && match e {
                        CallerLocationError::MissingColon(t) => rfind_seq(callers@[i]@, seq![':']) is None
                            && t@ == callers@[i]@,
                        CallerLocationError::BadLineNumber(t) => rfind_seq(callers@[i]@, seq![':']) is Some
                            && t@ == callers@[i]@,
                    },
            },
    {
        let ghost cs = crate::text::views(callers@);
        let mut covered: usize = 0;
        let mut i: usize = 0;
        while i < callers.len()
            invariant
                i <= callers.len(),
                cs == crate::text::views(callers@),
                callers_parse_upto(cs, i as int),
                covered == covered_upto(self.view(), cs, context as int, i as int),
                covered <= i,
                forall|k: int|
                    0 <= k < callers.len() && callers_parse_upto(cs, k)
                        && #[trigger] spec_parse_caller_location(callers@[k]@) is Some ==> caller_in_range(
                        self.view(),
                        spec_parse_caller_location(callers@[k]@).unwrap(),
                    ),
            decreases callers.len() - i,
        {
            assert(cs[i as int] == callers@[i as int]@);
            match parse_caller_location(callers[i].as_str()) {
                Ok((file, line)) => {
                    assert(caller_in_range(self.view(), (file@, line as int)));
                    if self.is_line_modified(file.as_str(), line, context) {
                        covered = covered + 1;
                    }
                },
                Err(e) => {
                    return Err(e);
                },
            }
            i = i + 1;
        }
        Ok(covered)
    }
}

/// A program and its arguments.
pub open spec fn command_view(c: (String, Vec<String>)) -> (Seq<char>, Seq<Seq<char>>) {
    (c.0@, crate::text::views(c.1@))
}

/// The compile check of a corpus language: `npx tsc --noEmit` for
/// TypeScript, `dotnet build --no-restore` for C#; other languages have none.
pub open spec fn spec_compile_command(language: Seq<char>) -> Option<(Seq<char>, Seq<Seq<char>>)> {
    if language == "typescript"@ {
        Some(("npx"@, seq!["tsc"@, "--noEmit"@]))
    } else if language == "csharp"@ {
        Some(("dotnet"@, seq!["build"@, "--no-restore"@]))
    } else {
        None
    }
}

/// The test run of a corpus language: `npm test` for TypeScript,
/// `dotnet test --no-restore` for C#; other languages have none.
pub open spec fn spec_test_command(language: Seq<char>) -> Option<(Seq<char>, Seq<Seq<char>>)> {
    if language == "typescript"@ {
        Some(("npm"@, seq!["test"@]))
    } else if language == "csharp"@ {
        Some(("dotnet"@, seq!["test"@, "--no-restore"@]))
    } else {
        None
    }
}

/// A program with its arguments.
fn command(program: &str, args: &[&str]) -> (r: (String, Vec<String>))
    ensures
        command_view(r) == (program@, args@.map_values(|a: &str| a@)),
{
    let mut v: Vec<String> = Vec::new();
    let mut i: usize = 0;
    while i < args.len()
        invariant
            i <= args@.len(),
            crate::text::views(v@) == args@.take(i as int).map_values(|a: &str| a@),
        decreases args.len() - i,
    {
        let ghost before = crate::text::views(v@);
        v.push(args[i].to_string());
        assert(crate::text::views(v@) =~= before.push(args@[i as int]@));
        assert(args@.take(i + 1).map_values(|a: &str| a@) =~= args@.take(i as int).map_values(
            |a: &str| a@,
        ).push(args@[i as int]@));
        i = i + 1;
    }
    assert(args@.take(args@.len() as int) =~= args@);
    (program.to_string(), v)
}

/// The compile check to run for a corpus language.
pub fn compile_command(language: &str) -> (r: Option<(String, Vec<String>)>)
    ensures
        match r {
            Some(c) => spec_compile_command(language@) == Some(command_view(c)),
            None => spec_compile_command(language@) is None,
        },
{
    if crate::text::str_eq(language, "typescript") {
        let c = command("npx", &["tsc", "--noEmit"]);
        assert(command_view(c).1 =~= seq!["tsc"@, "--noEmit"@]);
        Some(c)
    } else if crate::text::str_eq(language, "csharp") {
        let c = command("dotnet", &["build", "--no-restore"]);
        assert(command_view(c).1 =~= seq!["build"@, "--no-restore"@]);
        Some(c)
    } else {
        None
    }
}

/// The test run for a corpus language.
pub fn test_command(language: &str) -> (r: Option<(String, Vec<String>)>)
    ensures
        match r {
            Some(c) => spec_test_command(language@) == Some(command_view(c)),
            None => spec_test_command(language@) is None,
        },
{
    if crate::text::str_eq(language, "typescript") {
        let c = command("npm", &["test"]);
        assert(command_view(c).1 =~= seq!["test"@]);
        Some(c)
    } else if crate::text::str_eq(language, "csharp") {
        let c = command("dotnet", &["test", "--no-restore"]);
        assert(command_view(c).1 =~= seq!["test"@, "--no-restore"@]);
        Some(c)
    } else {
        None
    }
}

/// The points for compiling and passing tests: 40 each when caller coverage
/// is also scored (it adds up to 20 more), 50 each when it is not.
pub open spec fn spec_base_score(compilation_pass: bool, tests_pass: bool, with_coverage: bool) -> int {
    let each: int = if with_coverage { 40 } else { 50 };
    (if compilation_pass { each } else { 0 }) + (if tests_pass { each } else { 0 })
}

/// The score for compilation and tests (the coverage points come on top).
pub fn base_score(compilation_pass: bool, tests_pass: bool, with_coverage: bool) -> (r: u32)
    ensures
        r == spec_base_score(compilation_pass, tests_pass, with_coverage),
{
    let each: u32 = if with_coverage { 40 } else { 50 };
    let mut score: u32 = 0;
    if compilation_pass {
        score = score + each;
    }
    if tests_pass {
        score = score + each;
    }
    score
}

} // verus!

//! Slash-separated paths, read component by component the way std's
//! `std::path::Path` reads them on Unix.
use vstd::prelude::*;
use crate::text::{
    chars_of, extend_str, string_of,
    char_views, chars_eq, copy_chars, lemma_rfind_upto, occurs_at, rfind_exec, rfind_seq, slice_chars, split_exec,
    split_seq, starts_with, lemma_filter_push,
};

verus! {

/// A path segment that counts as a component once the path is split on `/`:
/// empty segments and `.` segments are dropped.
pub open spec fn kept_segment(seg: Seq<char>) -> bool {
    seg.len() > 0 && seg != seq!['.']
}

/// The path starts at the root.
pub open spec fn has_root(s: Seq<char>) -> bool {
    starts_with(s, seq!['/'])
}

/// The path starts with an explicit current-directory component.
pub open spec fn has_cur_dir(s: Seq<char>) -> bool {
    !has_root(s) && (s == seq!['.'] || starts_with(s, seq!['.', '/']))
}

/// The components of a path: `/` for the root, `.` for a leading current
/// directory, then every non-empty, non-`.` segment between slashes.
pub open spec fn path_components(s: Seq<char>) -> Seq<Seq<char>> {
    let root: Seq<Seq<char>> = if has_root(s) { seq![seq!['/']] } else { Seq::empty() };
    let cur: Seq<Seq<char>> = if has_cur_dir(s) { seq![seq!['.']] } else { Seq::empty() };
    root + cur + split_seq(s, seq!['/']).filter(|seg: Seq<char>| kept_segment(seg))
}

/// A component that names a file or directory (not the root, `.` or `..`).
pub open spec fn is_normal_component(c: Seq<char>) -> bool {
    c != seq!['/'] && c != seq!['.'] && c != seq!['.', '.']
}

/// The named components of a path.
pub open spec fn normal_components(s: Seq<char>) -> Seq<Seq<char>> {
    path_components(s).filter(|c: Seq<char>| is_normal_component(c))
}

/// The final component of a path when it names a file or directory.
pub open spec fn file_name(s: Seq<char>) -> Option<Seq<char>> {
    let c = path_components(s);
    if c.len() > 0 && is_normal_component(c.last()) {
        Some(c.last())
    } else {
        None
    }
}

/// The extension of a file name: the text after its last `.`, unless that
/// dot is the name's first character.
pub open spec fn name_extension(name: Seq<char>) -> Option<Seq<char>> {
    match rfind_seq(name, seq!['.']) {
        Some(i) => if i > 0 {
            Some(name.subrange(i + 1, name.len() as int))
        } else {
            None
        },
        None => None,
    }
}

/// The extension of a path's file name (std's `Path::extension`).
pub open spec fn extension(s: Seq<char>) -> Option<Seq<char>> {
    match file_name(s) {
        Some(n) => name_extension(n),
        None => None,
    }
}

/// `base`'s components are a prefix of `p`'s, and these are the rest
/// (std's `Path::strip_prefix`).
pub open spec fn strip_prefix_components(p: Seq<char>, base: Seq<char>) -> Option<Seq<Seq<char>>> {
    let pc = path_components(p);
    let bc = path_components(base);
    if bc.is_prefix_of(pc) {
        Some(pc.skip(bc.len() as int))
    } else {
        None
    }
}

/// Keeps the segments that count as components.
fn kept_segments(segs: &Vec<Vec<char>>) -> (r: Vec<Vec<char>>)
    ensures
        char_views(r@) == char_views(segs@).filter(|seg: Seq<char>| kept_segment(seg)),
{
    let ghost f = |seg: Seq<char>| kept_segment(seg);
    let mut out: Vec<Vec<char>> = Vec::new();
    let mut i: usize = 0;
    while i < segs.len()
        invariant
            i <= segs.len(),
            f == (|seg: Seq<char>| kept_segment(seg)),
            char_views(out@) == char_views(segs@).take(i as int).filter(f),
        decreases segs.len() - i,
    {
        let seg = &segs[i];
        proof {
            assert(char_views(segs@).take(i + 1) =~= char_views(segs@).take(i as int).push(seg@));
            lemma_filter_push(char_views(segs@).take(i as int), seg@, f);
        }
        let dot = seg.len() == 1 && seg[0] == '.';
        proof {
            if seg@ == seq!['.'] {
                assert(dot);
            }
            if dot {
                assert(seg@ =~= seq!['.']);
            }
        }
        if seg.len() > 0 && !dot {
            let ghost old_out = out@;
            out.push(copy_chars(&seg));
            assert(char_views(out@) =~= char_views(old_out).push(seg@));
        }
        i = i + 1;
    }
    assert(char_views(segs@).take(segs@.len() as int) =~= char_views(segs@));
    out
}

/// The components of a path.
pub fn components_exec(s: &Vec<char>) -> (r: Vec<Vec<char>>)
    ensures
        char_views(r@) == path_components(s@),
{
    let mut out: Vec<Vec<char>> = Vec::new();
    let root = s.len() > 0 && s[0] == '/';
    proof {
        if has_root(s@) {
            assert(s@.subrange(0, 1)[0] == s@[0]);
        }
        if root {
            assert(s@.subrange(0, 1) =~= seq!['/']);
        }
    }
    if root {
        let mut r = Vec::new();
        r.push('/');
        out.push(r);
    }
    let cur = !root && ((s.len() == 1 && s[0] == '.') || (s.len() >= 2 && s[0] == '.' && s[1] == '/'));
    proof {
        if s@ == seq!['.'] {
            assert(s@.len() == 1 && s@[0] == '.');
        }
        if s@.len() == 1 && s@[0] == '.' {
            assert(s@ =~= seq!['.']);
        }
        if starts_with(s@, seq!['.', '/']) {
            assert(s@.subrange(0, 2)[0] == s@[0]);
            assert(s@.subrange(0, 2)[1] == s@[1]);
        }
        if s@.len() >= 2 && s@[0] == '.' && s@[1] == '/' {
            assert(s@.subrange(0, 2) =~= seq!['.', '/']);
        }
    }
    if cur {
        let mut c = Vec::new();
        c.push('.');
        out.push(c);
    }
    let mut slash = Vec::new();
    slash.push('/');
    let segs = split_exec(s, &slash);
    let kept = kept_segments(&segs);
    let ghost pre = char_views(out@);
    let mut i: usize = 0;
    while i < kept.len()
        invariant
            i <= kept.len(),
            char_views(out@) == pre + char_views(kept@).take(i as int),
        decreases kept.len() - i,
    {
        let ghost old_out = out@;
        out.push(copy_chars(&kept[i]));
        assert(char_views(out@) =~= char_views(old_out).push(char_views(kept@)[i as int]));
        i = i + 1;
        assert(char_views(out@) =~= pre + char_views(kept@).take(i as int));
    }
    assert(char_views(kept@).take(kept@.len() as int) =~= char_views(kept@));
    proof {
        assert(slash@ =~= seq!['/']);
        let root_s: Seq<Seq<char>> = if has_root(s@) { seq![seq!['/']] } else { Seq::empty() };
        let cur_s: Seq<Seq<char>> = if has_cur_dir(s@) { seq![seq!['.']] } else { Seq::empty() };
        assert(pre =~= root_s + cur_s);
    }
    out
}

/// Whether a component names a file or directory.
pub fn is_normal_component_exec(c: &Vec<char>) -> (r: bool)
    ensures
        r == is_normal_component(c@),
{
    let one = c.len() == 1 && (c[0] == '/' || c[0] == '.');
    let two = c.len() == 2 && c[0] == '.' && c[1] == '.';
    proof {
        if c@ == seq!['/'] || c@ == seq!['.'] {
            assert(c@.len() == 1 && c@[0] == c@[0]);
            assert(one);
        }
        if c@ == seq!['.', '.'] {
            assert(c@[0] == '.' && c@[1] == '.');
            assert(two);
        }
        if one {
            assert(c@ =~= seq!['/'] || c@ =~= seq!['.']);
        }
        if two {
            assert(c@ =~= seq!['.', '.']);
        }
    }
    !one && !two
}

/// The file name of a path, if its last component names one.
pub fn file_name_exec(s: &Vec<char>) -> (r: Option<Vec<char>>)
    ensures
        match r {
            Some(n) => file_name(s@) == Some(n@),
            None => file_name(s@) is None,
        },
{
    let comps = components_exec(s);
    if comps.len() == 0 {
        return None;
    }
    let last = &comps[comps.len() - 1];
    proof {
        assert(char_views(comps@).last() == last@);
    }
    if is_normal_component_exec(last) {
        Some(copy_chars(&last))
    } else {
        None
    }
}

/// The extension of a file name.
pub fn name_extension_exec(name: &Vec<char>) -> (r: Option<Vec<char>>)
    ensures
        match r {
            Some(e) => name_extension(name@) == Some(e@),
            None => name_extension(name@) is None,
        },
{
    let mut dot = Vec::new();
    dot.push('.');
    assert(dot@ =~= seq!['.']);
    match rfind_exec(name, &dot) {
        Some(i) => {
            if i > 0 {
                proof {
                    lemma_rfind_upto(name@, dot@, name@.len() - dot@.len());
                    assert(rfind_seq(name@, dot@) == Some(i as int));
                    assert(occurs_at(name@, dot@, i as int));
                    assert(dot@.len() == 1);
                    assert(i + 1 <= name@.len());
                }
                let n = name.len();
                assert(i < n);
                Some(slice_chars(name, i + 1, n))
            } else {
                None
            }
        },
        None => None,
    }
}

/// The extension of a path (std's `Path::extension`).
pub fn extension_exec(s: &Vec<char>) -> (r: Option<Vec<char>>)
    ensures
        match r {
            Some(e) => extension(s@) == Some(e@),
            None => extension(s@) is None,
        },
{
    match file_name_exec(s) {
        Some(n) => name_extension_exec(&n),
        None => None,
    }
}

/// Whether one component list is a prefix of another.
fn components_prefix(a: &Vec<Vec<char>>, b: &Vec<Vec<char>>) -> (r: bool)
    ensures
        r == char_views(a@).is_prefix_of(char_views(b@)),
{
    if a.len() > b.len() {
        return false;
    }
    let mut i: usize = 0;
    while i < a.len()
        invariant
            a.len() <= b.len(),
            i <= a.len(),
            forall|j: int| 0 <= j < i ==> char_views(a@)[j] == char_views(b@)[j],
        decreases a.len() - i,
    {
        if !chars_eq(&a[i], &b[i]) {
            proof {
                assert(char_views(a@)[i as int] != char_views(b@)[i as int]);
                assert(char_views(b@).subrange(0, char_views(a@).len() as int)[i as int]
                    == char_views(b@)[i as int]);
            }
            return false;
        }
        i = i + 1;
    }
    proof {
        assert(char_views(b@).subrange(0, char_views(a@).len() as int) =~= char_views(a@));
    }
    true
}

/// The components of `p` after the components of `base`, when `base`'s are a
/// prefix of `p`'s (std's `Path::strip_prefix`).
pub fn strip_prefix_exec(p: &Vec<char>, base: &Vec<char>) -> (r: Option<Vec<Vec<char>>>)
    ensures
        match r {
            Some(rest) => strip_prefix_components(p@, base@) == Some(char_views(rest@)),
            None => strip_prefix_components(p@, base@) is None,
        },
{
    let pc = components_exec(p);
    let bc = components_exec(base);
    if !components_prefix(&bc, &pc) {
        return None;
    }
    let mut rest: Vec<Vec<char>> = Vec::new();
    let mut i: usize = bc.len();
    while i < pc.len()
        invariant
            bc.len() <= i <= pc.len(),
            char_views(rest@) == char_views(pc@).subrange(bc.len() as int, i as int),
        decreases pc.len() - i,
    {
        let ghost old_rest = rest@;
        rest.push(copy_chars(&pc[i]));
        assert(char_views(rest@) =~= char_views(old_rest).push(char_views(pc@)[i as int]));
        i = i + 1;
        assert(char_views(rest@) =~= char_views(pc@).subrange(bc.len() as int, i as int));
    }
    assert(char_views(pc@).skip(bc.len() as int) =~= char_views(pc@).subrange(
        bc.len() as int,
        pc.len() as int,
    ));
    Some(rest)
}

} // verus!

verus! {

/// `rel` appended to `base` (std's `Path::join` with a relative argument):
/// a `/` goes between them unless `base` is empty or already ends in one.
pub open spec fn join_relative(base: Seq<char>, rel: Seq<char>) -> Seq<char> {
    if base.len() == 0 || base.last() == '/' {
        base + rel
    } else {
        base + seq!['/'] + rel
    }
}

/// Joins a relative path onto a base path.
pub fn join_relative_exec(base: &str, rel: &str) -> (r: String)
    ensures
        r@ == join_relative(base@, rel@),
{
    let mut v = chars_of(base);
    let n = v.len();
    if n > 0 && v[n - 1] != '/' {
        v.push('/');
    }
    let ghost mid = v@;
    extend_str(&mut v, rel);
    proof {
        if base@.len() == 0 || base@.last() == '/' {
            assert(mid == base@);
        } else {
            assert(mid =~= base@ + seq!['/']);
        }
    }
    string_of(&v)
}

} // verus!

//! Full-text search query construction.
//!
//! `scope find` searches an FTS5 table with BM25 ranking. The search itself
//! runs in SQLite outside this crate; this module turns a natural-language
//! query into the FTS5 MATCH expression, and orders results so first-party
//! code comes before vendor code.
use vstd::prelude::*;
use crate::config::project::{is_vendor_path, spec_is_vendor_path};
use crate::engine::embedder::{spec_split_camel_case, split_camel_case_chars};
use crate::text::{
    char_is_alphanumeric, char_views, chars_eq, chars_of, contains_char, copy_chars,
    dedup_adjacent, dedup_adjacent_exec, is_alphanumeric_char, join_exec,
    join_seq, lemma_filter_push, lowercase_of, string_of, to_lowercase_chars, words,
    views, words_exec,
};

verus! {

/// A character kept in a search token: alphanumeric or `_`.
pub open spec fn token_char(c: char) -> bool {
    is_alphanumeric_char(c) || c == '_'
}

/// A token with every character other than alphanumerics and `_` removed.
pub open spec fn clean_token(t: Seq<char>) -> Seq<char> {
    t.filter(|c: char| token_char(c))
}

/// `s` with underscores turned into spaces, so snake_case splits into words.
pub open spec fn spec_split_snake_case(s: Seq<char>) -> Seq<char> {
    s.map_values(|c: char| if c == '_' { ' ' } else { c })
}

/// Number of bytes UTF-8 uses for `c`.
pub open spec fn char_utf8_len(c: char) -> nat {
    if (c as u32) < 0x80 {
        1
    } else if (c as u32) < 0x800 {
        2
    } else if (c as u32) < 0x10000 {
        3
    } else {
        4
    }
}

/// Byte length of the UTF-8 encoding of `s`.
pub open spec fn utf8_len(s: Seq<char>) -> nat
    decreases s.len(),
{
    if s.len() == 0 {
        0
    } else {
        utf8_len(s.drop_last()) + char_utf8_len(s.last())
    }
}

/// Prefix-match terms (`word*`) for the lowercase forms of `ws` that are at
/// least three bytes long and, when `skip_self` holds, differ from the
/// lowercase form of `whole`.
pub open spec fn lower_terms(ws: Seq<Seq<char>>, whole: Seq<char>, skip_self: bool) -> Seq<Seq<char>>
    decreases ws.len(),
{
    if ws.len() == 0 {
        Seq::empty()
    } else {
        let r = lower_terms(ws.drop_last(), whole, skip_self);
        let l = lowercase_of(ws.last());
        if (!skip_self || l != lowercase_of(whole)) && utf8_len(l) >= 3 {
            r.push(l + "*"@)
        } else {
            r
        }
    }
}

/// The FTS5 terms contributed by one whitespace-separated token: the
/// cleaned token with prefix matching, then its camelCase words, then (if it
/// has underscores) its snake_case words.
pub open spec fn token_terms(t: Seq<char>) -> Seq<Seq<char>> {
    let cleaned = clean_token(t);
    if cleaned.len() == 0 {
        Seq::empty()
    } else {
        let camel = lower_terms(words(spec_split_camel_case(cleaned)), cleaned, true);
        let snake = if cleaned.contains('_') {
            lower_terms(words(spec_split_snake_case(cleaned)), cleaned, false)
        } else {
            Seq::empty()
        };
        seq![cleaned + "*"@] + camel + snake
    }
}

/// The terms of all tokens, in order.
pub open spec fn query_terms(tokens: Seq<Seq<char>>) -> Seq<Seq<char>>
    decreases tokens.len(),
{
    if tokens.len() == 0 {
        Seq::empty()
    } else {
        query_terms(tokens.drop_last()) + token_terms(tokens.last())
    }
}

/// The FTS5 query for a search string: the terms of its words with adjacent
/// repeats removed, joined with ` OR `; empty when the string has no words.
pub open spec fn spec_build_fts_query(query: Seq<char>) -> Seq<char> {
    join_seq(dedup_adjacent(query_terms(words(query))), " OR "@)
}

/// Keeps the token characters of `t`.
fn clean_token_exec(t: &Vec<char>) -> (r: Vec<char>)
    ensures
        r@ == clean_token(t@),
{
    let ghost f = |c: char| token_char(c);
    let mut out: Vec<char> = Vec::new();
    let mut i: usize = 0;
    while i < t.len()
        invariant
            i <= t.len(),
            f == (|c: char| token_char(c)),
            out@ == t@.take(i as int).filter(f),
        decreases t.len() - i,
    {
        let c = t[i];
        proof {
            assert(t@.take(i + 1) =~= t@.take(i as int).push(c));
            lemma_filter_push(t@.take(i as int), c, f);
        }
        if char_is_alphanumeric(c) || c == '_' {
            out.push(c);
        }
        i = i + 1;
    }
    assert(t@.take(t@.len() as int) =~= t@);
    out
}

/// Underscores turned into spaces.
pub fn split_snake_case_chars(s: &Vec<char>) -> (r: Vec<char>)
    ensures
        r@ == spec_split_snake_case(s@),
{
    let mut r = Vec::new();
    let mut i: usize = 0;
    while i < s.len()
        invariant
            i <= s.len(),
            r@ == spec_split_snake_case(s@.subrange(0, i as int)),
        decreases s.len() - i,
    {
        let c = s[i];
        r.push(if c == '_' { ' ' } else { c });
        i = i + 1;
        assert(r@ =~= spec_split_snake_case(s@.subrange(0, i as int)));
    }
    assert(s@.subrange(0, s@.len() as int) =~= s@);
    r
}

/// Whether the UTF-8 encoding of a character buffer has at least three bytes.
fn utf8_len_at_least_3(v: &Vec<char>) -> (r: bool)
    ensures
        r == (utf8_len(v@) >= 3),
{
    let mut acc: usize = 0;
    let mut i: usize = 0;
    while i < v.len()
        invariant
            i <= v.len(),
            acc == if utf8_len(v@.take(i as int)) >= 3 { 3 } else { utf8_len(v@.take(i as int)) },
        decreases v.len() - i,
    {
        let c = v[i];
        let cl: usize = if (c as u32) < 0x80 {
            1
        } else if (c as u32) < 0x800 {
            2
        } else if (c as u32) < 0x10000 {
            3
        } else {
            4
        };
        assert(v@.take(i + 1).drop_last() =~= v@.take(i as int));
        acc = if acc + cl >= 3 { 3 } else { acc + cl };
        i = i + 1;
    }
    assert(v@.take(v@.len() as int) =~= v@);
    acc >= 3
}

/// Appends the prefix-match terms for the words `ws` to `out`.
fn push_lower_terms(
    out: &mut Vec<Vec<char>>,
    ws: &Vec<Vec<char>>,
    whole: &Vec<char>,
    skip_self: bool,
)
    ensures
        char_views(final(out)@) == char_views(old(out)@) + lower_terms(char_views(ws@), whole@, skip_self),
{
    let whole_lower = to_lowercase_chars(whole);
    let mut i: usize = 0;
    while i < ws.len()
        invariant
            i <= ws.len(),
            whole_lower@ == lowercase_of(whole@),
            char_views(out@) == char_views(old(out)@) + lower_terms(
                char_views(ws@).take(i as int),
                whole@,
                skip_self,
            ),
        decreases ws.len() - i,
    {
        let ghost pre = char_views(ws@).take(i as int);
        assert(char_views(ws@).take(i + 1).drop_last() =~= pre);
        assert(char_views(ws@).take(i + 1).last() == ws@[i as int]@);
        let lower = to_lowercase_chars(&ws[i]);
        if (!skip_self || !chars_eq(&lower, &whole_lower)) && utf8_len_at_least_3(&lower) {
            let mut term = copy_chars(&lower);
            term.push('*');
            proof {
                reveal_strlit("*");
                assert(term@ =~= lower@ + "*"@);
            }
            let ghost before = out@;
            out.push(term);
            assert(char_views(out@) =~= char_views(before).push(lower@ + "*"@));
        }
        i = i + 1;
    }
    assert(char_views(ws@).take(ws@.len() as int) =~= char_views(ws@));
}

/// Appends the terms of one token to `out`.
fn push_token_terms(out: &mut Vec<Vec<char>>, token: &Vec<char>)
    ensures
        char_views(final(out)@) == char_views(old(out)@) + token_terms(token@),
{
    let cleaned = clean_token_exec(token);
    if cleaned.len() == 0 {
        assert(char_views(out@) =~= char_views(out@) + Seq::<Seq<char>>::empty());
        return;
    }
    let mut full = copy_chars(&cleaned);
    full.push('*');
    proof {
        reveal_strlit("*");
        assert(full@ =~= cleaned@ + "*"@);
    }
    let ghost start = char_views(out@);
    out.push(full);
    assert(char_views(out@) =~= start.push(cleaned@ + "*"@));
    let split = split_camel_case_chars(&cleaned);
    let camel_words = words_exec(&split);
    push_lower_terms(out, &camel_words, &cleaned, true);
    let ghost after_camel = char_views(out@);
    if contains_char(&cleaned, '_') {
        let snake = split_snake_case_chars(&cleaned);
        let snake_words = words_exec(&snake);
        push_lower_terms(out, &snake_words, &cleaned, false);
    }
    proof {
        let camel = lower_terms(words(spec_split_camel_case(cleaned@)), cleaned@, true);
        let snake = if cleaned@.contains('_') {
            lower_terms(words(spec_split_snake_case(cleaned@)), cleaned@, false)
        } else {
            Seq::empty()
        };
        assert(char_views(out@) =~= start + (seq![cleaned@ + "*"@] + camel + snake));
    }
}

/// Build an FTS5 query from a natural-language search string.
///
/// Splits the query into tokens and joins them with OR for partial matching.
/// Each token gets a `*` suffix for prefix matching, and camelCase tokens
/// are additionally split into component words for broader recall.
///
/// Examples:
/// - `"TransactionController"` -> `TransactionController* OR transaction* OR controller*`
/// - `"payment"` -> `payment*`
/// - `"authentication errors"` -> `authentication* OR errors*`
pub fn build_fts_query(query: &str) -> (r: String)
    ensures
        r@ == spec_build_fts_query(query@),
{
    let q = chars_of(query);
    let tokens = words_exec(&q);
    let mut terms: Vec<Vec<char>> = Vec::new();
    let mut i: usize = 0;
    while i < tokens.len()
        invariant
            i <= tokens.len(),
            char_views(terms@) == query_terms(char_views(tokens@).take(i as int)),
        decreases tokens.len() - i,
    {
        assert(char_views(tokens@).take(i + 1).drop_last() =~= char_views(tokens@).take(i as int));
        assert(char_views(tokens@).take(i + 1).last() == tokens@[i as int]@);
        push_token_terms(&mut terms, &tokens[i]);
        i = i + 1;
    }
    assert(char_views(tokens@).take(tokens@.len() as int) =~= char_views(tokens@));
    let deduped = dedup_adjacent_exec(&terms);
    let joined = join_exec(&deduped, " OR ");
    string_of(&joined)
}

/// The positions `0..n` in order.
pub open spec fn positions(n: nat) -> Seq<usize> {
    Seq::new(n, |i: int| i as usize)
}

/// The order in which search results are shown, as positions into the
/// ranked results: first-party results first, vendor results last, each
/// part in its ranked order; the ranked order itself when there are no
/// vendor patterns.
pub open spec fn spec_vendor_derank_order(paths: Seq<Seq<char>>, patterns: Seq<Seq<char>>) -> Seq<usize> {
    let all = positions(paths.len());
    if patterns.len() == 0 {
        all
    } else {
        all.filter(|i: usize| !spec_is_vendor_path(paths[i as int], patterns)) + all.filter(
            |i: usize| spec_is_vendor_path(paths[i as int], patterns),
        )
    }
}

/// Order ranked search results, given by their file paths, so that
/// first-party code comes before vendor code.
pub fn vendor_derank_order(file_paths: &Vec<String>, vendor_patterns: &[String]) -> (r: Vec<usize>)
    ensures
        r@ == spec_vendor_derank_order(views(file_paths@), views(vendor_patterns@)),
{
    let ghost paths = views(file_paths@);
    let ghost pats = views(vendor_patterns@);
    let ghost all = positions(paths.len());
    let ghost fp = |i: usize| !spec_is_vendor_path(paths[i as int], pats);
    let ghost fv = |i: usize| spec_is_vendor_path(paths[i as int], pats);
    let mut first: Vec<usize> = Vec::new();
    let mut vendor: Vec<usize> = Vec::new();
    let mut i: usize = 0;
    while i < file_paths.len()
        invariant
            i <= file_paths.len(),
            paths == views(file_paths@),
            pats == views(vendor_patterns@),
            all == positions(paths.len()),
            fp == (|i: usize| !spec_is_vendor_path(paths[i as int], pats)),
            fv == (|i: usize| spec_is_vendor_path(paths[i as int], pats)),
            vendor_patterns@.len() == 0 ==> first@ == all.take(i as int) && vendor@.len() == 0,
            vendor_patterns@.len() > 0 ==> first@ == all.take(i as int).filter(fp),
            vendor_patterns@.len() > 0 ==> vendor@ == all.take(i as int).filter(fv),
        decreases file_paths.len() - i,
    {
        proof {
            assert(all.take(i + 1) =~= all.take(i as int).push(i));
            lemma_filter_push(all.take(i as int), i, fp);
            lemma_filter_push(all.take(i as int), i, fv);
            assert(paths[i as int] == file_paths@[i as int]@);
        }
        if vendor_patterns.len() > 0 && is_vendor_path(file_paths[i].as_str(), vendor_patterns) {
            vendor.push(i);
        } else {
            first.push(i);
        }
        i = i + 1;
    }
    proof {
        assert(all.take(paths.len() as int) =~= all);
    }
    let ghost f1 = first@;
    let ghost v1 = vendor@;
    first.append(&mut vendor);
    proof {
        assert(first@ =~= f1 + v1);
        if vendor_patterns@.len() == 0 {
            assert(first@ =~= all);
        } else {
            assert(fp =~= (|i: usize| !spec_is_vendor_path(paths[i as int], pats)));
        }
    }
    first
}

} // verus!

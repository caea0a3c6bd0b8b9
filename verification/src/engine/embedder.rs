//! Text construction for symbol search indexing.
//!
//! Builds rich text representations of symbols for full-text search.
//! The text combines symbol kind, name, signature, docstring, and parent
//! context, ordered by importance. This is what gets indexed in the FTS5
//! table and searched against user queries.
use vstd::prelude::*;
use crate::engine::graph::Symbol;
use crate::text::{
    char_is_lowercase, char_is_uppercase, char_views, chars_eq, chars_of, extend_chars, extend_str, is_lowercase_char, is_uppercase_char, join_seq, split_seq,
    split_str, string_of,
};

verus! {

/// Whether a space goes before position `i` of a name being split into
/// words: an uppercase letter preceded by a lowercase one, or an uppercase
/// letter that starts a new word after an acronym (`HTTPResponse`).
pub open spec fn camel_break(cs: Seq<char>, i: int) -> bool {
    &&& 0 < i < cs.len()
    &&& is_uppercase_char(cs[i])
    &&& (is_lowercase_char(cs[i - 1]) || (i + 1 < cs.len() && is_lowercase_char(cs[i + 1])
        && is_uppercase_char(cs[i - 1])))
}

/// The first `n` characters of `cs` with a space inserted at each camel break.
pub open spec fn camel_prefix(cs: Seq<char>, n: int) -> Seq<char>
    decreases n,
{
    if n <= 0 {
        Seq::empty()
    } else {
        let pre = camel_prefix(cs, n - 1);
        let spaced = if camel_break(cs, n - 1) { pre.push(' ') } else { pre };
        spaced.push(cs[n - 1])
    }
}

/// A camelCase or PascalCase identifier split into space-separated words.
pub open spec fn spec_split_camel_case(name: Seq<char>) -> Seq<char> {
    camel_prefix(name, name.len() as int)
}

/// The name part of a symbol ID `file::name::kind`: the second-to-last
/// `::`-separated piece, when there are at least two pieces.
pub open spec fn spec_extract_name_from_id(id: Seq<char>) -> Option<Seq<char>> {
    let parts = split_seq(id, "::"@);
    if parts.len() >= 2 {
        Some(parts[parts.len() - 2])
    } else {
        None
    }
}

/// The parent-context parts of the embedding text.
pub open spec fn parent_parts(parent_id: Option<String>) -> Seq<Seq<char>> {
    match parent_id {
        Some(p) => match spec_extract_name_from_id(p@) {
            Some(pn) => {
                let first: Seq<Seq<char>> = seq!["in "@ + pn];
                let split = spec_split_camel_case(pn);
                if split != pn {
                    first.push("in "@ + split)
                } else {
                    first
                }
            },
            None => Seq::empty(),
        },
        None => Seq::empty(),
    }
}

/// The parts of a symbol's searchable text, most important first.
pub open spec fn embedding_parts(sym: Symbol) -> Seq<Seq<char>> {
    let head: Seq<Seq<char>> = seq![sym.kind@ + " "@ + sym.name@];
    let split = spec_split_camel_case(sym.name@);
    let with_split = if split != sym.name@ { head.push(split) } else { head };
    let with_sig = match sym.signature {
        Some(s) => with_split.push(s@),
        None => with_split,
    };
    let with_doc = match sym.docstring {
        Some(d) => with_sig.push(d@),
        None => with_sig,
    };
    with_doc + parent_parts(sym.parent_id)
}

/// The searchable text of a symbol: its parts joined with ` | `.
pub open spec fn spec_build_embedding_text(sym: Symbol) -> Seq<char> {
    join_seq(embedding_parts(sym), " | "@)
}

/// Split a camelCase or PascalCase identifier into space-separated words.
///
/// Examples:
/// - `"processPayment"` -> `"process Payment"`
/// - `"PaymentService"` -> `"Payment Service"`
/// - `"getHTTPResponse"` -> `"get HTTP Response"`
/// - `"login"` -> `"login"` (no change)
pub fn split_camel_case(name: &str) -> (r: String)
    ensures
        r@ == spec_split_camel_case(name@),
{
    let cs = chars_of(name);
    let v = split_camel_case_chars(&cs);
    string_of(&v)
}

/// `split_camel_case` on a character buffer.
pub fn split_camel_case_chars(cs: &Vec<char>) -> (r: Vec<char>)
    ensures
        r@ == spec_split_camel_case(cs@),
{
    let mut out: Vec<char> = Vec::new();
    let mut i: usize = 0;
    while i < cs.len()
        invariant
            i <= cs.len(),
            out@ == camel_prefix(cs@, i as int),
        decreases cs.len() - i,
    {
        let ch = cs[i];
        if i > 0 && char_is_uppercase(ch) {
            let prev_lower = char_is_lowercase(cs[i - 1]);
            let next_lower = i + 1 < cs.len() && char_is_lowercase(cs[i + 1]);
            if prev_lower || (next_lower && char_is_uppercase(cs[i - 1])) {
                out.push(' ');
            }
        }
        out.push(ch);
        i = i + 1;
    }
    out
}

/// Extract the symbol name portion from a symbol ID.
///
/// Symbol IDs follow the format `"file_path::name::kind"`. This extracts
/// the `name` part. Returns `None` if the ID doesn't match the expected format.
pub fn extract_name_from_id(id: &str) -> (r: Option<String>)
    ensures
        match r {
            Some(n) => spec_extract_name_from_id(id@) == Some(n@),
            None => spec_extract_name_from_id(id@) is None,
        },
{
    let cs = chars_of(id);
    proof {
        reveal_strlit("::");
    }
    let parts = split_str(&cs, "::");
    if parts.len() >= 2 {
        let p = &parts[parts.len() - 2];
        assert(char_views(parts@)[parts@.len() - 2] == p@);
        Some(string_of(p))
    } else {
        None
    }
}

/// Appends ` | ` and then `part` to `out`, unless `out` holds no part yet.
fn push_part(out: &mut Vec<char>, parts: Ghost<Seq<Seq<char>>>, part: &Vec<char>)
    requires
        parts@.len() > 0,
        old(out)@ == join_seq(parts@, " | "@),
    ensures
        final(out)@ == join_seq(parts@.push(part@), " | "@),
{
    extend_str(out, " | ");
    extend_chars(out, part);
    assert(parts@.push(part@).drop_last() =~= parts@);
}

/// Build the searchable text representation of a symbol.
///
/// Combines kind, name, signature, docstring, and parent context into a
/// single string optimised for full-text search. More important fields
/// appear first so that FTS5's BM25 ranking naturally weights them higher.
pub fn build_embedding_text(symbol: &Symbol) -> (r: String)
    ensures
        r@ == spec_build_embedding_text(*symbol),
{
    let name = chars_of(symbol.name.as_str());
    let mut out: Vec<char> = Vec::new();
    extend_str(&mut out, symbol.kind.as_str());
    extend_str(&mut out, " ");
    extend_chars(&mut out, &name);
    let ghost mut parts: Seq<Seq<char>> = seq![symbol.kind@ + " "@ + symbol.name@];
    assert(out@ == join_seq(parts, " | "@));

    let split = split_camel_case_chars(&name);
    if !chars_eq(&split, &name) {
        push_part(&mut out, Ghost(parts), &split);
        proof {
            parts = parts.push(split@);
        }
    }
    if let Some(sig) = &symbol.signature {
        let s = chars_of(sig.as_str());
        push_part(&mut out, Ghost(parts), &s);
        proof {
            parts = parts.push(sig@);
        }
    }
    if let Some(doc) = &symbol.docstring {
        let d = chars_of(doc.as_str());
        push_part(&mut out, Ghost(parts), &d);
        proof {
            parts = parts.push(doc@);
        }
    }
    let ghost before_parent = parts;
    if let Some(parent_id) = &symbol.parent_id {
        if let Some(parent_name) = extract_name_from_id(parent_id.as_str()) {
            let pn = chars_of(parent_name.as_str());
            let mut a: Vec<char> = Vec::new();
            extend_str(&mut a, "in ");
            extend_chars(&mut a, &pn);
            push_part(&mut out, Ghost(parts), &a);
            proof {
                parts = parts.push(a@);
            }
            let split_parent = split_camel_case_chars(&pn);
            if !chars_eq(&split_parent, &pn) {
                let mut b: Vec<char> = Vec::new();
                extend_str(&mut b, "in ");
                extend_chars(&mut b, &split_parent);
                push_part(&mut out, Ghost(parts), &b);
                proof {
                    parts = parts.push(b@);
                }
            }
        }
    }
    proof {
        assert(parts =~= embedding_parts(*symbol));
    }
    string_of(&out)
}

} // verus!

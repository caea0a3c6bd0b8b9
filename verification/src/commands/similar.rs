//! `scope similar <symbol>` — find structurally similar symbols.
//!
//! Builds a search query from the target symbol's structural properties
//! (kind, name and its split forms, signature); the full-text search runs
//! outside this crate, and the source symbol is dropped from its results.
use vstd::prelude::*;
use crate::engine::embedder::{spec_split_camel_case, split_camel_case_chars};
use crate::engine::graph::Symbol;
use crate::engine::searcher::{spec_split_snake_case, split_snake_case_chars};
use crate::text::{char_views, chars_eq, chars_of, extend_chars, join_exec, join_seq, string_of};

verus! {

/// Arguments for the `scope similar` command.
#[derive(Debug, Clone)]
pub struct SimilarArgs {
    /// Symbol name to find similar symbols for.
    pub symbol: String,
    /// Filter by symbol kind: function, class, method.
    pub kind: Option<String>,
    /// Maximum number of results to show.
    pub limit: usize,
    /// Output as JSON instead of human-readable format.
    pub json: bool,
}

/// The parts of the query for a symbol: its kind and name, the name split
/// at camelCase and at snake_case boundaries (each only where it differs
/// from the name), and its signature.
pub open spec fn similar_query_parts(sym: Symbol) -> Seq<Seq<char>> {
    let name = sym.name@;
    let first = seq![sym.kind@ + seq![' '] + name];
    let camel = spec_split_camel_case(name);
    let snake = spec_split_snake_case(name);
    let with_camel = if camel != name { first.push(camel) } else { first };
    let with_snake = if snake != name { with_camel.push(snake) } else { with_camel };
    match sym.signature {
        Some(s) => with_snake.push(s@),
        None => with_snake,
    }
}

/// The search query for symbols similar to `sym`: its parts joined by spaces.
pub open spec fn spec_similar_query(sym: Symbol) -> Seq<char> {
    join_seq(similar_query_parts(sym), seq![' '])
}

/// Build the search query for symbols similar to `symbol`.
pub fn similar_query(symbol: &Symbol) -> (r: String)
    ensures
        r@ == spec_similar_query(*symbol),
{
    let name = chars_of(symbol.name.as_str());
    let mut head = chars_of(symbol.kind.as_str());
    head.push(' ');
    extend_chars(&mut head, &name);
    assert(head@ =~= symbol.kind@ + seq![' '] + symbol.name@);
    let mut parts: Vec<Vec<char>> = Vec::new();
    parts.push(head);
    let ghost p0 = char_views(parts@);
    let camel = split_camel_case_chars(&name);
    if !chars_eq(&camel, &name) {
        parts.push(camel);
    }
    let ghost p1 = char_views(parts@);
    proof {
        assert(p0 =~= seq![symbol.kind@ + seq![' '] + symbol.name@]);
        if spec_split_camel_case(name@) != name@ {
            assert(p1 =~= p0.push(spec_split_camel_case(name@)));
        } else {
            assert(p1 =~= p0);
        }
    }
    let snake = split_snake_case_chars(&name);
    if !chars_eq(&snake, &name) {
        parts.push(snake);
    }
    let ghost p2 = char_views(parts@);
    proof {
        if spec_split_snake_case(name@) != name@ {
            assert(p2 =~= p1.push(spec_split_snake_case(name@)));
        } else {
            assert(p2 =~= p1);
        }
    }
    match &symbol.signature {
        Some(s) => {
            parts.push(chars_of(s.as_str()));
            assert(char_views(parts@) =~= p2.push(s@));
        },
        None => {},
    }
    proof {
        reveal_strlit(" ");
        assert(" "@ =~= seq![' ']);
    }
    let q = join_exec(&parts, " ");
    string_of(&q)
}

/// The kind filter of the search: the one asked for, else the source
/// symbol's own kind.
pub fn similar_kind_filter(asked: &Option<String>, symbol: &Symbol) -> (r: String)
    ensures
        r@ == match asked {
            Some(k) => k@,
            None => symbol.kind@,
        },
{
    match asked {
        Some(k) => k.clone(),
        None => symbol.kind.clone(),
    }
}

} // verus!

//! `scope summary <symbol>` — a one-screen overview of a symbol.
//!
//! The graph supplies the symbol and its counts; this module decides which
//! symbols count their methods and lays out the overview.
use vstd::prelude::*;
use crate::engine::graph::Symbol;
use crate::num::{decimal, u64_text, usize_text};
use crate::text::{
    char_views, chars_of, extend_chars, extend_str, join_exec, join_seq, lines_exec, lines_seq, string_of,
    views,
};

verus! {

/// Arguments for the `scope summary` command.
#[derive(Debug, Clone)]
pub struct SummaryArgs {
    /// Symbol name or file path to summarise.
    pub symbol: String,
    /// Output as JSON instead of human-readable format.
    pub json: bool,
}

/// Classes, structs and interfaces report how many methods they have.
pub open spec fn spec_counts_methods(kind: Seq<char>) -> bool {
    kind == "class"@ || kind == "struct"@ || kind == "interface"@
}

/// Whether a symbol of this kind reports its method count.
pub fn counts_methods(kind: &str) -> (r: bool)
    ensures
        r == spec_counts_methods(kind@),
{
    let k = chars_of(kind);
    crate::text::chars_eq(&k, &chars_of("class")) || crate::text::chars_eq(&k, &chars_of("struct"))
        || crate::text::chars_eq(&k, &chars_of("interface"))
}

/// The first line of a signature (the whole signature when it has no line).
pub open spec fn first_line(sig: Seq<char>) -> Seq<char> {
    if lines_seq(sig).len() > 0 {
        lines_seq(sig)[0]
    } else {
        sig
    }
}

/// The counts line's entries: callers, deps and methods, each only when
/// there are some.
pub open spec fn summary_stats(callers: usize, deps: usize, methods: usize) -> Seq<Seq<char>> {
    (if callers > 0 { seq![decimal(callers as nat) + " callers"@] } else { Seq::empty() }) + (if deps > 0 {
        seq![decimal(deps as nat) + " deps"@]
    } else {
        Seq::empty()
    }) + (if methods > 0 { seq![decimal(methods as nat) + " methods"@] } else { Seq::empty() })
}

/// The overview of a symbol: a heading line with its name, kind, location
/// and length; its signature's first line when it has one; and its counts
/// when any is above zero.
pub open spec fn spec_summary_text(sym: Symbol, callers: usize, deps: usize, methods: usize) -> Seq<char> {
    let head = sym.name@ + " ("@ + sym.kind@ + ")  "@ + sym.file_path@ + ":"@ + decimal(sym.line_start as nat)
        + "–"@ + decimal(sym.line_end as nat) + "  "@ + decimal((sym.line_end - sym.line_start + 1) as nat)
        + " lines"@;
    let sig = match sym.signature {
        Some(s) => first_line(s@),
        None => Seq::empty(),
    };
    let stats = summary_stats(callers, deps, methods);
    join_seq(
        seq![head] + (if sig.len() > 0 { seq!["  "@ + sig] } else { Seq::empty() }) + (if stats.len() > 0 {
            seq!["  "@ + join_seq(stats, ", "@)]
        } else {
            Seq::empty()
        }),
        "\n"@,
    )
}

/// Lay out the overview of a symbol with its caller, dependency and
/// method counts.
pub fn summary_text(sym: &Symbol, callers: usize, deps: usize, methods: usize) -> (r: String)
    requires
        sym.line_start <= sym.line_end,
        sym.line_end - sym.line_start < u32::MAX,
    ensures
        r@ == spec_summary_text(*sym, callers, deps, methods),
{
    let mut head = chars_of(sym.name.as_str());
    extend_str(&mut head, " (");
    extend_str(&mut head, sym.kind.as_str());
    extend_str(&mut head, ")  ");
    extend_str(&mut head, sym.file_path.as_str());
    extend_str(&mut head, ":");
    extend_chars(&mut head, &u64_text(sym.line_start as u64));
    extend_str(&mut head, "–");
    extend_chars(&mut head, &u64_text(sym.line_end as u64));
    extend_str(&mut head, "  ");
    let len: u32 = sym.line_end - sym.line_start + 1;
    extend_chars(&mut head, &u64_text(len as u64));
    extend_str(&mut head, " lines");
    let mut parts: Vec<Vec<char>> = Vec::new();
    parts.push(head);
    let ghost sig_spec = if sym.signature is Some {
        first_line(sym.signature.unwrap()@)
    } else {
        Seq::<char>::empty()
    };
    let sig: Vec<char> = match &sym.signature {
        Some(s) => {
            let sv = chars_of(s.as_str());
            let ls = lines_exec(&sv);
            if ls.len() > 0 {
                crate::text::copy_chars(&ls[0])
            } else {
                sv
            }
        },
        None => Vec::new(),
    };
    assert(sig@ == sig_spec);
    if sig.len() > 0 {
        let mut l = chars_of("  ");
        extend_chars(&mut l, &sig);
        parts.push(l);
    }
    let mut stats: Vec<Vec<char>> = Vec::new();
    if callers > 0 {
        let mut e = usize_text(callers);
        extend_str(&mut e, " callers");
        stats.push(e);
    }
    if deps > 0 {
        let mut e = usize_text(deps);
        extend_str(&mut e, " deps");
        stats.push(e);
    }
    if methods > 0 {
        let mut e = usize_text(methods);
        extend_str(&mut e, " methods");
        stats.push(e);
    }
    assert(char_views(stats@) =~= summary_stats(callers, deps, methods));
    if stats.len() > 0 {
        let mut l = chars_of("  ");
        let j = join_exec(&stats, ", ");
        extend_chars(&mut l, &j);
        parts.push(l);
    }
    let ghost head_spec = sym.name@ + " ("@ + sym.kind@ + ")  "@ + sym.file_path@ + ":"@ + decimal(
        sym.line_start as nat,
    ) + "–"@ + decimal(sym.line_end as nat) + "  "@ + decimal((sym.line_end - sym.line_start + 1) as nat)
        + " lines"@;
    let ghost stats_spec = summary_stats(callers, deps, methods);
    assert(char_views(parts@) =~= seq![head_spec] + (if sig_spec.len() > 0 {
        seq!["  "@ + sig_spec]
    } else {
        Seq::empty()
    }) + (if stats_spec.len() > 0 { seq!["  "@ + join_seq(stats_spec, ", "@)] } else { Seq::empty() }));
    let out = join_exec(&parts, "\n");
    string_of(&out)
}

/// A top-level symbol of a file, as the file overview lists it.
pub open spec fn kind_and_name(s: Symbol) -> Seq<char> {
    s.kind@ + " "@ + s.name@
}

/// The file overview's entries: `kind name` of each top-level symbol (one
/// without a parent), in the order given.
pub open spec fn spec_top_level_entries(symbols: Seq<Symbol>) -> Seq<Seq<char>> {
    symbols.filter(|s: Symbol| s.parent_id is None).map_values(|s: Symbol| kind_and_name(s))
}

/// List the top-level symbols of a file as `kind name`.
pub fn top_level_entries(symbols: &Vec<Symbol>) -> (r: Vec<String>)
    ensures
        views(r@) == spec_top_level_entries(symbols@),
{
    let ghost keep = |s: Symbol| s.parent_id is None;
    let mut out: Vec<String> = Vec::new();
    let mut i: usize = 0;
    while i < symbols.len()
        invariant
            i <= symbols.len(),
            keep == (|s: Symbol| s.parent_id is None),
            views(out@) == symbols@.take(i as int).filter(keep).map_values(|s: Symbol| kind_and_name(s)),
        decreases symbols.len() - i,
    {
        proof {
            assert(symbols@.take(i + 1) =~= symbols@.take(i as int).push(symbols@[i as int]));
            crate::text::lemma_filter_push(symbols@.take(i as int), symbols@[i as int], keep);
        }
        let s = &symbols[i];
        if s.parent_id.is_none() {
            let mut e = chars_of(s.kind.as_str());
            extend_str(&mut e, " ");
            extend_str(&mut e, s.name.as_str());
            let ghost before = views(out@);
            out.push(string_of(&e));
            proof {
                assert(views(out@) =~= before.push(kind_and_name(symbols@[i as int])));
                assert(symbols@.take(i as int).filter(keep).push(symbols@[i as int]).map_values(
                    |s: Symbol| kind_and_name(s),
                ) =~= symbols@.take(i as int).filter(keep).map_values(|s: Symbol| kind_and_name(s)).push(
                    kind_and_name(symbols@[i as int]),
                ));
            }
        }
        i = i + 1;
    }
    assert(symbols@.take(symbols@.len() as int) =~= symbols@);
    out
}

/// The file overview: the path, the number of symbols, and the top-level
/// entries.
pub open spec fn spec_file_summary_text(file_path: Seq<char>, symbol_count: usize, entries: Seq<Seq<char>>) -> Seq<char> {
    file_path + "  "@ + decimal(symbol_count as nat) + " symbols: "@ + join_seq(entries, ", "@)
}

/// Lay out the overview of a file.
pub fn file_summary_text(file_path: &str, symbol_count: usize, entries: &Vec<String>) -> (r: String)
    ensures
        r@ == spec_file_summary_text(file_path@, symbol_count, views(entries@)),
{
    let mut out = chars_of(file_path);
    extend_str(&mut out, "  ");
    extend_chars(&mut out, &usize_text(symbol_count));
    extend_str(&mut out, " symbols: ");
    let mut parts: Vec<Vec<char>> = Vec::new();
    let mut i: usize = 0;
    while i < entries.len()
        invariant
            i <= entries.len(),
            char_views(parts@) == views(entries@).take(i as int),
        decreases entries.len() - i,
    {
        let ghost before = char_views(parts@);
        parts.push(chars_of(entries[i].as_str()));
        assert(char_views(parts@) =~= before.push(entries@[i as int]@));
        assert(views(entries@).take(i + 1) =~= views(entries@).take(i as int).push(entries@[i as int]@));
        i = i + 1;
    }
    assert(views(entries@).take(entries@.len() as int) =~= views(entries@));
    let j = join_exec(&parts, ", ");
    extend_chars(&mut out, &j);
    string_of(&out)
}

} // verus!

//! `scope refs <symbol>` and `scope callers <symbol>` — find references.
//!
//! The graph answers the reference query; this module decides which query a
//! `callers` request becomes, puts first-party references before vendor
//! ones, and fills in source snippets from a file's lines.
use vstd::prelude::*;
use crate::config::project::{is_vendor_path, spec_is_vendor_path};
use crate::engine::graph::Reference;
use crate::text::{trim_end_seq, trim_end_str, views};

verus! {

/// Arguments for the `scope refs` command.
#[derive(Debug, Clone)]
pub struct RefsArgs {
    /// Symbol name or file path to find references for.
    pub symbol: String,
    /// Filter by edge kind: calls, imports, extends, implements, instantiates, references.
    pub kind: Option<String>,
    /// Maximum number of references to show (default: 20).
    pub limit: usize,
    /// Lines of surrounding code context to show per reference (default: 0).
    pub context: usize,
    /// Output as JSON instead of human-readable format.
    pub json: bool,
}

/// Arguments for the `scope callers` command (alias for refs --kind calls).
#[derive(Debug, Clone)]
pub struct CallersArgs {
    /// Symbol name to find callers for.
    pub symbol: String,
    /// Traversal depth (default 1 = direct callers only, 2+ = transitive callers).
    pub depth: usize,
    /// Maximum callers to show (default: 20, only applies at depth 1).
    pub limit: usize,
    /// Lines of surrounding code context per caller (default: 0, only applies at depth 1).
    pub context: usize,
    /// Output as JSON instead of human-readable format.
    pub json: bool,
}

/// What a `scope callers` request runs.
#[derive(Debug)]
pub enum CallersPlan {
    /// Transitive caller analysis through the impact query (depth > 1).
    Transitive,
    /// A plain `refs` query restricted to call edges.
    Refs(RefsArgs),
}

/// Decide how to run the `scope callers` command (shorthand for refs --kind calls).
///
/// When `depth == 1`: a `refs` query with `kind = "calls"` (flat caller list).
/// When `depth > 1`: transitive impact analysis.
pub fn run_callers(args: &CallersArgs) -> (r: CallersPlan)
    ensures
        args.depth > 1 ==> r is Transitive,
        args.depth <= 1 ==> (match r {
            CallersPlan::Refs(a) => {
                &&& a.symbol@ == args.symbol@
                &&& a.kind is Some && a.kind.unwrap()@ == "calls"@
                &&& a.limit == args.limit
                &&& a.context == args.context
                &&& a.json == args.json
            },
            CallersPlan::Transitive => false,
        }),
{
    if args.depth > 1 {
        return CallersPlan::Transitive;
    }
    CallersPlan::Refs(
        RefsArgs {
            symbol: args.symbol.clone(),
            kind: Some("calls".to_string()),
            limit: args.limit,
            context: args.context,
            json: args.json,
        },
    )
}

/// A reference points into a vendor directory.
pub open spec fn is_vendor_ref(r: Reference, patterns: Seq<Seq<char>>) -> bool {
    spec_is_vendor_path(r.file_path@, patterns)
}

/// References ordered first-party first, vendor last, each part in its
/// original order; unchanged when there are no vendor patterns.
pub open spec fn spec_derank_vendor_refs(refs: Seq<Reference>, patterns: Seq<Seq<char>>) -> Seq<Reference> {
    if patterns.len() == 0 {
        refs
    } else {
        refs.filter(|r: Reference| !is_vendor_ref(r, patterns)) + refs.filter(
            |r: Reference| is_vendor_ref(r, patterns),
        )
    }
}

/// Partition references so first-party results appear before vendor results.
///
/// Within each partition the original order is preserved.
pub fn derank_vendor_refs(refs: Vec<Reference>, vendor_patterns: &[String]) -> (r: Vec<Reference>)
    ensures
        r@ == spec_derank_vendor_refs(refs@, views(vendor_patterns@)),
{
    if vendor_patterns.len() == 0 {
        return refs;
    }
    let ghost pats = views(vendor_patterns@);
    let ghost fp = |r: Reference| !is_vendor_ref(r, pats);
    let ghost fv = |r: Reference| is_vendor_ref(r, pats);
    let ghost all = refs@;
    let total = refs.len();
    let mut rest = refs;
    let mut first: Vec<Reference> = Vec::new();
    let mut vendor: Vec<Reference> = Vec::new();
    let mut taken: usize = 0;
    while rest.len() > 0
        invariant
            taken <= all.len(),
            all.len() == total,
            rest@ == all.skip(taken as int),
            pats == views(vendor_patterns@),
            fp == (|r: Reference| !is_vendor_ref(r, pats)),
            fv == (|r: Reference| is_vendor_ref(r, pats)),
            first@ == all.take(taken as int).filter(fp),
            vendor@ == all.take(taken as int).filter(fv),
        decreases rest.len(),
    {
        let r = rest.remove(0);
        proof {
            assert(all.take(taken + 1) =~= all.take(taken as int).push(r));
            crate::text::lemma_filter_push(all.take(taken as int), r, fp);
            crate::text::lemma_filter_push(all.take(taken as int), r, fv);
            assert(rest@ =~= all.skip(taken + 1));
        }
        if is_vendor_path(r.file_path.as_str(), vendor_patterns) {
            vendor.push(r);
        } else {
            first.push(r);
        }
        taken = taken + 1;
    }
    proof {
        assert(all.take(all.len() as int) =~= all);
    }
    let mut combined = first;
    combined.append(&mut vendor);
    combined
}

/// The index of a reference's line among a file's lines, when it has one
/// that is not negative (line 0 reads the first line, as line 1 does).
pub open spec fn snippet_index(line: Option<i64>) -> Option<int> {
    match line {
        Some(n) => if n < 0 {
            None
        } else if n == 0 {
            Some(0)
        } else {
            Some(n - 1)
        },
        None => None,
    }
}

/// The context lines around index `idx`: `context` lines before and after,
/// clipped to the file, each without trailing whitespace.
pub open spec fn context_window(lines: Seq<Seq<char>>, idx: int, context: int) -> Seq<Seq<char>> {
    let start = if idx >= context { idx - context } else { 0 };
    let end = if idx + context + 1 < lines.len() { idx + context + 1 } else { lines.len() as int };
    lines.subrange(start, end).map_values(|l: Seq<char>| trim_end_seq(l))
}

/// Fills in a reference's source snippet from the lines of its file.
///
/// Sets `snippet_line` to the source line at the reference location (without
/// trailing whitespace) and, when `context_lines > 0`, `snippet` to the
/// surrounding lines. A reference without a line, or whose line lies past
/// the end of the file, is left as it is.
pub fn enrich_reference(r: &mut Reference, lines: &[String], context_lines: usize)
    requires
        context_lines < usize::MAX - lines@.len(),
    ensures
        ({
            let ls = views(lines@);
            match snippet_index(old(r).line) {
                Some(idx) if idx < ls.len() => {
                    &&& final(r).snippet_line is Some
                    &&& final(r).snippet_line.unwrap()@ == trim_end_seq(ls[idx])
                    &&& if context_lines > 0 {
                        final(r).snippet is Some && views(final(r).snippet.unwrap()@)
                            == context_window(ls, idx, context_lines as int)
                    } else {
                        final(r).snippet == old(r).snippet
                    }
                    &&& final(r).from_id == old(r).from_id
                    &&& final(r).from_name == old(r).from_name
                    &&& final(r).kind == old(r).kind
                    &&& final(r).file_path == old(r).file_path
                    &&& final(r).line == old(r).line
                    &&& final(r).context == old(r).context
                },
                _ => *final(r) == *old(r),
            }
        }),
{
    let n = lines.len();
    let line_num = match r.line {
        Some(l) => l,
        None => return,
    };
    if line_num < 0 {
        return;
    }
    let idx: usize = if line_num == 0 {
        0
    } else {
        let k = line_num - 1;
        if k as u64 >= n as u64 {
            return;
        }
        k as usize
    };
    if idx >= n {
        return;
    }
    r.snippet_line = Some(trim_end_str(lines[idx].as_str()));
    if context_lines > 0 {
        let start = if idx >= context_lines { idx - context_lines } else { 0 };
        let end = if idx + context_lines + 1 < n { idx + context_lines + 1 } else { n };
        let mut ctx: Vec<String> = Vec::new();
        let mut j = start;
        while j < end
            invariant
                start <= j <= end <= n,
                n == lines@.len(),
                views(ctx@) == views(lines@).subrange(start as int, j as int).map_values(
                    |l: Seq<char>| trim_end_seq(l),
                ),
            decreases end - j,
        {
            let ghost before = views(ctx@);
            ctx.push(trim_end_str(lines[j].as_str()));
            proof {
                assert(views(ctx@) =~= before.push(trim_end_seq(lines@[j as int]@)));
                assert(views(lines@).subrange(start as int, j + 1).map_values(
                    |l: Seq<char>| trim_end_seq(l),
                ) =~= views(lines@).subrange(start as int, j as int).map_values(
                    |l: Seq<char>| trim_end_seq(l),
                ).push(trim_end_seq(lines@[j as int]@)));
            }
            j = j + 1;
        }
        r.snippet = Some(ctx);
    }
}

} // verus!

//! MCP tool parameters and the `scope` arguments of each tool.
use vstd::prelude::*;
use crate::num::decimal;
use crate::text::views;

verus! {

/// Parameters of the tools that take only a symbol.
#[derive(Debug, Clone)]
pub struct SymbolParam {
    /// Symbol name (e.g. PaymentService, Graph.find_symbol).
    pub symbol: String,
}

/// Parameters of `scope_find`.
#[derive(Debug, Clone)]
pub struct FindParam {
    /// Natural language search query.
    pub query: String,
    /// Filter by symbol kind: function, class, method, interface.
    pub kind: Option<String>,
    /// Maximum results (default: 10).
    pub limit: Option<usize>,
}

/// Parameters of `scope_refs`.
#[derive(Debug, Clone)]
pub struct RefsParam {
    /// Symbol name.
    pub symbol: String,
    /// Filter by reference kind: calls, imports, extends, implements.
    pub kind: Option<String>,
}

/// Parameters of `scope_callers`.
#[derive(Debug, Clone)]
pub struct CallersParam {
    /// Symbol name.
    pub symbol: String,
    /// Depth for transitive callers (default: 1, use 2+ for blast radius).
    pub depth: Option<usize>,
}

/// Parameters of `scope_deps`.
#[derive(Debug, Clone)]
pub struct DepsParam {
    /// Symbol name.
    pub symbol: String,
    /// Depth for transitive deps (default: 1).
    pub depth: Option<usize>,
}

/// Parameters of `scope_diff`.
#[derive(Debug, Clone)]
pub struct DiffParam {
    /// Git ref to compare against (default: HEAD).
    pub git_ref: Option<String>,
}

/// Parameters of `scope_trace`.
#[derive(Debug, Clone)]
pub struct TraceParam {
    /// Symbol name to trace entry paths to.
    pub symbol: String,
}

/// Parameters of `scope_flow`.
#[derive(Debug, Clone)]
pub struct FlowParam {
    /// Source symbol — where the path starts.
    pub start: String,
    /// Target symbol — where the path ends.
    pub end: String,
    /// Maximum path length (default: 10).
    pub depth: Option<usize>,
}

/// Parameters of `scope_map`.
#[derive(Debug, Clone)]
pub struct MapParam {
    /// Maximum core symbols to show (default: 10).
    pub limit: Option<usize>,
}

/// `flag value` when the value is given, nothing otherwise.
pub open spec fn opt_text(flag: Seq<char>, v: Option<String>) -> Seq<Seq<char>> {
    match v {
        Some(s) => seq![flag, s@],
        None => Seq::empty(),
    }
}

/// `flag number` when the number is given, nothing otherwise.
pub open spec fn opt_count(flag: Seq<char>, v: Option<usize>) -> Seq<Seq<char>> {
    match v {
        Some(n) => seq![flag, decimal(n as nat)],
        None => Seq::empty(),
    }
}

/// Appends `flag value` when the value is given.
fn push_opt_text(args: &mut Vec<String>, flag: &str, v: &Option<String>)
    ensures
        views(final(args)@) == views(old(args)@) + opt_text(flag@, *v),
{
    let ghost before = views(args@);
    match v {
        Some(s) => {
            args.push(flag.to_string());
            args.push(s.clone());
            assert(views(args@) =~= before + seq![flag@, s@]);
        },
        None => {
            assert(views(args@) =~= before + Seq::<Seq<char>>::empty());
        },
    }
}

/// Appends `flag number` when the number is given.
fn push_opt_count(args: &mut Vec<String>, flag: &str, v: Option<usize>)
    ensures
        views(final(args)@) == views(old(args)@) + opt_count(flag@, v),
{
    let ghost before = views(args@);
    match v {
        Some(n) => {
            args.push(flag.to_string());
            args.push(crate::text::string_of(&crate::num::usize_text(n)));
            assert(views(args@) =~= before + seq![flag@, decimal(n as nat)]);
        },
        None => {
            assert(views(args@) =~= before + Seq::<Seq<char>>::empty());
        },
    }
}

/// A list of the given words.
fn words_of(ws: &[&str]) -> (r: Vec<String>)
    ensures
        views(r@) == ws@.map_values(|w: &str| w@),
{
    let mut out: Vec<String> = Vec::new();
    let mut i: usize = 0;
    while i < ws.len()
        invariant
            i <= ws@.len(),
            views(out@) == ws@.take(i as int).map_values(|w: &str| w@),
        decreases ws.len() - i,
    {
        let ghost before = views(out@);
        out.push(ws[i].to_string());
        assert(views(out@) =~= before.push(ws@[i as int]@));
        assert(ws@.take(i + 1).map_values(|w: &str| w@) =~= ws@.take(i as int).map_values(
            |w: &str| w@,
        ).push(ws@[i as int]@));
        i = i + 1;
    }
    assert(ws@.take(ws@.len() as int) =~= ws@);
    out
}

/// Arguments of `scope_status`.
pub fn status_args() -> (r: Vec<String>)
    ensures
        views(r@) == seq!["status"@, "--json"@],
{
    let r = words_of(&["status", "--json"]);
    r
}

/// Arguments of `scope_map`.
pub fn map_args(p: &MapParam) -> (r: Vec<String>)
    ensures
        views(r@) == seq!["map"@, "--compact"@] + opt_count("--limit"@, p.limit),
{
    let mut args = words_of(&["map", "--compact"]);
    push_opt_count(&mut args, "--limit", p.limit);
    args
}

/// Arguments of a tool that runs `command` with one flag on a symbol.
pub open spec fn symbol_command(command: Seq<char>, flag: Seq<char>, symbol: Seq<char>) -> Seq<Seq<char>> {
    seq![command, flag, "--"@, symbol]
}

/// Arguments of `scope_sketch`.
pub fn sketch_args(p: &SymbolParam) -> (r: Vec<String>)
    ensures
        views(r@) == symbol_command("sketch"@, "--compact"@, p.symbol@),
{
    let mut args = words_of(&["sketch", "--compact", "--"]);
    let ghost before = views(args@);
    args.push(p.symbol.clone());
    assert(views(args@) =~= before.push(p.symbol@));
    args
}

/// Arguments of `scope_summary`.
pub fn summary_args(p: &SymbolParam) -> (r: Vec<String>)
    ensures
        views(r@) == symbol_command("summary"@, "--json"@, p.symbol@),
{
    let mut args = words_of(&["summary", "--json", "--"]);
    let ghost before = views(args@);
    args.push(p.symbol.clone());
    assert(views(args@) =~= before.push(p.symbol@));
    args
}

/// Arguments of `scope_source`.
pub fn source_args(p: &SymbolParam) -> (r: Vec<String>)
    ensures
        views(r@) == symbol_command("source"@, "--json"@, p.symbol@),
{
    let mut args = words_of(&["source", "--json", "--"]);
    let ghost before = views(args@);
    args.push(p.symbol.clone());
    assert(views(args@) =~= before.push(p.symbol@));
    args
}

/// Arguments of `scope_trace`.
pub fn trace_args(p: &TraceParam) -> (r: Vec<String>)
    ensures
        views(r@) == symbol_command("trace"@, "--json"@, p.symbol@),
{
    let mut args = words_of(&["trace", "--json", "--"]);
    let ghost before = views(args@);
    args.push(p.symbol.clone());
    assert(views(args@) =~= before.push(p.symbol@));
    args
}

/// Arguments of `scope_find`.
pub fn find_args(p: &FindParam) -> (r: Vec<String>)
    ensures
        views(r@) == seq!["find"@, "--json"@] + opt_text("--kind"@, p.kind) + opt_count(
            "--limit"@,
            p.limit,
        ) + seq!["--"@, p.query@],
{
    let mut args = words_of(&["find", "--json"]);
    push_opt_text(&mut args, "--kind", &p.kind);
    push_opt_count(&mut args, "--limit", p.limit);
    let ghost before = views(args@);
    args.push("--".to_string());
    args.push(p.query.clone());
    assert(views(args@) =~= before + seq!["--"@, p.query@]);
    args
}

/// Arguments of `scope_refs`.
pub fn refs_args(p: &RefsParam) -> (r: Vec<String>)
    ensures
        views(r@) == seq!["refs"@, "--json"@] + opt_text("--kind"@, p.kind) + seq!["--"@, p.symbol@],
{
    let mut args = words_of(&["refs", "--json"]);
    push_opt_text(&mut args, "--kind", &p.kind);
    let ghost before = views(args@);
    args.push("--".to_string());
    args.push(p.symbol.clone());
    assert(views(args@) =~= before + seq!["--"@, p.symbol@]);
    args
}

/// Arguments of `scope_callers`.
pub fn callers_args(p: &CallersParam) -> (r: Vec<String>)
    ensures
        views(r@) == seq!["callers"@, "--json"@] + opt_count("--depth"@, p.depth) + seq![
            "--"@,
            p.symbol@,
        ],
{
    let mut args = words_of(&["callers", "--json"]);
    push_opt_count(&mut args, "--depth", p.depth);
    let ghost before = views(args@);
    args.push("--".to_string());
    args.push(p.symbol.clone());
    assert(views(args@) =~= before + seq!["--"@, p.symbol@]);
    args
}

/// Arguments of `scope_deps`.
pub fn deps_args(p: &DepsParam) -> (r: Vec<String>)
    ensures
        views(r@) == seq!["deps"@, "--json"@] + opt_count("--depth"@, p.depth) + seq!["--"@, p.symbol@],
{
    let mut args = words_of(&["deps", "--json"]);
    push_opt_count(&mut args, "--depth", p.depth);
    let ghost before = views(args@);
    args.push("--".to_string());
    args.push(p.symbol.clone());
    assert(views(args@) =~= before + seq!["--"@, p.symbol@]);
    args
}

/// Arguments of `scope_diff`.
pub fn diff_args(p: &DiffParam) -> (r: Vec<String>)
    ensures
        views(r@) == seq!["diff"@, "--json"@] + opt_text("--ref"@, p.git_ref),
{
    let mut args = words_of(&["diff", "--json"]);
    push_opt_text(&mut args, "--ref", &p.git_ref);
    args
}

/// Arguments of `scope_flow`.
pub fn flow_args(p: &FlowParam) -> (r: Vec<String>)
    ensures
        views(r@) == seq!["flow"@, "--json"@] + opt_count("--depth"@, p.depth) + seq![
            "--"@,
            p.start@,
            p.end@,
        ],
{
    let mut args = words_of(&["flow", "--json"]);
    push_opt_count(&mut args, "--depth", p.depth);
    let ghost before = views(args@);
    args.push("--".to_string());
    args.push(p.start.clone());
    args.push(p.end.clone());
    assert(views(args@) =~= before + seq!["--"@, p.start@, p.end@]);
    args
}

} // verus!

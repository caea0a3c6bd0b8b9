//! `scope workspace` — manage multi-project workspaces.
//!
//! Subcommands:
//!   init  — discover projects and create scope-workspace.toml
//!   list  — show workspace members and their index status
//!   index — index all workspace members sequentially
//!
//! The file system walk and the graph queries run outside this crate; here
//! are the rules they follow: which directories discovery skips, where the
//! manifest is looked for, how a member's status is worded, what the
//! workspace is called, and how indexing the members adds up.
use vstd::prelude::*;
use crate::engine::graph::{slashes_forward, slashes_forward_exec};
use crate::path::{
    components_exec, file_name, file_name_exec, has_root, join_relative, join_relative_exec,
    path_components, strip_prefix_components, strip_prefix_exec,
};
use crate::num::{decimal, usize_text};
use crate::text::{char_views, chars_of, extend_chars, extend_str, join_exec, join_seq, str_eq, string_of};

verus! {

/// Arguments for the `scope workspace` command.
#[derive(Debug, Clone)]
pub struct WorkspaceArgs {
    /// The workspace subcommand to run.
    pub command: WorkspaceCommands,
}

/// Workspace subcommands.
#[derive(Debug, Clone)]
pub enum WorkspaceCommands {
    /// Discover projects in the current directory tree and create scope-workspace.toml.
    Init(WorkspaceInitArgs),
    /// Show all workspace members and their index status.
    List(WorkspaceListArgs),
    /// Index all workspace members.
    Index(WorkspaceIndexArgs),
}

/// Arguments for `scope workspace init`.
#[derive(Debug, Clone)]
pub struct WorkspaceInitArgs {
    /// Workspace name. Defaults to the current directory name.
    pub name: Option<String>,
}

/// Arguments for `scope workspace list`.
#[derive(Debug, Clone)]
pub struct WorkspaceListArgs {
    /// Output as JSON instead of human-readable format.
    pub json: bool,
}

/// Arguments for `scope workspace index`.
#[derive(Debug, Clone)]
pub struct WorkspaceIndexArgs {
    /// Rebuild the entire index from scratch for all members.
    pub full: bool,
    /// Output as JSON instead of human-readable format.
    pub json: bool,
}

/// Status information for a single workspace member.
#[derive(Debug, Clone)]
pub struct MemberStatus {
    /// Member display name.
    pub name: String,
    /// Path relative to workspace root.
    pub path: String,
    /// Index status: "indexed", "not initialised", or "not indexed".
    pub status: String,
    /// Number of indexed files (0 if not indexed).
    pub file_count: usize,
    /// Number of symbols in the index (0 if not indexed).
    pub symbol_count: usize,
    /// Unix timestamp of last indexing, if available.
    pub last_indexed_at: Option<i64>,
}

/// JSON data payload for `scope workspace list`.
#[derive(Debug, Clone)]
pub struct WorkspaceListData {
    /// Workspace name from the manifest.
    pub workspace_name: String,
    /// Status of each member.
    pub members: Vec<MemberStatus>,
}

/// What was found at a member's directory.
#[derive(Debug, Clone)]
pub enum MemberProbe {
    /// The member has no `.scope/` directory.
    NoScopeDir,
    /// The member has `.scope/` but no `graph.db`.
    NoDatabase,
    /// The graph opened; its counts (0 where a query failed).
    Indexed { file_count: usize, symbol_count: usize, last_indexed_at: Option<i64> },
    /// The graph did not open, with the error's text.
    OpenFailed(String),
}

/// The status line of a member, by what was found at its directory.
pub open spec fn probe_status(p: MemberProbe) -> Seq<char> {
    match p {
        MemberProbe::NoScopeDir => "not initialised"@,
        MemberProbe::NoDatabase => "not indexed"@,
        MemberProbe::Indexed { .. } => "indexed"@,
        MemberProbe::OpenFailed(e) => "error: "@ + e@,
    }
}

/// The status record of a member.
pub fn member_status(name: String, path: String, probe: MemberProbe) -> (r: MemberStatus)
    ensures
        r.name@ == name@,
        r.path@ == path@,
        r.status@ == probe_status(probe),
        match probe {
            MemberProbe::Indexed { file_count, symbol_count, last_indexed_at } => {
                &&& r.file_count == file_count
                &&& r.symbol_count == symbol_count
                &&& r.last_indexed_at == last_indexed_at
            },
            _ => r.file_count == 0 && r.symbol_count == 0 && r.last_indexed_at is None,
        },
{
    match probe {
        MemberProbe::NoScopeDir => MemberStatus {
            name,
            path,
            status: "not initialised".to_string(),
            file_count: 0,
            symbol_count: 0,
            last_indexed_at: None,
        },
        MemberProbe::NoDatabase => MemberStatus {
            name,
            path,
            status: "not indexed".to_string(),
            file_count: 0,
            symbol_count: 0,
            last_indexed_at: None,
        },
        MemberProbe::Indexed { file_count, symbol_count, last_indexed_at } => MemberStatus {
            name,
            path,
            status: "indexed".to_string(),
            file_count,
            symbol_count,
            last_indexed_at,
        },
        MemberProbe::OpenFailed(e) => {
            let mut v = chars_of("error: ");
            crate::text::extend_str(&mut v, e.as_str());
            MemberStatus {
                name,
                path,
                status: string_of(&v),
                file_count: 0,
                symbol_count: 0,
                last_indexed_at: None,
            }
        },
    }
}

/// Project discovery does not descend into a directory with this name:
/// hidden directories and common dependency or build output directories.
pub open spec fn spec_skip_discovery_dir(dir_name: Seq<char>) -> bool {
    ||| (dir_name.len() > 0 && dir_name[0] == '.')
    ||| dir_name == "node_modules"@
    ||| dir_name == "target"@
    ||| dir_name == "dist"@
    ||| dir_name == "build"@
}

/// Whether project discovery skips a directory.
pub fn skip_discovery_dir(dir_name: &str) -> (r: bool)
    ensures
        r == spec_skip_discovery_dir(dir_name@),
{
    let v = chars_of(dir_name);
    (v.len() > 0 && v[0] == '.') || str_eq(dir_name, "node_modules") || str_eq(dir_name, "target")
        || str_eq(dir_name, "dist") || str_eq(dir_name, "build")
}

/// What project discovery does with a directory it meets.
#[derive(Debug, Clone, PartialEq, Eq)]
pub enum DiscoveryStep {
    /// A hidden or dependency/build directory: left alone.
    Skip,
    /// A project (it has `.scope/config.toml`): recorded as a member under
    /// its path relative to the workspace root, and not descended into.
    Member { rel_path: String, name: String },
    /// Any other directory: searched further.
    Descend,
}

/// A member's path relative to the workspace root, with forward slashes:
/// the components after the root, or the whole path when it does not lie
/// under the root.
pub open spec fn spec_member_rel_path(path: Seq<char>, base_root: Seq<char>) -> Seq<char> {
    match strip_prefix_components(path, base_root) {
        Some(rest) => slashes_forward(join_seq(rest, "/"@)),
        None => slashes_forward(path),
    }
}

/// The step discovery takes at a directory `path` named `dir_name`.
pub open spec fn spec_discovery_step(path: Seq<char>, base_root: Seq<char>, dir_name: Seq<char>, has_scope_config: bool) -> Option<(Seq<char>, Seq<char>)> {
    if spec_skip_discovery_dir(dir_name) || !has_scope_config {
        None
    } else {
        Some((spec_member_rel_path(path, base_root), dir_name))
    }
}

/// Decide what discovery does at a directory: skip it, record it as a
/// member, or descend into it.
pub fn discovery_step(path: &str, base_root: &str, dir_name: &str, has_scope_config: bool) -> (r: DiscoveryStep)
    ensures
        spec_skip_discovery_dir(dir_name@) <==> r is Skip,
        !spec_skip_discovery_dir(dir_name@) && !has_scope_config <==> r is Descend,
        match r {
            DiscoveryStep::Member { rel_path, name } => spec_discovery_step(path@, base_root@, dir_name@, has_scope_config)
                == Some((rel_path@, name@)),
            _ => true,
        },
{
    if skip_discovery_dir(dir_name) {
        return DiscoveryStep::Skip;
    }
    if !has_scope_config {
        return DiscoveryStep::Descend;
    }
    let p = chars_of(path);
    let b = chars_of(base_root);
    let rel = match strip_prefix_exec(&p, &b) {
        Some(rest) => {
            let j = join_exec(&rest, "/");
            slashes_forward_exec(&j)
        },
        None => slashes_forward_exec(&p),
    };
    DiscoveryStep::Member { rel_path: string_of(&rel), name: dir_name.to_string() }
}

/// The workspace name: the one given, else the name of the root directory,
/// else "workspace".
pub open spec fn spec_workspace_name(given: Option<Seq<char>>, root: Seq<char>) -> Seq<char> {
    match given {
        Some(n) => n,
        None => match file_name(root) {
            Some(n) => n,
            None => "workspace"@,
        },
    }
}

/// Determine the workspace name for `scope workspace init`.
pub fn workspace_name(given: &Option<String>, project_root: &str) -> (r: String)
    ensures
        r@ == spec_workspace_name(
            match given {
                Some(n) => Some(n@),
                None => None,
            },
            project_root@,
        ),
{
    match given {
        Some(n) => n.clone(),
        None => {
            let root = chars_of(project_root);
            match file_name_exec(&root) {
                Some(n) => string_of(&n),
                None => "workspace".to_string(),
            }
        },
    }
}

/// A path written from its components: the root as a leading `/`, the
/// other components joined by `/`.
pub open spec fn render_components(c: Seq<Seq<char>>) -> Seq<char> {
    if c.len() > 0 && c[0] == seq!['/'] {
        seq!['/'] + join_seq(c.skip(1), "/"@)
    } else {
        join_seq(c, "/"@)
    }
}

/// Where the workspace manifest is looked for, nearest first: in the start
/// directory and then in each ancestor, up to the root for an absolute path
/// and up to the empty path for a relative one. Each directory is written
/// in normal form (from its components).
pub open spec fn spec_manifest_candidates(start: Seq<char>) -> Seq<Seq<char>> {
    let c = path_components(start);
    let low: int = if has_root(start) { 1 } else { 0 };
    Seq::new(
        (c.len() - low + 1) as nat,
        |k: int| join_relative(render_components(c.take(c.len() - k)), "scope-workspace.toml"@),
    )
}

/// The path written from the first `n` components.
fn render_prefix(c: &Vec<Vec<char>>, n: usize) -> (r: String)
    requires
        n <= c.len(),
    ensures
        r@ == render_components(char_views(c@).take(n as int)),
{
    let rooted = n > 0 && c[0].len() == 1 && c[0][0] == '/';
    let ghost t = char_views(c@).take(n as int);
    proof {
        if n > 0 {
            assert(t[0] == c@[0]@);
            if c@[0]@ == seq!['/'] {
                assert(c@[0]@.len() == 1 && c@[0]@[0] == '/');
            }
            if rooted {
                assert(c@[0]@ =~= seq!['/']);
            }
        }
    }
    let mut parts: Vec<Vec<char>> = Vec::new();
    let mut i: usize = if rooted { 1 } else { 0 };
    let first = i;
    while i < n
        invariant
            first <= i <= n <= c.len(),
            char_views(parts@) == char_views(c@).subrange(first as int, i as int),
        decreases n - i,
    {
        let ghost before = char_views(parts@);
        parts.push(crate::text::copy_chars(&c[i]));
        assert(char_views(parts@) =~= before.push(c@[i as int]@));
        assert(char_views(c@).subrange(first as int, i + 1) =~= char_views(c@).subrange(
            first as int,
            i as int,
        ).push(c@[i as int]@));
        i = i + 1;
    }
    let joined = join_exec(&parts, "/");
    proof {
        if rooted {
            assert(t.skip(1) =~= char_views(c@).subrange(1, n as int));
        } else {
            assert(t =~= char_views(c@).subrange(0, n as int));
        }
    }
    if rooted {
        let mut v: Vec<char> = Vec::new();
        v.push('/');
        crate::text::extend_chars(&mut v, &joined);
        string_of(&v)
    } else {
        string_of(&joined)
    }
}

/// Where to look for `scope-workspace.toml` when walking upward from
/// `start`, nearest first.
pub fn manifest_candidates(start: &str) -> (r: Vec<String>)
    ensures
        crate::text::views(r@) == spec_manifest_candidates(start@),
{
    let s = chars_of(start);
    let c = components_exec(&s);
    let rooted = s.len() > 0 && s[0] == '/';
    proof {
        if has_root(start@) {
            assert(start@.subrange(0, 1)[0] == start@[0]);
        }
        if rooted {
            assert(start@.subrange(0, 1) =~= seq!['/']);
        }
    }
    let low: usize = if rooted { 1 } else { 0 };
    proof {
        if rooted {
            assert(char_views(c@).len() >= 1);
        }
    }
    let ghost want = spec_manifest_candidates(start@);
    let mut out: Vec<String> = Vec::new();
    let total = c.len();
    let mut n = total;
    loop
        invariant_except_break
            low <= n <= total,
            total == c.len(),
            low == (if has_root(start@) { 1int } else { 0int }),
            char_views(c@) == path_components(start@),
            want == spec_manifest_candidates(start@),
            crate::text::views(out@) == want.take(total - n),
        ensures
            crate::text::views(out@) == want,
        decreases n,
    {
        let dir = render_prefix(&c, n);
        let cand = join_relative_exec(dir.as_str(), "scope-workspace.toml");
        let ghost before = crate::text::views(out@);
        out.push(cand);
        proof {
            assert(crate::text::views(out@) =~= before.push(cand@));
            assert(want.take(total - n + 1) =~= want.take(total - n).push(want[total - n]));
            if n == low {
                assert(want.take(total - n + 1) =~= want);
            }
        }
        if n == low {
            break;
        }
        n = n - 1;
    }
    out
}

/// The message given when no candidate directory holds a workspace manifest.
pub open spec fn spec_no_manifest_message() -> Seq<char> {
    "No scope-workspace.toml found.\nRun 'scope workspace init' to create one."@
}

/// The first candidate, in the order given, that exists on disk: the
/// nearest `scope-workspace.toml` found walking upward. `present[i]` tells
/// whether `candidates[i]` exists. With none present, the error explains
/// how to create one.
pub fn find_workspace_manifest(candidates: &Vec<String>, present: &Vec<bool>) -> (r: Result<String, String>)
    requires
        candidates.len() == present.len(),
    ensures
        match r {
            Ok(p) => exists|i: int|
                0 <= i < present.len() && present[i] && p@ == candidates[i]@ && forall|j: int|
                    0 <= j < i ==> !#[trigger] present[j],
            Err(m) => m@ == spec_no_manifest_message() && forall|j: int|
                0 <= j < present.len() ==> !#[trigger] present[j],
        },
{
    let mut i: usize = 0;
    while i < present.len()
        invariant
            candidates.len() == present.len(),
            i <= present.len(),
            forall|j: int| 0 <= j < i ==> !#[trigger] present[j],
        decreases present.len() - i,
    {
        if present[i] {
            return Ok(candidates[i].clone());
        }
        i = i + 1;
    }
    Err("No scope-workspace.toml found.\nRun 'scope workspace init' to create one.".to_string())
}

/// How indexing one workspace member ended.
#[derive(Debug, Clone, Copy, PartialEq, Eq, Structural)]
pub enum MemberOutcome {
    /// The member has no `.scope/config.toml`.
    Skipped,
    /// Loading its configuration, opening its graph or indexing failed.
    Failed,
    /// Indexed, ending with these counts.
    Indexed { symbols: usize, edges: usize },
}

/// The status word reported for a member.
pub open spec fn spec_outcome_status(o: MemberOutcome) -> Seq<char> {
    match o {
        MemberOutcome::Skipped => "skipped"@,
        MemberOutcome::Failed => "error"@,
        MemberOutcome::Indexed { .. } => "indexed"@,
    }
}

/// The status word of a member's outcome.
pub fn outcome_status(o: MemberOutcome) -> (r: &'static str)
    ensures
        r@ == spec_outcome_status(o),
{
    match o {
        MemberOutcome::Skipped => "skipped",
        MemberOutcome::Failed => "error",
        MemberOutcome::Indexed { .. } => "indexed",
    }
}

/// The mode reported for a member: `skipped` when it was skipped, else the
/// mode of the run.
pub open spec fn spec_member_mode(o: MemberOutcome, full: bool) -> Seq<char> {
    match o {
        MemberOutcome::Skipped => "skipped"@,
        _ => if full { "full"@ } else { "incremental"@ },
    }
}

/// The mode word of a member's outcome in a full or incremental run.
pub fn member_mode(o: MemberOutcome, full: bool) -> (r: &'static str)
    ensures
        r@ == spec_member_mode(o, full),
{
    match o {
        MemberOutcome::Skipped => "skipped",
        _ => if full { "full" } else { "incremental" },
    }
}

/// Totals over the first `n` outcomes: members indexed, and their symbols
/// and edges.
pub open spec fn index_totals(outcomes: Seq<MemberOutcome>, n: int) -> (int, int, int)
    decreases n,
{
    if n <= 0 {
        (0, 0, 0)
    } else {
        let t = index_totals(outcomes, n - 1);
        match outcomes[n - 1] {
            MemberOutcome::Indexed { symbols, edges } => (t.0 + 1, t.1 + symbols, t.2 + edges),
            _ => t,
        }
    }
}

/// The totals only grow from one outcome to the next.
proof fn lemma_index_totals_grow(outcomes: Seq<MemberOutcome>, i: int, n: int)
    requires
        0 <= i <= n,
    ensures
        index_totals(outcomes, i).0 <= index_totals(outcomes, n).0,
        index_totals(outcomes, i).1 <= index_totals(outcomes, n).1,
        index_totals(outcomes, i).2 <= index_totals(outcomes, n).2,
        index_totals(outcomes, n).0 <= n,
    decreases n,
{
    if n > i {
        lemma_index_totals_grow(outcomes, i, n - 1);
    } else if n > 0 {
        lemma_index_totals_grow(outcomes, n - 1, n - 1);
    }
}

/// Add up the members' outcomes: `(members indexed, symbols, edges)`.
pub fn workspace_index_totals(outcomes: &Vec<MemberOutcome>) -> (r: (usize, usize, usize))
    requires
        index_totals(outcomes@, outcomes@.len() as int).1 <= usize::MAX,
        index_totals(outcomes@, outcomes@.len() as int).2 <= usize::MAX,
    ensures
        (r.0 as int, r.1 as int, r.2 as int) == index_totals(outcomes@, outcomes@.len() as int),
{
    let ghost n = outcomes@.len() as int;
    let mut indexed: usize = 0;
    let mut symbols: usize = 0;
    let mut edges: usize = 0;
    let mut i: usize = 0;
    while i < outcomes.len()
        invariant
            i <= outcomes.len(),
            n == outcomes@.len(),
            index_totals(outcomes@, n).1 <= usize::MAX,
            index_totals(outcomes@, n).2 <= usize::MAX,
            (indexed as int, symbols as int, edges as int) == index_totals(outcomes@, i as int),
        decreases outcomes.len() - i,
    {
        proof {
            lemma_index_totals_grow(outcomes@, i + 1, n);
        }
        match outcomes[i] {
            MemberOutcome::Indexed { symbols: s, edges: e } => {
                indexed = indexed + 1;
                symbols = symbols + s;
                edges = edges + e;
            },
            _ => {},
        }
        i = i + 1;
    }
    (indexed, symbols, edges)
}

/// The closing line of a workspace index run.
pub open spec fn spec_index_summary_line(indexed: usize, members: usize, symbols: usize) -> Seq<char> {
    "Workspace indexed: "@ + decimal(indexed as nat) + "/"@ + decimal(members as nat) + " members, "@
        + decimal(symbols as nat) + " total symbols"@
}

/// Word the closing line of a workspace index run.
pub fn index_summary_line(indexed: usize, members: usize, symbols: usize) -> (r: String)
    ensures
        r@ == spec_index_summary_line(indexed, members, symbols),
{
    let mut v = chars_of("Workspace indexed: ");
    extend_chars(&mut v, &usize_text(indexed));
    extend_str(&mut v, "/");
    extend_chars(&mut v, &usize_text(members));
    extend_str(&mut v, " members, ");
    extend_chars(&mut v, &usize_text(symbols));
    extend_str(&mut v, " total symbols");
    string_of(&v)
}

} // verus!

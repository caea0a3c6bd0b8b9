//! Workspace configuration stored in `scope-workspace.toml`.
//!
//! A workspace groups multiple Scope projects (each with its own `.scope/`
//! directory) and allows federated queries across all members. Reading the
//! manifest and resolving member directories on disk happens outside this
//! crate; here live the manifest's shape and the rules a manifest must meet.
use vstd::prelude::*;
use crate::path::{file_name, file_name_exec, path_components, components_exec};
use crate::text::{
    char_views, chars_eq, chars_of, extend_chars, extend_str, string_of,
    views,
};
use crate::config::project::owned;

verus! {

/// Top-level workspace manifest parsed from `scope-workspace.toml`.
#[derive(Debug)]
pub struct WorkspaceConfig {
    /// The `[workspace]` section.
    pub workspace: WorkspaceSection,
}

/// The `[workspace]` section of `scope-workspace.toml`.
#[derive(Debug)]
pub struct WorkspaceSection {
    /// Human-readable workspace name.
    pub name: String,
    /// Schema version for forward compatibility. Current: 1.
    pub version: Option<u32>,
    /// Shared defaults inherited by all members unless overridden.
    pub defaults: WorkspaceDefaults,
    /// Member project entries.
    pub members: Vec<WorkspaceMemberEntry>,
}

/// Shared defaults that apply to all workspace members unless overridden.
#[derive(Debug)]
pub struct WorkspaceDefaults {
    /// Default index settings.
    pub index: Option<IndexDefaults>,
    /// Default output settings.
    pub output: Option<OutputDefaults>,
}

impl Default for WorkspaceDefaults {
    fn default() -> (r: Self)
        ensures
            r.index is None,
            r.output is None,
    {
        WorkspaceDefaults { index: None, output: None }
    }
}

/// Default index settings inherited by workspace members.
#[derive(Debug)]
pub struct IndexDefaults {
    /// Glob patterns to ignore during indexing (additive with project-level ignores).
    pub ignore: Option<Vec<String>>,
}

/// Default output settings inherited by workspace members.
#[derive(Debug)]
pub struct OutputDefaults {
    /// Maximum number of refs to display before truncating.
    pub max_refs: Option<usize>,
    /// Maximum depth for impact analysis traversal.
    pub max_impact_depth: Option<usize>,
}

/// A single member entry in the workspace manifest.
#[derive(Debug)]
pub struct WorkspaceMemberEntry {
    /// Path relative to the workspace root.
    pub path: String,
    /// Optional human-readable name. Defaults to directory basename.
    pub name: Option<String>,
}

/// Where a member entry was found on disk, as resolved by the caller.
#[derive(Debug)]
pub struct MemberLocation {
    /// The member directory (workspace root joined with the entry's path) exists.
    pub exists: bool,
    /// The canonical form of the member directory, when it could be resolved.
    pub canonical: Option<String>,
    /// The member directory as displayed in messages.
    pub display: String,
}

/// Why a workspace manifest is rejected.
#[derive(Debug)]
pub enum WorkspaceError {
    /// The manifest declares a schema version newer than 1.
    UnsupportedVersion(u32),
    /// Two members resolve to the same display name.
    DuplicateMemberName(String),
    /// A member's directory does not exist (holds the entry's path).
    MemberPathMissing(String),
    /// A member's directory could not be resolved (holds its display form).
    MemberPathUnresolvable(String),
    /// A member lies outside the workspace root (holds its name).
    MemberOutsideRoot(String),
    /// Two members' directories overlap (holds both names).
    OverlappingMembers(String, String),
}

/// The content of a `WorkspaceError`.
pub enum WorkspaceErrorView {
    UnsupportedVersion(u32),
    DuplicateMemberName(Seq<char>),
    MemberPathMissing(Seq<char>),
    MemberPathUnresolvable(Seq<char>),
    MemberOutsideRoot(Seq<char>),
    OverlappingMembers(Seq<char>, Seq<char>),
}

impl WorkspaceError {
    /// The content of this error.
    pub open spec fn view(&self) -> WorkspaceErrorView {
        match self {
            WorkspaceError::UnsupportedVersion(v) => WorkspaceErrorView::UnsupportedVersion(*v),
            WorkspaceError::DuplicateMemberName(n) => WorkspaceErrorView::DuplicateMemberName(n@),
            WorkspaceError::MemberPathMissing(p) => WorkspaceErrorView::MemberPathMissing(p@),
            WorkspaceError::MemberPathUnresolvable(p) => WorkspaceErrorView::MemberPathUnresolvable(p@),
            WorkspaceError::MemberOutsideRoot(n) => WorkspaceErrorView::MemberOutsideRoot(n@),
            WorkspaceError::OverlappingMembers(a, b) => WorkspaceErrorView::OverlappingMembers(
                a@,
                b@,
            ),
        }
    }
}

// ---------------------------------------------------------------------------
// Member names
// ---------------------------------------------------------------------------

/// The display name of a member entry: its explicit name, else the last
/// component of its path, else `unknown`.
#[verifier::opaque]
pub open spec fn spec_member_name(entry: WorkspaceMemberEntry) -> Seq<char> {
    match entry.name {
        Some(n) => n@,
        None => match file_name(entry.path@) {
            Some(b) => b,
            None => "unknown"@,
        },
    }
}

/// The display names of a list of member entries.
pub open spec fn spec_member_names(members: Seq<WorkspaceMemberEntry>) -> Seq<Seq<char>> {
    members.map_values(|e: WorkspaceMemberEntry| spec_member_name(e))
}

impl WorkspaceConfig {
    /// Check the manifest's schema version: versions above 1 are rejected.
    pub fn check_version(&self) -> (r: Result<(), WorkspaceError>)
        ensures
            match self.workspace.version {
                Some(v) if v > 1 => r matches Err(e) && e.view() == WorkspaceErrorView::UnsupportedVersion(v),
                _ => r is Ok,
            },
    {
        if let Some(version) = self.workspace.version {
            if version > 1 {
                return Err(WorkspaceError::UnsupportedVersion(version));
            }
        }
        Ok(())
    }

    /// Resolve the display name for a member entry.
    ///
    /// Returns the explicit `name` if set, otherwise the last component
    /// of the `path` (directory basename).
    pub fn resolve_member_name(entry: &WorkspaceMemberEntry) -> (r: String)
        ensures
            r@ == spec_member_name(*entry),
    {
        reveal(spec_member_name);
        if let Some(name) = &entry.name {
            return owned(name.as_str());
        }
        let p = chars_of(entry.path.as_str());
        match file_name_exec(&p) {
            Some(n) => string_of(&n),
            None => owned("unknown"),
        }
    }
}

// ---------------------------------------------------------------------------
// Validation
// ---------------------------------------------------------------------------

/// The canonical directory of a member lies at or below another directory,
/// component by component (std's `Path::starts_with`).
#[verifier::opaque]
pub open spec fn path_within(p: Seq<char>, base: Seq<char>) -> bool {
    path_components(base).is_prefix_of(path_components(p))
}

/// The problem with a member, given the display names of the members before it.
pub open spec fn member_problem_after(
    prior: Seq<Seq<char>>,
    entry: WorkspaceMemberEntry,
    loc: MemberLocation,
    root: Seq<char>,
) -> Option<WorkspaceErrorView> {
    let name = spec_member_name(entry);
    if prior.contains(name) {
        Some(WorkspaceErrorView::DuplicateMemberName(name))
    } else if !loc.exists {
        Some(WorkspaceErrorView::MemberPathMissing(entry.path@))
    } else {
        match loc.canonical {
            None => Some(WorkspaceErrorView::MemberPathUnresolvable(loc.display@)),
            Some(c) => if !path_within(c@, root) {
                Some(WorkspaceErrorView::MemberOutsideRoot(name))
            } else {
                None
            },
        }
    }
}

/// The first problem found with member `i`.
pub open spec fn member_problem(
    members: Seq<WorkspaceMemberEntry>,
    locs: Seq<MemberLocation>,
    root: Seq<char>,
    i: int,
) -> Option<WorkspaceErrorView> {
    member_problem_after(spec_member_names(members).subrange(0, i), members[i], locs[i], root)
}

/// The first member (from index `i` on) with a problem, and that problem.
pub open spec fn first_member_problem(
    members: Seq<WorkspaceMemberEntry>,
    locs: Seq<MemberLocation>,
    root: Seq<char>,
    i: int,
) -> Option<WorkspaceErrorView>
    decreases members.len() - i,
{
    if i < 0 || i >= members.len() {
        None
    } else {
        match member_problem(members, locs, root, i) {
            Some(e) => Some(e),
            None => first_member_problem(members, locs, root, i + 1),
        }
    }
}

/// The canonical directory of member `i` (meaningful once every member resolved).
pub open spec fn canonical_of(locs: Seq<MemberLocation>, i: int) -> Seq<char> {
    match locs[i].canonical {
        Some(c) => c@,
        None => Seq::empty(),
    }
}

/// Two component lists overlap: one is a prefix of the other.
pub open spec fn components_overlap(a: Seq<Seq<char>>, b: Seq<Seq<char>>) -> bool {
    a.is_prefix_of(b) || b.is_prefix_of(a)
}

/// Members `i` and `j` have overlapping directories.
#[verifier::opaque]
pub open spec fn overlapping(locs: Seq<MemberLocation>, i: int, j: int) -> bool {
    components_overlap(
        path_components(canonical_of(locs, i)),
        path_components(canonical_of(locs, j)),
    )
}

/// The first overlapping pair `(i, j)`, `i < j`, ordered by `i` then `j`,
/// searching from pair `(i, j)` on, among the component lists `cs`.
pub open spec fn first_overlap_from(cs: Seq<Seq<Seq<char>>>, i: int, j: int) -> Option<(int, int)>
    decreases cs.len() - i, cs.len() - j,
{
    if i < 0 || i >= cs.len() || j < 0 {
        None
    } else if j >= cs.len() {
        first_overlap_from(cs, i + 1, i + 2)
    } else if components_overlap(cs[i], cs[j]) {
        Some((i, j))
    } else {
        first_overlap_from(cs, i, j + 1)
    }
}

/// The component lists of the members' canonical directories.
pub open spec fn canonical_components(locs: Seq<MemberLocation>) -> Seq<Seq<Seq<char>>> {
    Seq::new(locs.len(), |k: int| path_components(canonical_of(locs, k)))
}

/// The outcome of validating a manifest against where its members were found:
/// the first member problem in manifest order, else the first overlapping pair.
pub open spec fn spec_validate(
    members: Seq<WorkspaceMemberEntry>,
    locs: Seq<MemberLocation>,
    root: Seq<char>,
) -> Option<WorkspaceErrorView> {
    match first_member_problem(members, locs, root, 0) {
        Some(e) => Some(e),
        None => match first_overlap_from(canonical_components(locs), 0, 1) {
            Some((i, j)) => Some(
                WorkspaceErrorView::OverlappingMembers(
                    spec_member_name(members[i]),
                    spec_member_name(members[j]),
                ),
            ),
            None => None,
        },
    }
}

proof fn lemma_first_member_problem_none(
    members: Seq<WorkspaceMemberEntry>,
    locs: Seq<MemberLocation>,
    root: Seq<char>,
    i: int,
)
    requires
        0 <= i,
        first_member_problem(members, locs, root, i) is None,
    ensures
        forall|k: int| i <= k < members.len() ==> member_problem(members, locs, root, k) is None,
    decreases members.len() - i,
{
    if i < members.len() {
        lemma_first_member_problem_none(members, locs, root, i + 1);
    }
}

proof fn lemma_first_overlap_none(cs: Seq<Seq<Seq<char>>>, i: int, j: int)
    requires
        0 <= i,
        i < j,
        first_overlap_from(cs, i, j) is None,
    ensures
        forall|a: int, b: int|
            0 <= a < b < cs.len() && (a > i || (a == i && b >= j)) ==> !components_overlap(
                cs[a],
                cs[b],
            ),
    decreases cs.len() - i, cs.len() - j,
{
    if i >= cs.len() {
    } else if j >= cs.len() {
        lemma_first_overlap_none(cs, i + 1, i + 2);
    } else {
        lemma_first_overlap_none(cs, i, j + 1);
    }
}

/// Whether the components of `a` are a prefix of those of `b`.
fn components_prefix_of(a: &Vec<Vec<char>>, b: &Vec<Vec<char>>) -> (r: bool)
    ensures
        r == char_views(a@).is_prefix_of(char_views(b@)),
{
    if a.len() > b.len() {
        return false;
    }
    let mut i: usize = 0;
    while i < a.len()
        invariant
            a.len() <= b.len(),
            i <= a.len(),
            forall|j: int| 0 <= j < i ==> char_views(a@)[j] == char_views(b@)[j],
        decreases a.len() - i,
    {
        if !chars_eq(&a[i], &b[i]) {
            proof {
                assert(char_views(b@).subrange(0, char_views(a@).len() as int)[i as int]
                    == char_views(b@)[i as int]);
            }
            return false;
        }
        i = i + 1;
    }
    assert(char_views(b@).subrange(0, char_views(a@).len() as int) =~= char_views(a@));
    true
}

/// Whether `p` lies at or below `base` (std's `Path::starts_with`).
pub fn path_within_exec(p: &str, base: &str) -> (r: bool)
    ensures
        r == path_within(p@, base@),
{
    reveal(path_within);
    let pc = components_exec(&chars_of(p));
    let bc = components_exec(&chars_of(base));
    components_prefix_of(&bc, &pc)
}

/// Whether `name` is among `names`.
fn contains_name(names: &Vec<String>, name: &String) -> (r: bool)
    ensures
        r == views(names@).contains(name@),
{
    let mut i: usize = 0;
    while i < names.len()
        invariant
            i <= names.len(),
            forall|k: int| 0 <= k < i ==> views(names@)[k] != name@,
        decreases names.len() - i,
    {
        if names[i] == *name {
            assert(views(names@)[i as int] == name@);
            return true;
        }
        i = i + 1;
    }
    false
}

/// Checks one member given the names of the members before it; on success
/// returns its name and the components of its canonical directory.
fn check_member(
    prior: &Vec<String>,
    entry: &WorkspaceMemberEntry,
    loc: &MemberLocation,
    root: &str,
) -> (r: Result<(String, Vec<Vec<char>>), WorkspaceError>)
    ensures
        match r {
            Ok((n, cs)) => member_problem_after(views(prior@), *entry, *loc, root@) is None
                && n@ == spec_member_name(*entry) && loc.canonical is Some && char_views(cs@)
                == path_components(loc.canonical->0@),
            Err(e) => member_problem_after(views(prior@), *entry, *loc, root@) == Some(e.view()),
        },
{
    let name = WorkspaceConfig::resolve_member_name(entry);
    if contains_name(prior, &name) {
        return Err(WorkspaceError::DuplicateMemberName(name));
    }
    if !loc.exists {
        return Err(WorkspaceError::MemberPathMissing(owned(entry.path.as_str())));
    }
    let c = match &loc.canonical {
        Some(c) => c,
        None => {
            return Err(WorkspaceError::MemberPathUnresolvable(owned(loc.display.as_str())));
        },
    };
    if !path_within_exec(c.as_str(), root) {
        return Err(WorkspaceError::MemberOutsideRoot(name));
    }
    let comps = components_exec(&chars_of(c.as_str()));
    Ok((name, comps))
}

/// The first phase of validation: per-member checks in manifest order.
fn check_members(
    members: &Vec<WorkspaceMemberEntry>,
    locations: &Vec<MemberLocation>,
    root: &str,
) -> (r: Result<Vec<Vec<Vec<char>>>, WorkspaceError>)
    requires
        locations@.len() == members@.len(),
    ensures
        match r {
            Ok(cs) => first_member_problem(members@, locations@, root@, 0) is None && cs@.len()
                == members@.len() && forall|k: int|
                0 <= k < cs@.len() ==> #[trigger] char_views(cs@[k]@)
                    == canonical_components(locations@)[k],
            Err(e) => first_member_problem(members@, locations@, root@, 0) == Some(e.view()),
        },
{
    let ghost ms = members@;
    let ghost ls = locations@;
    let mut names: Vec<String> = Vec::new();
    let mut canon: Vec<Vec<Vec<char>>> = Vec::new();
    let mut i: usize = 0;
    while i < members.len()
        invariant
            ms == members@,
            ls == locations@,
            locations@.len() == members@.len(),
            i <= members.len(),
            views(names@) == spec_member_names(ms).subrange(0, i as int),
            canon@.len() == i,
            forall|k: int| 0 <= k < i ==> #[trigger] char_views(canon@[k]@)
                == canonical_components(ls)[k],
            first_member_problem(ms, ls, root@, 0) == first_member_problem(ms, ls, root@, i as int),
        decreases members.len() - i,
    {
        let res = check_member(&names, &members[i], &locations[i], root);
        match res {
            Err(e) => {
                return Err(e);
            },
            Ok((name, comps)) => {
                let ghost old_names = names@;
                names.push(name);
                assert(views(names@) =~= views(old_names).push(spec_member_names(ms)[i as int]));
                assert(spec_member_names(ms).subrange(0, i + 1) =~= spec_member_names(
                    ms,
                ).subrange(0, i as int).push(spec_member_names(ms)[i as int]));
                canon.push(comps);
                i = i + 1;
            },
        }
    }
    Ok(canon)
}

/// The second phase of validation: the first pair of overlapping members.
fn find_overlap(canon: &Vec<Vec<Vec<char>>>, cs: Ghost<Seq<Seq<Seq<char>>>>) -> (r: Option<(usize, usize)>)
    requires
        canon@.len() == cs@.len(),
        forall|k: int| 0 <= k < canon@.len() ==> #[trigger] char_views(canon@[k]@) == cs@[k],
    ensures
        match r {
            Some((i, j)) => first_overlap_from(cs@, 0, 1) == Some((i as int, j as int)) && i < j
                < canon@.len(),
            None => first_overlap_from(cs@, 0, 1) is None,
        },
{
    let n = canon.len();
    let mut a: usize = 0;
    while a < n
        invariant
            n == canon@.len() == cs@.len(),
            forall|k: int| 0 <= k < n ==> #[trigger] char_views(canon@[k]@) == cs@[k],
            a <= n,
            first_overlap_from(cs@, 0, 1) == first_overlap_from(cs@, a as int, a + 1),
        decreases n - a,
    {
        let mut b: usize = a + 1;
        while b < n
            invariant
                n == canon@.len() == cs@.len(),
                forall|k: int| 0 <= k < n ==> #[trigger] char_views(canon@[k]@) == cs@[k],
                a < n,
                a + 1 <= b <= n,
                first_overlap_from(cs@, 0, 1) == first_overlap_from(cs@, a as int, b as int),
            decreases n - b,
        {
            let ab = components_prefix_of(&canon[a], &canon[b]);
            let ba = components_prefix_of(&canon[b], &canon[a]);
            proof {
                assert(char_views(canon@[a as int]@) == cs@[a as int]);
                assert(char_views(canon@[b as int]@) == cs@[b as int]);
            }
            if ab || ba {
                return Some((a, b));
            }
            b = b + 1;
        }
        a = a + 1;
    }
    None
}

/// A member without problems has a name not used before it and a resolved
/// directory under the root.
proof fn lemma_member_ok(
    ms: Seq<WorkspaceMemberEntry>,
    ls: Seq<MemberLocation>,
    root: Seq<char>,
    i: int,
    j: int,
)
    requires
        ls.len() == ms.len(),
        0 <= i < j < ms.len(),
        member_problem(ms, ls, root, i) is None,
        member_problem(ms, ls, root, j) is None,
    ensures
        spec_member_name(ms[i]) != spec_member_name(ms[j]),
        path_within(canonical_of(ls, i), root),
{
    let names = spec_member_names(ms);
    assert(names.subrange(0, j)[i] == names[i]);
    assert(names[i] == spec_member_name(ms[i]));
    assert(names.subrange(0, j).contains(spec_member_name(ms[i])));
}

/// A manifest that passes validation has pairwise distinct member names,
/// pairwise non-overlapping member directories, and every member directory
/// under the workspace root.
pub proof fn lemma_valid_manifest(
    ms: Seq<WorkspaceMemberEntry>,
    ls: Seq<MemberLocation>,
    root: Seq<char>,
    i: int,
    j: int,
)
    requires
        ls.len() == ms.len(),
        spec_validate(ms, ls, root) is None,
        0 <= i < j < ms.len(),
    ensures
        spec_member_name(ms[i]) != spec_member_name(ms[j]),
        !overlapping(ls, i, j),
        path_within(canonical_of(ls, i), root),
{
    let cs = canonical_components(ls);
    assert(first_member_problem(ms, ls, root, 0) is None);
    lemma_first_member_problem_none(ms, ls, root, 0);
    assert(first_overlap_from(cs, 0, 1) is None);
    lemma_first_overlap_none(cs, 0, 1);
    lemma_member_ok(ms, ls, root, i, j);
    assert(!components_overlap(cs[i], cs[j]));
    reveal(overlapping);
}

impl WorkspaceConfig {
    /// Validate the workspace manifest against where its members were found.
    ///
    /// `canonical_root` is the canonical workspace root and `locations[i]`
    /// describes member `i`. Checks, in manifest order, that member names
    /// are unique, that every member directory exists and resolves, and that
    /// it lies under the workspace root; then that no two member directories
    /// overlap. The first failed check is reported.
    pub fn validate(&self, canonical_root: &str, locations: &Vec<MemberLocation>) -> (r: Result<(), WorkspaceError>)
        requires
            locations@.len() == self.workspace.members@.len(),
        ensures
            match r {
                Ok(()) => spec_validate(self.workspace.members@, locations@, canonical_root@) is None,
                Err(e) => spec_validate(self.workspace.members@, locations@, canonical_root@) == Some(e.view()),
            },
    {
        let members = &self.workspace.members;
        let canon = match check_members(members, locations, canonical_root) {
            Ok(c) => c,
            Err(e) => {
                return Err(e);
            },
        };
        let ghost cs = canonical_components(locations@);
        match find_overlap(&canon, Ghost(cs)) {
            Some((a, b)) => {
                let na = WorkspaceConfig::resolve_member_name(&members[a]);
                let nb = WorkspaceConfig::resolve_member_name(&members[b]);
                Err(WorkspaceError::OverlappingMembers(na, nb))
            },
            None => {
                Ok(())
            },
        }
    }
}

// ---------------------------------------------------------------------------
// Manifest generation
// ---------------------------------------------------------------------------

/// `s` with every backslash replaced by a forward slash.
pub open spec fn forward_slashes(s: Seq<char>) -> Seq<char> {
    s.map_values(|c: char| if c == '\\' { '/' } else { c })
}

/// The manifest lines for one member.
pub open spec fn member_block(path: Seq<char>, name: Seq<char>) -> Seq<char> {
    "[[workspace.members]]\n"@ + "path = \""@ + forward_slashes(path) + "\"\n"@ + "name = \""@ + name
        + "\"\n\n"@
}

/// The manifest blocks of the first `k` members.
pub open spec fn member_blocks(members: Seq<(String, String)>, k: int) -> Seq<char>
    decreases k,
{
    if k <= 0 {
        Seq::empty()
    } else {
        member_blocks(members, k - 1) + member_block(members[k - 1].0@, members[k - 1].1@)
    }
}

/// The manifest text for a workspace name and its `(path, name)` members.
pub open spec fn spec_generate_toml(name: Seq<char>, members: Seq<(String, String)>) -> Seq<char> {
    "# scope-workspace.toml — workspace manifest for multi-project Scope queries.\n"@
        + "# Place this file at the root of your workspace.\n\n"@ + "[workspace]\n"@ + "name = \""@
        + name + "\"\n"@ + "version = 1\n\n"@ + member_blocks(members, members.len() as int)
}

/// A copy of `s` with backslashes turned into forward slashes.
fn forward_slashes_exec(s: &Vec<char>) -> (r: Vec<char>)
    ensures
        r@ == forward_slashes(s@),
{
    let mut r = Vec::new();
    let mut i: usize = 0;
    while i < s.len()
        invariant
            i <= s.len(),
            r@ == forward_slashes(s@.subrange(0, i as int)),
        decreases s.len() - i,
    {
        let c = s[i];
        r.push(if c == '\\' { '/' } else { c });
        i = i + 1;
        assert(r@ =~= forward_slashes(s@.subrange(0, i as int)));
    }
    assert(s@.subrange(0, s@.len() as int) =~= s@);
    r
}

impl WorkspaceConfig {
    /// Generate a TOML string for a workspace manifest.
    ///
    /// Used by `scope workspace init` to write the initial file. Member
    /// paths are written with forward slashes.
    pub fn generate_toml(name: &str, members: &[(String, String)]) -> (r: String)
        ensures
            r@ == spec_generate_toml(name@, members@),
    {
        let mut out: Vec<char> = Vec::new();
        extend_str(&mut out, "# scope-workspace.toml — workspace manifest for multi-project Scope queries.\n");
        extend_str(&mut out, "# Place this file at the root of your workspace.\n\n");
        extend_str(&mut out, "[workspace]\n");
        extend_str(&mut out, "name = \"");
        extend_str(&mut out, name);
        extend_str(&mut out, "\"\n");
        extend_str(&mut out, "version = 1\n\n");
        let ghost head = out@;
        let mut i: usize = 0;
        while i < members.len()
            invariant
                i <= members.len(),
                out@ == head + member_blocks(members@, i as int),
            decreases members.len() - i,
        {
            let ghost before = out@;
            extend_str(&mut out, "[[workspace.members]]\n");
            extend_str(&mut out, "path = \"");
            let p = forward_slashes_exec(&chars_of(members[i].0.as_str()));
            extend_chars(&mut out, &p);
            extend_str(&mut out, "\"\n");
            extend_str(&mut out, "name = \"");
            extend_str(&mut out, members[i].1.as_str());
            extend_str(&mut out, "\"\n\n");
            assert(out@ =~= before + member_block(members@[i as int].0@, members@[i as int].1@));
            i = i + 1;
        }
        string_of(&out)
    }
}

} // verus!

verus! {

/// The user-facing text of a workspace error.
pub open spec fn workspace_error_message(e: WorkspaceErrorView) -> Seq<char> {
    match e {
        WorkspaceErrorView::UnsupportedVersion(v) => "Unsupported workspace version "@ + crate::num::decimal(
            v as nat,
        ) + ". This version of Scope supports version 1."@,
        WorkspaceErrorView::DuplicateMemberName(n) => "Duplicate member name '"@ + n + "'"@,
        WorkspaceErrorView::MemberPathMissing(p) => "Member path '"@ + p + "' does not exist"@,
        WorkspaceErrorView::MemberPathUnresolvable(p) => "Cannot canonicalize member path: "@ + p,
        WorkspaceErrorView::MemberOutsideRoot(n) => "Member '"@ + n
            + "' is outside workspace root. Set allow_external = true to permit this."@,
        WorkspaceErrorView::OverlappingMembers(a, b) => "Member '"@ + a + "' path overlaps with member '"@
            + b + "'. Each member must have a distinct, non-overlapping directory."@,
    }
}

impl WorkspaceError {
    /// The error's user-facing message.
    pub fn message(&self) -> (r: String)
        ensures
            r@ == workspace_error_message(self.view()),
    {
        let mut v: Vec<char>;
        match self {
            WorkspaceError::UnsupportedVersion(n) => {
                v = crate::text::chars_of("Unsupported workspace version ");
                crate::text::extend_chars(&mut v, &crate::num::u64_text(*n as u64));
                crate::text::extend_str(&mut v, ". This version of Scope supports version 1.");
            },
            WorkspaceError::DuplicateMemberName(n) => {
                v = crate::text::chars_of("Duplicate member name '");
                crate::text::extend_str(&mut v, n.as_str());
                crate::text::extend_str(&mut v, "'");
            },
            WorkspaceError::MemberPathMissing(p) => {
                v = crate::text::chars_of("Member path '");
                crate::text::extend_str(&mut v, p.as_str());
                crate::text::extend_str(&mut v, "' does not exist");
            },
            WorkspaceError::MemberPathUnresolvable(p) => {
                v = crate::text::chars_of("Cannot canonicalize member path: ");
                crate::text::extend_str(&mut v, p.as_str());
            },
            WorkspaceError::MemberOutsideRoot(n) => {
                v = crate::text::chars_of("Member '");
                crate::text::extend_str(&mut v, n.as_str());
                crate::text::extend_str(
                    &mut v,
                    "' is outside workspace root. Set allow_external = true to permit this.",
                );
            },
            WorkspaceError::OverlappingMembers(a, b) => {
                v = crate::text::chars_of("Member '");
                crate::text::extend_str(&mut v, a.as_str());
                crate::text::extend_str(&mut v, "' path overlaps with member '");
                crate::text::extend_str(&mut v, b.as_str());
                crate::text::extend_str(
                    &mut v,
                    "'. Each member must have a distinct, non-overlapping directory.",
                );
            },
        }
        crate::text::string_of(&v)
    }
}

} // verus!

//! `scope status` — index status for a project or workspace.
//!
//! The counts come from the graph; this module holds the reported records,
//! the relative-time wording of the last index time, and how member
//! statuses add up to a workspace total.
use vstd::prelude::*;
use crate::num::{decimal, u64_text};
use crate::text::{extend_str, string_of};

verus! {

/// Arguments for the `scope status` command.
#[derive(Debug, Clone)]
pub struct StatusArgs {
    /// Output as JSON instead of human-readable format.
    pub json: bool,
}

/// Index status of one project.
#[derive(Debug, Clone)]
pub struct StatusData {
    /// Whether a graph database exists.
    pub index_exists: bool,
    /// Number of indexed symbols.
    pub symbol_count: usize,
    /// Number of indexed files.
    pub file_count: usize,
    /// Unix timestamp of the last index run.
    pub last_indexed_at: Option<i64>,
    /// Human-readable relative time of the last index run.
    pub last_indexed_relative: Option<String>,
    /// Number of edges in the graph.
    pub edge_count: usize,
}

/// Index status of a whole workspace.
#[derive(Debug, Clone)]
pub struct WorkspaceStatusData {
    /// Workspace name from the manifest.
    pub workspace_name: String,
    /// Status of each member.
    pub members: Vec<MemberStatusData>,
    /// Totals across all members.
    pub totals: StatusData,
}

/// Per-member status in workspace mode.
#[derive(Debug, Clone)]
pub struct MemberStatusData {
    /// Member display name.
    pub name: String,
    /// Status information.
    pub status: StatusData,
}

impl StatusData {
    /// The status of a project that has no index.
    pub fn not_indexed() -> (r: Self)
        ensures
            !r.index_exists,
            r.symbol_count == 0,
            r.file_count == 0,
            r.last_indexed_at is None,
            r.last_indexed_relative is None,
            r.edge_count == 0,
    {
        StatusData {
            index_exists: false,
            symbol_count: 0,
            file_count: 0,
            last_indexed_at: None,
            last_indexed_relative: None,
            edge_count: 0,
        }
    }
}

/// The wording of an elapsed time of `delta` seconds: "just now" under a
/// minute (or for a time in the future), then minutes, hours, "yesterday"
/// and days, each rounded down.
pub open spec fn relative_time_text(delta: int) -> Seq<char> {
    let minutes = delta / 60;
    let hours = minutes / 60;
    let days = hours / 24;
    if delta < 60 {
        "just now"@
    } else if minutes == 1 {
        "1 minute ago"@
    } else if minutes < 60 {
        decimal(minutes as nat) + " minutes ago"@
    } else if hours == 1 {
        "1 hour ago"@
    } else if hours < 24 {
        decimal(hours as nat) + " hours ago"@
    } else if days == 1 {
        "yesterday"@
    } else {
        decimal(days as nat) + " days ago"@
    }
}

/// The wording of the time from `unix_ts` to `now`.
pub open spec fn relative_time_from(now: i64, unix_ts: i64) -> Seq<char> {
    relative_time_text(now - unix_ts)
}

/// `n` in decimal followed by `suffix`.
fn count_with_suffix(n: u64, suffix: &str) -> (r: String)
    ensures
        r@ == decimal(n as nat) + suffix@,
{
    let mut v = u64_text(n);
    extend_str(&mut v, suffix);
    string_of(&v)
}

/// Format the time from `unix_ts` to `now` (both Unix timestamps in
/// seconds) as a human-readable relative time.
pub fn format_relative_time_at(now: i64, unix_ts: i64) -> (r: String)
    ensures
        r@ == relative_time_text(now - unix_ts),
{
    let delta: i128 = now as i128 - unix_ts as i128;
    if delta < 60 {
        return "just now".to_string();
    }
    let minutes = delta / 60;
    let hours = minutes / 60;
    let days = hours / 24;
    assert(0 < minutes <= u64::MAX) by (nonlinear_arith)
        requires
            minutes == delta / 60,
            60 <= delta <= i64::MAX as i128 - i64::MIN as i128,
    ;
    assert(hours <= minutes && days <= hours) by (nonlinear_arith)
        requires
            hours == minutes / 60,
            days == hours / 24,
            minutes > 0,
    ;
    if minutes == 1 {
        "1 minute ago".to_string()
    } else if minutes < 60 {
        count_with_suffix(minutes as u64, " minutes ago")
    } else if hours == 1 {
        "1 hour ago".to_string()
    } else if hours < 24 {
        count_with_suffix(hours as u64, " hours ago")
    } else if days == 1 {
        "yesterday".to_string()
    } else {
        count_with_suffix(days as u64, " days ago")
    }
}

/// The current time as a Unix timestamp in seconds (0 if the clock reads
/// before the epoch).
///
/// Wraps `std::time::SystemTime::now` and `duration_since(UNIX_EPOCH)`.
/// Only that the value is not negative is stated (a clock before the epoch
/// gives 0, and a system time's seconds fit in `i64`); the value itself is
/// the machine's clock.
#[verifier::external_body]
fn now_unix_secs() -> (r: i64)
    ensures
        r >= 0,
{
    std::time::SystemTime::now().duration_since(std::time::UNIX_EPOCH).map(
        |d| d.as_secs() as i64,
    ).unwrap_or(0)
}

/// Format a Unix timestamp as a human-readable relative time string,
/// measured from the current time (a clock reading at or after the epoch).
///
/// Examples: "just now", "2 minutes ago", "3 hours ago", "yesterday", "5 days ago".
pub fn format_relative_time(unix_ts: i64) -> (r: String)
    ensures
        exists|now: i64| now >= 0 && r@ == #[trigger] relative_time_from(now, unix_ts),
{
    let now = now_unix_secs();
    let r = format_relative_time_at(now, unix_ts);
    assert(r@ == relative_time_from(now, unix_ts));
    r
}

/// Workspace totals: counts summed over the members, the index present
/// only if every member has one, and the latest of the members' index
/// times, worded relative to `now`.
pub fn workspace_totals(members: &Vec<MemberStatusData>, now: i64) -> (r: StatusData)
    requires
        sum_symbols(members@) <= usize::MAX,
        sum_files(members@) <= usize::MAX,
        sum_edges(members@) <= usize::MAX,
    ensures
        r.index_exists == forall|i: int|
            0 <= i < members@.len() ==> #[trigger] members@[i].status.index_exists,
        r.symbol_count == sum_symbols(members@),
        r.file_count == sum_files(members@),
        r.edge_count == sum_edges(members@),
        r.last_indexed_at == latest_indexed(members@),
        match latest_indexed(members@) {
            Some(t) => r.last_indexed_relative is Some && r.last_indexed_relative.unwrap()@
                == relative_time_text(now - t),
            None => r.last_indexed_relative is None,
        },
{
    let mut all = true;
    let mut symbols: usize = 0;
    let mut files: usize = 0;
    let mut edges: usize = 0;
    let mut latest: Option<i64> = None;
    let n = members.len();
    let mut i: usize = 0;
    while i < n
        invariant
            i <= n == members@.len(),
            sum_symbols(members@) <= usize::MAX,
            sum_files(members@) <= usize::MAX,
            sum_edges(members@) <= usize::MAX,
            all == forall|k: int| 0 <= k < i ==> #[trigger] members@[k].status.index_exists,
            symbols == sum_symbols(members@.take(i as int)),
            files == sum_files(members@.take(i as int)),
            edges == sum_edges(members@.take(i as int)),
            latest == latest_indexed(members@.take(i as int)),
        decreases n - i,
    {
        let m = &members[i];
        proof {
            assert(members@.take(i + 1).drop_last() =~= members@.take(i as int));
            lemma_sums_prefix(members@, i + 1);
        }
        all = all && m.status.index_exists;
        symbols = symbols + m.status.symbol_count;
        files = files + m.status.file_count;
        edges = edges + m.status.edge_count;
        latest = match (latest, m.status.last_indexed_at) {
            (Some(prev), Some(ts)) => Some(if prev >= ts { prev } else { ts }),
            (None, Some(ts)) => Some(ts),
            (prev, None) => prev,
        };
        i = i + 1;
    }
    assert(members@.take(n as int) =~= members@);
    let relative = match latest {
        Some(t) => Some(format_relative_time_at(now, t)),
        None => None,
    };
    StatusData {
        index_exists: all,
        symbol_count: symbols,
        file_count: files,
        last_indexed_at: latest,
        last_indexed_relative: relative,
        edge_count: edges,
    }
}

/// The sums over a prefix of the members are at most the full sums.
proof fn lemma_sums_prefix(ms: Seq<MemberStatusData>, k: int)
    requires
        0 <= k <= ms.len(),
    ensures
        sum_symbols(ms.take(k)) <= sum_symbols(ms),
        sum_files(ms.take(k)) <= sum_files(ms),
        sum_edges(ms.take(k)) <= sum_edges(ms),
    decreases ms.len(),
{
    if k == ms.len() {
        assert(ms.take(k) =~= ms);
    } else {
        lemma_sums_prefix(ms.drop_last(), k);
        assert(ms.drop_last().take(k) =~= ms.take(k));
    }
}

/// Total symbols over the members.
pub open spec fn sum_symbols(ms: Seq<MemberStatusData>) -> int
    decreases ms.len(),
{
    if ms.len() == 0 {
        0
    } else {
        sum_symbols(ms.drop_last()) + ms.last().status.symbol_count
    }
}

/// Total files over the members.
pub open spec fn sum_files(ms: Seq<MemberStatusData>) -> int
    decreases ms.len(),
{
    if ms.len() == 0 {
        0
    } else {
        sum_files(ms.drop_last()) + ms.last().status.file_count
    }
}

/// Total edges over the members.
pub open spec fn sum_edges(ms: Seq<MemberStatusData>) -> int
    decreases ms.len(),
{
    if ms.len() == 0 {
        0
    } else {
        sum_edges(ms.drop_last()) + ms.last().status.edge_count
    }
}

/// The latest index time among the members that have one.
pub open spec fn latest_indexed(ms: Seq<MemberStatusData>) -> Option<i64>
    decreases ms.len(),
{
    if ms.len() == 0 {
        None
    } else {
        let prev = latest_indexed(ms.drop_last());
        match (prev, ms.last().status.last_indexed_at) {
            (Some(p), Some(t)) => Some(if p >= t { p } else { t }),
            (None, Some(t)) => Some(t),
            (p, None) => p,
        }
    }
}

} // verus!

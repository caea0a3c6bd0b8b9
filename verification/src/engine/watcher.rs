//! File system watching for incremental re-indexing.
//!
//! The `notify` debouncer delivers batches of changed paths; this module
//! decides which of them matter (supported extension, not ignored), where
//! the watch lock lives and how its content is read.
use vstd::prelude::*;
use crate::path::{
    extension, extension_exec, join_relative, join_relative_exec, strip_prefix_components,
    strip_prefix_exec,
};
use crate::num::{decimal, parse_i64, parse_i64_spec, u64_text};
use crate::text::{char_views, chars_eq, chars_of, extend_chars, extend_str, string_of, trim_chars, trim_seq, views};

verus! {

/// Watches the file system for changes to supported source files.
///
/// Filters events to only supported file extensions and drops paths under
/// ignored directories. Debounces rapid changes into batched events.
#[derive(Debug)]
pub struct Watcher {
    /// Project root directory being watched.
    pub project_root: String,
    /// Directory names to ignore (from config).
    pub ignore_patterns: Vec<String>,
    /// Supported file extensions (without the dot, e.g. "ts", "tsx", "cs").
    pub supported_extensions: Vec<String>,
    /// Debounce duration for file events.
    pub debounce_duration: std::time::Duration,
}

impl Watcher {
    /// Create a new file watcher.
    ///
    /// - `project_root` — the root directory to watch recursively
    /// - `ignore_patterns` — directory names to exclude (e.g. `node_modules`, `dist`)
    /// - `supported_extensions` — file extensions to include (without dot)
    /// - `debounce_duration` — how long to wait before emitting a batch
    pub fn new(
        project_root: String,
        ignore_patterns: Vec<String>,
        supported_extensions: Vec<String>,
        debounce_duration: std::time::Duration,
    ) -> (r: Self)
        ensures
            r.project_root@ == project_root@,
            r.ignore_patterns@ == ignore_patterns@,
            r.supported_extensions@ == supported_extensions@,
            r.debounce_duration == debounce_duration,
    {
        Watcher { project_root, ignore_patterns, supported_extensions, debounce_duration }
    }

    /// Whether a changed path is reported to the indexer: it has a supported
    /// extension and is not ignored.
    pub fn wants(&self, path: &str) -> (r: bool)
        ensures
            r == (spec_is_supported_file(path@, views(self.supported_extensions@))
                && !spec_is_ignored(path@, self.project_root@, views(self.ignore_patterns@))),
    {
        is_supported_file(path, self.supported_extensions.as_slice()) && !is_ignored(
            path,
            self.project_root.as_str(),
            self.ignore_patterns.as_slice(),
        )
    }
}

/// A path's extension is one of the supported ones.
pub open spec fn spec_is_supported_file(path: Seq<char>, exts: Seq<Seq<char>>) -> bool {
    match extension(path) {
        Some(e) => exts.contains(e),
        None => false,
    }
}

/// A path lies under the project root and either sits in its `.scope`
/// directory or has a component equal to one of the ignore patterns.
pub open spec fn spec_is_ignored(path: Seq<char>, root: Seq<char>, patterns: Seq<Seq<char>>) -> bool {
    match strip_prefix_components(path, root) {
        None => false,
        Some(rest) => (rest.len() > 0 && rest[0] == ".scope"@) || exists|i: int|
            0 <= i < rest.len() && #[trigger] patterns.contains(rest[i]),
    }
}

/// `x` is one of the strings of `v`.
fn contains_text(v: &[String], x: &Vec<char>) -> (r: bool)
    ensures
        r == views(v@).contains(x@),
{
    let mut i: usize = 0;
    while i < v.len()
        invariant
            i <= v.len(),
            forall|j: int| 0 <= j < i ==> views(v@)[j] != x@,
        decreases v.len() - i,
    {
        let s = chars_of(v[i].as_str());
        if chars_eq(&s, x) {
            assert(views(v@)[i as int] == x@);
            return true;
        }
        i = i + 1;
    }
    false
}

/// Check if a file has a supported extension.
pub fn is_supported_file(path: &str, supported_extensions: &[String]) -> (r: bool)
    ensures
        r == spec_is_supported_file(path@, views(supported_extensions@)),
{
    let p = chars_of(path);
    match extension_exec(&p) {
        Some(e) => contains_text(supported_extensions, &e),
        None => false,
    }
}

/// Check if a file path should be ignored based on ignore patterns.
///
/// Uses simple directory-name matching: if any path component matches
/// an ignore pattern, the file is ignored. Also ignores the `.scope/` directory.
pub fn is_ignored(path: &str, project_root: &str, ignore_patterns: &[String]) -> (r: bool)
    ensures
        r == spec_is_ignored(path@, project_root@, views(ignore_patterns@)),
{
    let p = chars_of(path);
    let root = chars_of(project_root);
    let rest = match strip_prefix_exec(&p, &root) {
        Some(rest) => rest,
        None => return false,
    };
    let scope = chars_of(".scope");
    if rest.len() > 0 && chars_eq(&rest[0], &scope) {
        assert(char_views(rest@)[0] == rest@[0]@);
        return true;
    }
    let mut i: usize = 0;
    while i < rest.len()
        invariant
            i <= rest.len(),
            strip_prefix_components(path@, project_root@) == Some(char_views(rest@)),
            forall|j: int| 0 <= j < i ==> !views(ignore_patterns@).contains(#[trigger] char_views(rest@)[j]),
        decreases rest.len() - i,
    {
        if contains_text(ignore_patterns, &rest[i]) {
            assert(char_views(rest@)[i as int] == rest@[i as int]@);
            proof {
                let cv = char_views(rest@);
                assert(views(ignore_patterns@).contains(cv[i as int]));
                assert(exists|j: int| 0 <= j < cv.len() && #[trigger] views(ignore_patterns@).contains(cv[j]));
                assert(spec_is_ignored(path@, project_root@, views(ignore_patterns@)));
            }
            return true;
        }
        assert(char_views(rest@)[i as int] == rest@[i as int]@);
        i = i + 1;
    }
    proof {
        let cv = char_views(rest@);
        assert(!(cv.len() > 0 && cv[0] == ".scope"@)) by {
            if cv.len() > 0 {
                assert(cv[0] == rest@[0]@);
            }
        }
        assert(!exists|j: int| 0 <= j < cv.len() && #[trigger] views(ignore_patterns@).contains(cv[j]));
    }
    false
}

/// Lock file management for preventing concurrent watchers.
#[derive(Debug)]
pub struct WatchLock {
    lock_path: String,
}

/// Where the watch lock of a `.scope/` directory lives.
pub open spec fn spec_lock_path(scope_dir: Seq<char>) -> Seq<char> {
    join_relative(scope_dir, ".watch.lock"@)
}

impl WatchLock {
    /// The lock file's path.
    pub closed spec fn path_view(&self) -> Seq<char> {
        self.lock_path@
    }

    /// Create a new lock file manager for the given `.scope/` directory.
    pub fn new(scope_dir: &str) -> (r: Self)
        ensures
            r.path_view() == spec_lock_path(scope_dir@),
    {
        WatchLock { lock_path: join_relative_exec(scope_dir, ".watch.lock") }
    }

    /// Get the path to the lock file.
    pub fn lock_path(&self) -> (r: &str)
        ensures
            r@ == self.path_view(),
    {
        self.lock_path.as_str()
    }
}

/// The process that holds the watch lock, as the lock file's text names
/// it: the trimmed text read as a `u32` (std's `str::parse::<u32>`: an
/// optional `+`, then decimal digits). Empty or malformed text names no
/// one, and such a lock counts as stale.
pub open spec fn spec_lock_holder(content: Seq<char>) -> Option<u32> {
    let t = trim_seq(content);
    if t.len() == 0 || t[0] == '-' {
        None
    } else {
        match parse_i64_spec(t) {
            Some(n) => if 0 <= n <= u32::MAX { Some(n as u32) } else { None },
            None => None,
        }
    }
}

/// Read the PID in a watch lock file's text, if it names one.
pub fn lock_holder_pid(content: &str) -> (r: Option<u32>)
    ensures
        r == spec_lock_holder(content@),
{
    let c = chars_of(content);
    let t = trim_chars(&c);
    if t.len() == 0 || t[0] == '-' {
        return None;
    }
    match parse_i64(&t) {
        Some(n) => if 0 <= n && n <= 0xffff_ffff {
            Some(n as u32)
        } else {
            None
        },
        None => None,
    }
}

/// The refusal given when a live process holds the watch lock.
pub open spec fn spec_lock_busy_message(pid: u32) -> Seq<char> {
    "Another watcher is running (PID "@ + decimal(pid as nat) + "). Stop it first or remove .scope/.watch.lock"@
}

/// Word the refusal for a watch lock held by the live process `pid`.
pub fn lock_busy_message(pid: u32) -> (r: String)
    ensures
        r@ == spec_lock_busy_message(pid),
{
    let mut v = chars_of("Another watcher is running (PID ");
    extend_chars(&mut v, &u64_text(pid as u64));
    extend_str(&mut v, "). Stop it first or remove .scope/.watch.lock");
    string_of(&v)
}

} // verus!

//! Project configuration stored in `.scope/config.toml`.
//!
//! This is the user-facing configuration that controls indexing behaviour,
//! language selection, and output defaults. Reading and writing the file
//! happens outside this crate; here live the configuration's shape, its
//! defaults, and the vendor-path rules it drives.
use vstd::prelude::*;
use crate::path::{
    components_exec, is_normal_component, is_normal_component_exec,
    normal_components, path_components,
};
use crate::text::{char_views, chars_eq, chars_of, lemma_filter_push, str_eq, views};

verus! {

/// Top-level project configuration.
#[derive(Debug, Clone)]
pub struct ProjectConfig {
    /// Project-level settings.
    pub project: ProjectSection,
    /// Index behaviour settings.
    pub index: IndexSection,
    /// Embedding provider settings.
    pub embeddings: EmbeddingsSection,
    /// Output formatting defaults.
    pub output: OutputSection,
}

/// The `[project]` section of config.toml.
#[derive(Debug, Clone)]
pub struct ProjectSection {
    /// Human-readable project name.
    pub name: String,
    /// Languages to index.
    pub languages: Vec<String>,
}

/// The `[index]` section of config.toml.
#[derive(Debug, Clone)]
pub struct IndexSection {
    /// Glob patterns to ignore during indexing.
    pub ignore: Vec<String>,
    /// Whether to include test files in refs/impact output.
    pub include_tests: bool,
    /// Path components that identify vendor/dependency code.
    ///
    /// Results from vendor paths are de-ranked (shown after first-party results)
    /// in `scope find` and `scope refs` output. Vendor code is still indexed,
    /// just sorted lower in results.
    pub vendor_patterns: Vec<String>,
}

/// The `[embeddings]` section of config.toml.
#[derive(Debug, Clone)]
pub struct EmbeddingsSection {
    /// Embedding provider: "local", "voyage", or "openai".
    pub provider: String,
    /// Model name for the embedding provider.
    pub model: String,
}

/// The `[output]` section of config.toml.
#[derive(Debug, Clone)]
pub struct OutputSection {
    /// Maximum number of refs to display before truncating.
    pub max_refs: usize,
    /// Maximum depth for impact analysis traversal.
    pub max_impact_depth: usize,
}

// ---------------------------------------------------------------------------
// Defaults
// ---------------------------------------------------------------------------

/// Ignore patterns of a fresh configuration.
pub open spec fn spec_default_ignore_patterns() -> Seq<Seq<char>> {
    seq!["node_modules"@, "dist"@, "build"@, ".git"@]
}

/// Vendor patterns of a fresh configuration.
pub open spec fn spec_default_vendor_patterns() -> Seq<Seq<char>> {
    seq![
        "node_modules"@,
        "vendor"@,
        "target"@,
        ".cargo"@,
        "venv"@,
        "site-packages"@,
        ".m2"@,
        "third_party"@,
    ]
}

/// A `String` with the characters of a literal.
pub fn owned(s: &str) -> (r: String)
    ensures
        r@ == s@,
{
    s.to_owned()
}

/// Ignore patterns used when the config file does not set any.
pub fn default_ignore_patterns() -> (r: Vec<String>)
    ensures
        views(r@) == spec_default_ignore_patterns(),
{
    let mut v = Vec::new();
    v.push(owned("node_modules"));
    v.push(owned("dist"));
    v.push(owned("build"));
    v.push(owned(".git"));
    assert(views(v@) =~= spec_default_ignore_patterns());
    v
}

/// Whether tests are included by default.
pub fn default_true() -> (r: bool)
    ensures
        r,
{
    true
}

/// Default embedding provider.
pub fn default_provider() -> (r: String)
    ensures
        r@ == "local"@,
{
    owned("local")
}

/// Default embedding model.
pub fn default_model() -> (r: String)
    ensures
        r@ == "nomic-embed-code"@,
{
    owned("nomic-embed-code")
}

/// Default number of refs shown before truncating.
pub fn default_max_refs() -> (r: usize)
    ensures
        r == 20,
{
    20
}

/// Default impact traversal depth.
pub fn default_max_impact_depth() -> (r: usize)
    ensures
        r == 3,
{
    3
}

/// Vendor patterns used when the config file does not set any.
pub fn default_vendor_patterns() -> (r: Vec<String>)
    ensures
        views(r@) == spec_default_vendor_patterns(),
{
    let mut v = Vec::new();
    v.push(owned("node_modules"));
    v.push(owned("vendor"));
    v.push(owned("target"));
    v.push(owned(".cargo"));
    v.push(owned("venv"));
    v.push(owned("site-packages"));
    v.push(owned(".m2"));
    v.push(owned("third_party"));
    assert(views(v@) =~= spec_default_vendor_patterns());
    v
}

impl Default for IndexSection {
    fn default() -> (r: Self)
        ensures
            views(r.ignore@) == spec_default_ignore_patterns(),
            r.include_tests,
            views(r.vendor_patterns@) == spec_default_vendor_patterns(),
    {
        IndexSection {
            ignore: default_ignore_patterns(),
            include_tests: default_true(),
            vendor_patterns: default_vendor_patterns(),
        }
    }
}

impl Default for EmbeddingsSection {
    fn default() -> (r: Self)
        ensures
            r.provider@ == "local"@,
            r.model@ == "nomic-embed-code"@,
    {
        EmbeddingsSection { provider: default_provider(), model: default_model() }
    }
}

impl Default for OutputSection {
    fn default() -> (r: Self)
        ensures
            r.max_refs == 20,
            r.max_impact_depth == 3,
    {
        OutputSection { max_refs: default_max_refs(), max_impact_depth: default_max_impact_depth() }
    }
}

impl ProjectConfig {
    /// Create a default config for a project with detected languages.
    pub fn default_for(name: &str, languages: Vec<String>) -> (r: Self)
        ensures
            r.project.name@ == name@,
            r.project.languages@ == languages@,
            views(r.index.ignore@) == spec_default_ignore_patterns(),
            r.index.include_tests,
            views(r.index.vendor_patterns@) == spec_default_vendor_patterns(),
            r.embeddings.provider@ == "local"@,
            r.embeddings.model@ == "nomic-embed-code"@,
            r.output.max_refs == 20,
            r.output.max_impact_depth == 3,
    {
        ProjectConfig {
            project: ProjectSection { name: owned(name), languages },
            index: IndexSection::default(),
            embeddings: EmbeddingsSection::default(),
            output: OutputSection::default(),
        }
    }
}

// ---------------------------------------------------------------------------
// Vendor patterns
// ---------------------------------------------------------------------------

/// The vendor/build directories a single language contributes.
pub open spec fn language_vendor_patterns(lang: Seq<char>) -> Seq<Seq<char>> {
    if lang == "typescript"@ {
        seq!["node_modules"@, "dist"@, "build"@]
    } else if lang == "rust"@ {
        seq!["target"@, ".cargo"@]
    } else if lang == "python"@ {
        seq!["venv"@, ".venv"@, "site-packages"@, "__pycache__"@]
    } else if lang == "go"@ {
        seq!["vendor"@]
    } else if lang == "java"@ {
        seq![".m2"@, "build"@, "out"@]
    } else if lang == "csharp"@ {
        seq!["bin"@, "obj"@, "packages"@]
    } else {
        Seq::empty()
    }
}

/// The patterns of all languages, in order, duplicates included.
pub open spec fn all_language_patterns(langs: Seq<Seq<char>>) -> Seq<Seq<char>>
    decreases langs.len(),
{
    if langs.len() == 0 {
        Seq::empty()
    } else {
        all_language_patterns(langs.drop_last()) + language_vendor_patterns(langs.last())
    }
}

/// `s` with every element after its first occurrence removed.
pub open spec fn dedup_keep_first(s: Seq<Seq<char>>) -> Seq<Seq<char>>
    decreases s.len(),
{
    if s.len() == 0 {
        Seq::empty()
    } else {
        let d = dedup_keep_first(s.drop_last());
        if d.contains(s.last()) {
            d
        } else {
            d.push(s.last())
        }
    }
}

/// The vendor patterns for a set of languages: each language's patterns in
/// order, each pattern kept only at its first occurrence.
pub open spec fn spec_vendor_patterns_for_languages(langs: Seq<Seq<char>>) -> Seq<Seq<char>> {
    dedup_keep_first(all_language_patterns(langs))
}

/// Pushes `p` unless it is already present.
fn push_unique(out: &mut Vec<String>, p: &str)
    ensures
        views(final(out)@) == if views(old(out)@).contains(p@) {
            views(old(out)@)
        } else {
            views(old(out)@).push(p@)
        },
{
    let mut i: usize = 0;
    while i < out.len()
        invariant
            i <= out.len(),
            out@ == old(out)@,
            forall|j: int| 0 <= j < i ==> views(out@)[j] != p@,
        decreases out.len() - i,
    {
        if str_eq(out[i].as_str(), p) {
            assert(views(out@)[i as int] == p@);
            return;
        }
        i = i + 1;
    }
    let ghost before = out@;
    out.push(owned(p));
    assert(views(out@) =~= views(before).push(p@));
}

/// The patterns a language contributes, as executable literals.
fn push_language_patterns(out: &mut Vec<String>, lang: &str)
    ensures
        views(final(out)@) == dedup_keep_first_onto(views(old(out)@), language_vendor_patterns(lang@)),
{
    proof {
        lemma_onto_empty(views(out@));
    }
    if str_eq(lang, "typescript") {
        push_all(out, "node_modules", "dist", "build", "", 3);
        assert(seq!["node_modules"@, "dist"@, "build"@, ""@].subrange(0, 3) =~= seq!["node_modules"@, "dist"@, "build"@]);
    } else if str_eq(lang, "rust") {
        push_all(out, "target", ".cargo", "", "", 2);
        assert(seq!["target"@, ".cargo"@, ""@, ""@].subrange(0, 2) =~= seq!["target"@, ".cargo"@]);
    } else if str_eq(lang, "python") {
        push_all(out, "venv", ".venv", "site-packages", "__pycache__", 4);
        assert(seq!["venv"@, ".venv"@, "site-packages"@, "__pycache__"@].subrange(0, 4) =~= seq!["venv"@, ".venv"@, "site-packages"@, "__pycache__"@]);
    } else if str_eq(lang, "go") {
        push_all(out, "vendor", "", "", "", 1);
        assert(seq!["vendor"@, ""@, ""@, ""@].subrange(0, 1) =~= seq!["vendor"@]);
    } else if str_eq(lang, "java") {
        push_all(out, ".m2", "build", "out", "", 3);
        assert(seq![".m2"@, "build"@, "out"@, ""@].subrange(0, 3) =~= seq![".m2"@, "build"@, "out"@]);
    } else if str_eq(lang, "csharp") {
        push_all(out, "bin", "obj", "packages", "", 3);
        assert(seq!["bin"@, "obj"@, "packages"@, ""@].subrange(0, 3) =~= seq!["bin"@, "obj"@, "packages"@]);
    }
}

/// Extends an already deduplicated list by the items of `more`, keeping each
/// item only at its first occurrence.
pub open spec fn dedup_keep_first_onto(d: Seq<Seq<char>>, more: Seq<Seq<char>>) -> Seq<Seq<char>>
    decreases more.len(),
{
    if more.len() == 0 {
        d
    } else {
        let e = dedup_keep_first_onto(d, more.drop_last());
        if e.contains(more.last()) {
            e
        } else {
            e.push(more.last())
        }
    }
}

proof fn lemma_onto_empty(d: Seq<Seq<char>>)
    ensures
        dedup_keep_first_onto(d, Seq::empty()) == d,
{
}

/// Deduplicating `a + b` is deduplicating `a` and then extending by `b`.
proof fn lemma_dedup_append(a: Seq<Seq<char>>, b: Seq<Seq<char>>)
    ensures
        dedup_keep_first(a + b) == dedup_keep_first_onto(dedup_keep_first(a), b),
    decreases b.len(),
{
    if b.len() == 0 {
        assert(a + b =~= a);
    } else {
        lemma_dedup_append(a, b.drop_last());
        assert((a + b).drop_last() =~= a + b.drop_last());
        assert((a + b).last() == b.last());
    }
}

/// Pushes up to four literals, each only if not yet present.
fn push_all(out: &mut Vec<String>, a: &str, b: &str, c: &str, d: &str, n: usize)
    requires
        1 <= n <= 4,
    ensures
        views(final(out)@) == dedup_keep_first_onto(
            views(old(out)@),
            seq![a@, b@, c@, d@].subrange(0, n as int),
        ),
{
    let ghost s = seq![a@, b@, c@, d@];
    let ghost o = views(out@);
    push_unique(out, a);
    assert(s.subrange(0, 1).drop_last() =~= Seq::<Seq<char>>::empty());
    assert(dedup_keep_first_onto(o, Seq::empty()) == o);
    assert(views(out@) == dedup_keep_first_onto(o, s.subrange(0, 1)));
    if n >= 2 {
        push_unique(out, b);
        assert(s.subrange(0, 2).drop_last() =~= s.subrange(0, 1));
        assert(views(out@) == dedup_keep_first_onto(o, s.subrange(0, 2)));
    }
    if n >= 3 {
        push_unique(out, c);
        assert(s.subrange(0, 3).drop_last() =~= s.subrange(0, 2));
        assert(views(out@) == dedup_keep_first_onto(o, s.subrange(0, 3)));
    }
    if n >= 4 {
        push_unique(out, d);
        assert(s.subrange(0, 4).drop_last() =~= s.subrange(0, 3));
        assert(views(out@) == dedup_keep_first_onto(o, s.subrange(0, 4)));
    }
}

/// Return vendor patterns appropriate for the given set of detected languages.
///
/// Each language contributes its known vendor/build directories. Results
/// are deduplicated so overlapping languages don't produce duplicates.
pub fn vendor_patterns_for_languages(languages: &[String]) -> (r: Vec<String>)
    ensures
        views(r@) == spec_vendor_patterns_for_languages(views(languages@)),
{
    let mut out: Vec<String> = Vec::new();
    let mut i: usize = 0;
    while i < languages.len()
        invariant
            i <= languages.len(),
            views(out@) == spec_vendor_patterns_for_languages(views(languages@).take(i as int)),
        decreases languages.len() - i,
    {
        let ghost before = views(out@);
        push_language_patterns(&mut out, languages[i].as_str());
        proof {
            let langs = views(languages@).take(i + 1);
            assert(langs.drop_last() =~= views(languages@).take(i as int));
            assert(langs.last() == languages@[i as int]@);
            lemma_dedup_append(
                all_language_patterns(langs.drop_last()),
                language_vendor_patterns(langs.last()),
            );
        }
        i = i + 1;
    }
    assert(views(languages@).take(languages@.len() as int) =~= views(languages@));
    out
}

/// A file path passes through a vendor directory: one of its named
/// components equals one of the patterns.
pub open spec fn spec_is_vendor_path(file_path: Seq<char>, patterns: Seq<Seq<char>>) -> bool {
    exists|c: Seq<char>| normal_components(file_path).contains(c) && patterns.contains(c)
}

/// `c` equals one of the patterns.
fn matches_any(c: &Vec<char>, patterns: &[String]) -> (r: bool)
    ensures
        r == views(patterns@).contains(c@),
{
    let mut j: usize = 0;
    while j < patterns.len()
        invariant
            j <= patterns.len(),
            forall|k: int| 0 <= k < j ==> views(patterns@)[k] != c@,
        decreases patterns.len() - j,
    {
        let pv = chars_of(patterns[j].as_str());
        if chars_eq(&pv, c) {
            assert(views(patterns@)[j as int] == c@);
            return true;
        }
        j = j + 1;
    }
    false
}

/// Check whether a file path passes through a vendor directory.
///
/// Returns `true` if any path component exactly matches one of the
/// vendor patterns. Uses path component matching, not substring matching,
/// so `"vendor"` won't match `"my-vendor-lib"`.
pub fn is_vendor_path(file_path: &str, vendor_patterns: &[String]) -> (r: bool)
    ensures
        r == spec_is_vendor_path(file_path@, views(vendor_patterns@)),
{
    let fp = chars_of(file_path);
    let comps = components_exec(&fp);
    let ghost f = |c: Seq<char>| is_normal_component(c);
    let ghost all = char_views(comps@);
    let mut i: usize = 0;
    while i < comps.len()
        invariant
            i <= comps.len(),
            all == char_views(comps@),
            all == path_components(file_path@),
            f == (|c: Seq<char>| is_normal_component(c)),
            forall|c: Seq<char>|
                all.take(i as int).filter(f).contains(c) ==> !views(vendor_patterns@).contains(c),
        decreases comps.len() - i,
    {
        proof {
            assert(all.take(i + 1) =~= all.take(i as int).push(all[i as int]));
            lemma_filter_push(all.take(i as int), all[i as int], f);
        }
        if is_normal_component_exec(&comps[i]) && matches_any(&comps[i], vendor_patterns) {
            proof {
                let pushed = all.take(i as int).filter(f).push(all[i as int]);
                assert(pushed[pushed.len() - 1] == all[i as int]);
                assert(pushed.contains(all[i as int]));
                lemma_filter_take_contains(all, f, i as int + 1, all[i as int]);
                assert(normal_components(file_path@).contains(all[i as int]));
            }
            return true;
        }
        i = i + 1;
    }
    assert(all.take(all.len() as int) =~= all);
    false
}

/// An element of a filtered prefix is an element of the filtered whole.
proof fn lemma_filter_take_contains(s: Seq<Seq<char>>, f: spec_fn(Seq<char>) -> bool, k: int, x: Seq<char>)
    requires
        0 <= k <= s.len(),
        s.take(k).filter(f).contains(x),
    ensures
        s.filter(f).contains(x),
    decreases s.len() - k,
{
    if k < s.len() {
        assert(s.take(k + 1) =~= s.take(k).push(s[k]));
        lemma_filter_push(s.take(k), s[k], f);
        if f(s[k]) {
            let p = s.take(k).filter(f);
            let j = choose|j: int| 0 <= j < p.len() && p[j] == x;
            assert(p.push(s[k])[j] == x);
        }
        lemma_filter_take_contains(s, f, k + 1, x);
    } else {
        assert(s.take(k) =~= s);
    }
}

} // verus!

//! `scope index` — build or refresh the code index.
//!
//! Indexing itself runs outside this crate; here are the command's
//! arguments, the file extensions that watch mode follows, and the
//! bookkeeping of a watch session (per-batch deltas and running totals).
use vstd::prelude::*;
use crate::config::project::ProjectConfig;
use crate::engine::parser::{language_for_extension, language_name};
use crate::text::{lowercase_of, str_eq, to_lowercase_str, views};

verus! {

/// Arguments for the `scope index` command.
#[derive(Debug, Clone)]
pub struct IndexArgs {
    /// Force a full re-index instead of an incremental one.
    pub full: bool,
    /// Output as JSON instead of human-readable format.
    pub json: bool,
    /// Keep running and re-index changed files as they change.
    pub watch: bool,
}

/// The file extensions (without the dot) that one configured language
/// contributes to watch mode; the language name is compared in lowercase.
pub open spec fn language_extensions(lang: Seq<char>) -> Seq<Seq<char>> {
    let l = lowercase_of(lang);
    if l == "typescript"@ {
        seq!["ts"@, "tsx"@]
    } else if l == "csharp"@ || l == "c#"@ {
        seq!["cs"@]
    } else if l == "python"@ {
        seq!["py"@]
    } else if l == "go"@ {
        seq!["go"@]
    } else if l == "java"@ {
        seq!["java"@]
    } else if l == "rust"@ {
        seq!["rs"@]
    } else {
        Seq::empty()
    }
}

/// The extensions of all configured languages, in order.
pub open spec fn languages_extensions(langs: Seq<Seq<char>>) -> Seq<Seq<char>>
    decreases langs.len(),
{
    if langs.len() == 0 {
        Seq::empty()
    } else {
        languages_extensions(langs.drop_last()) + language_extensions(langs.last())
    }
}

/// A configured language contributes exactly the extensions that the
/// parser assigns to it.
proof fn lemma_language_extensions(lang: Seq<char>, ext: Seq<char>)
    ensures
        (language_for_extension(ext) is Some && lowercase_of(lang) == language_name(
            language_for_extension(ext).unwrap(),
        )) ==> language_extensions(lang).contains(ext),
        language_extensions(lang).contains(ext) ==> language_for_extension(ext) is Some,
{
    reveal_strlit("typescript");
    reveal_strlit("csharp");
    reveal_strlit("c#");
    reveal_strlit("python");
    reveal_strlit("go");
    reveal_strlit("java");
    reveal_strlit("rust");
    reveal_strlit("ts");
    reveal_strlit("tsx");
    reveal_strlit("cs");
    reveal_strlit("py");
    reveal_strlit("rs");
    // The names and extensions differ from one another.
    assert("typescript"@.len() == 10 && "csharp"@.len() == 6 && "c#"@.len() == 2 && "python"@.len() == 6);
    assert("go"@.len() == 2 && "java"@.len() == 4 && "rust"@.len() == 4);
    assert("csharp"@[0] != "python"@[0] && "c#"@[0] != "go"@[0] && "java"@[0] != "rust"@[0]);
    assert("ts"@.len() == 2 && "tsx"@.len() == 3 && "cs"@.len() == 2 && "py"@.len() == 2 && "rs"@.len() == 2);
    assert("ts"@[0] != "cs"@[0] && "ts"@[0] != "py"@[0] && "ts"@[0] != "go"@[0] && "ts"@[0] != "rs"@[0]);
    assert("cs"@[0] != "py"@[0] && "cs"@[0] != "go"@[0] && "cs"@[0] != "rs"@[0]);
    assert("py"@[0] != "go"@[0] && "py"@[0] != "rs"@[0] && "go"@[0] != "rs"@[0]);
    let l = lowercase_of(lang);
    let e = language_extensions(lang);
    if language_for_extension(ext) is Some && l == language_name(language_for_extension(ext).unwrap()) {
        if ext == "tsx"@ {
            assert(e[1] == ext);
        } else {
            assert(e[0] == ext);
        }
    }
    if e.contains(ext) {
        let i = choose|i: int| 0 <= i < e.len() && e[i] == ext;
        assert(e[i] == ext);
    }
}

/// The extensions of a list of languages are those of its members.
proof fn lemma_languages_extensions_contains(langs: Seq<Seq<char>>, ext: Seq<char>)
    ensures
        languages_extensions(langs).contains(ext) <==> exists|k: int|
            0 <= k < langs.len() && #[trigger] language_extensions(langs[k]).contains(ext),
    decreases langs.len(),
{
    if langs.len() > 0 {
        lemma_languages_extensions_contains(langs.drop_last(), ext);
        let a = languages_extensions(langs.drop_last());
        let b = language_extensions(langs.last());
        let all = languages_extensions(langs);
        assert(all == a + b);
        if all.contains(ext) {
            let i = choose|i: int| 0 <= i < all.len() && all[i] == ext;
            if i < a.len() {
                assert(a[i] == ext);
                let k = choose|k: int| 0 <= k < langs.drop_last().len() && #[trigger] language_extensions(
                    langs.drop_last()[k],
                ).contains(ext);
                assert(langs.drop_last()[k] == langs[k]);
            } else {
                assert(b[i - a.len()] == ext);
                assert(language_extensions(langs[langs.len() - 1]).contains(ext));
            }
        }
        if exists|k: int| 0 <= k < langs.len() && #[trigger] language_extensions(langs[k]).contains(ext) {
            let k = choose|k: int| 0 <= k < langs.len() && #[trigger] language_extensions(langs[k]).contains(ext);
            if k < langs.len() - 1 {
                assert(langs.drop_last()[k] == langs[k]);
                assert(a.contains(ext));
                let i = choose|i: int| 0 <= i < a.len() && a[i] == ext;
                assert(all[i] == ext);
            } else {
                let i = choose|i: int| 0 <= i < b.len() && b[i] == ext;
                assert(all[a.len() + i] == ext);
            }
        }
    }
}

/// Watch mode follows the indexer: a file extension is watched exactly
/// when the parser assigns it to a language; for every configured language
/// (named in any case), each extension the parser gives that language is
/// watched (`python` gives `py`, `typescript` gives `ts` and `tsx`, ...), and
/// every watched extension is one the parser handles.
pub proof fn lemma_watched_extensions_follow_languages(langs: Seq<Seq<char>>, ext: Seq<char>)
    ensures
        (exists|k: int|
            0 <= k < langs.len() && language_for_extension(ext) is Some && #[trigger] lowercase_of(langs[k])
                == language_name(language_for_extension(ext).unwrap())) ==> languages_extensions(langs).contains(ext),
        languages_extensions(langs).contains(ext) ==> language_for_extension(ext) is Some,
{
    lemma_languages_extensions_contains(langs, ext);
    if exists|k: int|
        0 <= k < langs.len() && language_for_extension(ext) is Some && #[trigger] lowercase_of(langs[k])
            == language_name(language_for_extension(ext).unwrap()) {
        let k = choose|k: int|
            0 <= k < langs.len() && language_for_extension(ext) is Some && #[trigger] lowercase_of(langs[k])
                == language_name(language_for_extension(ext).unwrap());
        lemma_language_extensions(langs[k], ext);
    }
    if languages_extensions(langs).contains(ext) {
        let k = choose|k: int| 0 <= k < langs.len() && #[trigger] language_extensions(langs[k]).contains(ext);
        lemma_language_extensions(langs[k], ext);
    }
}

/// Appends the extensions of one language.
fn push_language_extensions(out: &mut Vec<String>, lang: &str)
    ensures
        views(final(out)@) == views(old(out)@) + language_extensions(lang@),
{
    let lowered = to_lowercase_str(lang);
    let l = lowered.as_str();
    let ghost before = views(out@);
    if str_eq(l, "typescript") {
        out.push("ts".to_string());
        out.push("tsx".to_string());
        assert(views(out@) =~= before + seq!["ts"@, "tsx"@]);
    } else if str_eq(l, "csharp") || str_eq(l, "c#") {
        out.push("cs".to_string());
        assert(views(out@) =~= before + seq!["cs"@]);
    } else if str_eq(l, "python") {
        out.push("py".to_string());
        assert(views(out@) =~= before + seq!["py"@]);
    } else if str_eq(l, "go") {
        out.push("go".to_string());
        assert(views(out@) =~= before + seq!["go"@]);
    } else if str_eq(l, "java") {
        out.push("java".to_string());
        assert(views(out@) =~= before + seq!["java"@]);
    } else if str_eq(l, "rust") {
        out.push("rs".to_string());
        assert(views(out@) =~= before + seq!["rs"@]);
    } else {
        assert(views(out@) =~= before + Seq::<Seq<char>>::empty());
    }
}

/// Get supported file extensions from the project config languages.
pub fn get_supported_extensions(config: &ProjectConfig) -> (r: Vec<String>)
    ensures
        views(r@) == languages_extensions(views(config.project.languages@)),
{
    let langs = &config.project.languages;
    let mut out: Vec<String> = Vec::new();
    let mut i: usize = 0;
    while i < langs.len()
        invariant
            i <= langs.len(),
            views(out@) == languages_extensions(views(langs@).take(i as int)),
        decreases langs.len() - i,
    {
        push_language_extensions(&mut out, langs[i].as_str());
        proof {
            let t = views(langs@).take(i + 1);
            assert(t.drop_last() =~= views(langs@).take(i as int));
            assert(t.last() == langs@[i as int]@);
        }
        i = i + 1;
    }
    assert(views(langs@).take(langs@.len() as int) =~= views(langs@));
    out
}

/// How one re-index batch changed the graph's symbol and edge counts.
#[derive(Debug, Clone, Copy, PartialEq, Eq, Structural)]
pub struct ReindexDelta {
    /// Symbols gained by the batch.
    pub symbols_added: usize,
    /// Symbols lost by the batch.
    pub symbols_removed: usize,
    /// Edges gained by the batch.
    pub edges_added: usize,
    /// Edges lost by the batch.
    pub edges_removed: usize,
}

/// The growth from `before` to `after`, or 0 if it shrank.
pub open spec fn growth(before: int, after: int) -> int {
    if after > before { after - before } else { 0 }
}

/// The delta between counts taken before and after a re-index.
pub fn reindex_delta(
    symbols_before: usize,
    edges_before: usize,
    symbols_after: usize,
    edges_after: usize,
) -> (r: ReindexDelta)
    ensures
        r.symbols_added == growth(symbols_before as int, symbols_after as int),
        r.symbols_removed == growth(symbols_after as int, symbols_before as int),
        r.edges_added == growth(edges_before as int, edges_after as int),
        r.edges_removed == growth(edges_after as int, edges_before as int),
{
    ReindexDelta {
        symbols_added: symbols_after.saturating_sub(symbols_before),
        symbols_removed: symbols_before.saturating_sub(symbols_after),
        edges_added: edges_after.saturating_sub(edges_before),
        edges_removed: edges_before.saturating_sub(edges_after),
    }
}

/// A delta accounts exactly for the change in counts: what was added minus
/// what was removed is the net change, and a batch never both adds and
/// removes symbols (or edges).
pub proof fn lemma_delta_accounts_for_change(
    symbols_before: usize,
    edges_before: usize,
    symbols_after: usize,
    edges_after: usize,
    d: ReindexDelta,
)
    requires
        d.symbols_added == growth(symbols_before as int, symbols_after as int),
        d.symbols_removed == growth(symbols_after as int, symbols_before as int),
        d.edges_added == growth(edges_before as int, edges_after as int),
        d.edges_removed == growth(edges_after as int, edges_before as int),
    ensures
        d.symbols_added - d.symbols_removed == symbols_after - symbols_before,
        d.edges_added - d.edges_removed == edges_after - edges_before,
        d.symbols_added == 0 || d.symbols_removed == 0,
        d.edges_added == 0 || d.edges_removed == 0,
{
}

/// Running totals of a watch session.
#[derive(Debug, Clone, Copy, PartialEq, Eq, Structural)]
pub struct WatchTotals {
    /// Re-index batches completed.
    pub total_reindexes: u64,
    /// Changed files handled over all batches.
    pub total_files_processed: u64,
}

impl WatchTotals {
    /// A session that has processed nothing yet.
    pub fn new() -> (r: Self)
        ensures
            r.total_reindexes == 0,
            r.total_files_processed == 0,
    {
        WatchTotals { total_reindexes: 0, total_files_processed: 0 }
    }

    /// Records one completed batch of `files_changed` files.
    pub fn record_batch(&mut self, files_changed: u64)
        requires
            old(self).total_reindexes < u64::MAX,
            old(self).total_files_processed + files_changed <= u64::MAX,
        ensures
            final(self).total_reindexes == old(self).total_reindexes + 1,
            final(self).total_files_processed == old(self).total_files_processed + files_changed,
    {
        self.total_reindexes = self.total_reindexes + 1;
        self.total_files_processed = self.total_files_processed + files_changed;
    }
}

} // verus!

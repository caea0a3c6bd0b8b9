//! Full and incremental indexing of a codebase.
//!
//! Walking the file tree, reading files and parsing them with tree-sitter
//! happen outside this crate. Here are the rules the indexer follows: which
//! files it indexes, how a file's content is fingerprinted, which files an
//! incremental run re-parses or drops, and how the run's statistics add up.
use vstd::prelude::*;
use crate::engine::graph::{slashes_forward, slashes_forward_exec, ChangedFiles};
use crate::engine::parser::{detect_language, language_for_extension, language_name, SupportedLanguage};
use crate::path::{extension, strip_prefix_components};
use crate::text::{char_views, chars_of, join_exec, join_seq, lowercase_of, string_of, to_lowercase_str, views};
use vstd::string::StringSliceAdditionalSpecFns;

verus! {

/// The SHA-256 digest of `data` (32 bytes).
pub uninterp spec fn sha256_of(data: Seq<u8>) -> Seq<u8>;

/// The SHA-256 digest of a byte string.
///
/// Calls `sha2::Sha256::digest`. The contract names the digest
/// (`sha256_of`) and states its length, 32 bytes, as the type of
/// `Sha256`'s output fixes it.
#[verifier::external_body]
fn sha256_digest(data: &[u8]) -> (r: Vec<u8>)
    ensures
        r@ == sha256_of(data@),
        r@.len() == 32,
{
    <sha2::Sha256 as sha2::Digest>::digest(data).to_vec()
}

/// The lowercase hexadecimal digit of a value below 16.
pub open spec fn hex_digit(v: u8) -> char {
    if v < 10 {
        (('0' as u8) + v) as char
    } else {
        (('a' as u8) + (v - 10)) as char
    }
}

/// Bytes written as lowercase hexadecimal, two digits per byte, high
/// nibble first.
pub open spec fn hex_text(data: Seq<u8>) -> Seq<char>
    decreases data.len(),
{
    if data.len() == 0 {
        Seq::empty()
    } else {
        hex_text(data.drop_last()) + seq![hex_digit(data.last() / 16), hex_digit(data.last() % 16)]
    }
}

/// Lowercase hexadecimal text of a byte string.
///
/// Calls `hex::encode`, which writes each byte as two lowercase hex digits,
/// high nibble first (its table is `0123456789abcdef`).
#[verifier::external_body]
fn hex_encode(data: &[u8]) -> (r: String)
    ensures
        r@ == hex_text(data@),
{
    hex::encode(data)
}

/// The hex text is two characters per byte.
proof fn lemma_hex_len(data: Seq<u8>)
    ensures
        hex_text(data).len() == 2 * data.len(),
    decreases data.len(),
{
    if data.len() > 0 {
        lemma_hex_len(data.drop_last());
    }
}

/// Compute a SHA-256 hash of a file's contents, as 64 lowercase hex digits.
pub fn compute_hash(content: &str) -> (r: String)
    ensures
        r@ == hex_text(sha256_of(content.spec_bytes())),
        r@.len() == 64,
{
    let digest = sha256_digest(content.as_bytes());
    proof {
        lemma_hex_len(digest@);
    }
    hex_encode(digest.as_slice())
}

/// The stored hash of `path`, if the table has one (the first entry wins).
pub open spec fn hash_of(table: Seq<(String, String)>, path: Seq<char>) -> Option<Seq<char>>
    decreases table.len(),
{
    if table.len() == 0 {
        None
    } else if table[0].0@ == path {
        Some(table[0].1@)
    } else {
        hash_of(table.skip(1), path)
    }
}

/// The files present now but not in the index.
pub open spec fn added_files(current: Seq<(String, String)>, stored: Seq<(String, String)>) -> Seq<Seq<char>> {
    current.filter(|e: (String, String)| hash_of(stored, e.0@) is None).map_values(
        |e: (String, String)| e.0@,
    )
}

/// The files whose content hash differs from the indexed one.
pub open spec fn modified_files(current: Seq<(String, String)>, stored: Seq<(String, String)>) -> Seq<Seq<char>> {
    current.filter(
        |e: (String, String)| hash_of(stored, e.0@) is Some && hash_of(stored, e.0@) != Some(e.1@),
    ).map_values(|e: (String, String)| e.0@)
}

/// The indexed files that are no longer present.
pub open spec fn deleted_files(current: Seq<(String, String)>, stored: Seq<(String, String)>) -> Seq<Seq<char>> {
    stored.filter(|e: (String, String)| hash_of(current, e.0@) is None).map_values(
        |e: (String, String)| e.0@,
    )
}

/// The hash the table holds for `path`.
fn lookup_hash(table: &Vec<(String, String)>, path: &String) -> (r: Option<String>)
    ensures
        match r {
            Some(h) => hash_of(table@, path@) == Some(h@),
            None => hash_of(table@, path@) is None,
        },
{
    let mut i: usize = 0;
    assert(table@.skip(0) =~= table@);
    while i < table.len()
        invariant
            i <= table@.len(),
            hash_of(table@, path@) == hash_of(table@.skip(i as int), path@),
        decreases table.len() - i,
    {
        assert(table@.skip(i as int).skip(1) =~= table@.skip(i + 1));
        if table[i].0 == *path {
            return Some(table[i].1.clone());
        }
        i = i + 1;
    }
    None
}

/// The paths of the entries of `table` for which `want` holds of their
/// hash in `other`: `0` no hash, `1` a different hash.
fn select_paths(table: &Vec<(String, String)>, other: &Vec<(String, String)>, which: u8) -> (r: Vec<String>)
    requires
        which < 2,
    ensures
        which == 0 ==> views(r@) == table@.filter(|e: (String, String)| hash_of(other@, e.0@) is None).map_values(
            |e: (String, String)| e.0@,
        ),
        which == 1 ==> views(r@) == table@.filter(
            |e: (String, String)| hash_of(other@, e.0@) is Some && hash_of(other@, e.0@) != Some(e.1@),
        ).map_values(|e: (String, String)| e.0@),
{
    let ghost f0 = |e: (String, String)| hash_of(other@, e.0@) is None;
    let ghost f1 = |e: (String, String)| hash_of(other@, e.0@) is Some && hash_of(other@, e.0@) != Some(e.1@);
    let ghost f = if which == 0 { f0 } else { f1 };
    let ghost path_of = |e: (String, String)| e.0@;
    let mut out: Vec<String> = Vec::new();
    let mut i: usize = 0;
    while i < table.len()
        invariant
            i <= table@.len(),
            which < 2,
            f0 == (|e: (String, String)| hash_of(other@, e.0@) is None),
            f1 == (|e: (String, String)| hash_of(other@, e.0@) is Some && hash_of(other@, e.0@) != Some(e.1@)),
            f == if which == 0 { f0 } else { f1 },
            path_of == (|e: (String, String)| e.0@),
            views(out@) == table@.take(i as int).filter(f).map_values(path_of),
        decreases table.len() - i,
    {
        let e = &table[i];
        proof {
            assert(table@.take(i + 1) =~= table@.take(i as int).push(*e));
            crate::text::lemma_filter_push(table@.take(i as int), *e, f);
        }
        let h = lookup_hash(other, &e.0);
        let hit = match h {
            None => which == 0,
            Some(old) => which == 1 && !(old == e.1),
        };
        if hit {
            let ghost prev = views(out@);
            out.push(e.0.clone());
            let ghost fl = table@.take(i as int).filter(f);
            assert(fl.push(*e).map_values(path_of) =~= fl.map_values(path_of).push(e.0@));
            assert(views(out@) =~= prev.push(e.0@));
        }
        i = i + 1;
    }
    assert(table@.take(table@.len() as int) =~= table@);
    out
}

/// Compare current file hashes against the stored ones to find changes:
/// files new since the last index, files whose hash changed, and indexed
/// files that are gone (each list in the order of the table it comes from).
pub fn changed_files_between(current: &Vec<(String, String)>, stored: &Vec<(String, String)>) -> (r: ChangedFiles)
    ensures
        views(r.added@) == added_files(current@, stored@),
        views(r.modified@) == modified_files(current@, stored@),
        views(r.deleted@) == deleted_files(current@, stored@),
{
    ChangedFiles {
        added: select_paths(current, stored, 0),
        modified: select_paths(current, stored, 1),
        deleted: select_paths(stored, current, 0),
    }
}

/// Nothing changed exactly when no current file is new or modified and no
/// indexed file is gone; an incremental run then stops early.
pub proof fn lemma_up_to_date(current: Seq<(String, String)>, stored: Seq<(String, String)>)
    requires
        added_files(current, stored).len() == 0,
        modified_files(current, stored).len() == 0,
        deleted_files(current, stored).len() == 0,
    ensures
        forall|i: int| 0 <= i < current.len() ==> #[trigger] hash_of(stored, current[i].0@) == Some(current[i].1@),
        forall|i: int| 0 <= i < stored.len() ==> #[trigger] hash_of(current, stored[i].0@) is Some,
{
    let fa = |e: (String, String)| hash_of(stored, e.0@) is None;
    let fm = |e: (String, String)| hash_of(stored, e.0@) is Some && hash_of(stored, e.0@) != Some(e.1@);
    let fd = |e: (String, String)| hash_of(current, e.0@) is None;
    assert forall|i: int| 0 <= i < current.len() implies #[trigger] hash_of(stored, current[i].0@) == Some(current[i].1@) by {
        if fa(current[i]) {
            lemma_filter_has(current, fa, i);
        }
        if fm(current[i]) {
            lemma_filter_has(current, fm, i);
        }
    }
    assert forall|i: int| 0 <= i < stored.len() implies #[trigger] hash_of(current, stored[i].0@) is Some by {
        if fd(stored[i]) {
            lemma_filter_has(stored, fd, i);
        }
    }
}

/// Incremental indexing re-parses exactly the changed files: with each
/// current path listed once, a current file is among the modified and added
/// files exactly when the index holds no hash for it or a different one, and
/// every file re-parsed is a current file.
pub proof fn lemma_reindex_exactly_changed(current: Seq<(String, String)>, stored: Seq<(String, String)>)
    requires
        forall|i: int, j: int| 0 <= i < j < current.len() ==> current[i].0@ != current[j].0@,
    ensures
        forall|i: int|
            0 <= i < current.len() ==> ((modified_files(current, stored) + added_files(current, stored)).contains(
                #[trigger] current[i].0@,
            ) <==> hash_of(stored, current[i].0@) != Some(current[i].1@)),
        forall|x: Seq<char>|
            #[trigger] (modified_files(current, stored) + added_files(current, stored)).contains(x) ==> exists|i: int|
                0 <= i < current.len() && current[i].0@ == x,
{
    let fa = |e: (String, String)| hash_of(stored, e.0@) is None;
    let fm = |e: (String, String)| hash_of(stored, e.0@) is Some && hash_of(stored, e.0@) != Some(e.1@);
    let key = |e: (String, String)| e.0@;
    let added = current.filter(fa);
    let modified = current.filter(fm);
    assert(added_files(current, stored) == added.map_values(key));
    assert(modified_files(current, stored) == modified.map_values(key));
    let both = modified.map_values(key) + added.map_values(key);
    assert forall|x: Seq<char>| #[trigger] both.contains(x) implies exists|i: int|
        0 <= i < current.len() && current[i].0@ == x && (fa(current[i]) || fm(current[i])) by {
        let q = choose|q: int| 0 <= q < both.len() && both[q] == x;
        if q < modified.len() {
            let e = modified[q];
            current.lemma_filter_pred(fm, q);
            current.lemma_filter_contains_rev(fm, e);
            assert(modified.contains(e));
            let i = choose|i: int| 0 <= i < current.len() && current[i] == e;
            assert(current[i].0@ == x);
        } else {
            let e = added[q - modified.len()];
            current.lemma_filter_pred(fa, q - modified.len());
            assert(added.contains(e));
            current.lemma_filter_contains_rev(fa, e);
            let i = choose|i: int| 0 <= i < current.len() && current[i] == e;
            assert(current[i].0@ == x);
        }
    }
    assert forall|i: int| 0 <= i < current.len() implies (both.contains(#[trigger] current[i].0@) <==> hash_of(
        stored,
        current[i].0@,
    ) != Some(current[i].1@)) by {
        let x = current[i].0@;
        if hash_of(stored, x) != Some(current[i].1@) {
            if fa(current[i]) {
                current.lemma_filter_contains(fa, i);
                assert(added.contains(current[i]));
                let k = choose|k: int| 0 <= k < added.len() && added[k] == current[i];
                assert(added.map_values(key)[k] == x);
                assert(both[modified.len() + k] == added.map_values(key)[k]);
                assert(both.contains(x));
            } else {
                current.lemma_filter_contains(fm, i);
                assert(modified.contains(current[i]));
                let k = choose|k: int| 0 <= k < modified.len() && modified[k] == current[i];
                assert(modified.map_values(key)[k] == x);
                assert(both[k] == modified.map_values(key)[k]);
                assert(both.contains(x));
            }
        }
        if both.contains(x) {
            let j = choose|j: int| 0 <= j < current.len() && current[j].0@ == x && (fa(current[j]) || fm(current[j]));
            if j != i {
                if j < i {
                    assert(current[j].0@ != current[i].0@);
                } else {
                    assert(current[i].0@ != current[j].0@);
                }
            }
        }
    }
}

/// A filter keeps every element that passes it.
proof fn lemma_filter_has<A>(s: Seq<A>, f: spec_fn(A) -> bool, i: int)
    requires
        0 <= i < s.len(),
        f(s[i]),
    ensures
        s.filter(f).len() > 0,
{
    broadcast use vstd::seq_lib::group_filter_ensures;

    assert(s.filter(f).contains(s[i]));
}

/// The files an incremental run re-parses: the modified ones, then the
/// added ones.
pub fn files_to_reindex(changed: &ChangedFiles) -> (r: Vec<String>)
    ensures
        views(r@) == views(changed.modified@) + views(changed.added@),
{
    let mut out = crate::text::clone_strings(&changed.modified);
    let ghost first = views(out@);
    let mut i: usize = 0;
    while i < changed.added.len()
        invariant
            i <= changed.added@.len(),
            views(out@) == first + views(changed.added@).take(i as int),
        decreases changed.added.len() - i,
    {
        let ghost prev = views(out@);
        out.push(changed.added[i].clone());
        assert(views(out@) =~= prev.push(changed.added@[i as int]@));
        assert(views(changed.added@).take(i + 1) =~= views(changed.added@).take(i as int).push(
            changed.added@[i as int]@,
        ));
        i = i + 1;
    }
    assert(views(changed.added@).take(changed.added@.len() as int) =~= views(changed.added@));
    out
}

/// The file is indexed: it lies under the project root and not in its
/// `.scope` directory or in a nested project, it has a supported extension,
/// and its language is one of the configured ones (compared in lowercase).
/// The file is then indexed under its path relative to the root, written
/// with forward slashes.
pub open spec fn spec_index_entry(
    path: Seq<char>,
    root: Seq<char>,
    nested: Seq<Seq<char>>,
    languages: Seq<Seq<char>>,
) -> Option<(Seq<char>, SupportedLanguage)> {
    match strip_prefix_components(path, root) {
        None => None,
        Some(rest) => if rest.len() > 0 && rest[0] == ".scope"@ {
            None
        } else if exists|k: int| 0 <= k < nested.len() && #[trigger] strip_prefix_components(path, nested[k]) is Some {
            None
        } else {
            match extension(path) {
                None => None,
                Some(e) => match language_for_extension(e) {
                    None => None,
                    Some(l) => if exists|k: int| 0 <= k < languages.len() && lowercase_of(#[trigger] languages[k]) == language_name(l) {
                        Some((slashes_forward(join_seq(rest, "/"@)), l))
                    } else {
                        None
                    },
                },
            }
        },
    }
}

/// Whether the indexer takes a file, and under which relative path and
/// language.
pub fn index_entry(path: &str, project_root: &str, nested_roots: &Vec<String>, languages: &Vec<String>) -> (r: Option<(String, SupportedLanguage)>)
    ensures
        match r {
            Some((rel, l)) => spec_index_entry(path@, project_root@, views(nested_roots@), views(languages@))
                == Some((rel@, l)),
            None => spec_index_entry(path@, project_root@, views(nested_roots@), views(languages@)) is None,
        },
{
    let p = chars_of(path);
    let root = chars_of(project_root);
    let rest = match crate::path::strip_prefix_exec(&p, &root) {
        Some(r) => r,
        None => return None,
    };
    let scope = chars_of(".scope");
    if rest.len() > 0 && crate::text::chars_eq(&rest[0], &scope) {
        assert(char_views(rest@)[0] == rest@[0]@);
        return None;
    }
    proof {
        if rest@.len() > 0 {
            assert(char_views(rest@)[0] == rest@[0]@);
        }
    }
    let mut k: usize = 0;
    while k < nested_roots.len()
        invariant
            k <= nested_roots@.len(),
            p@ == path@,
            forall|j: int| 0 <= j < k ==> #[trigger] strip_prefix_components(path@, views(nested_roots@)[j]) is None,
        decreases nested_roots.len() - k,
    {
        let n = chars_of(nested_roots[k].as_str());
        match crate::path::strip_prefix_exec(&p, &n) {
            Some(_) => {
                assert(views(nested_roots@)[k as int] == n@);
                return None;
            },
            None => {},
        }
        assert(views(nested_roots@)[k as int] == n@);
        k = k + 1;
    }
    let lang = match detect_language(path) {
        Ok(l) => l,
        Err(_) => return None,
    };
    let name = lang.as_str();
    let mut j: usize = 0;
    let mut configured = false;
    while j < languages.len() && !configured
        invariant
            j <= languages@.len(),
            name@ == language_name(lang),
            !configured ==> forall|q: int| 0 <= q < j ==> lowercase_of(#[trigger] views(languages@)[q]) != language_name(lang),
            configured ==> exists|q: int| 0 <= q < languages@.len() && lowercase_of(#[trigger] views(languages@)[q]) == language_name(lang),
        decreases languages.len() - j,
    {
        let lowered = to_lowercase_str(languages[j].as_str());
        if crate::text::str_eq(lowered.as_str(), name) {
            assert(views(languages@)[j as int] == languages@[j as int]@);
            configured = true;
        }
        assert(views(languages@)[j as int] == languages@[j as int]@);
        j = j + 1;
    }
    if !configured {
        return None;
    }
    let joined = join_exec(&rest, "/");
    let rel = slashes_forward_exec(&joined);
    Some((string_of(&rel), lang))
}

/// Per-language statistics from an indexing run.
#[derive(Debug, Clone)]
pub struct LanguageStats {
    /// Language name.
    pub language: String,
    /// Number of files of this language.
    pub file_count: usize,
    /// Number of symbols extracted from this language.
    pub symbol_count: usize,
}

/// Statistics from an indexing run.
#[derive(Debug)]
pub struct IndexStats {
    /// Number of files indexed.
    pub file_count: usize,
    /// Number of symbols extracted.
    pub symbol_count: usize,
    /// Number of edges extracted.
    pub edge_count: usize,
    /// Duration of the indexing run.
    pub duration: std::time::Duration,
    /// Per-language breakdown.
    pub language_stats: Vec<LanguageStats>,
}

/// Statistics from an incremental indexing run.
#[derive(Debug)]
pub struct IncrementalStats {
    /// Files that were modified.
    pub modified: Vec<String>,
    /// Files that were added.
    pub added: Vec<String>,
    /// Files that were deleted.
    pub deleted: Vec<String>,
    /// Total symbols after update.
    pub symbol_count: usize,
    /// Total edges after update.
    pub edge_count: usize,
    /// Duration of the indexing run.
    pub duration: std::time::Duration,
    /// True if nothing changed (index up to date).
    pub up_to_date: bool,
}

/// The totals of the parsed files `(language, symbols, edges)`.
pub open spec fn sum_parsed(files: Seq<(SupportedLanguage, usize, usize)>) -> (int, int)
    decreases files.len(),
{
    if files.len() == 0 {
        (0, 0)
    } else {
        let t = sum_parsed(files.drop_last());
        (t.0 + files.last().1, t.1 + files.last().2)
    }
}

/// The per-language statistics of the parsed files: one entry per
/// language, in order of first appearance, with its file and symbol counts.
pub open spec fn language_breakdown(files: Seq<(SupportedLanguage, usize, usize)>) -> Seq<(Seq<char>, int, int)>
    decreases files.len(),
{
    if files.len() == 0 {
        Seq::empty()
    } else {
        let b = language_breakdown(files.drop_last());
        let f = files.last();
        let name = language_name(f.0);
        if exists|i: int| 0 <= i < b.len() && #[trigger] b[i].0 == name {
            let i = choose|i: int| 0 <= i < b.len() && #[trigger] b[i].0 == name;
            b.update(i, (name, b[i].1 + 1, b[i].2 + f.1))
        } else {
            b.push((name, 1, f.1 as int))
        }
    }
}

/// The view of the per-language statistics.
pub open spec fn stats_view(s: Seq<LanguageStats>) -> Seq<(Seq<char>, int, int)> {
    s.map_values(|l: LanguageStats| (l.language@, l.file_count as int, l.symbol_count as int))
}

/// Statistics of a full index run from its parsed files
/// `(language, symbols, edges)`.
pub fn full_index_stats(
    total_files: usize,
    parsed: &Vec<(SupportedLanguage, usize, usize)>,
    duration: std::time::Duration,
) -> (r: IndexStats)
    requires
        sum_parsed(parsed@).0 <= usize::MAX,
        sum_parsed(parsed@).1 <= usize::MAX,
    ensures
        r.file_count == total_files,
        r.symbol_count == sum_parsed(parsed@).0,
        r.edge_count == sum_parsed(parsed@).1,
        r.duration == duration,
        stats_view(r.language_stats@) == language_breakdown(parsed@),
{
    let mut symbols: usize = 0;
    let mut edges: usize = 0;
    let mut stats: Vec<LanguageStats> = Vec::new();
    let mut i: usize = 0;
    while i < parsed.len()
        invariant
            i <= parsed@.len(),
            sum_parsed(parsed@).0 <= usize::MAX,
            sum_parsed(parsed@).1 <= usize::MAX,
            (symbols as int, edges as int) == sum_parsed(parsed@.take(i as int)),
            stats_view(stats@) == language_breakdown(parsed@.take(i as int)),
            forall|k: int| 0 <= k < stats@.len() ==> #[trigger] stats@[k].file_count <= i && stats@[k].symbol_count <= symbols,
        decreases parsed.len() - i,
    {
        let (lang, sc, ec) = parsed[i];
        proof {
            assert(parsed@.take(i + 1).drop_last() =~= parsed@.take(i as int));
            assert(parsed@.take(i + 1).last() == parsed@[i as int]);
            lemma_parsed_prefix(parsed@, i + 1);
        }
        symbols = symbols + sc;
        edges = edges + ec;
        let name = lang.as_str();
        let mut k: usize = 0;
        let mut found: Option<usize> = None;
        while k < stats.len() && found.is_none()
            invariant
                k <= stats@.len(),
                found is None ==> forall|q: int| 0 <= q < k ==> stats_view(stats@)[q].0 != name@,
                found is Some ==> found.unwrap() < stats@.len() && stats_view(stats@)[found.unwrap() as int].0 == name@,
            decreases stats.len() - k + (if found is None { 1int } else { 0int }),
        {
            if crate::text::str_eq(stats[k].language.as_str(), name) {
                found = Some(k);
            }
            k = k + 1;
        }
        let ghost b = stats_view(stats@);
        match found {
            Some(q) => {
                proof {
                    let w = choose|w: int| 0 <= w < b.len() && #[trigger] b[w].0 == name@;
                    lemma_breakdown_names_distinct(parsed@.take(i as int));
                    assert(w == q as int);
                }
                let old_files = stats[q].file_count;
                let old_symbols = stats[q].symbol_count;
                let entry = LanguageStats {
                    language: stats[q].language.clone(),
                    file_count: old_files + 1,
                    symbol_count: old_symbols + sc,
                };
                stats.set(q, entry);
                assert(stats_view(stats@) =~= b.update(q as int, (name@, b[q as int].1 + 1, b[q as int].2 + sc)));
            },
            None => {
                stats.push(LanguageStats { language: name.to_string(), file_count: 1, symbol_count: sc });
                assert(stats_view(stats@) =~= b.push((name@, 1, sc as int)));
            },
        }
        i = i + 1;
    }
    assert(parsed@.take(parsed@.len() as int) =~= parsed@);
    IndexStats {
        file_count: total_files,
        symbol_count: symbols,
        edge_count: edges,
        duration,
        language_stats: stats,
    }
}

/// A prefix's totals are no larger than the whole's.
proof fn lemma_parsed_prefix(files: Seq<(SupportedLanguage, usize, usize)>, k: int)
    requires
        0 <= k <= files.len(),
    ensures
        sum_parsed(files.take(k)).0 <= sum_parsed(files).0,
        sum_parsed(files.take(k)).1 <= sum_parsed(files).1,
    decreases files.len(),
{
    if k == files.len() {
        assert(files.take(k) =~= files);
    } else {
        lemma_parsed_prefix(files.drop_last(), k);
        assert(files.drop_last().take(k) =~= files.take(k));
    }
}

/// Each language appears once in the breakdown.
proof fn lemma_breakdown_names_distinct(files: Seq<(SupportedLanguage, usize, usize)>)
    ensures
        forall|a: int, b: int|
            0 <= a < b < language_breakdown(files).len() ==> #[trigger] language_breakdown(files)[a].0
                != #[trigger] language_breakdown(files)[b].0,
    decreases files.len(),
{
    if files.len() > 0 {
        lemma_breakdown_names_distinct(files.drop_last());
        let b = language_breakdown(files.drop_last());
        let f = files.last();
        let name = language_name(f.0);
        let r = language_breakdown(files);
        if exists|i: int| 0 <= i < b.len() && #[trigger] b[i].0 == name {
            let i = choose|i: int| 0 <= i < b.len() && #[trigger] b[i].0 == name;
            assert forall|a: int, c: int| 0 <= a < c < r.len() implies #[trigger] r[a].0 != #[trigger] r[c].0 by {
                assert(r[a].0 == b[a].0);
                assert(r[c].0 == b[c].0);
            }
        } else {
            assert forall|a: int, c: int| 0 <= a < c < r.len() implies #[trigger] r[a].0 != #[trigger] r[c].0 by {
                if c == b.len() {
                    assert(r[c].0 == name);
                    assert(r[a].0 == b[a].0);
                } else {
                    assert(r[a].0 == b[a].0);
                    assert(r[c].0 == b[c].0);
                }
            }
        }
    }
}

} // verus!

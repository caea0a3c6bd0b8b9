//! The languages Scope parses and how a source file's language is found.
//!
//! The tree-sitter grammars and queries do the parsing itself; this module
//! holds the language table, detection by file extension, and the rule that
//! turns a definition's source text into its one-line signature.
use vstd::prelude::*;
use crate::engine::graph::{Edge, Symbol, clone_symbol};
use crate::num::{decimal, u64_text};
use crate::path::{extension, extension_exec};
use crate::text::{
    char_views, chars_eq, chars_of, contains_char, find_exec, find_seq, join_exec, join_seq, lines_exec, lines_seq, rfind_exec, rfind_seq, single, slice_chars,
    string_of, trim_chars, trim_seq,
};

verus! {

/// Supported programming languages.
#[derive(Debug, Clone, Copy, PartialEq, Eq, Structural, Hash)]
pub enum SupportedLanguage {
    /// TypeScript (.ts, .tsx)
    TypeScript,
    /// C# (.cs)
    CSharp,
    /// Python (.py)
    Python,
    /// Go (.go)
    Go,
    /// Java (.java)
    Java,
    /// Rust (.rs)
    Rust,
}

/// The lowercase name of a language.
pub open spec fn language_name(l: SupportedLanguage) -> Seq<char> {
    match l {
        SupportedLanguage::TypeScript => "typescript"@,
        SupportedLanguage::CSharp => "csharp"@,
        SupportedLanguage::Python => "python"@,
        SupportedLanguage::Go => "go"@,
        SupportedLanguage::Java => "java"@,
        SupportedLanguage::Rust => "rust"@,
    }
}

/// The human-readable name of a language.
pub open spec fn language_title(l: SupportedLanguage) -> Seq<char> {
    match l {
        SupportedLanguage::TypeScript => "TypeScript"@,
        SupportedLanguage::CSharp => "C#"@,
        SupportedLanguage::Python => "Python"@,
        SupportedLanguage::Go => "Go"@,
        SupportedLanguage::Java => "Java"@,
        SupportedLanguage::Rust => "Rust"@,
    }
}

/// The language that a file extension (without the dot) belongs to.
pub open spec fn language_for_extension(ext: Seq<char>) -> Option<SupportedLanguage> {
    if ext == "ts"@ || ext == "tsx"@ {
        Some(SupportedLanguage::TypeScript)
    } else if ext == "cs"@ {
        Some(SupportedLanguage::CSharp)
    } else if ext == "py"@ {
        Some(SupportedLanguage::Python)
    } else if ext == "go"@ {
        Some(SupportedLanguage::Go)
    } else if ext == "java"@ {
        Some(SupportedLanguage::Java)
    } else if ext == "rs"@ {
        Some(SupportedLanguage::Rust)
    } else {
        None
    }
}

impl SupportedLanguage {
    /// Returns the language name as a lowercase string.
    pub fn as_str(&self) -> (r: &'static str)
        ensures
            r@ == language_name(*self),
    {
        match self {
            SupportedLanguage::TypeScript => "typescript",
            SupportedLanguage::CSharp => "csharp",
            SupportedLanguage::Python => "python",
            SupportedLanguage::Go => "go",
            SupportedLanguage::Java => "java",
            SupportedLanguage::Rust => "rust",
        }
    }

    /// Returns the language's display name (`TypeScript`, `C#`, ...).
    pub fn display_name(&self) -> (r: &'static str)
        ensures
            r@ == language_title(*self),
    {
        match self {
            SupportedLanguage::TypeScript => "TypeScript",
            SupportedLanguage::CSharp => "C#",
            SupportedLanguage::Python => "Python",
            SupportedLanguage::Go => "Go",
            SupportedLanguage::Java => "Java",
            SupportedLanguage::Rust => "Rust",
        }
    }
}

/// Why a file's language could not be detected.
#[derive(Debug, Clone, PartialEq, Eq)]
pub enum LanguageError {
    /// The path has no file extension.
    NoExtension,
    /// The extension (without the dot) belongs to no supported language.
    UnsupportedExtension(String),
}

/// `e` holds exactly the characters of `lit`.
fn ext_is(e: &Vec<char>, lit: &str) -> (r: bool)
    ensures
        r == (e@ == lit@),
{
    let l = chars_of(lit);
    chars_eq(e, &l)
}

/// Detect the language of a file based on its extension.
pub fn detect_language(path: &str) -> (r: Result<SupportedLanguage, LanguageError>)
    ensures
        match extension(path@) {
            None => r == Err::<SupportedLanguage, LanguageError>(LanguageError::NoExtension),
            Some(e) => match language_for_extension(e) {
                Some(l) => r == Ok::<SupportedLanguage, LanguageError>(l),
                None => (match r {
                    Err(LanguageError::UnsupportedExtension(s)) => s@ == e,
                    _ => false,
                }),
            },
        },
{
    let p = chars_of(path);
    match extension_exec(&p) {
        None => Err(LanguageError::NoExtension),
        Some(e) => {
            if ext_is(&e, "ts") || ext_is(&e, "tsx") {
                Ok(SupportedLanguage::TypeScript)
            } else if ext_is(&e, "cs") {
                Ok(SupportedLanguage::CSharp)
            } else if ext_is(&e, "py") {
                Ok(SupportedLanguage::Python)
            } else if ext_is(&e, "go") {
                Ok(SupportedLanguage::Go)
            } else if ext_is(&e, "java") {
                Ok(SupportedLanguage::Java)
            } else if ext_is(&e, "rs") {
                Ok(SupportedLanguage::Rust)
            } else {
                Err(LanguageError::UnsupportedExtension(string_of(&e)))
            }
        },
    }
}


// ---------------------------------------------------------------------------
// Signatures
// ---------------------------------------------------------------------------

/// `s` without trailing commas.
pub open spec fn trim_end_commas(s: Seq<char>) -> Seq<char>
    decreases s.len(),
{
    if s.len() > 0 && s.last() == ',' {
        trim_end_commas(s.drop_last())
    } else {
        s
    }
}

/// `s` without trailing commas.
fn trim_end_commas_exec(v: &Vec<char>) -> (r: Vec<char>)
    ensures
        r@ == trim_end_commas(v@),
{
    let mut n = v.len();
    assert(v@.take(n as int) =~= v@);
    while n > 0 && v[n - 1] == ','
        invariant
            n <= v@.len(),
            trim_end_commas(v@) == trim_end_commas(v@.take(n as int)),
        decreases n,
    {
        assert(v@.take(n as int).drop_last() =~= v@.take(n - 1));
        n = n - 1;
    }
    assert(trim_end_commas(v@.take(n as int)) == v@.take(n as int));
    slice_chars(v, 0, n)
}

/// The text, if it is not empty.
pub open spec fn non_empty_text(s: Seq<char>) -> Option<Seq<char>> {
    if s.len() == 0 {
        None
    } else {
        Some(s)
    }
}

/// The lines of `s`, each trimmed, joined by single spaces.
pub open spec fn collapse_lines(s: Seq<char>) -> Seq<char> {
    join_seq(lines_seq(s).map_values(|l: Seq<char>| trim_seq(l)), " "@)
}

/// The one-line signature of a definition of node kind `kind` whose source
/// text is `text`.
///
/// An enum variant keeps its data shape: a multi-line variant with braces is
/// collapsed onto one line, otherwise its first line is kept; trailing
/// commas go. Any other definition is cut at its first `{`, else at its first
/// line end. Surrounding whitespace is trimmed; an empty signature is none.
pub open spec fn spec_signature(kind: Seq<char>, text: Seq<char>) -> Option<Seq<char>> {
    if kind == "enum_variant"@ {
        match find_seq(text, seq!['\n']) {
            Some(nl) => {
                let full = trim_seq(text);
                if full.contains('{') && full.contains('}') {
                    let collapsed = collapse_lines(full);
                    if collapsed.len() == 0 {
                        None
                    } else {
                        Some(trim_seq(trim_end_commas(collapsed)))
                    }
                } else {
                    non_empty_text(trim_seq(trim_end_commas(trim_seq(text.take(nl)))))
                }
            },
            None => non_empty_text(trim_seq(trim_end_commas(trim_seq(text)))),
        }
    } else {
        match find_seq(text, seq!['{']) {
            Some(b) => non_empty_text(trim_seq(text.take(b))),
            None => match find_seq(text, seq!['\n']) {
                Some(nl) => non_empty_text(trim_seq(text.take(nl))),
                None => non_empty_text(trim_seq(text)),
            },
        }
    }
}

/// The position of the first `c` in `v`, if any.
fn find_char_exec(v: &Vec<char>, c: char) -> (r: Option<usize>)
    ensures
        match r {
            Some(k) => find_seq(v@, seq![c]) == Some(k as int) && k < v@.len(),
            None => find_seq(v@, seq![c]) is None,
        },
{
    let mut p: Vec<char> = Vec::new();
    p.push(c);
    assert(p@ =~= seq![c]);
    let r = find_exec(v, &p);
    proof {
        crate::text::lemma_find_from(v@, p@, 0);
    }
    r
}

/// `Some` of the text unless it is empty.
fn non_empty_string(v: &Vec<char>) -> (r: Option<String>)
    ensures
        match r {
            Some(s) => non_empty_text(v@) == Some(s@),
            None => non_empty_text(v@) is None,
        },
{
    if v.len() == 0 {
        None
    } else {
        Some(string_of(v))
    }
}

/// Extract a definition's one-line signature from its node kind and source text.
pub fn signature_of(kind: &str, text: &str) -> (r: Option<String>)
    ensures
        match r {
            Some(s) => spec_signature(kind@, text@) == Some(s@),
            None => spec_signature(kind@, text@) is None,
        },
{
    proof {
        reveal_strlit("enum_variant");
        reveal_strlit(" ");
    }
    let t = chars_of(text);
    if crate::text::str_eq(kind, "enum_variant") {
        match find_char_exec(&t, '\n') {
            Some(nl) => {
                let full = trim_chars(&t);
                if contains_char(&full, '{') && contains_char(&full, '}') {
                    let lines = lines_exec(&full);
                    let mut trimmed: Vec<Vec<char>> = Vec::new();
                    let mut i: usize = 0;
                    while i < lines.len()
                        invariant
                            i <= lines.len(),
                            char_views(trimmed@) == char_views(lines@).take(i as int).map_values(
                                |l: Seq<char>| trim_seq(l),
                            ),
                        decreases lines.len() - i,
                    {
                        let ghost before = char_views(trimmed@);
                        trimmed.push(trim_chars(&lines[i]));
                        assert(char_views(trimmed@) =~= before.push(trim_seq(lines@[i as int]@)));
                        assert(char_views(lines@).take(i + 1).map_values(|l: Seq<char>| trim_seq(l))
                            =~= char_views(lines@).take(i as int).map_values(|l: Seq<char>| trim_seq(l)).push(
                            trim_seq(lines@[i as int]@),
                        ));
                        i = i + 1;
                    }
                    assert(char_views(lines@).take(lines.len() as int) =~= char_views(lines@));
                    let collapsed = join_exec(&trimmed, " ");
                    if collapsed.len() == 0 {
                        None
                    } else {
                        let c = trim_chars(&trim_end_commas_exec(&collapsed));
                        Some(string_of(&c))
                    }
                } else {
                    let first = slice_chars(&t, 0, nl);
                    assert(first@ =~= t@.take(nl as int));
                    non_empty_string(&trim_chars(&trim_end_commas_exec(&trim_chars(&first))))
                }
            },
            None => non_empty_string(&trim_chars(&trim_end_commas_exec(&trim_chars(&t)))),
        }
    } else {
        match find_char_exec(&t, '{') {
            Some(b) => {
                let head = slice_chars(&t, 0, b);
                assert(head@ =~= t@.take(b as int));
                non_empty_string(&trim_chars(&head))
            },
            None => match find_char_exec(&t, '\n') {
                Some(nl) => {
                    let head = slice_chars(&t, 0, nl);
                    assert(head@ =~= t@.take(nl as int));
                    non_empty_string(&trim_chars(&head))
                },
                None => non_empty_string(&trim_chars(&t)),
            },
        }
    }
}

/// The text after the last `::` of `s`, or all of `s` without one.
pub open spec fn after_last_path_sep(s: Seq<char>) -> Seq<char> {
    match rfind_seq(s, "::"@) {
        Some(k) => s.subrange(k + 2, s.len() as int),
        None => s,
    }
}

/// The base name of a type that a Rust `impl` block is for, from the type
/// node's kind and text: a plain type is its own name, a generic type is
/// named by its first type-identifier child (`first_type_identifier`), a
/// path type by its last segment, and any other type by its text.
pub open spec fn spec_base_type_name(kind: Seq<char>, text: Seq<char>, first_type_identifier: Option<Seq<char>>) -> Option<Seq<char>> {
    if kind == "type_identifier"@ {
        Some(text)
    } else if kind == "generic_type"@ {
        first_type_identifier
    } else if kind == "scoped_type_identifier"@ {
        Some(after_last_path_sep(text))
    } else {
        Some(text)
    }
}

/// The base name of the type an `impl` block is for.
pub fn base_type_name(kind: &str, text: &str, first_type_identifier: Option<String>) -> (r: Option<String>)
    ensures
        match r {
            Some(s) => spec_base_type_name(kind@, text@, match first_type_identifier {
                Some(f) => Some(f@),
                None => None,
            }) == Some(s@),
            None => spec_base_type_name(kind@, text@, match first_type_identifier {
                Some(f) => Some(f@),
                None => None,
            }) is None,
        },
{
    proof {
        reveal_strlit("::");
    }
    if crate::text::str_eq(kind, "type_identifier") {
        Some(text.to_string())
    } else if crate::text::str_eq(kind, "generic_type") {
        first_type_identifier
    } else if crate::text::str_eq(kind, "scoped_type_identifier") {
        let t = chars_of(text);
        let sep = chars_of("::");
        match rfind_exec(&t, &sep) {
            Some(k) => {
                proof {
                    crate::text::lemma_rfind_upto(t@, sep@, t@.len() - sep@.len());
                    assert(crate::text::rfind_upto(t@, sep@, t@.len() - sep@.len()) == Some(k as int));
                }
                let n = t.len();
                Some(string_of(&slice_chars(&t, k + 2, n)))
            },
            None => Some(text.to_string()),
        }
    } else {
        Some(text.to_string())
    }
}

// ---------------------------------------------------------------------------
// Symbol IDs and Rust impl blocks
// ---------------------------------------------------------------------------

/// The ID of an extracted symbol: `file::name::kind::line`.
pub open spec fn spec_symbol_id(file_path: Seq<char>, name: Seq<char>, kind: Seq<char>, line: u32) -> Seq<char> {
    file_path + "::"@ + name + "::"@ + kind + "::"@ + decimal(line as nat)
}

/// The ID of an extracted symbol.
pub fn symbol_id(file_path: &str, name: &str, kind: &str, line: u32) -> (r: String)
    ensures
        r@ == spec_symbol_id(file_path@, name@, kind@, line),
{
    let mut v = chars_of(file_path);
    crate::text::extend_str(&mut v, "::");
    crate::text::extend_str(&mut v, name);
    crate::text::extend_str(&mut v, "::");
    crate::text::extend_str(&mut v, kind);
    crate::text::extend_str(&mut v, "::");
    crate::text::extend_chars(&mut v, &u64_text(line as u64));
    string_of(&v)
}

/// Kinds whose parent class is looked up: methods, properties and variants.
pub open spec fn spec_has_parent_class(kind: Seq<char>) -> bool {
    kind == "method"@ || kind == "property"@ || kind == "variant"@
}

/// Whether a symbol of this kind gets its enclosing class as parent.
pub fn has_parent_class(kind: &str) -> (r: bool)
    ensures
        r == spec_has_parent_class(kind@),
{
    crate::text::str_eq(kind, "method") || crate::text::str_eq(kind, "property") || crate::text::str_eq(
        kind,
        "variant",
    )
}

/// What the impl-block rules read of a symbol: file, name, kind, first
/// line, parent ID and ID.
pub open spec fn symbol_key(s: Symbol) -> (Seq<char>, Seq<char>, Seq<char>, u32, Option<Seq<char>>, Seq<char>) {
    (
        s.file_path@,
        s.name@,
        s.kind@,
        s.line_start,
        match s.parent_id {
            Some(p) => Some(p@),
            None => None,
        },
        s.id@,
    )
}

/// The keys of symbols.
pub open spec fn symbol_keys(syms: Seq<Symbol>) -> Seq<(Seq<char>, Seq<char>, Seq<char>, u32, Option<Seq<char>>, Seq<char>)> {
    syms.map_values(|s: Symbol| symbol_key(s))
}

/// The key is a struct, enum or interface named `target_name` in the file.
pub open spec fn is_type_named(
    k: (Seq<char>, Seq<char>, Seq<char>, u32, Option<Seq<char>>, Seq<char>),
    file_path: Seq<char>,
    target_name: Seq<char>,
) -> bool {
    k.0 == file_path && k.1 == target_name && (k.2 == "struct"@ || k.2 == "enum"@ || k.2 == "interface"@)
}

/// The key is a parentless function named `name` starting at `line` in the file.
pub open spec fn is_free_function(
    k: (Seq<char>, Seq<char>, Seq<char>, u32, Option<Seq<char>>, Seq<char>),
    file_path: Seq<char>,
    name: Seq<char>,
    line: u32,
) -> bool {
    k.0 == file_path && k.1 == name && k.3 == line && k.2 == "function"@ && k.4 is None
}

/// The first index from `i` on of a struct, enum or interface named `target_name`.
pub open spec fn first_type_from(
    keys: Seq<(Seq<char>, Seq<char>, Seq<char>, u32, Option<Seq<char>>, Seq<char>)>,
    file_path: Seq<char>,
    target_name: Seq<char>,
    i: int,
) -> Option<int>
    decreases keys.len() - i,
{
    if i < 0 || i >= keys.len() {
        None
    } else if is_type_named(keys[i], file_path, target_name) {
        Some(i)
    } else {
        first_type_from(keys, file_path, target_name, i + 1)
    }
}

/// The first index from `i` on of a matching parentless function.
pub open spec fn first_function_from(
    keys: Seq<(Seq<char>, Seq<char>, Seq<char>, u32, Option<Seq<char>>, Seq<char>)>,
    file_path: Seq<char>,
    name: Seq<char>,
    line: u32,
    i: int,
) -> Option<int>
    decreases keys.len() - i,
{
    if i < 0 || i >= keys.len() {
        None
    } else if is_free_function(keys[i], file_path, name, line) {
        Some(i)
    } else {
        first_function_from(keys, file_path, name, line, i + 1)
    }
}

/// The key of a function turned into a method of the type with ID `target_id`.
pub open spec fn as_method(
    k: (Seq<char>, Seq<char>, Seq<char>, u32, Option<Seq<char>>, Seq<char>),
    target_id: Seq<char>,
) -> (Seq<char>, Seq<char>, Seq<char>, u32, Option<Seq<char>>, Seq<char>) {
    (k.0, k.1, "method"@, k.3, Some(target_id), spec_symbol_id(k.0, k.1, "method"@, k.3))
}

/// Each `(name, line)` method of an impl block, in order, turns the first
/// matching parentless function into a method of `target_id`.
pub open spec fn attach_methods(
    keys: Seq<(Seq<char>, Seq<char>, Seq<char>, u32, Option<Seq<char>>, Seq<char>)>,
    file_path: Seq<char>,
    target_id: Seq<char>,
    methods: Seq<(Seq<char>, u32)>,
) -> Seq<(Seq<char>, Seq<char>, Seq<char>, u32, Option<Seq<char>>, Seq<char>)>
    decreases methods.len(),
{
    if methods.len() == 0 {
        keys
    } else {
        let k = attach_methods(keys, file_path, target_id, methods.drop_last());
        let m = methods.last();
        match first_function_from(k, file_path, m.0, m.1, 0) {
            Some(i) => k.update(i, as_method(k[i], target_id)),
            None => k,
        }
    }
}

/// The impl blocks `(type name, methods)`, in order: those whose type is a
/// struct, enum or interface of the file have their methods attached to it;
/// the others are skipped.
pub open spec fn associate_impls(
    keys: Seq<(Seq<char>, Seq<char>, Seq<char>, u32, Option<Seq<char>>, Seq<char>)>,
    file_path: Seq<char>,
    impls: Seq<(Seq<char>, Seq<(Seq<char>, u32)>)>,
) -> Seq<(Seq<char>, Seq<char>, Seq<char>, u32, Option<Seq<char>>, Seq<char>)>
    decreases impls.len(),
{
    if impls.len() == 0 {
        keys
    } else {
        let k = associate_impls(keys, file_path, impls.drop_last());
        let a = impls.last();
        match first_type_from(k, file_path, a.0, 0) {
            Some(t) => attach_methods(k, file_path, k[t].5, a.1),
            None => k,
        }
    }
}

/// The view of impl blocks.
pub open spec fn impls_view(impls: Seq<(String, Vec<(String, u32)>)>) -> Seq<(Seq<char>, Seq<(Seq<char>, u32)>)> {
    impls.map_values(
        |a: (String, Vec<(String, u32)>)| (a.0@, a.1@.map_values(|m: (String, u32)| (m.0@, m.1))),
    )
}

/// A scan that stopped at `j` with no earlier match finds what `first_type_from` finds.
proof fn lemma_first_type(
    keys: Seq<(Seq<char>, Seq<char>, Seq<char>, u32, Option<Seq<char>>, Seq<char>)>,
    file_path: Seq<char>,
    target_name: Seq<char>,
    i: int,
    j: int,
)
    requires
        0 <= i <= j <= keys.len(),
        forall|q: int| i <= q < j ==> !is_type_named(#[trigger] keys[q], file_path, target_name),
        j == keys.len() || is_type_named(keys[j], file_path, target_name),
    ensures
        first_type_from(keys, file_path, target_name, i) == if j == keys.len() { None } else { Some(j) },
    decreases j - i,
{
    if i < j {
        lemma_first_type(keys, file_path, target_name, i + 1, j);
    }
}

/// A scan that stopped at `j` with no earlier match finds what `first_function_from` finds.
proof fn lemma_first_function(
    keys: Seq<(Seq<char>, Seq<char>, Seq<char>, u32, Option<Seq<char>>, Seq<char>)>,
    file_path: Seq<char>,
    name: Seq<char>,
    line: u32,
    i: int,
    j: int,
)
    requires
        0 <= i <= j <= keys.len(),
        forall|q: int| i <= q < j ==> !is_free_function(#[trigger] keys[q], file_path, name, line),
        j == keys.len() || is_free_function(keys[j], file_path, name, line),
    ensures
        first_function_from(keys, file_path, name, line, i) == if j == keys.len() { None } else { Some(j) },
    decreases j - i,
{
    if i < j {
        lemma_first_function(keys, file_path, name, line, i + 1, j);
    }
}

/// Whether the symbol is a struct, enum or interface named `target_name` in the file.
fn is_type_named_exec(s: &Symbol, file_path: &str, target_name: &str) -> (r: bool)
    ensures
        r == is_type_named(symbol_key(*s), file_path@, target_name@),
{
    crate::text::str_eq(s.file_path.as_str(), file_path) && crate::text::str_eq(s.name.as_str(), target_name)
        && (crate::text::str_eq(s.kind.as_str(), "struct") || crate::text::str_eq(s.kind.as_str(), "enum")
        || crate::text::str_eq(s.kind.as_str(), "interface"))
}

/// The ID of the struct, enum or interface named `target_name` in the file, if any.
pub fn type_symbol_id(symbols: &Vec<Symbol>, file_path: &str, target_name: &str) -> (r: Option<String>)
    ensures
        match r {
            Some(id) => match first_type_from(symbol_keys(symbols@), file_path@, target_name@, 0) {
                Some(t) => id@ == symbol_keys(symbols@)[t].5,
                None => false,
            },
            None => first_type_from(symbol_keys(symbols@), file_path@, target_name@, 0) is None,
        },
{
    let ghost keys = symbol_keys(symbols@);
    let mut j: usize = 0;
    while j < symbols.len()
        invariant
            j <= symbols.len(),
            keys == symbol_keys(symbols@),
            forall|q: int| 0 <= q < j ==> !is_type_named(#[trigger] keys[q], file_path@, target_name@),
        decreases symbols.len() - j,
    {
        if is_type_named_exec(&symbols[j], file_path, target_name) {
            proof {
                lemma_first_type(keys, file_path@, target_name@, 0, j as int);
            }
            return Some(symbols[j].id.clone());
        }
        j = j + 1;
    }
    proof {
        lemma_first_type(keys, file_path@, target_name@, 0, j as int);
    }
    None
}

/// The `implements` edge of an `impl Trait for Type` block at `line`: from
/// the type's symbol when the file defines it (else from the file's
/// module-level class ID) to the trait.
pub fn trait_impl_edge(symbols: &Vec<Symbol>, file_path: &str, trait_name: &str, target_type: &str, line: u32) -> (r: Edge)
    ensures
        r.from_id@ == match first_type_from(symbol_keys(symbols@), file_path@, target_type@, 0) {
            Some(t) => symbol_keys(symbols@)[t].5,
            None => file_path@ + "::__module__::class"@,
        },
        r.to_id@ == trait_name@,
        r.kind@ == "implements"@,
        r.file_path@ == file_path@,
        r.line == Some(line),
{
    let from_id = match type_symbol_id(symbols, file_path, target_type) {
        Some(id) => id,
        None => {
            let mut v = chars_of(file_path);
            crate::text::extend_str(&mut v, "::__module__::class");
            string_of(&v)
        },
    };
    Edge {
        from_id,
        to_id: trait_name.to_string(),
        kind: "implements".to_string(),
        file_path: file_path.to_string(),
        line: Some(line),
    }
}

/// Whether the symbol is a parentless function named `name` starting at `line` in the file.
fn is_free_function_exec(s: &Symbol, file_path: &str, name: &str, line: u32) -> (r: bool)
    ensures
        r == is_free_function(symbol_key(*s), file_path@, name@, line),
{
    crate::text::str_eq(s.file_path.as_str(), file_path) && crate::text::str_eq(s.name.as_str(), name)
        && s.line_start == line && crate::text::str_eq(s.kind.as_str(), "function") && s.parent_id.is_none()
}

/// The other fields of the symbols are the same.
pub open spec fn same_details(a: Seq<Symbol>, b: Seq<Symbol>) -> bool {
    &&& a.len() == b.len()
    &&& forall|i: int|
        0 <= i < a.len() ==> {
            &&& (#[trigger] a[i]).name == b[i].name
            &&& a[i].file_path == b[i].file_path
            &&& a[i].line_start == b[i].line_start
            &&& a[i].line_end == b[i].line_end
            &&& a[i].signature == b[i].signature
            &&& a[i].docstring == b[i].docstring
            &&& a[i].language == b[i].language
            &&& a[i].metadata == b[i].metadata
        }
}

/// Turns the first matching parentless function of each method into a
/// method of the type with ID `target_id`.
fn attach_methods_exec(symbols: &mut Vec<Symbol>, file_path: &str, target_id: &String, methods: &Vec<(String, u32)>)
    ensures
        symbol_keys(final(symbols)@) == attach_methods(
            symbol_keys(old(symbols)@),
            file_path@,
            target_id@,
            methods@.map_values(|m: (String, u32)| (m.0@, m.1)),
        ),
        same_details(old(symbols)@, final(symbols)@),
{
    let ghost start = symbols@;
    let ghost ms = methods@.map_values(|m: (String, u32)| (m.0@, m.1));
    let mut k: usize = 0;
    assert(ms.take(0) =~= Seq::<(Seq<char>, u32)>::empty());
    while k < methods.len()
        invariant
            k <= methods.len(),
            ms == methods@.map_values(|m: (String, u32)| (m.0@, m.1)),
            symbol_keys(symbols@) == attach_methods(symbol_keys(start), file_path@, target_id@, ms.take(k as int)),
            same_details(start, symbols@),
        decreases methods.len() - k,
    {
        let (name, line) = (&methods[k].0, methods[k].1);
        let ghost keys = symbol_keys(symbols@);
        proof {
            assert(ms.take(k + 1).drop_last() =~= ms.take(k as int));
            assert(ms.take(k + 1).last() == (name@, line));
        }
        let mut j: usize = 0;
        while j < symbols.len() && !is_free_function_exec(&symbols[j], file_path, name.as_str(), line)
            invariant
                j <= symbols.len(),
                keys == symbol_keys(symbols@),
                forall|q: int| 0 <= q < j ==> !is_free_function(#[trigger] keys[q], file_path@, name@, line),
            decreases symbols.len() - j,
        {
            j = j + 1;
        }
        proof {
            lemma_first_function(keys, file_path@, name@, line, 0, j as int);
        }
        if j < symbols.len() {
            let ghost before = symbols@;
            let mut s = clone_symbol(&symbols[j]);
            s.parent_id = Some(target_id.clone());
            s.kind = "method".to_string();
            s.id = symbol_id(s.file_path.as_str(), s.name.as_str(), "method", s.line_start);
            proof {
                reveal_strlit("method");
            }
            symbols[j] = s;
            proof {
                assert(symbols@ == before.update(j as int, s));
                assert(symbol_key(s) == as_method(keys[j as int], target_id@));
                assert(symbol_keys(symbols@) =~= keys.update(j as int, as_method(keys[j as int], target_id@)));
            }
        }
        k = k + 1;
    }
    assert(ms.take(methods.len() as int) =~= ms);
}

/// Associate the methods of Rust `impl` blocks with the struct, enum or
/// interface they are for.
///
/// `impls` are the file's impl blocks in source order, each as the base name
/// of its target type and its `(method name, first line)` functions. For a
/// target defined in this file, each listed function that is still a
/// parentless `function` becomes a `method` whose parent is the target, with
/// its ID rewritten to `file::name::method::line`. Targets defined in other
/// files are skipped. Nothing else about the symbols changes.
pub fn associate_impl_methods(symbols: &mut Vec<Symbol>, impls: &Vec<(String, Vec<(String, u32)>)>, file_path: &str)
    ensures
        symbol_keys(final(symbols)@) == associate_impls(symbol_keys(old(symbols)@), file_path@, impls_view(impls@)),
        same_details(old(symbols)@, final(symbols)@),
{
    let ghost start = symbols@;
    let ghost iv = impls_view(impls@);
    let mut a: usize = 0;
    assert(iv.take(0) =~= Seq::<(Seq<char>, Seq<(Seq<char>, u32)>)>::empty());
    while a < impls.len()
        invariant
            a <= impls.len(),
            iv == impls_view(impls@),
            symbol_keys(symbols@) == associate_impls(symbol_keys(start), file_path@, iv.take(a as int)),
            same_details(start, symbols@),
        decreases impls.len() - a,
    {
        let (target_name, methods) = (&impls[a].0, &impls[a].1);
        proof {
            assert(iv.take(a + 1).drop_last() =~= iv.take(a as int));
            assert(iv.take(a + 1).last() == (target_name@, methods@.map_values(|m: (String, u32)| (m.0@, m.1))));
        }
        match type_symbol_id(symbols, file_path, target_name.as_str()) {
            Some(target_id) => {
                attach_methods_exec(symbols, file_path, &target_id, methods);
            },
            None => {},
        }
        a = a + 1;
    }
    assert(iv.take(impls.len() as int) =~= iv);
}
} // verus!

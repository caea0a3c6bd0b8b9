//! `scope sketch <symbol>` — show structural overview of a symbol.
//!
//! The graph supplies the symbol, its children and caller counts; this
//! module decides which kind of sketch a request gets and splits a class's
//! children into fields and methods.
use vstd::prelude::*;
use crate::commands::{looks_like_file_path, spec_looks_like_file_path};
use crate::engine::graph::{clone_symbol, Symbol};
use crate::text::str_eq;

verus! {

/// Arguments for the `scope sketch` command.
#[derive(Debug, Clone)]
pub struct SketchArgs {
    /// Symbol name or file path to sketch.
    pub symbol: String,
    /// Output as JSON instead of human-readable format.
    pub json: bool,
    /// Maximum number of methods to show.
    pub limit: usize,
    /// Suppress docstring display in sketch output.
    pub no_docs: bool,
    /// Treat the argument as a file path (sketch all symbols in the file).
    pub file: bool,
    /// Emit compact JSON (strips internal IDs, raw metadata, language).
    pub compact: bool,
}

/// The kinds of sketch.
#[derive(Debug, Clone, Copy, PartialEq, Eq, Structural)]
pub enum SketchKind {
    /// All symbols of a file.
    File,
    /// A class or struct: methods, fields and relationships.
    Class,
    /// A method or function: callers and callees.
    Method,
    /// An interface and its implementors.
    Interface,
    /// An enum and its variants.
    Enum,
    /// Any other symbol: its own record only.
    Generic,
}

/// The sketch a request gets before the symbol is looked up: a file sketch
/// when asked for or when the argument looks like a path.
pub open spec fn spec_wants_file_sketch(args: SketchArgs) -> bool {
    args.file || spec_looks_like_file_path(args.symbol@)
}

/// Whether a request sketches a whole file.
pub fn wants_file_sketch(args: &SketchArgs) -> (r: bool)
    ensures
        r == spec_wants_file_sketch(*args),
{
    args.file || looks_like_file_path(args.symbol.as_str())
}

/// The sketch for a symbol of a given kind.
pub open spec fn spec_sketch_kind(kind: Seq<char>) -> SketchKind {
    if kind == "class"@ || kind == "struct"@ {
        SketchKind::Class
    } else if kind == "method"@ || kind == "function"@ {
        SketchKind::Method
    } else if kind == "interface"@ {
        SketchKind::Interface
    } else if kind == "enum"@ {
        SketchKind::Enum
    } else {
        SketchKind::Generic
    }
}

/// Which symbols get which sketch: classes and structs get the class sketch
/// (methods, fields, relationships), methods and functions the method
/// sketch, interfaces the interface sketch, enums the enum sketch, and
/// every other kind the generic one; so the kinds whose methods
/// `scope summary` counts are exactly those sketched with their members
/// (class or interface sketch).
pub proof fn lemma_sketch_kind_by_symbol_kind(kind: Seq<char>)
    ensures
        spec_sketch_kind(kind) == SketchKind::Class <==> (kind == "class"@ || kind == "struct"@),
        spec_sketch_kind(kind) == SketchKind::Method <==> (kind == "method"@ || kind == "function"@),
        spec_sketch_kind(kind) == SketchKind::Interface <==> kind == "interface"@,
        spec_sketch_kind(kind) == SketchKind::Enum <==> kind == "enum"@,
        spec_sketch_kind(kind) == SketchKind::Generic <==> !(kind == "class"@ || kind == "struct"@
            || kind == "method"@ || kind == "function"@ || kind == "interface"@ || kind == "enum"@),
        crate::commands::summary::spec_counts_methods(kind) <==> (spec_sketch_kind(kind) == SketchKind::Class
            || spec_sketch_kind(kind) == SketchKind::Interface),
{
    reveal_strlit("class");
    reveal_strlit("struct");
    reveal_strlit("method");
    reveal_strlit("function");
    reveal_strlit("interface");
    reveal_strlit("enum");
    assert("class"@.len() == 5 && "struct"@.len() == 6 && "method"@.len() == 6 && "function"@.len() == 8);
    assert("interface"@.len() == 9 && "enum"@.len() == 4);
    assert("method"@[0] != "struct"@[0]);
    assert("method"@ != "struct"@);
}

/// Choose the sketch for a symbol by its kind.
pub fn sketch_kind(kind: &str) -> (r: SketchKind)
    ensures
        r == spec_sketch_kind(kind@),
{
    if str_eq(kind, "class") || str_eq(kind, "struct") {
        SketchKind::Class
    } else if str_eq(kind, "method") || str_eq(kind, "function") {
        SketchKind::Method
    } else if str_eq(kind, "interface") {
        SketchKind::Interface
    } else if str_eq(kind, "enum") {
        SketchKind::Enum
    } else {
        SketchKind::Generic
    }
}

/// The children of a symbol whose kind is `kind`, in order.
pub open spec fn children_of_kind(children: Seq<Symbol>, kind: Seq<char>) -> Seq<Symbol> {
    children.filter(|c: Symbol| c.kind@ == kind)
}

/// The children of a symbol whose kind is not `kind`, in order.
pub open spec fn children_not_of_kind(children: Seq<Symbol>, kind: Seq<char>) -> Seq<Symbol> {
    children.filter(|c: Symbol| c.kind@ != kind)
}

/// Splits children by kind: those of kind `kind` first, the others second,
/// each in order.
pub fn partition_by_kind(children: &Vec<Symbol>, kind: &str) -> (r: (Vec<Symbol>, Vec<Symbol>))
    ensures
        r.0@ == children_of_kind(children@, kind@),
        r.1@ == children_not_of_kind(children@, kind@),
{
    let ghost is_k = |c: Symbol| c.kind@ == kind@;
    let ghost not_k = |c: Symbol| c.kind@ != kind@;
    let mut yes: Vec<Symbol> = Vec::new();
    let mut no: Vec<Symbol> = Vec::new();
    let mut i: usize = 0;
    while i < children.len()
        invariant
            i <= children.len(),
            is_k == (|c: Symbol| c.kind@ == kind@),
            not_k == (|c: Symbol| c.kind@ != kind@),
            yes@ == children@.take(i as int).filter(is_k),
            no@ == children@.take(i as int).filter(not_k),
        decreases children.len() - i,
    {
        let c = &children[i];
        proof {
            assert(children@.take(i + 1) =~= children@.take(i as int).push(*c));
            crate::text::lemma_filter_push(children@.take(i as int), *c, is_k);
            crate::text::lemma_filter_push(children@.take(i as int), *c, not_k);
        }
        if str_eq(c.kind.as_str(), kind) {
            yes.push(clone_symbol(c));
        } else {
            no.push(clone_symbol(c));
        }
        i = i + 1;
    }
    assert(children@.take(children@.len() as int) =~= children@);
    (yes, no)
}

} // verus!

//! `scope setup` — one-command setup for agent integration.
//!
//! Runs `scope init` and `scope index --full`, then writes the agent instructions
//! snippet, optionally with the output of `scope map` in it (`--preload`).
//! Here: what happens to the instructions file, and the preloaded
//! architecture block.
use vstd::prelude::*;
use crate::commands::map::{CoreSymbol, DirStats};
use crate::num::{decimal, usize_text};
use crate::text::{char_views, chars_of, contains_seq, contains_str, extend_chars, extend_str, join_exec, join_seq, string_of};

verus! {

/// Arguments for the `scope setup` command.
#[derive(Debug, Clone)]
pub struct SetupArgs {
    /// Put the output of `scope map` into the agent instructions.
    pub preload: bool,
    /// Output as JSON instead of human-readable format.
    pub json: bool,
}

/// What setup does to the agent instructions file.
#[derive(Debug, Clone, Copy, PartialEq, Eq, Structural)]
pub enum InstructionsUpdate {
    /// The Code Navigation section is there already (with the preloaded
    /// architecture, or none was asked for): leave the file alone.
    Skip,
    /// The section is there but the preloaded architecture, which was asked
    /// for, is not: append the architecture block.
    AppendPreload,
    /// No section yet: append it, with the architecture block if asked for.
    AppendSection,
}

/// The heading that marks the Code Navigation section.
pub open spec fn section_marker() -> Seq<char> {
    "## Code Navigation"@
}

/// The heading of the preloaded architecture block.
pub open spec fn preload_marker() -> Seq<char> {
    "### Preloaded Architecture"@
}

/// The update for a file holding `existing`.
pub open spec fn spec_instructions_update(existing: Seq<char>, preload: bool) -> InstructionsUpdate {
    let has_section = contains_seq(existing, section_marker());
    let has_preload = contains_seq(existing, preload_marker());
    if has_section && !(preload && !has_preload) {
        InstructionsUpdate::Skip
    } else if has_section {
        InstructionsUpdate::AppendPreload
    } else {
        InstructionsUpdate::AppendSection
    }
}

/// Decide how setup updates an instructions file that holds `existing`.
pub fn instructions_update(existing: &str, preload: bool) -> (r: InstructionsUpdate)
    ensures
        r == spec_instructions_update(existing@, preload),
{
    let v = chars_of(existing);
    let has_section = contains_str(&v, "## Code Navigation");
    let has_preload = contains_str(&v, "### Preloaded Architecture");
    if has_section && !(preload && !has_preload) {
        InstructionsUpdate::Skip
    } else if has_section {
        InstructionsUpdate::AppendPreload
    } else {
        InstructionsUpdate::AppendSection
    }
}

/// One core-symbol line of the architecture block.
pub open spec fn core_line(c: CoreSymbol) -> Seq<char> {
    "  "@ + c.name@ + " ("@ + c.file_path@ + ") — "@ + decimal(c.caller_count as nat) + " callers"@
}

/// One directory line of the architecture block.
pub open spec fn dir_line(d: DirStats) -> Seq<char> {
    "  "@ + d.directory@ + " — "@ + decimal(d.file_count as nat) + " files, "@ + decimal(d.symbol_count as nat)
        + " symbols"@
}

/// The preloaded architecture block: the index's totals, its core symbols
/// and its directories, one per line.
pub open spec fn spec_preload_snippet(
    files: usize,
    symbols: usize,
    edges: usize,
    core: Seq<CoreSymbol>,
    dirs: Seq<DirStats>,
) -> Seq<char> {
    "\n### Preloaded Architecture (scope map)\n\nStats: "@ + decimal(files as nat) + " files, "@ + decimal(
        symbols as nat,
    ) + " symbols, "@ + decimal(edges as nat) + " edges\n\nCore symbols:\n"@ + join_seq(
        core.map_values(|c: CoreSymbol| core_line(c)),
        "\n"@,
    ) + "\n\nArchitecture:\n"@ + join_seq(dirs.map_values(|d: DirStats| dir_line(d)), "\n"@) + "\n"@
}

/// Write the preloaded architecture block from the index's totals, its
/// most important symbols and its directory statistics.
pub fn preload_snippet(
    files: usize,
    symbols: usize,
    edges: usize,
    core: &Vec<CoreSymbol>,
    dirs: &Vec<DirStats>,
) -> (r: String)
    ensures
        r@ == spec_preload_snippet(files, symbols, edges, core@, dirs@),
{
    let mut core_lines: Vec<Vec<char>> = Vec::new();
    let mut i: usize = 0;
    while i < core.len()
        invariant
            i <= core.len(),
            char_views(core_lines@) == core@.take(i as int).map_values(|c: CoreSymbol| core_line(c)),
        decreases core.len() - i,
    {
        let c = &core[i];
        let mut l = chars_of("  ");
        extend_str(&mut l, c.name.as_str());
        extend_str(&mut l, " (");
        extend_str(&mut l, c.file_path.as_str());
        extend_str(&mut l, ") — ");
        let n = usize_text(c.caller_count);
        extend_chars(&mut l, &n);
        extend_str(&mut l, " callers");
        let ghost pre = char_views(core_lines@);
        core_lines.push(l);
        proof {
            assert(char_views(core_lines@) =~= pre.push(l@));
            assert(core@.take(i + 1).map_values(|c: CoreSymbol| core_line(c)) =~= core@.take(i as int).map_values(
                |c: CoreSymbol| core_line(c),
            ).push(core_line(core@[i as int])));
        }
        i = i + 1;
    }
    assert(core@.take(core@.len() as int) =~= core@);
    let mut dir_lines: Vec<Vec<char>> = Vec::new();
    let mut j: usize = 0;
    while j < dirs.len()
        invariant
            j <= dirs.len(),
            char_views(dir_lines@) == dirs@.take(j as int).map_values(|d: DirStats| dir_line(d)),
        decreases dirs.len() - j,
    {
        let d = &dirs[j];
        let mut l = chars_of("  ");
        extend_str(&mut l, d.directory.as_str());
        extend_str(&mut l, " — ");
        let f = usize_text(d.file_count);
        extend_chars(&mut l, &f);
        extend_str(&mut l, " files, ");
        let s = usize_text(d.symbol_count);
        extend_chars(&mut l, &s);
        extend_str(&mut l, " symbols");
        let ghost pre = char_views(dir_lines@);
        dir_lines.push(l);
        proof {
            assert(char_views(dir_lines@) =~= pre.push(l@));
            assert(dirs@.take(j + 1).map_values(|d: DirStats| dir_line(d)) =~= dirs@.take(j as int).map_values(
                |d: DirStats| dir_line(d),
            ).push(dir_line(dirs@[j as int])));
        }
        j = j + 1;
    }
    assert(dirs@.take(dirs@.len() as int) =~= dirs@);
    let mut out = chars_of("\n### Preloaded Architecture (scope map)\n\nStats: ");
    let t = usize_text(files);
    extend_chars(&mut out, &t);
    extend_str(&mut out, " files, ");
    let t = usize_text(symbols);
    extend_chars(&mut out, &t);
    extend_str(&mut out, " symbols, ");
    let t = usize_text(edges);
    extend_chars(&mut out, &t);
    extend_str(&mut out, " edges\n\nCore symbols:\n");
    let cj = join_exec(&core_lines, "\n");
    extend_chars(&mut out, &cj);
    extend_str(&mut out, "\n\nArchitecture:\n");
    let dj = join_exec(&dir_lines, "\n");
    extend_chars(&mut out, &dj);
    extend_str(&mut out, "\n");
    string_of(&out)
}

} // verus!

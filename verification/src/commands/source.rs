//! `scope source <symbol>` — print a symbol's source text.
//!
//! The file is read outside this crate; here its text is cut down to the
//! symbol's line range.
use vstd::prelude::*;
use crate::text::{char_views, chars_of, lines_exec, lines_seq, strings_of, views};

verus! {

/// Arguments for the `scope source` command.
#[derive(Debug, Clone)]
pub struct SourceArgs {
    /// Symbol name to show source for.
    pub symbol: String,
    /// Output as JSON instead of human-readable format.
    pub json: bool,
}

/// The lines of `content` that a symbol spanning `line_start..=line_end`
/// (1-based) covers: the range is clipped to the end of the file, and a
/// start past the end of the file or past the end of the range leaves
/// nothing to show.
pub open spec fn spec_source_lines(content: Seq<char>, line_start: u32, line_end: u32) -> Option<Seq<Seq<char>>> {
    let lines = lines_seq(content);
    let start: int = if line_start == 0 { 0 } else { line_start - 1 };
    let end: int = if line_end < lines.len() { line_end as int } else { lines.len() as int };
    if start >= lines.len() || start > end {
        None
    } else {
        Some(lines.subrange(start, end))
    }
}

/// Cut a file's text down to a symbol's lines; `None` when the symbol's
/// line range is out of bounds for the file.
pub fn source_lines(content: &str, line_start: u32, line_end: u32) -> (r: Option<Vec<String>>)
    ensures
        match r {
            Some(v) => spec_source_lines(content@, line_start, line_end) == Some(views(v@)),
            None => spec_source_lines(content@, line_start, line_end) is None,
        },
{
    let c = chars_of(content);
    let lines = lines_exec(&c);
    let ghost lv = char_views(lines@);
    let n = lines.len();
    let start: usize = if line_start == 0 { 0 } else { (line_start - 1) as usize };
    let end: usize = if (line_end as usize) < n { line_end as usize } else { n };
    if start >= n || start > end {
        return None;
    }
    let mut picked: Vec<Vec<char>> = Vec::new();
    let mut i: usize = start;
    while i < end
        invariant
            start <= i <= end <= n,
            n == lines.len(),
            lv == char_views(lines@),
            char_views(picked@) == lv.subrange(start as int, i as int),
        decreases end - i,
    {
        let ghost before = char_views(picked@);
        picked.push(crate::text::copy_chars(&lines[i]));
        assert(char_views(picked@) =~= before.push(lv[i as int]));
        assert(lv.subrange(start as int, i + 1) =~= lv.subrange(start as int, i as int).push(lv[i as int]));
        i = i + 1;
    }
    let out = strings_of(&picked);
    Some(out)
}

} // verus!

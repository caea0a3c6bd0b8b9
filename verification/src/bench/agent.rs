//! Reading a coding agent's run: its tool calls and token usage.
//!
//! The agent's `stream-json` output is read line by line: each non-blank
//! line is parsed as JSON (by `serde_json`, see [`crate::bench::json`]) and
//! read into a [`StreamEvent`], holding the fields the runner looks at.
//! This module finds the tool calls in an event, summarises their
//! arguments, classifies them, and adds up a whole stream into an
//! [`NdjsonParseResult`].
use vstd::prelude::*;
use crate::bench::json::{
    get, get_text, get_u64, json_array, json_get, json_of_line, parse_json_line, text_field, u64_field, Json,
    JsonValue,
};
use crate::engine::searcher::{utf8_len};
use crate::text::{
    char_views, chars_of, extend_str, find_exec, find_seq, lemma_filter_push, lines_exec, lines_seq, slice_chars, str_eq,
    string_of, trim_chars, trim_seq, views, words, words_exec,
};

verus! {

/// A single tool call made by the agent during a benchmark run.
#[derive(Debug, Clone)]
pub struct AgentAction {
    /// Sequential position of this action in the run (1-based).
    pub sequence: u32,
    /// The tool name (e.g. "Read", "Edit", "Bash").
    pub tool_name: String,
    /// Short summary of the tool arguments.
    pub arguments_summary: String,
    /// Whether this is a navigation/exploration action (Read, Grep, Glob, Bash).
    pub is_navigation: bool,
    /// Whether this is a Bash call that invokes a scope command.
    pub is_scope_command: bool,
    /// Whether this is a file-modifying action (Edit, Write).
    pub is_edit: bool,
}

/// Captured data from a single agent run against a task.
#[derive(Debug, Clone)]
pub struct AgentRun {
    /// The task ID this run was for.
    pub task_id: String,
    /// Whether Scope was enabled for this run.
    pub scope_enabled: bool,
    /// Total input tokens consumed by the agent.
    pub input_tokens: u64,
    /// Total output tokens produced by the agent.
    pub output_tokens: u64,
    /// Cache creation input tokens (tokens computed fresh for caching).
    pub cache_creation_input_tokens: u64,
    /// Cache read input tokens (tokens read from prompt cache).
    pub cache_read_input_tokens: u64,
    /// Number of full source file reads during the task.
    pub file_reads: u32,
    /// Number of file edit/write operations.
    pub file_edits: u32,
    /// Number of Grep tool calls.
    pub grep_calls: u32,
    /// Number of Glob tool calls.
    pub glob_calls: u32,
    /// Number of Bash tool calls.
    pub bash_calls: u32,
    /// Which scope commands the agent called (e.g. ["scope sketch", "scope refs"]).
    pub scope_commands_called: Vec<String>,
    /// Wall clock duration of the agent run in milliseconds.
    pub duration_ms: u64,
    /// Exit code of the agent process.
    pub exit_code: i32,
    /// Ordered list of all tool actions taken by the agent.
    pub actions: Vec<AgentAction>,
}

/// Parsed data from a saved NDJSON stream.
#[derive(Debug, Clone)]
pub struct NdjsonParseResult {
    /// Ordered list of agent tool actions.
    pub actions: Vec<AgentAction>,
    /// Total input tokens from usage events.
    pub input_tokens: u64,
    /// Total output tokens from usage events.
    pub output_tokens: u64,
    /// Cache creation input tokens.
    pub cache_creation_input_tokens: u64,
    /// Cache read input tokens.
    pub cache_read_input_tokens: u64,
    /// Scope commands detected in Bash calls.
    pub scope_commands_called: Vec<String>,
    /// Count of file Read operations.
    pub file_reads: u32,
}

/// The `input` object of a tool call: the fields the summaries use, and the
/// object's compact JSON text.
#[derive(Debug, Clone)]
pub struct ToolInput {
    /// `file_path`, when it is a string.
    pub file_path: Option<String>,
    /// `pattern`, when it is a string.
    pub pattern: Option<String>,
    /// `command`, when it is a string.
    pub command: Option<String>,
    /// The whole object written as compact JSON.
    pub rendered: String,
}

/// A content item of an event (a possible `tool_use` block).
#[derive(Debug, Clone)]
pub struct ContentItem {
    /// The item's `type`, when it is a string.
    pub item_type: Option<String>,
    /// The item's `name`, when it is a string.
    pub name: Option<String>,
    /// The item's `input`, when present.
    pub input: Option<ToolInput>,
}

/// Token counts of a `usage` object (a count that is absent or not an
/// unsigned integer reads as `None`).
#[derive(Debug, Clone, Copy)]
pub struct Usage {
    /// `input_tokens`.
    pub input_tokens: Option<u64>,
    /// `output_tokens`.
    pub output_tokens: Option<u64>,
    /// `cache_creation_input_tokens`.
    pub cache_creation_input_tokens: Option<u64>,
    /// `cache_read_input_tokens`.
    pub cache_read_input_tokens: Option<u64>,
}

/// One JSON event of the stream, as far as the runner reads it.
#[derive(Debug, Clone)]
pub struct StreamEvent {
    /// The event's `type`, when it is a string.
    pub event_type: Option<String>,
    /// The event's top-level `usage`, when present.
    pub usage: Option<Usage>,
    /// `result.usage`, when `result` is present and has a `usage`.
    pub result_usage: Option<Usage>,
    /// `message.content`, when `message` is present and its `content` is an array.
    pub message_content: Option<Vec<ContentItem>>,
    /// `content_block`, when present.
    pub content_block: Option<ContentItem>,
}

/// A navigation/exploration tool.
pub open spec fn spec_is_navigation_tool(name: Seq<char>) -> bool {
    name == "Read"@ || name == "Grep"@ || name == "Glob"@ || name == "Bash"@
}

/// A file-editing tool.
pub open spec fn spec_is_edit_tool(name: Seq<char>) -> bool {
    name == "Edit"@ || name == "Write"@
}

/// Check if a tool name is a navigation/exploration tool.
pub fn is_navigation_tool(name: &str) -> (r: bool)
    ensures
        r == spec_is_navigation_tool(name@),
{
    str_eq(name, "Read") || str_eq(name, "Grep") || str_eq(name, "Glob") || str_eq(name, "Bash")
}

/// Check if a tool name is a file-editing tool.
pub fn is_edit_tool(name: &str) -> (r: bool)
    ensures
        r == spec_is_edit_tool(name@),
{
    str_eq(name, "Edit") || str_eq(name, "Write")
}

/// The scope subcommand a Bash command runs: the first word after the first
/// `scope ` in it, unless that word is a flag.
pub open spec fn spec_extract_scope_command(cmd: Seq<char>) -> Option<Seq<char>> {
    match find_seq(cmd, "scope "@) {
        None => None,
        Some(idx) => {
            let ws = words(cmd.skip(idx + 6));
            if ws.len() == 0 {
                None
            } else if ws[0].len() > 0 && ws[0][0] == '-' {
                None
            } else {
                Some("scope "@ + ws[0])
            }
        },
    }
}

/// Extract the scope subcommand from a Bash command string.
///
/// Looks for "scope " anywhere in the command and extracts the subcommand.
/// For example:
/// - `"scope sketch PaymentService"` -> `Some("scope sketch")`
/// - `"cd foo && scope refs bar"` -> `Some("scope refs")`
/// - `"echo hello"` -> `None`
pub fn extract_scope_command(bash_command: &str) -> (r: Option<String>)
    ensures
        match r {
            Some(s) => spec_extract_scope_command(bash_command@) == Some(s@),
            None => spec_extract_scope_command(bash_command@) is None,
        },
{
    proof {
        reveal_strlit("scope ");
    }
    let cmd = chars_of(bash_command);
    let pat = chars_of("scope ");
    let idx = match find_exec(&cmd, &pat) {
        Some(i) => i,
        None => return None,
    };
    proof {
        crate::text::lemma_find_from(cmd@, pat@, 0);
    }
    let n = cmd.len();
    let after = slice_chars(&cmd, idx + 6, n);
    assert(after@ =~= cmd@.skip(idx + 6));
    let ws = words_exec(&after);
    if ws.len() == 0 {
        return None;
    }
    let first = &ws[0];
    assert(char_views(ws@)[0] == first@);
    if first.len() > 0 && first[0] == '-' {
        return None;
    }
    let mut out = chars_of("scope ");
    crate::text::extend_chars(&mut out, first);
    Some(string_of(&out))
}

/// `s` has a character boundary `n` bytes in: some prefix of it is exactly
/// `n` bytes long in UTF-8.
pub open spec fn has_byte_boundary(s: Seq<char>, n: int) -> bool {
    exists|k: int| 0 <= k <= s.len() && #[trigger] utf8_len(s.take(k)) == n
}

/// The number of characters in the first `n` bytes of `s`.
pub open spec fn chars_in_bytes(s: Seq<char>, n: int) -> int {
    choose|k: int| 0 <= k <= s.len() && #[trigger] utf8_len(s.take(k)) == n
}

/// The first 100 bytes of a long summary followed by `...`; a short one
/// (100 bytes or fewer) as it is.
pub open spec fn cut_summary(s: Seq<char>) -> Seq<char> {
    if utf8_len(s) > 100 {
        s.take(chars_in_bytes(s, 100)) + "..."@
    } else {
        s
    }
}

/// A text can be cut as summaries are: it is short, or it has a character
/// boundary at byte 100 (slicing there would otherwise panic).
pub open spec fn cuttable(s: Seq<char>) -> bool {
    utf8_len(s) <= 100 || has_byte_boundary(s, 100)
}

/// Byte lengths of prefixes grow with the prefix.
proof fn lemma_utf8_prefix_increasing(s: Seq<char>, a: int, b: int)
    requires
        0 <= a < b <= s.len(),
    ensures
        utf8_len(s.take(a)) < utf8_len(s.take(b)),
    decreases b - a,
{
    assert(s.take(b).drop_last() =~= s.take(b - 1));
    if a < b - 1 {
        lemma_utf8_prefix_increasing(s, a, b - 1);
    }
}

/// Cuts a text as summaries are cut.
fn cut_text(s: &str) -> (r: String)
    requires
        cuttable(s@),
    ensures
        r@ == cut_summary(s@),
{
    let v = chars_of(s);
    let mut bytes: usize = 0;
    let mut k: usize = 0;
    while k < v.len() && bytes < 100
        invariant
            k <= v.len(),
            bytes == utf8_len(v@.take(k as int)),
            bytes <= 103,
            k > 0 ==> utf8_len(v@.take(k - 1)) < 100,
        decreases v.len() - k,
    {
        let c = v[k];
        let cl: usize = if (c as u32) < 0x80 {
            1
        } else if (c as u32) < 0x800 {
            2
        } else if (c as u32) < 0x10000 {
            3
        } else {
            4
        };
        assert(v@.take(k + 1).drop_last() =~= v@.take(k as int));
        bytes = bytes + cl;
        k = k + 1;
    }
    if k == v.len() && bytes <= 100 {
        assert(v@.take(k as int) =~= v@);
        return string_of(&v);
    }
    proof {
        assert(v@.take(v@.len() as int) =~= v@);
        if k < v.len() {
            lemma_utf8_prefix_increasing(v@, k as int, v@.len() as int);
        }
        assert(utf8_len(v@) > 100);
        let w = choose|j: int| 0 <= j <= v@.len() && #[trigger] utf8_len(v@.take(j)) == 100;
        assert(0 <= w <= v@.len() && utf8_len(v@.take(w)) == 100);
        if w < k - 1 {
            lemma_utf8_prefix_increasing(v@, w, k - 1);
        }
        if w > k {
            lemma_utf8_prefix_increasing(v@, k as int, w);
        }
        assert(w == k);
        assert(chars_in_bytes(v@, 100) == k);
    }
    let mut out = slice_chars(&v, 0, k);
    extend_str(&mut out, "...");
    string_of(&out)
}

/// The summary of a tool call's arguments: the file for Read, Edit and
/// Write, the pattern for Grep and Glob, the (cut) command for Bash, and the
/// (cut) JSON of the input for any other tool; empty without an input.
pub open spec fn spec_argument_summary(tool: Seq<char>, input: Option<ToolInput>) -> Seq<char> {
    match input {
        None => Seq::empty(),
        Some(i) => if tool == "Read"@ || tool == "Edit"@ || tool == "Write"@ {
            match i.file_path {
                Some(p) => p@,
                None => Seq::empty(),
            }
        } else if tool == "Grep"@ || tool == "Glob"@ {
            match i.pattern {
                Some(p) => p@,
                None => Seq::empty(),
            }
        } else if tool == "Bash"@ {
            match i.command {
                Some(c) => cut_summary(c@),
                None => Seq::empty(),
            }
        } else {
            cut_summary(i.rendered@)
        },
    }
}

/// The inputs on which a summary can be made (see [`cuttable`]).
pub open spec fn summary_ok(tool: Seq<char>, input: Option<ToolInput>) -> bool {
    match input {
        None => true,
        Some(i) => if tool == "Read"@ || tool == "Edit"@ || tool == "Write"@ || tool == "Grep"@
            || tool == "Glob"@ {
            true
        } else if tool == "Bash"@ {
            match i.command {
                Some(c) => cuttable(c@),
                None => true,
            }
        } else {
            cuttable(i.rendered@)
        },
    }
}

/// Extract a short human-readable summary of a tool call's arguments.
pub fn extract_argument_summary(tool_name: &str, input: &Option<ToolInput>) -> (r: String)
    requires
        summary_ok(tool_name@, *input),
    ensures
        r@ == spec_argument_summary(tool_name@, *input),
{
    let i = match input {
        Some(i) => i,
        None => return String::new(),
    };
    if str_eq(tool_name, "Read") || str_eq(tool_name, "Edit") || str_eq(tool_name, "Write") {
        match &i.file_path {
            Some(p) => p.clone(),
            None => String::new(),
        }
    } else if str_eq(tool_name, "Grep") || str_eq(tool_name, "Glob") {
        match &i.pattern {
            Some(p) => p.clone(),
            None => String::new(),
        }
    } else if str_eq(tool_name, "Bash") {
        match &i.command {
            Some(c) => cut_text(c.as_str()),
            None => String::new(),
        }
    } else {
        cut_text(i.rendered.as_str())
    }
}

/// The view of an action: sequence, tool, summary, navigation, scope, edit.
pub open spec fn action_view(a: AgentAction) -> (u32, Seq<char>, Seq<char>, bool, bool, bool) {
    (a.sequence, a.tool_name@, a.arguments_summary@, a.is_navigation, a.is_scope_command, a.is_edit)
}

/// What a stream adds up to so far.
pub struct Tally {
    /// The actions, in order.
    pub actions: Seq<(u32, Seq<char>, Seq<char>, bool, bool, bool)>,
    /// Input tokens.
    pub input: int,
    /// Output tokens.
    pub output: int,
    /// Cache creation input tokens.
    pub cache_creation: int,
    /// Cache read input tokens.
    pub cache_read: int,
    /// Scope commands, each once, in order of first use.
    pub scope_commands: Seq<Seq<char>>,
    /// Read calls.
    pub reads: int,
}

/// The tally of a parse result.
pub open spec fn tally_of(r: NdjsonParseResult) -> Tally {
    Tally {
        actions: r.actions@.map_values(|a: AgentAction| action_view(a)),
        input: r.input_tokens as int,
        output: r.output_tokens as int,
        cache_creation: r.cache_creation_input_tokens as int,
        cache_read: r.cache_read_input_tokens as int,
        scope_commands: views(r.scope_commands_called@),
        reads: r.file_reads as int,
    }
}

/// Nothing counted yet.
pub open spec fn empty_tally() -> Tally {
    Tally {
        actions: Seq::empty(),
        input: 0,
        output: 0,
        cache_creation: 0,
        cache_read: 0,
        scope_commands: Seq::empty(),
        reads: 0,
    }
}

/// A count that is absent reads as 0.
pub open spec fn count_or_zero(c: Option<u64>) -> int {
    match c {
        Some(n) => n as int,
        None => 0,
    }
}

/// Adds a usage object's counts.
pub open spec fn add_usage(t: Tally, u: Option<Usage>) -> Tally {
    match u {
        None => t,
        Some(u) => Tally {
            input: t.input + count_or_zero(u.input_tokens),
            output: t.output + count_or_zero(u.output_tokens),
            cache_creation: t.cache_creation + count_or_zero(u.cache_creation_input_tokens),
            cache_read: t.cache_read + count_or_zero(u.cache_read_input_tokens),
            ..t
        },
    }
}

/// A content item is a `tool_use` block.
pub open spec fn is_tool_use(i: ContentItem) -> bool {
    i.item_type is Some && i.item_type.unwrap()@ == "tool_use"@
}

/// The tool calls of an event: the `tool_use` items of `message.content`,
/// then a `tool_use` `content_block` of a `content_block_start` event.
pub open spec fn tool_items(e: StreamEvent) -> Seq<ContentItem> {
    let from_message = match e.message_content {
        Some(c) => c@.filter(|i: ContentItem| is_tool_use(i)),
        None => Seq::empty(),
    };
    let from_block = match e.content_block {
        Some(b) => if e.event_type is Some && e.event_type.unwrap()@ == "content_block_start"@
            && is_tool_use(b) {
            seq![b]
        } else {
            Seq::empty()
        },
        None => Seq::empty(),
    };
    from_message + from_block
}

/// The scope command a tool call runs, if it is a Bash call of one.
pub open spec fn item_scope_command(name: Seq<char>, input: Option<ToolInput>) -> Option<Seq<char>> {
    if name == "Bash"@ {
        match input {
            Some(i) => match i.command {
                Some(c) => spec_extract_scope_command(c@),
                None => None,
            },
            None => None,
        }
    } else {
        None
    }
}

/// Counts one tool call (a call without a name is not counted).
pub open spec fn add_item(t: Tally, i: ContentItem) -> Tally {
    match i.name {
        None => t,
        Some(n) => {
            let name = n@;
            let sc = item_scope_command(name, i.input);
            let action = (
                (t.actions.len() + 1) as u32,
                name,
                spec_argument_summary(name, i.input),
                spec_is_navigation_tool(name),
                sc is Some,
                spec_is_edit_tool(name),
            );
            Tally {
                actions: t.actions.push(action),
                scope_commands: match sc {
                    Some(c) => if t.scope_commands.contains(c) {
                        t.scope_commands
                    } else {
                        t.scope_commands.push(c)
                    },
                    None => t.scope_commands,
                },
                reads: if name == "Read"@ { t.reads + 1 } else { t.reads },
                ..t
            }
        },
    }
}

/// Counts a run of tool calls in order.
pub open spec fn add_items(t: Tally, items: Seq<ContentItem>) -> Tally
    decreases items.len(),
{
    if items.len() == 0 {
        t
    } else {
        add_item(add_items(t, items.drop_last()), items.last())
    }
}

/// The usage that a `result` event carries in `result.usage`.
pub open spec fn result_usage(e: StreamEvent) -> Option<Usage> {
    if e.event_type is Some && e.event_type.unwrap()@ == "result"@ {
        e.result_usage
    } else {
        None
    }
}

/// Counts one event: its usage, a result's usage, then its tool calls.
pub open spec fn add_event(t: Tally, e: StreamEvent) -> Tally {
    add_items(add_usage(add_usage(t, e.usage), result_usage(e)), tool_items(e))
}

/// What a stream of events adds up to (`None` marks a line that was not a
/// JSON event; it counts nothing).
pub open spec fn tally_stream(events: Seq<Option<StreamEvent>>) -> Tally
    decreases events.len(),
{
    if events.len() == 0 {
        empty_tally()
    } else {
        let t = tally_stream(events.drop_last());
        match events.last() {
            Some(e) => add_event(t, e),
            None => t,
        }
    }
}

/// No count of `a` exceeds the count in `b`.
pub open spec fn tally_le(a: Tally, b: Tally) -> bool {
    &&& a.input <= b.input
    &&& a.output <= b.output
    &&& a.cache_creation <= b.cache_creation
    &&& a.cache_read <= b.cache_read
    &&& a.reads <= b.reads
    &&& a.actions.len() <= b.actions.len()
}

/// Every count fits the field that holds it.
pub open spec fn tally_fits(t: Tally) -> bool {
    &&& t.input <= u64::MAX
    &&& t.output <= u64::MAX
    &&& t.cache_creation <= u64::MAX
    &&& t.cache_read <= u64::MAX
    &&& t.reads <= u32::MAX
    &&& t.actions.len() <= u32::MAX
}

/// The summaries of every tool call of the stream can be made.
pub open spec fn stream_summaries_ok(events: Seq<Option<StreamEvent>>) -> bool {
    forall|k: int, j: int|
        0 <= k < events.len() && events[k] is Some && 0 <= j < tool_items(events[k].unwrap()).len()
            && #[trigger] tool_items(events[k].unwrap())[j].name is Some ==> summary_ok(
            tool_items(events[k].unwrap())[j].name.unwrap()@,
            tool_items(events[k].unwrap())[j].input,
        )
}

/// Counting only adds.
proof fn lemma_add_items_grows(t: Tally, items: Seq<ContentItem>)
    ensures
        tally_le(t, add_items(t, items)),
    decreases items.len(),
{
    if items.len() > 0 {
        lemma_add_items_grows(t, items.drop_last());
    }
}

/// A stream's prefix counts no more than the whole stream.
proof fn lemma_tally_prefix(events: Seq<Option<StreamEvent>>, k: int)
    requires
        0 <= k <= events.len(),
    ensures
        tally_le(tally_stream(events.take(k)), tally_stream(events)),
    decreases events.len(),
{
    if k == events.len() {
        assert(events.take(k) =~= events);
    } else {
        lemma_tally_prefix(events.drop_last(), k);
        assert(events.drop_last().take(k) =~= events.take(k));
        let t = tally_stream(events.drop_last());
        match events.last() {
            Some(e) => {
                let u = add_usage(add_usage(t, e.usage), result_usage(e));
                lemma_add_items_grows(u, tool_items(e));
            },
            None => {},
        }
    }
}

/// Extract the tool calls of a stream-json event: the `tool_use` items of
/// an assistant message's content, then a `tool_use` block of a
/// `content_block_start` event.
pub fn extract_tool_use_items(e: &StreamEvent) -> (r: Vec<ContentItem>)
    ensures
        r@ == tool_items(*e),
{
    let ghost f = |i: ContentItem| is_tool_use(i);
    let mut out: Vec<ContentItem> = Vec::new();
    match &e.message_content {
        Some(content) => {
            let mut i: usize = 0;
            while i < content.len()
                invariant
                    i <= content.len(),
                    f == (|i: ContentItem| is_tool_use(i)),
                    out@ == content@.take(i as int).filter(f),
                decreases content.len() - i,
            {
                let item = &content[i];
                proof {
                    assert(content@.take(i + 1) =~= content@.take(i as int).push(*item));
                    crate::text::lemma_filter_push(content@.take(i as int), *item, f);
                }
                let tool = match &item.item_type {
                    Some(t) => str_eq(t.as_str(), "tool_use"),
                    None => false,
                };
                if tool {
                    out.push(clone_item(item));
                }
                i = i + 1;
            }
            assert(content@.take(content@.len() as int) =~= content@);
        },
        None => {},
    }
    let ghost first = out@;
    match &e.content_block {
        Some(b) => {
            let start = match &e.event_type {
                Some(t) => str_eq(t.as_str(), "content_block_start"),
                None => false,
            };
            let tool = match &b.item_type {
                Some(t) => str_eq(t.as_str(), "tool_use"),
                None => false,
            };
            if start && tool {
                out.push(clone_item(b));
                assert(out@ =~= first + seq![*b]);
            } else {
                assert(out@ =~= first + Seq::<ContentItem>::empty());
            }
        },
        None => {
            assert(out@ =~= first + Seq::<ContentItem>::empty());
        },
    }
    out
}

/// A copy of a tool input.
fn clone_input(i: &ToolInput) -> (r: ToolInput)
    ensures
        r == *i,
{
    ToolInput {
        file_path: crate::text::clone_opt_string(&i.file_path),
        pattern: crate::text::clone_opt_string(&i.pattern),
        command: crate::text::clone_opt_string(&i.command),
        rendered: i.rendered.clone(),
    }
}

/// A copy of a content item.
fn clone_item(i: &ContentItem) -> (r: ContentItem)
    ensures
        r == *i,
{
    ContentItem {
        item_type: crate::text::clone_opt_string(&i.item_type),
        name: crate::text::clone_opt_string(&i.name),
        input: match &i.input {
            Some(x) => Some(clone_input(x)),
            None => None,
        },
    }
}

/// Adds a usage object's counts to the result.
fn add_usage_exec(acc: &mut NdjsonParseResult, u: &Option<Usage>, limit: Ghost<Tally>)
    requires
        tally_le(add_usage(tally_of(*old(acc)), *u), limit@),
        tally_fits(limit@),
    ensures
        tally_of(*final(acc)) == add_usage(tally_of(*old(acc)), *u),
{
    match u {
        Some(u) => {
            acc.input_tokens = acc.input_tokens + match u.input_tokens {
                Some(n) => n,
                None => 0,
            };
            acc.output_tokens = acc.output_tokens + match u.output_tokens {
                Some(n) => n,
                None => 0,
            };
            acc.cache_creation_input_tokens = acc.cache_creation_input_tokens
                + match u.cache_creation_input_tokens {
                Some(n) => n,
                None => 0,
            };
            acc.cache_read_input_tokens = acc.cache_read_input_tokens + match u.cache_read_input_tokens {
                Some(n) => n,
                None => 0,
            };
        },
        None => {},
    }
}

/// Counts one tool call into the result.
fn add_item_exec(acc: &mut NdjsonParseResult, item: &ContentItem, limit: Ghost<Tally>)
    requires
        tally_le(add_item(tally_of(*old(acc)), *item), limit@),
        tally_fits(limit@),
        item.name is Some ==> summary_ok(item.name.unwrap()@, item.input),
    ensures
        tally_of(*final(acc)) == add_item(tally_of(*old(acc)), *item),
{
    let name = match &item.name {
        Some(n) => n,
        None => return,
    };
    let ghost t = tally_of(*acc);
    proof {
        reveal_strlit("Read");
        reveal_strlit("Bash");
    }
    let summary = extract_argument_summary(name.as_str(), &item.input);
    let is_navigation = is_navigation_tool(name.as_str());
    let is_edit = is_edit_tool(name.as_str());
    let mut is_scope = false;
    if str_eq(name.as_str(), "Read") {
        acc.file_reads = acc.file_reads + 1;
    } else if str_eq(name.as_str(), "Bash") {
        match &item.input {
            Some(i) => match &i.command {
                Some(c) => match extract_scope_command(c.as_str()) {
                    Some(sc) => {
                        is_scope = true;
                        let mut seen = false;
                        let mut k: usize = 0;
                        while k < acc.scope_commands_called.len()
                            invariant
                                k <= acc.scope_commands_called.len(),
                                !seen ==> forall|q: int|
                                    0 <= q < k ==> views(acc.scope_commands_called@)[q] != sc@,
                                seen ==> views(acc.scope_commands_called@).contains(sc@),
                            decreases acc.scope_commands_called.len() - k,
                        {
                            if acc.scope_commands_called[k] == sc {
                                assert(views(acc.scope_commands_called@)[k as int] == sc@);
                                seen = true;
                            }
                            k = k + 1;
                        }
                        if !seen {
                            let ghost before = views(acc.scope_commands_called@);
                            acc.scope_commands_called.push(sc);
                            assert(views(acc.scope_commands_called@) =~= before.push(
                                spec_extract_scope_command(c@).unwrap(),
                            ));
                        }
                    },
                    None => {},
                },
                None => {},
            },
            None => {},
        }
    }
    proof {
        let sc = item_scope_command(name@, item.input);
        if name@ == "Read"@ {
            assert("Read"@[0] == 'R' && "Bash"@[0] == 'B');
            assert(sc is None);
            assert(!is_scope);
        } else if name@ == "Bash"@ {
            assert(is_scope == (sc is Some));
        } else {
            assert(sc is None);
            assert(!is_scope);
        }
        assert(is_scope == (sc is Some));
        let t2 = add_item(t, *item);
        assert(views(acc.scope_commands_called@) == t2.scope_commands);
        assert(acc.file_reads == t2.reads);
    }
    let ghost before = acc.actions@;
    let sequence = (acc.actions.len() + 1) as u32;
    acc.actions.push(
        AgentAction {
            sequence,
            tool_name: name.clone(),
            arguments_summary: summary,
            is_navigation,
            is_scope_command: is_scope,
            is_edit,
        },
    );
    proof {
        assert(acc.actions@.map_values(|a: AgentAction| action_view(a)) =~= before.map_values(
            |a: AgentAction| action_view(a),
        ).push(action_view(acc.actions@.last())));
    }
}

/// Add up a stream of events into the runner's parse result.
///
/// Each event contributes its usage counts (and a `result` event its
/// `result.usage`), then one action per named tool call, numbered from 1;
/// Read calls are counted, and each scope command run through Bash is
/// listed once, in order of first use.
pub fn accumulate_events(events: &Vec<Option<StreamEvent>>) -> (r: NdjsonParseResult)
    requires
        tally_fits(tally_stream(events@)),
        stream_summaries_ok(events@),
    ensures
        tally_of(r) == tally_stream(events@),
{
    let ghost whole = tally_stream(events@);
    let mut acc = NdjsonParseResult {
        actions: Vec::new(),
        input_tokens: 0,
        output_tokens: 0,
        cache_creation_input_tokens: 0,
        cache_read_input_tokens: 0,
        scope_commands_called: Vec::new(),
        file_reads: 0,
    };
    assert(tally_of(acc) =~= empty_tally()) by {
        assert(acc.actions@.map_values(|a: AgentAction| action_view(a)) =~= Seq::empty());
        assert(views(acc.scope_commands_called@) =~= Seq::empty());
    }
    let mut k: usize = 0;
    while k < events.len()
        invariant
            k <= events.len(),
            whole == tally_stream(events@),
            tally_fits(whole),
            stream_summaries_ok(events@),
            tally_of(acc) == tally_stream(events@.take(k as int)),
        decreases events.len() - k,
    {
        proof {
            assert(events@.take(k + 1).drop_last() =~= events@.take(k as int));
            lemma_tally_prefix(events@, k + 1);
        }
        match &events[k] {
            Some(e) => {
                let ghost t0 = tally_of(acc);
                let ghost t_end = add_event(t0, *e);
                let ghost u1 = add_usage(t0, e.usage);
                let ghost u2 = add_usage(u1, result_usage(*e));
                proof {
                    lemma_add_items_grows(u2, tool_items(*e));
                }
                add_usage_exec(&mut acc, &e.usage, Ghost(whole));
                let is_result = match &e.event_type {
                    Some(t) => str_eq(t.as_str(), "result"),
                    None => false,
                };
                if is_result {
                    add_usage_exec(&mut acc, &e.result_usage, Ghost(whole));
                } else {
                    add_usage_exec(&mut acc, &None, Ghost(whole));
                }
                assert(tally_of(acc) == u2);
                let items = extract_tool_use_items(e);
                let mut j: usize = 0;
                while j < items.len()
                    invariant
                        j <= items.len(),
                        items@ == tool_items(*e),
                        tally_le(add_items(u2, items@), whole),
                        tally_fits(whole),
                        stream_summaries_ok(events@),
                        0 <= k < events@.len(),
                        events@[k as int] == Some(*e),
                        tally_of(acc) == add_items(u2, items@.take(j as int)),
                    decreases items.len() - j,
                {
                    let item = &items[j];
                    proof {
                        assert(items@.take(j + 1).drop_last() =~= items@.take(j as int));
                        assert(items@.take(j + 1).last() == *item);
                        lemma_items_prefix(u2, items@, j + 1);
                        if item.name is Some {
                            assert(tool_items(events@[k as int].unwrap())[j as int].name is Some);
                        }
                    }
                    add_item_exec(&mut acc, item, Ghost(whole));
                    j = j + 1;
                }
                assert(items@.take(items@.len() as int) =~= items@);
            },
            None => {},
        }
        k = k + 1;
    }
    assert(events@.take(events@.len() as int) =~= events@);
    acc
}

/// Counting a prefix of the tool calls counts no more than all of them.
proof fn lemma_items_prefix(t: Tally, items: Seq<ContentItem>, k: int)
    requires
        0 <= k <= items.len(),
    ensures
        tally_le(add_items(t, items.take(k)), add_items(t, items)),
    decreases items.len(),
{
    if k == items.len() {
        assert(items.take(k) =~= items);
    } else {
        lemma_items_prefix(t, items.drop_last(), k);
        assert(items.drop_last().take(k) =~= items.take(k));
    }
}

/// The number of actions whose tool is one of `tools`.
pub open spec fn count_tools(actions: Seq<AgentAction>, tools: Seq<Seq<char>>) -> nat {
    actions.filter(|a: AgentAction| tools.contains(a.tool_name@)).len()
}

/// Tool-call counts of a run, by kind of tool.
#[derive(Debug, Clone, Copy, PartialEq, Eq, Structural)]
pub struct ToolCallCounts {
    /// Edit and Write calls.
    pub file_edits: u32,
    /// Grep calls.
    pub grep_calls: u32,
    /// Glob calls.
    pub glob_calls: u32,
    /// Bash calls.
    pub bash_calls: u32,
}

/// Counts the tool calls of a run by kind.
pub fn tool_call_counts(actions: &Vec<AgentAction>) -> (r: ToolCallCounts)
    requires
        actions@.len() <= u32::MAX,
    ensures
        r.file_edits == count_tools(actions@, seq!["Edit"@, "Write"@]),
        r.grep_calls == count_tools(actions@, seq!["Grep"@]),
        r.glob_calls == count_tools(actions@, seq!["Glob"@]),
        r.bash_calls == count_tools(actions@, seq!["Bash"@]),
{
    let ghost fe = |a: AgentAction| seq!["Edit"@, "Write"@].contains(a.tool_name@);
    let ghost fg = |a: AgentAction| seq!["Grep"@].contains(a.tool_name@);
    let ghost fl = |a: AgentAction| seq!["Glob"@].contains(a.tool_name@);
    let ghost fb = |a: AgentAction| seq!["Bash"@].contains(a.tool_name@);
    let mut r = ToolCallCounts { file_edits: 0, grep_calls: 0, glob_calls: 0, bash_calls: 0 };
    let mut i: usize = 0;
    while i < actions.len()
        invariant
            i <= actions@.len() <= u32::MAX,
            fe == (|a: AgentAction| seq!["Edit"@, "Write"@].contains(a.tool_name@)),
            fg == (|a: AgentAction| seq!["Grep"@].contains(a.tool_name@)),
            fl == (|a: AgentAction| seq!["Glob"@].contains(a.tool_name@)),
            fb == (|a: AgentAction| seq!["Bash"@].contains(a.tool_name@)),
            r.file_edits == actions@.take(i as int).filter(fe).len(),
            r.grep_calls == actions@.take(i as int).filter(fg).len(),
            r.glob_calls == actions@.take(i as int).filter(fl).len(),
            r.bash_calls == actions@.take(i as int).filter(fb).len(),
            r.file_edits <= i && r.grep_calls <= i && r.glob_calls <= i && r.bash_calls <= i,
        decreases actions.len() - i,
    {
        let a = &actions[i];
        proof {
            assert(actions@.take(i + 1) =~= actions@.take(i as int).push(*a));
            crate::text::lemma_filter_push(actions@.take(i as int), *a, fe);
            crate::text::lemma_filter_push(actions@.take(i as int), *a, fg);
            crate::text::lemma_filter_push(actions@.take(i as int), *a, fl);
            crate::text::lemma_filter_push(actions@.take(i as int), *a, fb);
            assert(seq!["Edit"@, "Write"@].contains(a.tool_name@) <==> (a.tool_name@ == "Edit"@ || a.tool_name@ == "Write"@)) by {
                if a.tool_name@ == "Write"@ {
                    assert(seq!["Edit"@, "Write"@][1] == "Write"@);
                }
                if a.tool_name@ == "Edit"@ {
                    assert(seq!["Edit"@, "Write"@][0] == "Edit"@);
                }
            }
            assert(seq!["Grep"@].contains(a.tool_name@) <==> a.tool_name@ == "Grep"@) by {
                if a.tool_name@ == "Grep"@ {
                    assert(seq!["Grep"@][0] == "Grep"@);
                }
            }
            assert(seq!["Glob"@].contains(a.tool_name@) <==> a.tool_name@ == "Glob"@) by {
                if a.tool_name@ == "Glob"@ {
                    assert(seq!["Glob"@][0] == "Glob"@);
                }
            }
            assert(seq!["Bash"@].contains(a.tool_name@) <==> a.tool_name@ == "Bash"@) by {
                if a.tool_name@ == "Bash"@ {
                    assert(seq!["Bash"@][0] == "Bash"@);
                }
            }
        }
        let name = a.tool_name.as_str();
        if str_eq(name, "Edit") || str_eq(name, "Write") {
            r.file_edits = r.file_edits + 1;
        }
        if str_eq(name, "Grep") {
            r.grep_calls = r.grep_calls + 1;
        }
        if str_eq(name, "Glob") {
            r.glob_calls = r.glob_calls + 1;
        }
        if str_eq(name, "Bash") {
            r.bash_calls = r.bash_calls + 1;
        }
        i = i + 1;
    }
    assert(actions@.take(actions@.len() as int) =~= actions@);
    r
}

/// The agent's command-line arguments for a task.
pub open spec fn spec_agent_args(prompt: Seq<char>, work_dir: Seq<char>, model: Option<Seq<char>>, scope_enabled: bool) -> Seq<Seq<char>> {
    let base = seq![
        "-p"@, prompt, "--bare"@, "--add-dir"@, work_dir, "--output-format"@, "stream-json"@,
        "--verbose"@, "--max-turns"@, "30"@, "--allowedTools"@, "Read,Edit,Write,Glob,Grep,Bash"@,
    ];
    let with_model = match model {
        Some(m) => base + seq!["--model"@, m],
        None => base,
    };
    if scope_enabled {
        with_model
    } else {
        with_model + seq!["--disallowedTools"@, "Bash(scope:*)"@]
    }
}

/// The arguments the coding agent is started with: the prompt, the working
/// directory, stream-json output, a turn limit and the allowed tools, the
/// model when one is chosen, and a ban on scope commands when Scope is off.
pub fn agent_args(prompt: &str, work_dir: &str, model: &Option<String>, scope_enabled: bool) -> (r: Vec<String>)
    ensures
        views(r@) == spec_agent_args(
            prompt@,
            work_dir@,
            match model {
                Some(m) => Some(m@),
                None => None,
            },
            scope_enabled,
        ),
{
    let mut v: Vec<String> = Vec::new();
    v.push("-p".to_string());
    v.push(prompt.to_string());
    v.push("--bare".to_string());
    v.push("--add-dir".to_string());
    v.push(work_dir.to_string());
    v.push("--output-format".to_string());
    v.push("stream-json".to_string());
    v.push("--verbose".to_string());
    v.push("--max-turns".to_string());
    v.push("30".to_string());
    v.push("--allowedTools".to_string());
    v.push("Read,Edit,Write,Glob,Grep,Bash".to_string());
    let ghost base = views(v@);
    assert(base =~= seq![
        "-p"@, prompt@, "--bare"@, "--add-dir"@, work_dir@, "--output-format"@, "stream-json"@,
        "--verbose"@, "--max-turns"@, "30"@, "--allowedTools"@, "Read,Edit,Write,Glob,Grep,Bash"@,
    ]);
    match model {
        Some(m) => {
            v.push("--model".to_string());
            v.push(m.clone());
            assert(views(v@) =~= base + seq!["--model"@, m@]);
        },
        None => {},
    }
    let ghost mid = views(v@);
    if !scope_enabled {
        v.push("--disallowedTools".to_string());
        v.push("Bash(scope:*)".to_string());
        assert(views(v@) =~= mid + seq!["--disallowedTools"@, "Bash(scope:*)"@]);
    }
    v
}

/// The record of a finished agent run.
pub fn agent_run(
    task_id: String,
    scope_enabled: bool,
    parsed: NdjsonParseResult,
    duration_ms: u64,
    exit_code: i32,
) -> (r: AgentRun)
    requires
        parsed.actions@.len() <= u32::MAX,
    ensures
        r.task_id@ == task_id@,
        r.scope_enabled == scope_enabled,
        r.input_tokens == parsed.input_tokens,
        r.output_tokens == parsed.output_tokens,
        r.cache_creation_input_tokens == parsed.cache_creation_input_tokens,
        r.cache_read_input_tokens == parsed.cache_read_input_tokens,
        r.file_reads == parsed.file_reads,
        r.file_edits == count_tools(parsed.actions@, seq!["Edit"@, "Write"@]),
        r.grep_calls == count_tools(parsed.actions@, seq!["Grep"@]),
        r.glob_calls == count_tools(parsed.actions@, seq!["Glob"@]),
        r.bash_calls == count_tools(parsed.actions@, seq!["Bash"@]),
        r.scope_commands_called@ == parsed.scope_commands_called@,
        r.duration_ms == duration_ms,
        r.exit_code == exit_code,
        r.actions@ == parsed.actions@,
{
    let counts = tool_call_counts(&parsed.actions);
    AgentRun {
        task_id,
        scope_enabled,
        input_tokens: parsed.input_tokens,
        output_tokens: parsed.output_tokens,
        cache_creation_input_tokens: parsed.cache_creation_input_tokens,
        cache_read_input_tokens: parsed.cache_read_input_tokens,
        file_reads: parsed.file_reads,
        file_edits: counts.file_edits,
        grep_calls: counts.grep_calls,
        glob_calls: counts.glob_calls,
        bash_calls: counts.bash_calls,
        scope_commands_called: parsed.scope_commands_called,
        duration_ms,
        exit_code,
        actions: parsed.actions,
    }
}


// ---------------------------------------------------------------------------
// Reading the saved NDJSON text
// ---------------------------------------------------------------------------

/// The token counts of a `usage` object.
pub open spec fn usage_of_json(j: Json) -> Usage {
    Usage {
        input_tokens: u64_field(j, "input_tokens"@),
        output_tokens: u64_field(j, "output_tokens"@),
        cache_creation_input_tokens: u64_field(j, "cache_creation_input_tokens"@),
        cache_read_input_tokens: u64_field(j, "cache_read_input_tokens"@),
    }
}

/// The usage of an optional `usage` member.
pub open spec fn opt_usage(j: Option<Json>) -> Option<Usage> {
    match j {
        Some(u) => Some(usage_of_json(u)),
        None => None,
    }
}

/// The `input` of a tool call: its string fields and its compact text.
pub open spec fn tool_input_of_json(j: Json) -> ToolInput {
    ToolInput {
        file_path: text_field(j, "file_path"@),
        pattern: text_field(j, "pattern"@),
        command: text_field(j, "command"@),
        rendered: j.text,
    }
}

/// A content item: its `type`, `name` and `input`.
pub open spec fn content_item_of_json(j: Json) -> ContentItem {
    ContentItem {
        item_type: text_field(j, "type"@),
        name: text_field(j, "name"@),
        input: match json_get(j, "input"@) {
            Some(i) => Some(tool_input_of_json(i)),
            None => None,
        },
    }
}

/// The content item of an optional member.
pub open spec fn opt_item(j: Option<Json>) -> Option<ContentItem> {
    match j {
        Some(b) => Some(content_item_of_json(b)),
        None => None,
    }
}

/// `message.content`, when `message` has a `content` array.
pub open spec fn message_items(j: Json) -> Option<Seq<Json>> {
    match json_get(j, "message"@) {
        Some(m) => match json_get(m, "content"@) {
            Some(c) => json_array(c),
            None => None,
        },
        None => None,
    }
}

/// `result.usage`, when `result` has a `usage`.
pub open spec fn result_usage_of_json(j: Json) -> Option<Usage> {
    match json_get(j, "result"@) {
        Some(r) => opt_usage(json_get(r, "usage"@)),
        None => None,
    }
}

/// `e` holds what the runner reads of the JSON event `j`.
pub open spec fn event_matches(e: StreamEvent, j: Json) -> bool {
    &&& e.event_type == text_field(j, "type"@)
    &&& e.usage == opt_usage(json_get(j, "usage"@))
    &&& e.result_usage == result_usage_of_json(j)
    &&& e.content_block == opt_item(json_get(j, "content_block"@))
    &&& match message_items(j) {
        Some(items) => e.message_content is Some && e.message_content.unwrap()@ == items.map_values(
            |x: Json| content_item_of_json(x),
        ),
        None => e.message_content is None,
    }
}

/// Two events hold the same fields (the content lists by their elements).
pub open spec fn same_event(a: StreamEvent, b: StreamEvent) -> bool {
    &&& a.event_type == b.event_type
    &&& a.usage == b.usage
    &&& a.result_usage == b.result_usage
    &&& a.content_block == b.content_block
    &&& (a.message_content is Some <==> b.message_content is Some)
    &&& (a.message_content is Some ==> a.message_content.unwrap()@ == b.message_content.unwrap()@)
}

/// The event the runner reads from a JSON value.
pub open spec fn spec_stream_event(j: Json) -> StreamEvent {
    choose|e: StreamEvent| event_matches(e, j)
}

/// What one line of the stream gives: nothing for a blank line; else the
/// event of its trimmed text, or `None` when that is not JSON.
pub open spec fn line_event(line: Seq<char>) -> Option<Option<StreamEvent>> {
    let t = trim_seq(line);
    if t.len() == 0 {
        None
    } else {
        Some(
            match json_of_line(t) {
                Some(j) => Some(spec_stream_event(j)),
                None => None,
            },
        )
    }
}

/// The events of a run of lines, in order.
pub open spec fn events_of_lines(lines: Seq<Seq<char>>) -> Seq<Option<StreamEvent>>
    decreases lines.len(),
{
    if lines.len() == 0 {
        Seq::empty()
    } else {
        let prev = events_of_lines(lines.drop_last());
        match line_event(lines.last()) {
            Some(e) => prev.push(e),
            None => prev,
        }
    }
}

/// The events of a saved NDJSON stream: one for each non-blank line
/// (`str::lines`), `None` for a line that is not JSON.
pub open spec fn stream_events(text: Seq<char>) -> Seq<Option<StreamEvent>> {
    events_of_lines(lines_seq(text))
}

/// Two event lists hold the same events.
pub open spec fn events_agree(a: Seq<Option<StreamEvent>>, b: Seq<Option<StreamEvent>>) -> bool {
    &&& a.len() == b.len()
    &&& forall|k: int|
        0 <= k < a.len() ==> (#[trigger] a[k] is Some <==> b[k] is Some) && (a[k] is Some ==> same_event(
            a[k].unwrap(),
            b[k].unwrap(),
        ))
}

/// Two readings of one JSON event hold the same fields.
proof fn lemma_matches_same(a: StreamEvent, b: StreamEvent, j: Json)
    requires
        event_matches(a, j),
        event_matches(b, j),
    ensures
        same_event(a, b),
{
}

/// Events with the same fields count the same.
proof fn lemma_same_event_counts(a: StreamEvent, b: StreamEvent)
    requires
        same_event(a, b),
    ensures
        tool_items(a) == tool_items(b),
        result_usage(a) == result_usage(b),
        forall|t: Tally| add_event(t, a) == #[trigger] add_event(t, b),
{
}

/// Lists that hold the same events add up to the same tally, and their
/// summaries can be made alike.
proof fn lemma_agree_tally(a: Seq<Option<StreamEvent>>, b: Seq<Option<StreamEvent>>)
    requires
        events_agree(a, b),
    ensures
        tally_stream(a) == tally_stream(b),
        stream_summaries_ok(a) == stream_summaries_ok(b),
    decreases a.len(),
{
    if a.len() > 0 {
        assert(events_agree(a.drop_last(), b.drop_last())) by {
            assert forall|k: int| 0 <= k < a.drop_last().len() implies (#[trigger] a.drop_last()[k] is Some
                <==> b.drop_last()[k] is Some) && (a.drop_last()[k] is Some ==> same_event(
                a.drop_last()[k].unwrap(),
                b.drop_last()[k].unwrap(),
            )) by {
                assert(a.drop_last()[k] == a[k]);
                assert(b.drop_last()[k] == b[k]);
            }
        }
        lemma_agree_tally(a.drop_last(), b.drop_last());
        assert(a.last() == a[a.len() - 1]);
        if a.last() is Some {
            lemma_same_event_counts(a.last().unwrap(), b.last().unwrap());
        }
    }
    assert forall|k: int| 0 <= k < a.len() && a[k] is Some implies tool_items(a[k].unwrap()) == tool_items(
        b[k].unwrap(),
    ) by {
        lemma_same_event_counts(a[k].unwrap(), b[k].unwrap());
    }
    if stream_summaries_ok(a) {
        assert forall|k: int, j: int|
            0 <= k < b.len() && b[k] is Some && 0 <= j < tool_items(b[k].unwrap()).len()
                && #[trigger] tool_items(b[k].unwrap())[j].name is Some implies summary_ok(
            tool_items(b[k].unwrap())[j].name.unwrap()@,
            tool_items(b[k].unwrap())[j].input,
        ) by {
            assert(a[k] is Some);
            assert(tool_items(a[k].unwrap())[j].name is Some);
        }
    }
    if stream_summaries_ok(b) {
        assert forall|k: int, j: int|
            0 <= k < a.len() && a[k] is Some && 0 <= j < tool_items(a[k].unwrap()).len()
                && #[trigger] tool_items(a[k].unwrap())[j].name is Some implies summary_ok(
            tool_items(a[k].unwrap())[j].name.unwrap()@,
            tool_items(a[k].unwrap())[j].input,
        ) by {
            assert(b[k] is Some);
            assert(tool_items(b[k].unwrap())[j].name is Some);
        }
    }
}

/// Read the token counts of a `usage` object.
fn usage_of(j: &Json) -> (r: Usage)
    ensures
        r == usage_of_json(*j),
{
    Usage {
        input_tokens: get_u64(j, "input_tokens"),
        output_tokens: get_u64(j, "output_tokens"),
        cache_creation_input_tokens: get_u64(j, "cache_creation_input_tokens"),
        cache_read_input_tokens: get_u64(j, "cache_read_input_tokens"),
    }
}

/// Read a content item.
fn content_item_of(j: &Json) -> (r: ContentItem)
    ensures
        r == content_item_of_json(*j),
{
    ContentItem {
        item_type: get_text(j, "type"),
        name: get_text(j, "name"),
        input: match get(j, "input") {
            Some(i) => Some(
                ToolInput {
                    file_path: get_text(i, "file_path"),
                    pattern: get_text(i, "pattern"),
                    command: get_text(i, "command"),
                    rendered: i.text.clone(),
                },
            ),
            None => None,
        },
    }
}

/// Read the fields of one JSON event that the runner looks at.
pub fn stream_event_of(j: &Json) -> (r: StreamEvent)
    ensures
        event_matches(r, *j),
{
    let event_type = get_text(j, "type");
    let usage = match get(j, "usage") {
        Some(u) => Some(usage_of(u)),
        None => None,
    };
    let result_usage = match get(j, "result") {
        Some(res) => match get(res, "usage") {
            Some(u) => Some(usage_of(u)),
            None => None,
        },
        None => None,
    };
    let content_block = match get(j, "content_block") {
        Some(b) => Some(content_item_of(b)),
        None => None,
    };
    let mut message_content: Option<Vec<ContentItem>> = None;
    match get(j, "message") {
        Some(m) => match get(m, "content") {
            Some(c) => match &c.value {
                JsonValue::Array(a) => {
                    let mut items: Vec<ContentItem> = Vec::new();
                    let mut i: usize = 0;
                    while i < a.len()
                        invariant
                            i <= a@.len(),
                            items@ == a@.take(i as int).map_values(|x: Json| content_item_of_json(x)),
                        decreases a.len() - i,
                    {
                        let ghost before = items@;
                        items.push(content_item_of(&a[i]));
                        assert(a@.take(i + 1).map_values(|x: Json| content_item_of_json(x)) =~= before.push(
                            content_item_of_json(a@[i as int]),
                        ));
                        i = i + 1;
                    }
                    assert(a@.take(a@.len() as int) =~= a@);
                    message_content = Some(items);
                },
                _ => {},
            },
            None => {},
        },
        None => {},
    }
    StreamEvent { event_type, usage, result_usage, message_content, content_block }
}

/// Read the events of a saved NDJSON stream.
pub fn stream_events_of(ndjson_text: &str) -> (r: Vec<Option<StreamEvent>>)
    ensures
        events_agree(r@, stream_events(ndjson_text@)),
{
    let text = chars_of(ndjson_text);
    let lines = lines_exec(&text);
    let ghost ls = char_views(lines@);
    let mut out: Vec<Option<StreamEvent>> = Vec::new();
    let mut i: usize = 0;
    while i < lines.len()
        invariant
            i <= lines.len(),
            ls == char_views(lines@),
            ls == lines_seq(ndjson_text@),
            events_agree(out@, events_of_lines(ls.take(i as int))),
        decreases lines.len() - i,
    {
        let ghost prev = out@;
        let ghost spec_prev = events_of_lines(ls.take(i as int));
        assert(ls.take(i + 1).drop_last() =~= ls.take(i as int));
        assert(ls.take(i + 1).last() == lines@[i as int]@);
        let t = trim_chars(&lines[i]);
        if t.len() > 0 {
            let ts = string_of(&t);
            let parsed = parse_json_line(ts.as_str());
            let ev = match &parsed {
                Some(j) => {
                    let e = stream_event_of(j);
                    proof {
                        lemma_matches_same(e, spec_stream_event(*j), *j);
                    }
                    Some(e)
                },
                None => None,
            };
            out.push(ev);
            proof {
                let spec_next = events_of_lines(ls.take(i + 1));
                assert(spec_next == spec_prev.push(line_event(lines@[i as int]@).unwrap()));
                assert forall|k: int| 0 <= k < out@.len() implies (#[trigger] out@[k] is Some
                    <==> spec_next[k] is Some) && (out@[k] is Some ==> same_event(
                    out@[k].unwrap(),
                    spec_next[k].unwrap(),
                )) by {
                    if k < prev.len() {
                        assert(out@[k] == prev[k]);
                        assert(spec_next[k] == spec_prev[k]);
                    }
                }
            }
        } else {
            assert(events_of_lines(ls.take(i + 1)) == spec_prev);
        }
        i = i + 1;
    }
    assert(ls.take(ls.len() as int) =~= ls);
    out
}

/// Whether a text can be cut as summaries are (see [`cuttable`]).
pub fn is_cuttable(s: &str) -> (r: bool)
    ensures
        r == cuttable(s@),
{
    let v = chars_of(s);
    let mut bytes: usize = 0;
    let mut k: usize = 0;
    while k < v.len() && bytes < 100
        invariant
            k <= v.len(),
            bytes == utf8_len(v@.take(k as int)),
            bytes <= 103,
            k > 0 ==> utf8_len(v@.take(k - 1)) < 100,
        decreases v.len() - k,
    {
        let c = v[k];
        let cl: usize = if (c as u32) < 0x80 {
            1
        } else if (c as u32) < 0x800 {
            2
        } else if (c as u32) < 0x10000 {
            3
        } else {
            4
        };
        assert(v@.take(k + 1).drop_last() =~= v@.take(k as int));
        bytes = bytes + cl;
        k = k + 1;
    }
    assert(v@.take(v@.len() as int) =~= v@);
    if k == v.len() && bytes <= 100 {
        return true;
    }
    if bytes == 100 {
        assert(utf8_len(v@.take(k as int)) == 100);
        return true;
    }
    proof {
        if k < v.len() {
            lemma_utf8_prefix_increasing(v@, k as int, v@.len() as int);
        }
        assert(utf8_len(v@) > 100);
        assert forall|w: int| 0 <= w <= v@.len() implies #[trigger] utf8_len(v@.take(w)) != 100 by {
            if w < k - 1 {
                lemma_utf8_prefix_increasing(v@, w, k - 1);
            }
            if w > k {
                lemma_utf8_prefix_increasing(v@, k as int, w);
            }
        }
    }
    false
}

/// Whether the summary of a tool call can be made (see [`summary_ok`]).
pub fn summary_possible(tool: &str, input: &Option<ToolInput>) -> (r: bool)
    ensures
        r == summary_ok(tool@, *input),
{
    match input {
        None => true,
        Some(i) => if str_eq(tool, "Read") || str_eq(tool, "Edit") || str_eq(tool, "Write") || str_eq(tool, "Grep")
            || str_eq(tool, "Glob") {
            true
        } else if str_eq(tool, "Bash") {
            match &i.command {
                Some(c) => is_cuttable(c.as_str()),
                None => true,
            }
        } else {
            is_cuttable(i.rendered.as_str())
        },
    }
}

/// Running counts of a stream.
struct Counts {
    input: u64,
    output: u64,
    cache_creation: u64,
    cache_read: u64,
    reads: u64,
    actions: u64,
}

/// The counts are those of a tally.
spec fn counts_match(c: Counts, t: Tally) -> bool {
    &&& c.input == t.input
    &&& c.output == t.output
    &&& c.cache_creation == t.cache_creation
    &&& c.cache_read == t.cache_read
    &&& c.reads == t.reads
    &&& c.actions == t.actions.len()
}

/// A count that is absent reads as 0.
fn count_of(c: Option<u64>) -> (r: u64)
    ensures
        r == count_or_zero(c),
{
    match c {
        Some(n) => n,
        None => 0,
    }
}

/// Adds a usage object's counts; `false` when a count leaves `u64`.
fn add_usage_checked(c: &mut Counts, u: &Option<Usage>, t: Ghost<Tally>) -> (r: bool)
    requires
        counts_match(*old(c), t@),
    ensures
        r ==> counts_match(*final(c), add_usage(t@, *u)),
        !r ==> !tally_fits(add_usage(t@, *u)),
{
    match u {
        None => true,
        Some(u) => {
            let a = c.input.checked_add(count_of(u.input_tokens));
            let b = c.output.checked_add(count_of(u.output_tokens));
            let d = c.cache_creation.checked_add(count_of(u.cache_creation_input_tokens));
            let e = c.cache_read.checked_add(count_of(u.cache_read_input_tokens));
            match (a, b, d, e) {
                (Some(a), Some(b), Some(d), Some(e)) => {
                    c.input = a;
                    c.output = b;
                    c.cache_creation = d;
                    c.cache_read = e;
                    true
                },
                _ => false,
            }
        },
    }
}

/// No more than the other tally, field by field, means fitting when the
/// other fits.
proof fn lemma_le_fits(a: Tally, b: Tally)
    requires
        tally_le(a, b),
        tally_fits(b),
    ensures
        tally_fits(a),
{
}

/// Whether a stream of events can be added up: its totals fit their
/// fields ([`tally_fits`]) and every summary can be made
/// ([`stream_summaries_ok`]).
pub fn stream_countable(events: &Vec<Option<StreamEvent>>) -> (r: bool)
    ensures
        r == (tally_fits(tally_stream(events@)) && stream_summaries_ok(events@)),
{
    let ghost whole = tally_stream(events@);
    let mut c = Counts { input: 0, output: 0, cache_creation: 0, cache_read: 0, reads: 0, actions: 0 };
    let mut k: usize = 0;
    while k < events.len()
        invariant
            k <= events.len(),
            whole == tally_stream(events@),
            counts_match(c, tally_stream(events@.take(k as int))),
            tally_fits(tally_stream(events@.take(k as int))),
            forall|kk: int, j: int|
                0 <= kk < k && events@[kk] is Some && 0 <= j < tool_items(events@[kk].unwrap()).len()
                    && #[trigger] tool_items(events@[kk].unwrap())[j].name is Some ==> summary_ok(
                    tool_items(events@[kk].unwrap())[j].name.unwrap()@,
                    tool_items(events@[kk].unwrap())[j].input,
                ),
        decreases events.len() - k,
    {
        proof {
            assert(events@.take(k + 1).drop_last() =~= events@.take(k as int));
            assert(events@.take(k + 1).last() == events@[k as int]);
            lemma_tally_prefix(events@, k + 1);
        }
        match &events[k] {
            Some(e) => {
                let ghost t0 = tally_stream(events@.take(k as int));
                let ghost u1 = add_usage(t0, e.usage);
                let ghost u2 = add_usage(u1, result_usage(*e));
                proof {
                    lemma_add_items_grows(u2, tool_items(*e));
                }
                if !add_usage_checked(&mut c, &e.usage, Ghost(t0)) {
                    proof {
                        if tally_fits(whole) {
                            lemma_le_fits(u1, whole);
                        }
                    }
                    return false;
                }
                let is_result = match &e.event_type {
                    Some(t) => str_eq(t.as_str(), "result"),
                    None => false,
                };
                let ok = if is_result {
                    add_usage_checked(&mut c, &e.result_usage, Ghost(u1))
                } else {
                    add_usage_checked(&mut c, &None, Ghost(u1))
                };
                if !ok {
                    proof {
                        if tally_fits(whole) {
                            lemma_le_fits(u2, whole);
                        }
                    }
                    return false;
                }
                let items = extract_tool_use_items(e);
                let mut j: usize = 0;
                while j < items.len()
                    invariant
                        j <= items.len(),
                        items@ == tool_items(*e),
                        0 <= k < events@.len(),
                        events@[k as int] == Some(*e),
                        whole == tally_stream(events@),
                        tally_le(add_items(u2, items@), whole),
                        counts_match(c, add_items(u2, items@.take(j as int))),
                        tally_fits(add_items(u2, items@.take(j as int))) || !tally_fits(whole),
                        tally_fits(u2) || !tally_fits(whole),
                        forall|jj: int|
                            0 <= jj < j && #[trigger] items@[jj].name is Some ==> summary_ok(
                                items@[jj].name.unwrap()@,
                                items@[jj].input,
                            ),
                    decreases items.len() - j,
                {
                    let item = &items[j];
                    let ghost tj = add_items(u2, items@.take(j as int));
                    proof {
                        assert(items@.take(j + 1).drop_last() =~= items@.take(j as int));
                        assert(items@.take(j + 1).last() == *item);
                        lemma_items_prefix(u2, items@, j + 1);
                    }
                    match &item.name {
                        Some(n) => {
                            if !summary_possible(n.as_str(), &item.input) {
                                proof {
                                    assert(tool_items(events@[k as int].unwrap())[j as int].name is Some);
                                }
                                return false;
                            }
                            if c.actions >= 0xffff_ffff {
                                proof {
                                    if tally_fits(whole) {
                                        lemma_le_fits(add_items(u2, items@.take(j + 1)), whole);
                                    }
                                }
                                return false;
                            }
                            c.actions = c.actions + 1;
                            if str_eq(n.as_str(), "Read") {
                                if c.reads >= 0xffff_ffff {
                                    proof {
                                        if tally_fits(whole) {
                                            lemma_le_fits(add_items(u2, items@.take(j + 1)), whole);
                                        }
                                    }
                                    return false;
                                }
                                c.reads = c.reads + 1;
                            }
                        },
                        None => {},
                    }
                    proof {
                        if tally_fits(whole) {
                            lemma_le_fits(add_items(u2, items@.take(j + 1)), whole);
                        }
                    }
                    j = j + 1;
                }
                assert(items@.take(items@.len() as int) =~= items@);
            },
            None => {},
        }
        proof {
            if !tally_fits(tally_stream(events@.take(k + 1))) {
                if tally_fits(whole) {
                    lemma_le_fits(tally_stream(events@.take(k + 1)), whole);
                }
            }
        }
        if !(c.reads <= 0xffff_ffff && c.actions <= 0xffff_ffff) {
            return false;
        }
        k = k + 1;
    }
    assert(events@.take(events@.len() as int) =~= events@);
    true
}

/// Parse a saved NDJSON stream into structured action data: each
/// non-blank line is read as a JSON event (a line that is not JSON adds
/// nothing), and the events are added up as [`accumulate_events`] does.
pub fn parse_ndjson_actions(ndjson_text: &str) -> (r: NdjsonParseResult)
    requires
        tally_fits(tally_stream(stream_events(ndjson_text@))),
        stream_summaries_ok(stream_events(ndjson_text@)),
    ensures
        tally_of(r) == tally_stream(stream_events(ndjson_text@)),
{
    let events = stream_events_of(ndjson_text);
    proof {
        lemma_agree_tally(events@, stream_events(ndjson_text@));
    }
    accumulate_events(&events)
}

/// Parse a saved NDJSON stream when its totals fit their fields and every
/// summary can be made; `None` otherwise (see [`stream_countable`]).
pub fn try_parse_ndjson_actions(ndjson_text: &str) -> (r: Option<NdjsonParseResult>)
    ensures
        r is Some <==> (tally_fits(tally_stream(stream_events(ndjson_text@))) && stream_summaries_ok(
            stream_events(ndjson_text@),
        )),
        r is Some ==> tally_of(r.unwrap()) == tally_stream(stream_events(ndjson_text@)),
{
    let events = stream_events_of(ndjson_text);
    proof {
        lemma_agree_tally(events@, stream_events(ndjson_text@));
    }
    if stream_countable(&events) {
        Some(parse_ndjson_actions(ndjson_text))
    } else {
        None
    }
}

// ---------------------------------------------------------------------------
// What every tally of a stream satisfies
// ---------------------------------------------------------------------------

/// The action views that are Read calls.
pub open spec fn read_actions(actions: Seq<(u32, Seq<char>, Seq<char>, bool, bool, bool)>) -> Seq<(u32, Seq<char>, Seq<char>, bool, bool, bool)> {
    actions.filter(|a: (u32, Seq<char>, Seq<char>, bool, bool, bool)| a.1 == "Read"@)
}

/// A tally's actions are numbered from 1 in order and classified by their
/// tool (only Bash calls run scope commands); its Read count is the number
/// of Read actions; and it lists no scope command twice.
pub open spec fn tally_well_formed(t: Tally) -> bool {
    &&& forall|i: int|
        0 <= i < t.actions.len() ==> {
            let a = #[trigger] t.actions[i];
            &&& a.0 == i + 1
            &&& a.3 == spec_is_navigation_tool(a.1)
            &&& a.5 == spec_is_edit_tool(a.1)
            &&& (a.4 ==> a.1 == "Bash"@)
        }
    &&& t.reads == read_actions(t.actions).len()
    &&& t.scope_commands.no_duplicates()
}

/// Counting one tool call keeps a tally well formed.
proof fn lemma_add_item_well_formed(t: Tally, item: ContentItem)
    requires
        tally_well_formed(t),
        item.name is Some ==> t.actions.len() + 1 <= u32::MAX,
    ensures
        tally_well_formed(add_item(t, item)),
{
    match item.name {
        None => {},
        Some(n) => {
            let t2 = add_item(t, item);
            let a = t2.actions.last();
            assert(t2.actions == t.actions.push(a));
            lemma_filter_push(t.actions, a, |a: (u32, Seq<char>, Seq<char>, bool, bool, bool)| a.1 == "Read"@);
            assert forall|i: int| 0 <= i < t2.actions.len() implies {
                let b = #[trigger] t2.actions[i];
                &&& b.0 == i + 1
                &&& b.3 == spec_is_navigation_tool(b.1)
                &&& b.5 == spec_is_edit_tool(b.1)
                &&& (b.4 ==> b.1 == "Bash"@)
            } by {
                if i < t.actions.len() {
                    assert(t2.actions[i] == t.actions[i]);
                }
            }
            let sc = item_scope_command(n@, item.input);
            if sc is Some && !t.scope_commands.contains(sc.unwrap()) {
                assert forall|x: int, y: int|
                    0 <= x < t2.scope_commands.len() && 0 <= y < t2.scope_commands.len() && x != y implies t2.scope_commands[x]
                    != t2.scope_commands[y] by {
                    if x < t.scope_commands.len() && y < t.scope_commands.len() {
                    } else if x == t.scope_commands.len() {
                        assert(t.scope_commands[y] == t2.scope_commands[y]);
                    } else {
                        assert(t.scope_commands[x] == t2.scope_commands[x]);
                    }
                }
            }
        },
    }
}

/// Counting a run of tool calls keeps a tally well formed, while the
/// actions fit their numbers.
proof fn lemma_add_items_well_formed(t: Tally, items: Seq<ContentItem>)
    requires
        tally_well_formed(t),
        add_items(t, items).actions.len() <= u32::MAX,
    ensures
        tally_well_formed(add_items(t, items)),
    decreases items.len(),
{
    if items.len() > 0 {
        lemma_items_prefix(t, items, items.len() - 1);
        assert(items.take(items.len() - 1) =~= items.drop_last());
        lemma_add_items_well_formed(t, items.drop_last());
        let prev = add_items(t, items.drop_last());
        if items.last().name is Some {
            assert(add_items(t, items).actions.len() == prev.actions.len() + 1);
        }
        lemma_add_item_well_formed(prev, items.last());
    }
}

/// What a saved stream adds up to is well formed: actions are numbered
/// 1, 2, … in order, each flagged as navigation or edit by its tool and as
/// a scope command only when it is a Bash call; the Read count is the
/// number of Read actions; and each scope command is listed once. This
/// holds of every stream whose totals fit their fields.
pub proof fn lemma_stream_tally_well_formed(events: Seq<Option<StreamEvent>>)
    requires
        tally_fits(tally_stream(events)),
    ensures
        tally_well_formed(tally_stream(events)),
    decreases events.len(),
{
    if events.len() == 0 {
        assert(read_actions(Seq::empty()) =~= Seq::empty());
    } else {
        lemma_tally_prefix(events, events.len() - 1);
        assert(events.take(events.len() - 1) =~= events.drop_last());
        lemma_stream_tally_well_formed(events.drop_last());
        let t = tally_stream(events.drop_last());
        match events.last() {
            Some(e) => {
                let u = add_usage(add_usage(t, e.usage), result_usage(e));
                lemma_add_items_well_formed(u, tool_items(e));
            },
            None => {},
        }
    }
}

} // verus!

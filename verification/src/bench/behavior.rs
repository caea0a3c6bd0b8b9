//! How an agent used Scope during a run: anti-patterns in its sequence of
//! tool calls.
use vstd::prelude::*;
use crate::bench::agent::AgentAction;
use crate::text::{
    chars_of, contains_seq, contains_str, extend_chars, find_exec, find_seq, slice_chars, starts_with,
    starts_with_str, string_of, trim_chars, trim_seq, str_eq, views,
};

verus! {

/// Counts of detected anti-patterns in scope command usage.
#[derive(Debug, Clone, Copy, PartialEq, Eq, Structural)]
pub struct ScopeAntiPatterns {
    /// Scope commands followed by a Read of a file they already covered.
    pub sketch_then_read_count: u32,
    /// `scope find` calls followed by a Grep within three actions.
    pub grep_after_find_count: u32,
    /// Runs that asked both `scope callers` and `scope refs` about one symbol.
    pub callers_and_refs_count: u32,
}

/// The text from `s`'s first `' '` on removed (all of `s` without one).
pub open spec fn before_space(s: Seq<char>) -> Seq<char> {
    match find_seq(s, seq![' ']) {
        Some(k) => s.take(k),
        None => s,
    }
}

/// The scope subcommand of an argument summary: `scope` and the word after
/// it, from the first `scope ` in the trimmed summary.
pub open spec fn spec_extract_scope_subcommand(summary: Seq<char>) -> Option<Seq<char>> {
    let t = trim_seq(summary);
    match find_seq(t, "scope "@) {
        None => None,
        Some(idx) => Some("scope "@ + before_space(t.skip(idx + 6))),
    }
}

/// Extract the scope subcommand from an arguments_summary string.
///
/// E.g. "scope sketch PaymentService" -> "scope sketch"
pub fn extract_scope_subcommand(arguments_summary: &str) -> (r: Option<String>)
    ensures
        match r {
            Some(s) => spec_extract_scope_subcommand(arguments_summary@) == Some(s@),
            None => spec_extract_scope_subcommand(arguments_summary@) is None,
        },
{
    proof {
        reveal_strlit("scope ");
    }
    let t = trim_chars(&chars_of(arguments_summary));
    let pat = chars_of("scope ");
    let idx = match find_exec(&t, &pat) {
        Some(i) => i,
        None => return None,
    };
    proof {
        crate::text::lemma_find_from(t@, pat@, 0);
    }
    let n = t.len();
    let rest = slice_chars(&t, idx + 6, n);
    assert(rest@ =~= t@.skip(idx + 6));
    let mut space: Vec<char> = Vec::new();
    space.push(' ');
    assert(space@ =~= seq![' ']);
    let word = match find_exec(&rest, &space) {
        Some(k) => {
            proof {
                crate::text::lemma_find_from(rest@, space@, 0);
            }
            slice_chars(&rest, 0, k)
        },
        None => crate::text::copy_chars(&rest),
    };
    let mut out = chars_of("scope ");
    extend_chars(&mut out, &word);
    Some(string_of(&out))
}

/// Read action `j` reads a file that scope action `i` already mentioned.
pub open spec fn read_covered(actions: Seq<AgentAction>, i: int, j: int) -> bool {
    actions[j].tool_name@ == "Read"@ && contains_seq(
        actions[i].arguments_summary@,
        actions[j].arguments_summary@,
    )
}

/// Scanning on from action `j`, a covered Read comes before any edit.
pub open spec fn read_follows(actions: Seq<AgentAction>, i: int, j: int) -> bool
    decreases actions.len() - j,
{
    if j < 0 || j >= actions.len() {
        false
    } else if read_covered(actions, i, j) {
        true
    } else if actions[j].is_edit {
        false
    } else {
        read_follows(actions, i, j + 1)
    }
}

/// The number of scope actions among the first `n` after which a covered
/// Read comes before any edit.
pub open spec fn scope_then_read_upto(actions: Seq<AgentAction>, n: int) -> int
    decreases n,
{
    if n <= 0 {
        0
    } else {
        scope_then_read_upto(actions, n - 1) + if actions[n - 1].is_scope_command && read_follows(
            actions,
            n - 1,
            n,
        ) {
            1int
        } else {
            0int
        }
    }
}

/// Whether a covered Read follows scope action `i` before any edit.
fn read_follows_exec(actions: &[AgentAction], i: usize) -> (r: bool)
    requires
        i < actions@.len(),
    ensures
        r == read_follows(actions@, i as int, i + 1),
{
    let n = actions.len();
    let mut j = i + 1;
    while j < n
        invariant
            n == actions@.len(),
            i < j <= actions@.len(),
            read_follows(actions@, i as int, i + 1) == read_follows(actions@, i as int, j as int),
        decreases actions.len() - j,
    {
        let later = &actions[j];
        let covered = str_eq(later.tool_name.as_str(), "Read") && contains_str(
            &chars_of(actions[i].arguments_summary.as_str()),
            later.arguments_summary.as_str(),
        );
        if covered {
            return true;
        }
        if later.is_edit {
            return false;
        }
        j = j + 1;
    }
    false
}

/// Detect the anti-pattern where a scope command is followed by a Read of a file
/// mentioned in the scope command's arguments_summary.
pub fn compute_scope_then_read(actions: &[AgentAction]) -> (r: u32)
    requires
        actions@.len() <= u32::MAX,
    ensures
        r == scope_then_read_upto(actions@, actions@.len() as int),
{
    let mut count: u32 = 0;
    let mut i: usize = 0;
    while i < actions.len()
        invariant
            i <= actions@.len() <= u32::MAX,
            count == scope_then_read_upto(actions@, i as int),
            count <= i,
        decreases actions.len() - i,
    {
        if actions[i].is_scope_command && read_follows_exec(actions, i) {
            count = count + 1;
        }
        i = i + 1;
    }
    count
}

/// Scope action `i` is a `scope find` and a Grep comes within the next
/// three actions.
pub open spec fn grep_follows_find(actions: Seq<AgentAction>, i: int) -> bool {
    &&& actions[i].is_scope_command
    &&& contains_seq(actions[i].arguments_summary@, "scope find"@)
    &&& exists|j: int| i < j <= i + 3 && j < actions.len() && #[trigger] actions[j].tool_name@ == "Grep"@
}

/// The number of actions among the first `n` for which a Grep follows a
/// `scope find`.
pub open spec fn grep_after_find_upto(actions: Seq<AgentAction>, n: int) -> int
    decreases n,
{
    if n <= 0 {
        0
    } else {
        grep_after_find_upto(actions, n - 1) + if grep_follows_find(actions, n - 1) {
            1int
        } else {
            0int
        }
    }
}

/// Count Grep actions that follow a "scope find" action within 3 actions.
pub fn compute_grep_after_scope_find(actions: &[AgentAction]) -> (r: u32)
    requires
        actions@.len() <= u32::MAX,
    ensures
        r == grep_after_find_upto(actions@, actions@.len() as int),
{
    let mut count: u32 = 0;
    let mut i: usize = 0;
    let n = actions.len();
    while i < n
        invariant
            i <= n == actions@.len() <= u32::MAX,
            count == grep_after_find_upto(actions@, i as int),
            count <= i,
        decreases n - i,
    {
        let a = &actions[i];
        if a.is_scope_command && contains_str(&chars_of(a.arguments_summary.as_str()), "scope find") {
            let end = if n - i > 4 { i + 4 } else { n };
            let mut j = i + 1;
            let mut found = false;
            while j < end && !found
                invariant
                    i < j <= end,
                    end <= n,
                    end == if i + 4 < n { i + 4 } else { n as int },
                    n == actions@.len(),
                    !found ==> forall|q: int| i < q < j ==> #[trigger] actions@[q].tool_name@ != "Grep"@,
                    found ==> exists|q: int| i < q < j && q <= i + 3 && q < actions@.len() && #[trigger] actions@[q].tool_name@ == "Grep"@,
                decreases end - j,
            {
                if str_eq(actions[j].tool_name.as_str(), "Grep") {
                    assert(actions@[j as int].tool_name@ == "Grep"@);
                    assert(i < j && j <= i + 3 && j < actions@.len());
                    found = true;
                }
                j = j + 1;
            }
            proof {
                if !found {
                    assert forall|q: int| i < q <= i + 3 && q < actions@.len() implies #[trigger] actions@[q].tool_name@
                        != "Grep"@ by {
                        assert(q < end);
                    }
                }
            }
            if found {
                count = count + 1;
            }
        }
        i = i + 1;
    }
    count
}

/// The symbol a scope action asks `scope callers` about.
pub open spec fn callers_symbol(a: AgentAction) -> Option<Seq<char>> {
    let t = trim_seq(a.arguments_summary@);
    if a.is_scope_command && starts_with(t, "scope callers "@) {
        Some(trim_seq(t.skip(14)))
    } else {
        None
    }
}

/// The symbol a scope action asks `scope refs` about (when it is not a
/// `scope callers` call).
pub open spec fn refs_symbol(a: AgentAction) -> Option<Seq<char>> {
    let t = trim_seq(a.arguments_summary@);
    if a.is_scope_command && !starts_with(t, "scope callers "@) && starts_with(t, "scope refs "@) {
        Some(trim_seq(t.skip(11)))
    } else {
        None
    }
}

/// Both `scope callers X` and `scope refs X` were run for some symbol X.
pub open spec fn spec_callers_and_refs_overlap(actions: Seq<AgentAction>) -> bool {
    exists|i: int, j: int|
        0 <= i < actions.len() && 0 <= j < actions.len() && #[trigger] callers_symbol(actions[i])
            is Some && #[trigger] refs_symbol(actions[j]) == callers_symbol(actions[i])
}

/// The symbol that each action asks `scope callers` (first) or `scope
/// refs` (second) about.
fn asked_symbols(actions: &[AgentAction]) -> (r: (Vec<Option<Vec<char>>>, Vec<Option<Vec<char>>>))
    ensures
        r.0@.len() == actions@.len(),
        r.1@.len() == actions@.len(),
        forall|i: int|
            0 <= i < actions@.len() ==> match #[trigger] r.0@[i] {
                Some(v) => callers_symbol(actions@[i]) == Some(v@),
                None => callers_symbol(actions@[i]) is None,
            },
        forall|i: int|
            0 <= i < actions@.len() ==> match #[trigger] r.1@[i] {
                Some(v) => refs_symbol(actions@[i]) == Some(v@),
                None => refs_symbol(actions@[i]) is None,
            },
{
    proof {
        reveal_strlit("scope callers ");
        reveal_strlit("scope refs ");
    }
    let mut callers: Vec<Option<Vec<char>>> = Vec::new();
    let mut refs: Vec<Option<Vec<char>>> = Vec::new();
    let mut i: usize = 0;
    while i < actions.len()
        invariant
            i <= actions@.len(),
            callers@.len() == i,
            refs@.len() == i,
            forall|q: int|
                0 <= q < i ==> match #[trigger] callers@[q] {
                    Some(v) => callers_symbol(actions@[q]) == Some(v@),
                    None => callers_symbol(actions@[q]) is None,
                },
            forall|q: int|
                0 <= q < i ==> match #[trigger] refs@[q] {
                    Some(v) => refs_symbol(actions@[q]) == Some(v@),
                    None => refs_symbol(actions@[q]) is None,
                },
        decreases actions.len() - i,
    {
        proof {
            reveal_strlit("scope callers ");
            reveal_strlit("scope refs ");
        }
        let a = &actions[i];
        let t = trim_chars(&chars_of(a.arguments_summary.as_str()));
        let is_callers = starts_with_str(&t, "scope callers ");
        let is_refs = starts_with_str(&t, "scope refs ");
        let n = t.len();
        if a.is_scope_command && is_callers {
            let sym = trim_chars(&slice_chars(&t, 14, n));
            assert(t@.skip(14) =~= t@.subrange(14, n as int));
            callers.push(Some(sym));
            refs.push(None);
        } else if a.is_scope_command && is_refs {
            let sym = trim_chars(&slice_chars(&t, 11, n));
            assert(t@.skip(11) =~= t@.subrange(11, n as int));
            callers.push(None);
            refs.push(Some(sym));
        } else {
            callers.push(None);
            refs.push(None);
        }
        i = i + 1;
    }
    (callers, refs)
}

/// Check if both "scope callers X" and "scope refs X" appear for the same symbol X.
pub fn compute_callers_and_refs_overlap(actions: &[AgentAction]) -> (r: bool)
    ensures
        r == spec_callers_and_refs_overlap(actions@),
{
    let (callers, refs) = asked_symbols(actions);
    let n = actions.len();
    let mut a: usize = 0;
    while a < n
        invariant
            a <= n == actions@.len() == callers@.len() == refs@.len(),
            forall|i: int|
                0 <= i < n ==> match #[trigger] callers@[i] {
                    Some(v) => callers_symbol(actions@[i]) == Some(v@),
                    None => callers_symbol(actions@[i]) is None,
                },
            forall|i: int|
                0 <= i < n ==> match #[trigger] refs@[i] {
                    Some(v) => refs_symbol(actions@[i]) == Some(v@),
                    None => refs_symbol(actions@[i]) is None,
                },
            forall|x: int, y: int|
                0 <= x < a && 0 <= y < n && #[trigger] callers_symbol(actions@[x]) is Some ==> #[trigger] refs_symbol(
                    actions@[y],
                ) != callers_symbol(actions@[x]),
        decreases n - a,
    {
        match &callers[a] {
            Some(c) => {
                let mut b: usize = 0;
                while b < n
                    invariant
                        b <= n == actions@.len() == refs@.len(),
                        a < n,
                        callers_symbol(actions@[a as int]) == Some(c@),
                        forall|i: int|
                            0 <= i < n ==> match #[trigger] refs@[i] {
                                Some(v) => refs_symbol(actions@[i]) == Some(v@),
                                None => refs_symbol(actions@[i]) is None,
                            },
                        forall|y: int| 0 <= y < b ==> #[trigger] refs_symbol(actions@[y]) != Some(c@),
                    decreases n - b,
                {
                    match &refs[b] {
                        Some(x) => {
                            if crate::text::chars_eq(c, x) {
                                assert(refs_symbol(actions@[b as int]) == callers_symbol(actions@[a as int]));
                                return true;
                            }
                        },
                        None => {},
                    }
                    b = b + 1;
                }
            },
            None => {},
        }
        a = a + 1;
    }
    false
}

/// The position of the first edit, if any.
pub open spec fn first_edit(actions: Seq<AgentAction>) -> Option<int>
    decreases actions.len(),
{
    if actions.len() == 0 {
        None
    } else {
        match first_edit(actions.drop_last()) {
            Some(i) => Some(i),
            None => if actions.last().is_edit {
                Some(actions.len() - 1)
            } else {
                None
            },
        }
    }
}

/// The files read, in order, repeats included.
pub open spec fn read_files(actions: Seq<AgentAction>) -> Seq<Seq<char>> {
    actions.filter(|a: AgentAction| a.tool_name@ == "Read"@).map_values(
        |a: AgentAction| a.arguments_summary@,
    )
}

/// The scope subcommands of the scope actions that have one, in order.
pub open spec fn scope_sequence(actions: Seq<AgentAction>) -> Seq<Seq<char>>
    decreases actions.len(),
{
    if actions.len() == 0 {
        Seq::empty()
    } else {
        let rest = scope_sequence(actions.drop_last());
        let a = actions.last();
        if a.is_scope_command && spec_extract_scope_subcommand(a.arguments_summary@) is Some {
            rest.push(spec_extract_scope_subcommand(a.arguments_summary@).unwrap())
        } else {
            rest
        }
    }
}

/// Where the first edit is: an edit with none before it; without one, no
/// action is an edit.
pub proof fn lemma_first_edit(actions: Seq<AgentAction>)
    ensures
        match first_edit(actions) {
            Some(i) => 0 <= i < actions.len() && actions[i].is_edit && forall|j: int|
                0 <= j < i ==> !(#[trigger] actions[j]).is_edit,
            None => forall|j: int| 0 <= j < actions.len() ==> !(#[trigger] actions[j]).is_edit,
        },
    decreases actions.len(),
{
    if actions.len() > 0 {
        lemma_first_edit(actions.drop_last());
        assert forall|j: int| 0 <= j < actions.len() - 1 implies actions.drop_last()[j] == actions[j] by {}
    }
}

/// The behavior counts of a run hang together: reads split into first
/// reads of a file and repeats, which add up to the Read actions; the
/// scope commands before the first edit are at most all of them; the
/// actions before the first edit are at most all of them; and a run
/// without actions counts nothing.
pub proof fn lemma_behavior_counts_consistent(actions: Seq<AgentAction>)
    ensures
        read_files(actions).to_set().len() <= read_files(actions).len(),
        read_files(actions).to_set().len() + (read_files(actions).len() - read_files(actions).to_set().len())
            == actions.filter(|a: AgentAction| a.tool_name@ == "Read"@).len(),
        match first_edit(actions) {
            Some(i) => 0 <= i < actions.len() && actions.take(i).filter(action_kind(2)).len() <= actions.filter(
                action_kind(2),
            ).len(),
            None => true,
        },
        actions.len() == 0 ==> first_edit(actions) is None && read_files(actions).len() == 0
            && actions.filter(action_kind(2)).len() == 0 && read_files(actions).to_set().len() == 0,
{
    read_files(actions).lemma_cardinality_of_set();
    lemma_first_edit(actions);
    match first_edit(actions) {
        Some(i) => {
            actions.lemma_filter_take_len(action_kind(2), i);
        },
        None => {},
    }
    if actions.len() == 0 {
        assert(actions.filter(action_kind(2)) =~= Seq::<AgentAction>::empty());
        assert(actions.filter(|a: AgentAction| a.tool_name@ == "Read"@) =~= Seq::<AgentAction>::empty());
        assert(read_files(actions) =~= Seq::<Seq<char>>::empty());
        assert(read_files(actions).to_set() =~= Set::<Seq<char>>::empty());
    }
}

/// The whole-number behavior metrics of a run (the navigation-to-edit
/// ratio is worked out from `navigation_count` and `edit_count`).
#[derive(Debug, Clone)]
pub struct BehaviorCounts {
    /// Actions before the first edit (all of them without an edit).
    pub actions_before_first_edit: u32,
    /// Distinct files read.
    pub unique_files_read: u32,
    /// Reads of a file already read.
    pub redundant_reads: u32,
    /// All actions.
    pub total_actions: u32,
    /// Scope commands run.
    pub scope_commands_total: u32,
    /// Scope commands run before the first edit.
    pub scope_commands_before_first_edit: u32,
    /// Scope commands followed by a Read of a file they covered.
    pub scope_then_read_same_file: u32,
    /// The scope subcommands, in order.
    pub scope_command_sequence: Vec<String>,
    /// Greps soon after a `scope find`.
    pub grep_after_scope_find: u32,
    /// Both `scope callers` and `scope refs` asked about one symbol.
    pub callers_and_refs_same_symbol: bool,
    /// Navigation actions.
    pub navigation_count: u32,
    /// Edit actions.
    pub edit_count: u32,
}

/// Counts the actions for which `f` holds among the first `n`.
fn count_where(actions: &[AgentAction], n: usize, which: u8) -> (r: u32)
    requires
        n <= actions@.len() <= u32::MAX,
        which < 3,
    ensures
        r == actions@.take(n as int).filter(action_kind(which)).len(),
{
    let ghost f = action_kind(which);
    let mut c: u32 = 0;
    let mut i: usize = 0;
    while i < n
        invariant
            i <= n <= actions@.len() <= u32::MAX,
            which < 3,
            f == action_kind(which),
            c == actions@.take(i as int).filter(f).len(),
            c <= i,
        decreases n - i,
    {
        let a = &actions[i];
        proof {
            assert(actions@.take(i + 1) =~= actions@.take(i as int).push(*a));
            crate::text::lemma_filter_push(actions@.take(i as int), *a, f);
        }
        let hit = if which == 0 {
            a.is_navigation
        } else if which == 1 {
            a.is_edit
        } else {
            a.is_scope_command
        };
        if hit {
            c = c + 1;
        }
        i = i + 1;
    }
    c
}

/// Navigation (0), edit (1) or scope (2) actions.
pub open spec fn action_kind(which: u8) -> spec_fn(AgentAction) -> bool {
    |a: AgentAction| if which == 0 {
        a.is_navigation
    } else if which == 1 {
        a.is_edit
    } else {
        a.is_scope_command
    }
}

/// Compute the whole-number behavior metrics from a sequence of agent actions.
pub fn behavior_counts(actions: &[AgentAction]) -> (r: BehaviorCounts)
    requires
        actions@.len() <= u32::MAX,
    ensures
        r.total_actions == actions@.len(),
        r.actions_before_first_edit == match first_edit(actions@) {
            Some(i) => i,
            None => actions@.len() as int,
        },
        r.unique_files_read == read_files(actions@).to_set().len(),
        r.redundant_reads == read_files(actions@).len() - read_files(actions@).to_set().len(),
        r.scope_commands_total == actions@.filter(action_kind(2)).len(),
        r.scope_commands_before_first_edit == match first_edit(actions@) {
            Some(i) => actions@.take(i).filter(action_kind(2)).len(),
            None => actions@.filter(action_kind(2)).len(),
        },
        r.scope_then_read_same_file == scope_then_read_upto(actions@, actions@.len() as int),
        views(r.scope_command_sequence@) == scope_sequence(actions@),
        r.grep_after_scope_find == grep_after_find_upto(actions@, actions@.len() as int),
        r.callers_and_refs_same_symbol == spec_callers_and_refs_overlap(actions@),
        r.navigation_count == actions@.filter(action_kind(0)).len(),
        r.edit_count == actions@.filter(action_kind(1)).len(),
{
    let n = actions.len();
    assert(actions@.take(n as int) =~= actions@);
    let mut first: Option<usize> = None;
    let mut i: usize = 0;
    while i < n && first.is_none()
        invariant
            i <= n == actions@.len(),
            first is None ==> first_edit(actions@.take(i as int)) is None,
            first is Some ==> first.unwrap() < n && first_edit(actions@) == Some(first.unwrap() as int),
        decreases n - i + (if first is None { 1int } else { 0int }),
    {
        proof {
            assert(actions@.take(i + 1).drop_last() =~= actions@.take(i as int));
        }
        if actions[i].is_edit {
            proof {
                lemma_first_edit_extends(actions@, i as int);
            }
            first = Some(i);
        }
        i = i + 1;
    }
    proof {
        if first is None {
            assert(i == n);
        }
    }
    let before = match first {
        Some(k) => k,
        None => n,
    };
    let mut reads: Vec<String> = Vec::new();
    let ghost rf = |a: AgentAction| a.tool_name@ == "Read"@;
    let mut k: usize = 0;
    while k < n
        invariant
            k <= n == actions@.len(),
            rf == (|a: AgentAction| a.tool_name@ == "Read"@),
            views(reads@) == actions@.take(k as int).filter(rf).map_values(
                |a: AgentAction| a.arguments_summary@,
            ),
            reads@.len() <= k,
        decreases n - k,
    {
        let a = &actions[k];
        proof {
            assert(actions@.take(k + 1) =~= actions@.take(k as int).push(*a));
            crate::text::lemma_filter_push(actions@.take(k as int), *a, rf);
        }
        if str_eq(a.tool_name.as_str(), "Read") {
            let ghost prev = views(reads@);
            reads.push(a.arguments_summary.clone());
            assert(views(reads@) =~= prev.push(a.arguments_summary@));
            let ghost fl = actions@.take(k as int).filter(rf);
            assert(fl.push(*a).map_values(|a: AgentAction| a.arguments_summary@) =~= fl.map_values(
                |a: AgentAction| a.arguments_summary@,
            ).push(a.arguments_summary@));
        }
        k = k + 1;
    }
    let unique = count_distinct(&reads);
    proof {
        views(reads@).lemma_cardinality_of_set();
    }
    let mut seq_out: Vec<String> = Vec::new();
    let mut q: usize = 0;
    while q < n
        invariant
            q <= n == actions@.len(),
            views(seq_out@) == scope_sequence(actions@.take(q as int)),
        decreases n - q,
    {
        let a = &actions[q];
        proof {
            assert(actions@.take(q + 1).drop_last() =~= actions@.take(q as int));
            assert(actions@.take(q + 1).last() == *a);
        }
        if a.is_scope_command {
            match extract_scope_subcommand(a.arguments_summary.as_str()) {
                Some(sc) => {
                    let ghost prev = views(seq_out@);
                    seq_out.push(sc);
                    assert(views(seq_out@) =~= prev.push(spec_extract_scope_subcommand(a.arguments_summary@).unwrap()));
                },
                None => {},
            }
        }
        q = q + 1;
    }
    let scope_total = count_where(actions, n, 2);
    let scope_before = count_where(actions, before, 2);
    let nav = count_where(actions, n, 0);
    let edits = count_where(actions, n, 1);
    BehaviorCounts {
        actions_before_first_edit: before as u32,
        unique_files_read: unique as u32,
        redundant_reads: (reads.len() - unique) as u32,
        total_actions: n as u32,
        scope_commands_total: scope_total,
        scope_commands_before_first_edit: scope_before,
        scope_then_read_same_file: compute_scope_then_read(actions),
        scope_command_sequence: seq_out,
        grep_after_scope_find: compute_grep_after_scope_find(actions),
        callers_and_refs_same_symbol: compute_callers_and_refs_overlap(actions),
        navigation_count: nav,
        edit_count: edits,
    }
}

/// Finding an edit at `i` after none before makes `i` the first edit.
proof fn lemma_first_edit_extends(actions: Seq<AgentAction>, i: int)
    requires
        0 <= i < actions.len(),
        first_edit(actions.take(i)) is None,
        actions[i].is_edit,
    ensures
        first_edit(actions) == Some(i),
    decreases actions.len(),
{
    if i == actions.len() - 1 {
        assert(actions.drop_last() =~= actions.take(i));
    } else {
        assert(actions.drop_last().take(i) =~= actions.take(i));
        lemma_first_edit_extends(actions.drop_last(), i);
    }
}

/// The number of distinct strings in a list.
fn count_distinct(v: &Vec<String>) -> (r: usize)
    ensures
        r == views(v@).to_set().len(),
        r <= v@.len(),
{
    let mut seen: Vec<String> = Vec::new();
    let mut i: usize = 0;
    while i < v.len()
        invariant
            i <= v@.len(),
            views(seen@).no_duplicates(),
            views(seen@).to_set() == views(v@).take(i as int).to_set(),
            seen@.len() <= i,
        decreases v.len() - i,
    {
        let x = &v[i];
        let mut found = false;
        let mut j: usize = 0;
        while j < seen.len()
            invariant
                j <= seen@.len(),
                !found ==> forall|q: int| 0 <= q < j ==> views(seen@)[q] != x@,
                found ==> views(seen@).contains(x@),
            decreases seen.len() - j,
        {
            if seen[j] == *x {
                assert(views(seen@)[j as int] == x@);
                found = true;
            }
            j = j + 1;
        }
        proof {
            assert(views(v@).take(i + 1) =~= views(v@).take(i as int).push(x@));
            views(v@).take(i as int).lemma_push_to_set_commute(x@);
        }
        if !found {
            let ghost before = views(seen@);
            seen.push(x.clone());
            proof {
                assert(views(seen@) =~= before.push(x@));
                before.lemma_push_to_set_commute(x@);
                assert(views(seen@).no_duplicates()) by {
                    assert forall|a: int, b: int|
                        0 <= a < b < views(seen@).len() implies views(seen@)[a] != views(seen@)[b] by {
                        if b == before.len() {
                            assert(views(seen@)[a] == before[a]);
                        }
                    }
                }
            }
        } else {
            proof {
                assert(views(seen@).to_set().insert(x@) =~= views(seen@).to_set());
            }
        }
        i = i + 1;
    }
    proof {
        assert(views(v@).take(v@.len() as int) =~= views(v@));
        views(seen@).unique_seq_to_set();
    }
    seen.len()
}


/// Sum of `f` over the runs, as an integer.
pub open spec fn sum_over(runs: Seq<BehaviorCounts>, f: spec_fn(BehaviorCounts) -> int) -> int
    decreases runs.len(),
{
    if runs.len() == 0 {
        0
    } else {
        sum_over(runs.drop_last(), f) + f(runs.last())
    }
}

/// A run's count of scope commands followed by a read of a covered file.
pub open spec fn sketch_then_read_of() -> spec_fn(BehaviorCounts) -> int {
    |m: BehaviorCounts| m.scope_then_read_same_file as int
}

/// A run's count of greps soon after a `scope find`.
pub open spec fn grep_after_find_of() -> spec_fn(BehaviorCounts) -> int {
    |m: BehaviorCounts| m.grep_after_scope_find as int
}

/// 1 for a run that asked callers and refs about one symbol, else 0.
pub open spec fn callers_and_refs_of() -> spec_fn(BehaviorCounts) -> int {
    |m: BehaviorCounts| if m.callers_and_refs_same_symbol { 1int } else { 0int }
}

/// Adding up the anti-patterns of runs with Scope: the two counts are
/// summed over the runs, and the runs that asked both `scope callers` and
/// `scope refs` about one symbol are counted.
pub fn aggregate_anti_patterns(with_scope: &[BehaviorCounts]) -> (r: ScopeAntiPatterns)
    requires
        sum_over(with_scope@, sketch_then_read_of()) <= u32::MAX,
        sum_over(with_scope@, grep_after_find_of()) <= u32::MAX,
        with_scope@.len() <= u32::MAX,
    ensures
        r.sketch_then_read_count == sum_over(with_scope@, sketch_then_read_of()),
        r.grep_after_find_count == sum_over(with_scope@, grep_after_find_of()),
        r.callers_and_refs_count == sum_over(with_scope@, callers_and_refs_of()),
{
    let mut sketch: u32 = 0;
    let mut grep: u32 = 0;
    let mut both: u32 = 0;
    let mut i: usize = 0;
    while i < with_scope.len()
        invariant
            i <= with_scope@.len() <= u32::MAX,
            sum_over(with_scope@, sketch_then_read_of()) <= u32::MAX,
            sum_over(with_scope@, grep_after_find_of()) <= u32::MAX,
            sketch == sum_over(with_scope@.take(i as int), sketch_then_read_of()),
            grep == sum_over(with_scope@.take(i as int), grep_after_find_of()),
            both == sum_over(with_scope@.take(i as int), callers_and_refs_of()),
            0 <= both <= i,
        decreases with_scope@.len() - i,
    {
        let m = &with_scope[i];
        proof {
            assert(with_scope@.take(i + 1).drop_last() =~= with_scope@.take(i as int));
            lemma_sum_over_prefix(with_scope@, sketch_then_read_of(), i + 1);
            lemma_sum_over_prefix(with_scope@, grep_after_find_of(), i + 1);
        }
        sketch = sketch + m.scope_then_read_same_file;
        grep = grep + m.grep_after_scope_find;
        if m.callers_and_refs_same_symbol {
            both = both + 1;
        }
        i = i + 1;
    }
    assert(with_scope@.take(i as int) =~= with_scope@);
    ScopeAntiPatterns { sketch_then_read_count: sketch, grep_after_find_count: grep, callers_and_refs_count: both }
}

/// A sum over a prefix is at most the sum over the whole, for counts that
/// are never negative.
proof fn lemma_sum_over_prefix(runs: Seq<BehaviorCounts>, f: spec_fn(BehaviorCounts) -> int, n: int)
    requires
        0 <= n <= runs.len(),
        forall|m: BehaviorCounts| #[trigger] f(m) >= 0,
    ensures
        sum_over(runs.take(n), f) <= sum_over(runs, f),
    decreases runs.len(),
{
    if n < runs.len() {
        assert(runs.drop_last().take(n) =~= runs.take(n));
        lemma_sum_over_prefix(runs.drop_last(), f, n);
    } else {
        assert(runs.take(n) =~= runs);
    }
}

/// The run used `scope callers` at some point but never `scope refs`.
pub open spec fn spec_callers_without_refs(sequences: Seq<Seq<Seq<char>>>) -> bool {
    &&& exists|i: int, j: int|
        0 <= i < sequences.len() && 0 <= j < sequences[i].len() && starts_with(
            #[trigger] sequences[i][j],
            "scope callers"@,
        )
    &&& forall|i: int, j: int|
        0 <= i < sequences.len() && 0 <= j < sequences[i].len() ==> !starts_with(
            #[trigger] sequences[i][j],
            "scope refs"@,
        )
}

/// Whether some scope command sequence uses `scope callers` while none uses
/// `scope refs`, which the recommendations point out.
pub fn callers_without_refs(sequences: &Vec<Vec<String>>) -> (r: bool)
    ensures
        r == spec_callers_without_refs(sequences@.map_values(|v: Vec<String>| views(v@))),
{
    let ghost seqs = sequences@.map_values(|v: Vec<String>| views(v@));
    let mut has_callers = false;
    let mut has_refs = false;
    let mut i: usize = 0;
    while i < sequences.len()
        invariant
            i <= sequences.len(),
            seqs == sequences@.map_values(|v: Vec<String>| views(v@)),
            has_callers == exists|a: int, b: int|
                0 <= a < i && 0 <= b < seqs[a].len() && starts_with(#[trigger] seqs[a][b], "scope callers"@),
            has_refs == exists|a: int, b: int|
                0 <= a < i && 0 <= b < seqs[a].len() && starts_with(#[trigger] seqs[a][b], "scope refs"@),
        decreases sequences.len() - i,
    {
        let cmds = &sequences[i];
        assert(seqs[i as int] == views(cmds@));
        let mut j: usize = 0;
        let ghost callers_before = has_callers;
        let ghost refs_before = has_refs;
        while j < cmds.len()
            invariant
                i < sequences.len(),
                j <= cmds.len(),
                seqs == sequences@.map_values(|v: Vec<String>| views(v@)),
                seqs[i as int] == views(cmds@),
                has_callers == (callers_before || exists|b: int|
                    0 <= b < j && starts_with(#[trigger] seqs[i as int][b], "scope callers"@)),
                has_refs == (refs_before || exists|b: int|
                    0 <= b < j && starts_with(#[trigger] seqs[i as int][b], "scope refs"@)),
            decreases cmds.len() - j,
        {
            assert(seqs[i as int][j as int] == cmds@[j as int]@);
            if starts_with_str(&chars_of(cmds[j].as_str()), "scope callers") {
                has_callers = true;
            }
            if starts_with_str(&chars_of(cmds[j].as_str()), "scope refs") {
                has_refs = true;
            }
            j = j + 1;
        }
        proof {
            if has_callers && !callers_before {
                let b = choose|b: int| 0 <= b < j && starts_with(#[trigger] seqs[i as int][b], "scope callers"@);
                assert(0 <= i < i + 1 && 0 <= b < seqs[i as int].len());
            }
            if has_refs && !refs_before {
                let b = choose|b: int| 0 <= b < j && starts_with(#[trigger] seqs[i as int][b], "scope refs"@);
                assert(0 <= i < i + 1 && 0 <= b < seqs[i as int].len());
            }
            assert forall|a: int, b: int|
                0 <= a < i + 1 && 0 <= b < seqs[a].len() && starts_with(#[trigger] seqs[a][b], "scope callers"@)
                implies has_callers by {
                if a == i {
                    assert(b < j);
                }
            }
            assert forall|a: int, b: int|
                0 <= a < i + 1 && 0 <= b < seqs[a].len() && starts_with(#[trigger] seqs[a][b], "scope refs"@)
                implies has_refs by {
                if a == i {
                    assert(b < j);
                }
            }
        }
        i = i + 1;
    }
    has_callers && !has_refs
}

} // verus!

//! How rollout messages are presented: internal context, wrappers, plans
//! proposed inside assistant messages, and the kinds of tools.

use vstd::prelude::*;

use crate::model::{EntryPresentation, MessageRole, ToolKind};
use crate::text::{
    seq_contains_seq, starts_with, str_contains, str_eq, str_starts_with, str_trim, str_trim_start,
    string_push_str, trim_end_spec, trim_start_spec,
};

verus! {

/// The prefixes that mark injected context rather than conversation.
pub open spec fn internal_prefix(t: Seq<char>) -> bool {
    starts_with(t, "# AGENTS.md instructions for "@) || starts_with(t, "<environment_context"@)
        || starts_with(t, "<codex_internal_context"@) || starts_with(t, "<permissions instructions>"@)
        || starts_with(t, "<collaboration_mode>"@) || starts_with(t, "<skills_instructions>"@)
        || starts_with(t, "<plugins_instructions>"@) || starts_with(t, "<system-reminder"@)
        || starts_with(t, "<skill>"@)
}

/// Whether a message is injected context: after leading whitespace it opens
/// with an AGENTS.md heading or one of the context tags.
pub fn is_internal_message(text: &str) -> (r: bool)
    ensures
        r == internal_prefix(trim_start_spec(text@)),
{
    let trimmed = str_trim_start(text);
    str_starts_with(trimmed, "# AGENTS.md instructions for ") || str_starts_with(trimmed, "<environment_context")
        || str_starts_with(trimmed, "<codex_internal_context") || str_starts_with(trimmed, "<permissions instructions>")
        || str_starts_with(trimmed, "<collaboration_mode>") || str_starts_with(trimmed, "<skills_instructions>")
        || str_starts_with(trimmed, "<plugins_instructions>") || str_starts_with(trimmed, "<system-reminder")
        || str_starts_with(trimmed, "<skill>")
}

/// Whether a message wraps a user action that the user received.
pub fn is_received_wrapper(text: &str) -> (r: bool)
    ensures
        r == starts_with(trim_start_spec(text@), "<user_action>"@),
{
    str_starts_with(str_trim_start(text), "<user_action>")
}

/// Whether a message wraps a technical notice of an aborted turn.
pub fn is_technical_wrapper(text: &str) -> (r: bool)
    ensures
        r == starts_with(trim_start_spec(text@), "<turn_aborted>"@),
{
    str_starts_with(str_trim_start(text), "<turn_aborted>")
}

/// How a message of `role` with text `text` is presented.
pub open spec fn presentation_spec(role: MessageRole, text: Seq<char>) -> EntryPresentation {
    let t = trim_start_spec(text);
    if internal_prefix(t) || role == MessageRole::Developer || role == MessageRole::System {
        EntryPresentation::Internal
    } else if starts_with(t, "<user_action>"@) {
        EntryPresentation::Response
    } else if starts_with(t, "<turn_aborted>"@) {
        EntryPresentation::Technical
    } else if role == MessageRole::User {
        EntryPresentation::User
    } else {
        EntryPresentation::Response
    }
}

/// How a message is presented: injected context and developer or system
/// messages are internal; received user actions are responses; aborted-turn
/// notices are technical; otherwise by role.
pub fn message_presentation(role: MessageRole, text: &str) -> (r: EntryPresentation)
    ensures
        r == presentation_spec(role, text@),
{
    if is_internal_message(text) || role == MessageRole::Developer || role == MessageRole::System {
        return EntryPresentation::Internal;
    }
    if is_received_wrapper(text) {
        return EntryPresentation::Response;
    }
    if is_technical_wrapper(text) {
        return EntryPresentation::Technical;
    }
    match role {
        MessageRole::User => EntryPresentation::User,
        MessageRole::Assistant => EntryPresentation::Response,
        MessageRole::Developer | MessageRole::System => EntryPresentation::Internal,
    }
}

/// The title of a message entry.
pub open spec fn message_title_spec(presentation: EntryPresentation, role: MessageRole) -> Seq<char> {
    match presentation {
        EntryPresentation::User => "User"@,
        EntryPresentation::Response => if role == MessageRole::User { "Received"@ } else { "Assistant"@ },
        EntryPresentation::Technical => "Technical message"@,
        EntryPresentation::Internal => "Internal context"@,
    }
}

/// The title of a message entry.
pub fn message_title(presentation: EntryPresentation, role: MessageRole) -> (r: &'static str)
    ensures
        r@ == message_title_spec(presentation, role),
{
    match presentation {
        EntryPresentation::User => "User",
        EntryPresentation::Response => if role == MessageRole::User { "Received" } else { "Assistant" },
        EntryPresentation::Technical => "Technical message",
        EntryPresentation::Internal => "Internal context",
    }
}

/// The tool kind of an event type, if it is a tool event.
pub open spec fn tool_event_kind_spec(event: Seq<char>) -> Option<ToolKind> {
    if starts_with(event, "exec_command"@) || event == "terminal_interaction"@ {
        Some(ToolKind::Command)
    } else if starts_with(event, "patch_apply"@) {
        Some(ToolKind::Patch)
    } else if starts_with(event, "mcp_tool_call"@) {
        Some(ToolKind::Mcp)
    } else if starts_with(event, "web_search"@) {
        Some(ToolKind::WebSearch)
    } else if starts_with(event, "dynamic_tool_call"@) {
        Some(ToolKind::Dynamic)
    } else if starts_with(event, "image_generation"@) || event == "view_image_tool_call"@ {
        Some(ToolKind::ViewImage)
    } else {
        None
    }
}

/// The tool kind of an event type, if it is a tool event.
pub fn tool_event_kind(event: &str) -> (r: Option<ToolKind>)
    ensures
        r == tool_event_kind_spec(event@),
{
    if str_starts_with(event, "exec_command") || str_eq(event, "terminal_interaction") {
        Some(ToolKind::Command)
    } else if str_starts_with(event, "patch_apply") {
        Some(ToolKind::Patch)
    } else if str_starts_with(event, "mcp_tool_call") {
        Some(ToolKind::Mcp)
    } else if str_starts_with(event, "web_search") {
        Some(ToolKind::WebSearch)
    } else if str_starts_with(event, "dynamic_tool_call") {
        Some(ToolKind::Dynamic)
    } else if str_starts_with(event, "image_generation") || str_eq(event, "view_image_tool_call") {
        Some(ToolKind::ViewImage)
    } else {
        None
    }
}

/// The tool kind a function name suggests.
pub open spec fn tool_kind_from_name_spec(name: Seq<char>) -> ToolKind {
    if name == "request_user_input"@ {
        ToolKind::RequestUserInput
    } else if seq_contains_seq(name, "apply_patch"@) || name == "patch"@ {
        ToolKind::Patch
    } else if starts_with(name, "mcp__"@) {
        ToolKind::Mcp
    } else if seq_contains_seq(name, "web"@) || seq_contains_seq(name, "search"@) {
        ToolKind::WebSearch
    } else if seq_contains_seq(name, "command"@) || seq_contains_seq(name, "shell"@) || name == "exec"@ {
        ToolKind::Command
    } else {
        ToolKind::Function
    }
}

/// The tool kind a function name suggests.
pub fn tool_kind_from_name(name: &str) -> (r: ToolKind)
    ensures
        r == tool_kind_from_name_spec(name@),
{
    if str_eq(name, "request_user_input") {
        ToolKind::RequestUserInput
    } else if str_contains(name, "apply_patch") || str_eq(name, "patch") {
        ToolKind::Patch
    } else if str_starts_with(name, "mcp__") {
        ToolKind::Mcp
    } else if str_contains(name, "web") || str_contains(name, "search") {
        ToolKind::WebSearch
    } else if str_contains(name, "command") || str_contains(name, "shell") || str_eq(name, "exec") {
        ToolKind::Command
    } else {
        ToolKind::Function
    }
}

/// The pieces of `s` that each end with `sep`, the last one perhaps not,
/// scanning with `cur` begun.
pub open spec fn lines_from(s: Seq<char>, sep: char, cur: Seq<char>) -> Seq<Seq<char>>
    decreases s.len(),
{
    if s.len() == 0 {
        if cur.len() == 0 { Seq::empty() } else { seq![cur] }
    } else if s[0] == sep {
        seq![cur.push(sep)] + lines_from(s.drop_first(), sep, Seq::empty())
    } else {
        lines_from(s.drop_first(), sep, cur.push(s[0]))
    }
}

/// The lines of `s`, each keeping its newline; a last line without one is
/// kept too.
pub open spec fn inclusive_lines(s: Seq<char>) -> Seq<Seq<char>> {
    lines_from(s, '\n', Seq::empty())
}

/// Calls `str::split_inclusive` with a character: as std documents, the
/// pieces end with the separator that ends them, and a final piece without
/// one is returned unless it is empty.
#[verifier::external_body]
fn str_split_inclusive_char<'a>(s: &'a str, sep: char) -> (r: Vec<&'a str>)
    ensures
        r@.map_values(|p: &str| p@) == lines_from(s@, sep, Seq::empty()),
{
    s.split_inclusive(sep).collect()
}

/// `s` without one trailing newline.
pub open spec fn without_newline(s: Seq<char>) -> Seq<char> {
    if s.len() > 0 && s.last() == '\n' { s.drop_last() } else { s }
}

/// Calls `str::strip_suffix` with a character: the text before a final
/// `c`, if it ends with one.
#[verifier::external_body]
fn str_strip_suffix_char(s: &str, c: char) -> (r: Option<&str>)
    ensures
        r is Some <==> (s@.len() > 0 && s@.last() == c),
        r matches Some(t) ==> t@ == s@.drop_last(),
{
    s.strip_suffix(c)
}

/// What has been read of a message while looking for proposed plans: the
/// visible text, the plan being read and the last plan closed.
pub struct PlanScan {
    pub visible: Seq<char>,
    pub active: Option<Seq<char>>,
    pub last: Option<Seq<char>>,
}

/// The scan after reading one more line.
pub open spec fn plan_step(st: PlanScan, line: Seq<char>) -> PlanScan {
    let slug = trim_end_spec(trim_start_spec(without_newline(line)));
    if st.active is None && slug == "<proposed_plan>"@ {
        PlanScan { visible: st.visible, active: Some(Seq::empty()), last: st.last }
    } else if st.active is Some && slug == "</proposed_plan>"@ {
        PlanScan { visible: st.visible, active: None, last: st.active }
    } else if st.active is Some {
        PlanScan { visible: st.visible, active: Some(st.active->0 + line), last: st.last }
    } else {
        PlanScan { visible: st.visible + line, active: None, last: st.last }
    }
}

/// The scan after reading the first `k` lines.
pub open spec fn plan_scan(lines: Seq<Seq<char>>, k: int) -> PlanScan
    decreases k,
{
    if k <= 0 {
        PlanScan { visible: Seq::empty(), active: None, last: None }
    } else {
        plan_step(plan_scan(lines, k - 1), lines[k - 1])
    }
}

/// The visible text and the last proposed plan of a message, if it proposes
/// one; a plan left open at the end counts.
pub open spec fn split_plan_spec(text: Seq<char>) -> Option<(Seq<char>, Seq<char>)> {
    let lines = inclusive_lines(text);
    let st = plan_scan(lines, lines.len() as int);
    let last = if st.active is Some { st.active } else { st.last };
    match last {
        Some(plan) => Some((st.visible, plan)),
        None => None,
    }
}

/// A message split around its proposed plan.
#[derive(Debug)]
pub struct ProposedPlanParts {
    pub visible_text: String,
    pub plan_text: String,
}

/// Splits `<proposed_plan>` blocks out of an assistant message: lines inside
/// a block form the plan (the last block wins), the others stay visible.
pub fn split_proposed_plan_blocks(text: &str) -> (r: Option<ProposedPlanParts>)
    ensures
        match split_plan_spec(text@) {
            None => r is None,
            Some(parts) => (r matches Some(p) && p.visible_text@ == parts.0 && p.plan_text@ == parts.1),
        },
{
    let lines = str_split_inclusive_char(text, '\n');
    let ghost ls = inclusive_lines(text@);
    let mut visible_text = String::new();
    let mut active_plan: Option<String> = None;
    let mut last_plan: Option<String> = None;
    let mut i: usize = 0;
    while i < lines.len()
        invariant
            i <= lines@.len(),
            lines@.map_values(|p: &str| p@) == ls,
            ({
                let st = plan_scan(ls, i as int);
                &&& visible_text@ == st.visible
                &&& (match active_plan {
                    Some(p) => st.active == Some(p@),
                    None => st.active is None,
                })
                &&& (match last_plan {
                    Some(p) => st.last == Some(p@),
                    None => st.last is None,
                })
            }),
        decreases lines@.len() - i,
    {
        let line = lines[i];
        assert(ls[i as int] == line@);
        let stripped = match str_strip_suffix_char(line, '\n') {
            Some(t) => t,
            None => line,
        };
        let slug = str_trim(stripped);
        if active_plan.is_none() && str_eq(slug, "<proposed_plan>") {
            active_plan = Some(String::new());
        } else if active_plan.is_some() && str_eq(slug, "</proposed_plan>") {
            last_plan = active_plan;
            active_plan = None;
        } else if active_plan.is_some() {
            let mut plan = active_plan.unwrap();
            string_push_str(&mut plan, line);
            active_plan = Some(plan);
        } else {
            string_push_str(&mut visible_text, line);
        }
        i = i + 1;
    }
    if active_plan.is_some() {
        last_plan = active_plan;
    }
    match last_plan {
        Some(plan_text) => Some(ProposedPlanParts { visible_text, plan_text }),
        None => None,
    }
}

} // verus!

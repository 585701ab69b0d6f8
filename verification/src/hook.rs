//! Codex hook events: their names, the lifecycle observation each reports,
//! validation of typed hook input, and the PreToolUse denial decision.
use vstd::prelude::*;

use crate::json::{JsonValue, JsonMember, JsonView, json_get, json_get_member, clone_json, json_members_view, json_view, lemma_members_view, json_text, render_json};
use crate::shell::{
    force_push_or_destructive_git_reason, force_push_or_destructive_git_spec,
    recursive_delete_or_move_is_unverified, recursive_delete_or_move_spec,
    protected_generated_state_reference, protected_reference_spec, mutation_intent, mutation_intent_spec,
};
use crate::text::{str_eq, chars_of, lower_chars, lower_seq, contains_seq, contains_str, contains_char};

verus! {

/// Maximum size of one hook input, in bytes.
pub const HOOK_INPUT_MAX_BYTES: usize = 1048576;

/// Codex waits this many seconds for a SessionEnd hook.
pub const SESSION_END_CODEX_HOST_TIMEOUT_SECONDS: u64 = 3;

/// The SessionEnd lifecycle report must finish within this many
/// milliseconds: one second inside the host's budget.
pub const SESSION_END_LIFECYCLE_REPORT_TIMEOUT_MILLIS: u64 = 2000;

#[derive(Clone, Copy, Debug, PartialEq, Eq, Structural)]
pub enum HookEvent {
    SessionStart,
    SessionEnd,
    UserPromptSubmit,
    Stop,
    PreToolUse,
    PostToolUse,
    SubagentStart,
    SubagentStop,
}

pub open spec fn hook_event_name_spec(e: HookEvent) -> Seq<char> {
    match e {
        HookEvent::SessionStart => "SessionStart"@,
        HookEvent::SessionEnd => "SessionEnd"@,
        HookEvent::UserPromptSubmit => "UserPromptSubmit"@,
        HookEvent::Stop => "Stop"@,
        HookEvent::PreToolUse => "PreToolUse"@,
        HookEvent::PostToolUse => "PostToolUse"@,
        HookEvent::SubagentStart => "SubagentStart"@,
        HookEvent::SubagentStop => "SubagentStop"@,
    }
}

pub open spec fn lifecycle_event_spec(e: HookEvent) -> Seq<char> {
    match e {
        HookEvent::SessionStart => "session_start"@,
        HookEvent::SessionEnd => "root_stop"@,
        HookEvent::UserPromptSubmit => "user_prompt_submit"@,
        HookEvent::Stop => "root_stop"@,
        HookEvent::PreToolUse => "tool_started"@,
        HookEvent::PostToolUse => "tool_finished"@,
        HookEvent::SubagentStart => "subagent_started"@,
        HookEvent::SubagentStop => "subagent_finished"@,
    }
}

impl HookEvent {
    /// The `hook_event_name` Codex sends with this event.
    pub fn hook_event_name(self) -> (result: &'static str)
        ensures
            result@ == hook_event_name_spec(self),
    {
        match self {
            HookEvent::SessionStart => "SessionStart",
            HookEvent::SessionEnd => "SessionEnd",
            HookEvent::UserPromptSubmit => "UserPromptSubmit",
            HookEvent::Stop => "Stop",
            HookEvent::PreToolUse => "PreToolUse",
            HookEvent::PostToolUse => "PostToolUse",
            HookEvent::SubagentStart => "SubagentStart",
            HookEvent::SubagentStop => "SubagentStop",
        }
    }

    /// The Controller lifecycle observation this event reports; a session
    /// end is a bounded root stop.
    pub fn lifecycle_event(self) -> (result: &'static str)
        ensures
            result@ == lifecycle_event_spec(self),
    {
        match self {
            HookEvent::SessionStart => "session_start",
            HookEvent::SessionEnd => "root_stop",
            HookEvent::UserPromptSubmit => "user_prompt_submit",
            HookEvent::Stop => "root_stop",
            HookEvent::PreToolUse => "tool_started",
            HookEvent::PostToolUse => "tool_finished",
            HookEvent::SubagentStart => "subagent_started",
            HookEvent::SubagentStop => "subagent_finished",
        }
    }

    /// The internal budget, in milliseconds, for reporting this event's
    /// lifecycle observation; only SessionEnd is bounded.
    pub fn lifecycle_report_timeout(self) -> (result: Option<u64>)
        ensures
            result == if self == HookEvent::SessionEnd { Some(SESSION_END_LIFECYCLE_REPORT_TIMEOUT_MILLIS) } else { None },
            result matches Some(t) ==> t < SESSION_END_CODEX_HOST_TIMEOUT_SECONDS * 1000,
    {
        match self {
            HookEvent::SessionEnd => Some(SESSION_END_LIFECYCLE_REPORT_TIMEOUT_MILLIS),
            _ => None,
        }
    }
}

/// The hook event a `star hook <name>` command names.
pub open spec fn hook_event_named(name: Seq<char>) -> Option<HookEvent> {
    if name == "session-start"@ {
        Some(HookEvent::SessionStart)
    } else if name == "session-end"@ {
        Some(HookEvent::SessionEnd)
    } else if name == "user-prompt-submit"@ {
        Some(HookEvent::UserPromptSubmit)
    } else if name == "stop"@ {
        Some(HookEvent::Stop)
    } else if name == "pre-tool-use"@ {
        Some(HookEvent::PreToolUse)
    } else if name == "post-tool-use"@ {
        Some(HookEvent::PostToolUse)
    } else if name == "subagent-start"@ {
        Some(HookEvent::SubagentStart)
    } else if name == "subagent-stop"@ {
        Some(HookEvent::SubagentStop)
    } else {
        None
    }
}

/// The hook event a `star hook <name>` command names.
pub fn parse_hook_event(name: &str) -> (result: Option<HookEvent>)
    ensures
        result == hook_event_named(name@),
{
    if str_eq(name, "session-start") {
        Some(HookEvent::SessionStart)
    } else if str_eq(name, "session-end") {
        Some(HookEvent::SessionEnd)
    } else if str_eq(name, "user-prompt-submit") {
        Some(HookEvent::UserPromptSubmit)
    } else if str_eq(name, "stop") {
        Some(HookEvent::Stop)
    } else if str_eq(name, "pre-tool-use") {
        Some(HookEvent::PreToolUse)
    } else if str_eq(name, "post-tool-use") {
        Some(HookEvent::PostToolUse)
    } else if str_eq(name, "subagent-start") {
        Some(HookEvent::SubagentStart)
    } else if str_eq(name, "subagent-stop") {
        Some(HookEvent::SubagentStop)
    } else {
        None
    }
}

// ----------------------------------------------------------------------
// Typed hook input.
// ----------------------------------------------------------------------

/// Length of a text in UTF-8 bytes.
pub open spec fn byte_len(t: Seq<char>) -> nat {
    vstd::utf8::encode_utf8(t).len()
}

/// A session id is non-empty, at most 256 bytes and free of NUL.
pub open spec fn lifecycle_identifier_valid_spec(t: Seq<char>) -> bool {
    t.len() > 0 && byte_len(t) <= 256 && !t.contains('\0')
}

pub fn lifecycle_identifier_valid(value: &str) -> (result: bool)
    ensures
        result == lifecycle_identifier_valid_spec(value@),
{
    let chars = chars_of(value);
    chars.len() > 0 && value.as_bytes().len() <= 256 && !contains_char(chars.as_slice(), '\0')
}

/// A required string member, non-empty, at most `max` bytes, free of NUL.
pub open spec fn bounded_string(v: JsonView, field: Seq<char>, max: nat) -> Result<Seq<char>, Seq<char>> {
    match json_get(v, field) {
        Some(JsonView::Str(t)) => if t.len() == 0 || byte_len(t) > max || t.contains('\0') {
            Err("hook input has invalid "@ + field)
        } else {
            Ok(t)
        },
        _ => Err("hook input has no string "@ + field),
    }
}

/// An optional string member: absent, null, or at most one MiB.
pub open spec fn optional_string_ok(v: JsonView, field: Seq<char>) -> Result<(), Seq<char>> {
    match json_get(v, field) {
        None => Ok(()),
        Some(JsonView::Null) => Ok(()),
        Some(JsonView::Str(t)) => if byte_len(t) <= HOOK_INPUT_MAX_BYTES { Ok(()) } else { Err("hook input has invalid "@ + field) },
        Some(_) => Err("hook input has invalid "@ + field),
    }
}

pub open spec fn is_permission_mode(t: Seq<char>) -> bool {
    t == "default"@ || t == "acceptEdits"@ || t == "plan"@ || t == "dontAsk"@ || t == "bypassPermissions"@
}

pub open spec fn permission_mode_ok(v: JsonView) -> Result<(), Seq<char>> {
    match bounded_string(v, "permission_mode"@, 64) {
        Err(e) => Err(e),
        Ok(t) => if is_permission_mode(t) { Ok(()) } else { Err("hook input has unsupported permission_mode"@) },
    }
}

pub open spec fn is_turn_scoped(e: HookEvent) -> bool {
    match e {
        HookEvent::SessionStart | HookEvent::SessionEnd => false,
        _ => true,
    }
}

pub open spec fn is_bool(v: Option<JsonView>) -> bool {
    v matches Some(JsonView::Bool(_))
}

/// What validation keeps of a hook input.
pub struct HookInputView {
    pub session_id: Seq<char>,
    pub cwd: Seq<char>,
    pub tool_name: Option<Seq<char>>,
    pub tool_input: Option<JsonView>,
    pub tool_response: Option<JsonView>,
}

/// The checks every event shares; yields the session id and cwd.
pub open spec fn validate_common(e: HookEvent, v: JsonView) -> Result<(Seq<char>, Seq<char>), Seq<char>> {
    if !(v is Object) {
        Err("hook input must be one JSON object"@)
    } else {
        match bounded_string(v, "hook_event_name"@, 64) {
            Err(err) => Err(err),
            Ok(name) => if name != hook_event_name_spec(e) {
                Err("hook_event_name must be "@ + hook_event_name_spec(e))
            } else {
                match bounded_string(v, "session_id"@, 256) {
                    Err(err) => Err(err),
                    Ok(session) => if !lifecycle_identifier_valid_spec(session) {
                        Err(hook_event_name_spec(e) + " hook input has an invalid session_id"@)
                    } else {
                        match bounded_string(v, "cwd"@, 32768) {
                            Err(err) => Err(err),
                            Ok(cwd) => match bounded_string(v, "model"@, 256) {
                                Err(err) => Err(err),
                                Ok(_) => match optional_string_ok(v, "transcript_path"@) {
                                    Err(err) => Err(err),
                                    Ok(_) => {
                                        let permission = if e != HookEvent::SessionEnd { permission_mode_ok(v) } else { Ok(()) };
                                        match permission {
                                            Err(err) => Err(err),
                                            Ok(_) => {
                                                let turn = if is_turn_scoped(e) {
                                                    match bounded_string(v, "turn_id"@, 256) {
                                                        Err(err) => Err(err),
                                                        Ok(_) => Ok(()),
                                                    }
                                                } else {
                                                    Ok(())
                                                };
                                                match turn {
                                                    Err(err) => Err(err),
                                                    Ok(_) => Ok((session, cwd)),
                                                }
                                            },
                                        }
                                    },
                                },
                            },
                        }
                    },
                }
            },
        }
    }
}

pub open spec fn both_ok(a: Result<Seq<char>, Seq<char>>, b: Result<Seq<char>, Seq<char>>) -> Result<(), Seq<char>> {
    match a {
        Err(e) => Err(e),
        Ok(_) => match b {
            Err(e) => Err(e),
            Ok(_) => Ok(()),
        },
    }
}

/// The event-specific checks; yields the tool name, input and response.
pub open spec fn validate_specific(e: HookEvent, v: JsonView) -> Result<(Option<Seq<char>>, Option<JsonView>, Option<JsonView>), Seq<char>> {
    match e {
        HookEvent::SessionStart => match bounded_string(v, "source"@, 32) {
            Err(err) => Err(err),
            Ok(t) => if t == "startup"@ || t == "resume"@ || t == "clear"@ || t == "compact"@ {
                Ok((None, None, None))
            } else {
                Err("SessionStart hook input has invalid source"@)
            },
        },
        HookEvent::SessionEnd => match bounded_string(v, "reason"@, 32) {
            Err(err) => Err(err),
            Ok(t) => if t == "other"@ { Ok((None, None, None)) } else { Err("SessionEnd hook input has invalid reason"@) },
        },
        HookEvent::UserPromptSubmit => match bounded_string(v, "prompt"@, HOOK_INPUT_MAX_BYTES as nat) {
            Err(err) => Err(err),
            Ok(_) => Ok((None, None, None)),
        },
        HookEvent::Stop => if !is_bool(json_get(v, "stop_hook_active"@)) {
            Err("Stop hook input has invalid stop_hook_active"@)
        } else {
            match optional_string_ok(v, "last_assistant_message"@) {
                Err(err) => Err(err),
                Ok(_) => Ok((None, None, None)),
            }
        },
        HookEvent::PreToolUse | HookEvent::PostToolUse => match bounded_string(v, "tool_name"@, 512) {
            Err(err) => Err(err),
            Ok(name) => match bounded_string(v, "tool_use_id"@, 256) {
                Err(err) => Err(err),
                Ok(_) => match json_get(v, "tool_input"@) {
                    None => Err("tool hook input has no tool_input"@),
                    Some(input) => if e == HookEvent::PostToolUse {
                        match json_get(v, "tool_response"@) {
                            None => Err("PostToolUse input has no tool_response"@),
                            Some(response) => Ok((Some(name), Some(input), Some(response))),
                        }
                    } else {
                        Ok((Some(name), Some(input), None))
                    },
                },
            },
        },
        HookEvent::SubagentStart => match both_ok(bounded_string(v, "agent_id"@, 256), bounded_string(v, "agent_type"@, 256)) {
            Err(err) => Err(err),
            Ok(_) => Ok((None, None, None)),
        },
        HookEvent::SubagentStop => match both_ok(bounded_string(v, "agent_id"@, 256), bounded_string(v, "agent_type"@, 256)) {
            Err(err) => Err(err),
            Ok(_) => match optional_string_ok(v, "agent_transcript_path"@) {
                Err(err) => Err(err),
                Ok(_) => match optional_string_ok(v, "last_assistant_message"@) {
                    Err(err) => Err(err),
                    Ok(_) => if !is_bool(json_get(v, "stop_hook_active"@)) {
                        Err("SubagentStop hook input has invalid stop_hook_active"@)
                    } else {
                        Ok((None, None, None))
                    },
                },
            },
        },
    }
}

/// Validation of a typed hook input, in the order the fields are checked;
/// the first failing check gives the error.
pub open spec fn validate_spec(e: HookEvent, v: JsonView) -> Result<HookInputView, Seq<char>> {
    match validate_common(e, v) {
        Err(err) => Err(err),
        Ok((session, cwd)) => match validate_specific(e, v) {
            Err(err) => Err(err),
            Ok((tool_name, tool_input, tool_response)) => Ok(HookInputView { session_id: session, cwd, tool_name, tool_input, tool_response }),
        },
    }
}

pub struct ValidatedHookInput {
    pub session_id: String,
    pub cwd: String,
    pub tool_name: Option<String>,
    pub tool_input: Option<JsonValue>,
    pub tool_response: Option<JsonValue>,
}

impl View for ValidatedHookInput {
    type V = HookInputView;

    open spec fn view(&self) -> HookInputView {
        HookInputView {
            session_id: self.session_id@,
            cwd: self.cwd@,
            tool_name: match self.tool_name { Some(t) => Some(t@), None => None },
            tool_input: match self.tool_input { Some(j) => Some(j@), None => None },
            tool_response: match self.tool_response { Some(j) => Some(j@), None => None },
        }
    }
}

/// `a` followed by `b`.
pub fn concat_str(a: &str, b: &str) -> (result: String)
    ensures
        result@ == a@ + b@,
{
    let mut s: String = a.to_owned();
    s.append(b);
    s
}

fn bounded_hook_string(value: &JsonValue, field: &str, max_len: usize) -> (result: Result<String, String>)
    ensures
        match bounded_string(value@, field@, max_len as nat) {
            Ok(t) => result matches Ok(r) && r@ == t,
            Err(e) => result matches Err(r) && r@ == e,
        },
{
    match json_get_member(value, field) {
        Some(JsonValue::Str(text)) => {
            let chars = chars_of(text.as_str());
            if chars.len() == 0 || text.as_str().as_bytes().len() > max_len || contains_char(chars.as_slice(), '\0') {
                Err(concat_str("hook input has invalid ", field))
            } else {
                Ok(text.clone())
            }
        },
        _ => Err(concat_str("hook input has no string ", field)),
    }
}

fn validate_optional_string(value: &JsonValue, field: &str) -> (result: Result<(), String>)
    ensures
        match optional_string_ok(value@, field@) {
            Ok(_) => result is Ok,
            Err(e) => result matches Err(r) && r@ == e,
        },
{
    match json_get_member(value, field) {
        None => Ok(()),
        Some(JsonValue::Null) => Ok(()),
        Some(JsonValue::Str(text)) => {
            if text.as_str().as_bytes().len() <= HOOK_INPUT_MAX_BYTES {
                Ok(())
            } else {
                Err(concat_str("hook input has invalid ", field))
            }
        },
        Some(_) => Err(concat_str("hook input has invalid ", field)),
    }
}

fn validate_permission_mode(value: &JsonValue) -> (result: Result<(), String>)
    ensures
        match permission_mode_ok(value@) {
            Ok(_) => result is Ok,
            Err(e) => result matches Err(r) && r@ == e,
        },
{
    let mode = bounded_hook_string(value, "permission_mode", 64)?;
    let m = mode.as_str();
    if str_eq(m, "default") || str_eq(m, "acceptEdits") || str_eq(m, "plan") || str_eq(m, "dontAsk")
        || str_eq(m, "bypassPermissions") {
        Ok(())
    } else {
        Err("hook input has unsupported permission_mode".to_owned())
    }
}

fn member_is_bool(value: &JsonValue, field: &str) -> (result: bool)
    ensures
        result == is_bool(json_get(value@, field@)),
{
    match json_get_member(value, field) {
        Some(JsonValue::Bool(_)) => true,
        _ => false,
    }
}

fn validate_common_exec(event: HookEvent, value: &JsonValue) -> (result: Result<(String, String), String>)
    ensures
        match validate_common(event, value@) {
            Ok((s, c)) => result matches Ok((rs, rc)) && rs@ == s && rc@ == c,
            Err(e) => result matches Err(r) && r@ == e,
        },
{
    match value {
        JsonValue::Object(_) => {},
        _ => return Err("hook input must be one JSON object".to_owned()),
    }
    let name = bounded_hook_string(value, "hook_event_name", 64)?;
    if !str_eq(name.as_str(), event.hook_event_name()) {
        return Err(concat_str("hook_event_name must be ", event.hook_event_name()));
    }
    let session = bounded_hook_string(value, "session_id", 256)?;
    if !lifecycle_identifier_valid(session.as_str()) {
        return Err(concat_str(event.hook_event_name(), " hook input has an invalid session_id"));
    }
    let cwd = bounded_hook_string(value, "cwd", 32768)?;
    let _model = bounded_hook_string(value, "model", 256)?;
    validate_optional_string(value, "transcript_path")?;
    if event != HookEvent::SessionEnd {
        validate_permission_mode(value)?;
    }
    let turn_scoped = match event {
        HookEvent::SessionStart | HookEvent::SessionEnd => false,
        _ => true,
    };
    if turn_scoped {
        bounded_hook_string(value, "turn_id", 256)?;
    }
    Ok((session, cwd))
}

fn validate_specific_exec(event: HookEvent, value: &JsonValue) -> (result: Result<(Option<String>, Option<JsonValue>, Option<JsonValue>), String>)
    ensures
        match validate_specific(event, value@) {
            Ok((n, i, r)) => result matches Ok((rn, ri, rr))
                && (match rn { Some(t) => Some(t@), None => None }) == n
                && (match ri { Some(j) => Some(j@), None => None }) == i
                && (match rr { Some(j) => Some(j@), None => None }) == r,
            Err(e) => result matches Err(r) && r@ == e,
        },
{
    match event {
        HookEvent::SessionStart => {
            let source = bounded_hook_string(value, "source", 32)?;
            let t = source.as_str();
            if str_eq(t, "startup") || str_eq(t, "resume") || str_eq(t, "clear") || str_eq(t, "compact") {
                Ok((None, None, None))
            } else {
                Err("SessionStart hook input has invalid source".to_owned())
            }
        },
        HookEvent::SessionEnd => {
            let reason = bounded_hook_string(value, "reason", 32)?;
            if str_eq(reason.as_str(), "other") {
                Ok((None, None, None))
            } else {
                Err("SessionEnd hook input has invalid reason".to_owned())
            }
        },
        HookEvent::UserPromptSubmit => {
            bounded_hook_string(value, "prompt", HOOK_INPUT_MAX_BYTES)?;
            Ok((None, None, None))
        },
        HookEvent::Stop => {
            if !member_is_bool(value, "stop_hook_active") {
                return Err("Stop hook input has invalid stop_hook_active".to_owned());
            }
            validate_optional_string(value, "last_assistant_message")?;
            Ok((None, None, None))
        },
        HookEvent::PreToolUse | HookEvent::PostToolUse => {
            let name = bounded_hook_string(value, "tool_name", 512)?;
            bounded_hook_string(value, "tool_use_id", 256)?;
            let input = match json_get_member(value, "tool_input") {
                Some(i) => clone_json(i),
                None => return Err("tool hook input has no tool_input".to_owned()),
            };
            if event == HookEvent::PostToolUse {
                let response = match json_get_member(value, "tool_response") {
                    Some(r) => clone_json(r),
                    None => return Err("PostToolUse input has no tool_response".to_owned()),
                };
                Ok((Some(name), Some(input), Some(response)))
            } else {
                Ok((Some(name), Some(input), None))
            }
        },
        HookEvent::SubagentStart => {
            bounded_hook_string(value, "agent_id", 256)?;
            bounded_hook_string(value, "agent_type", 256)?;
            Ok((None, None, None))
        },
        HookEvent::SubagentStop => {
            bounded_hook_string(value, "agent_id", 256)?;
            bounded_hook_string(value, "agent_type", 256)?;
            validate_optional_string(value, "agent_transcript_path")?;
            validate_optional_string(value, "last_assistant_message")?;
            if !member_is_bool(value, "stop_hook_active") {
                return Err("SubagentStop hook input has invalid stop_hook_active".to_owned());
            }
            Ok((None, None, None))
        },
    }
}

/// Validates one typed hook input for `event`.
pub fn validate_typed_hook_input(event: HookEvent, value: &JsonValue) -> (result: Result<ValidatedHookInput, String>)
    ensures
        match validate_spec(event, value@) {
            Ok(v) => result matches Ok(r) && r@ == v,
            Err(e) => result matches Err(r) && r@ == e,
        },
{
    let (session_id, cwd) = validate_common_exec(event, value)?;
    let (tool_name, tool_input, tool_response) = validate_specific_exec(event, value)?;
    Ok(ValidatedHookInput { session_id, cwd, tool_name, tool_input, tool_response })
}

// ----------------------------------------------------------------------
// PreToolUse screening.
// ----------------------------------------------------------------------

pub open spec fn is_shell_tool(name: Seq<char>) -> bool {
    name == "Bash"@ || name == "apply_patch"@
}

/// The string `command` member of a tool input.
pub open spec fn command_of(input: JsonView) -> Option<Seq<char>> {
    match json_get(input, "command"@) {
        Some(JsonView::Str(t)) => Some(t),
        _ => None,
    }
}

/// A tool whose name says that it writes, edits, deletes, moves or patches.
pub open spec fn is_mutating_tool(name: Seq<char>) -> bool {
    let lower = lower_seq(name);
    ||| name == "apply_patch"@
    ||| contains_seq(lower, "write"@)
    ||| contains_seq(lower, "edit"@)
    ||| contains_seq(lower, "delete"@)
    ||| contains_seq(lower, "remove"@)
    ||| contains_seq(lower, "move"@)
    ||| contains_seq(lower, "rename"@)
    ||| contains_seq(lower, "patch"@)
}

pub open spec fn unbounded_delete_reason() -> Seq<char> {
    "recursive delete or move target is not an explicit bounded path below cwd"@
}

pub open spec fn protected_state_reason() -> Seq<char> {
    "direct mutation of Codex trust/runtime DB, plugin cache, or Star-Control generated runtime state is forbidden"@
}

/// Why the shell command of a tool call is denied, if it is.
pub open spec fn command_denial(tool_name: Seq<char>, command: Seq<char>, cwd: Seq<char>) -> Option<Seq<char>> {
    match force_push_or_destructive_git_spec(command) {
        Some(reason) => Some(reason),
        None => if recursive_delete_or_move_spec(command, cwd) {
            Some(unbounded_delete_reason())
        } else if protected_reference_spec(command) && (tool_name == "apply_patch"@ || mutation_intent_spec(command)) {
            Some(protected_state_reason())
        } else {
            None
        },
    }
}

/// Why a PreToolUse call is denied, if it is.  A mutating tool is also
/// screened over the compact JSON text of its whole input.
pub open spec fn pre_tool_use_denial_spec(tool_name: Seq<char>, tool_input: JsonView, cwd: Seq<char>) -> Option<Seq<char>> {
    if is_shell_tool(tool_name) && command_of(tool_input) is None {
        Some("malformed "@ + tool_name + " input has no string command"@)
    } else {
        let by_command = match command_of(tool_input) {
            Some(command) => command_denial(tool_name, command, cwd),
            None => None,
        };
        match by_command {
            Some(reason) => Some(reason),
            None => if is_mutating_tool(tool_name) && protected_reference_spec(json_text(tool_input)) {
                Some(protected_state_reason())
            } else {
                None
            },
        }
    }
}

/// The string `command` member of a tool input.
pub fn tool_input_command(input: &JsonValue) -> (result: Option<&str>)
    ensures
        match result {
            Some(c) => command_of(input@) == Some(c@),
            None => command_of(input@) is None,
        },
{
    match json_get_member(input, "command") {
        Some(JsonValue::Str(text)) => Some(text.as_str()),
        _ => None,
    }
}

fn is_mutating_tool_exec(name: &str) -> (result: bool)
    ensures
        result == is_mutating_tool(name@),
{
    let lower = lower_chars(chars_of(name).as_slice());
    let l = lower.as_slice();
    str_eq(name, "apply_patch") || contains_str(l, "write") || contains_str(l, "edit") || contains_str(l, "delete")
        || contains_str(l, "remove") || contains_str(l, "move") || contains_str(l, "rename") || contains_str(l, "patch")
}

fn command_denial_exec(tool_name: &str, command: &str, cwd: &str) -> (result: Option<String>)
    ensures
        match command_denial(tool_name@, command@, cwd@) {
            Some(r) => result matches Some(s) && s@ == r,
            None => result is None,
        },
{
    if let Some(reason) = force_push_or_destructive_git_reason(command) {
        return Some(reason.to_owned());
    }
    if recursive_delete_or_move_is_unverified(command, cwd) {
        return Some("recursive delete or move target is not an explicit bounded path below cwd".to_owned());
    }
    if protected_generated_state_reference(command) && (str_eq(tool_name, "apply_patch") || mutation_intent(command)) {
        return Some(
            "direct mutation of Codex trust/runtime DB, plugin cache, or Star-Control generated runtime state is forbidden".to_owned(),
        );
    }
    None
}

/// Why the PreToolUse hook denies this tool call, if it does: a malformed
/// shell input, a force push or destructive Git command, an unbounded
/// recursive delete or move, or a mutation of protected generated state.
/// A mutating tool is screened over the compact JSON text of its input too.
pub fn pre_tool_use_denial_reason(input: &ValidatedHookInput) -> (result: Option<String>)
    ensures
        match (input.tool_name, input.tool_input) {
            (Some(name), Some(tool_input)) => match pre_tool_use_denial_spec(name@, tool_input@, input.cwd@) {
                Some(r) => result matches Some(s) && s@ == r,
                None => result is None,
            },
            _ => result is None,
        },
{
    let tool_name = match &input.tool_name {
        Some(n) => n.as_str(),
        None => return None,
    };
    let tool_input = match &input.tool_input {
        Some(i) => i,
        None => return None,
    };
    let command = tool_input_command(tool_input);
    if (str_eq(tool_name, "Bash") || str_eq(tool_name, "apply_patch")) && command.is_none() {
        let head = concat_str("malformed ", tool_name);
        return Some(concat_str(head.as_str(), " input has no string command"));
    }
    if let Some(c) = command {
        let by_command = command_denial_exec(tool_name, c, input.cwd.as_str());
        if by_command.is_some() {
            return by_command;
        }
    }
    if is_mutating_tool_exec(tool_name) && protected_generated_state_reference(render_json(tool_input).as_str()) {
        return Some(
            "direct mutation of Codex trust/runtime DB, plugin cache, or Star-Control generated runtime state is forbidden".to_owned(),
        );
    }
    None
}

/// A JSON object member.
fn member(key: &str, value: JsonValue) -> (result: JsonMember)
    ensures
        result.key@ == key@,
        result.value == value,
{
    JsonMember { key: key.to_owned(), value }
}

pub open spec fn deny_output_spec(reason: Seq<char>) -> JsonView {
    JsonView::Object(seq![(
        "hookSpecificOutput"@,
        JsonView::Object(seq![
            ("hookEventName"@, JsonView::Str("PreToolUse"@)),
            ("permissionDecision"@, JsonView::Str("deny"@)),
            ("permissionDecisionReason"@, JsonView::Str(reason)),
        ]),
    )])
}

/// The hook output that denies a PreToolUse call for `reason`.
pub fn pre_tool_use_deny_output(reason: &str) -> (result: JsonValue)
    ensures
        result@ == deny_output_spec(reason@),
{
    let mut inner: Vec<JsonMember> = Vec::new();
    inner.push(member("hookEventName", JsonValue::Str("PreToolUse".to_owned())));
    inner.push(member("permissionDecision", JsonValue::Str("deny".to_owned())));
    inner.push(member("permissionDecisionReason", JsonValue::Str(reason.to_owned())));
    let mut outer: Vec<JsonMember> = Vec::new();
    outer.push(member("hookSpecificOutput", JsonValue::Object(inner)));
    proof {
        lemma_members_view(inner@);
        assert(json_members_view(inner@) =~= seq![
            ("hookEventName"@, JsonView::Str("PreToolUse"@)),
            ("permissionDecision"@, JsonView::Str("deny"@)),
            ("permissionDecisionReason"@, JsonView::Str(reason@)),
        ]);
        assert(json_view(JsonValue::Object(inner)) == JsonView::Object(json_members_view(inner@)));
    }
    let result = JsonValue::Object(outer);
    proof {
        lemma_members_view(outer@);
        assert(json_members_view(outer@) =~= seq![("hookSpecificOutput"@, json_view(outer@[0].value))]);
    }
    result
}

} // verus!

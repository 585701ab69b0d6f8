//! What one `star hook <event>` run answers Codex: a PreToolUse hook always
//! answers with a decision (a malformed input is denied, never let
//! through), other hooks fail with exit status 2 on bad input, and a
//! Controller that cannot be reached never fails a healthy task.
use vstd::prelude::*;

use crate::json::{JsonValue, JsonMember, JsonView, json_view, json_members_view, lemma_members_view};
use crate::hook::{
    HookEvent, ValidatedHookInput, hook_event_name_spec, lifecycle_event_spec, deny_output_spec, pre_tool_use_deny_output,
    pre_tool_use_denial_reason, pre_tool_use_denial_spec, concat_str, SESSION_END_LIFECYCLE_REPORT_TIMEOUT_MILLIS,
};
use crate::post_tool::{post_tool_use_context, value_findings, post_tool_output_spec};
use crate::listing::sorted_listing;
use crate::cli::{decimal, decimal_string};

verus! {

/// Why the raw hook input could not be read as JSON.
#[derive(Clone, Copy, Debug, PartialEq, Eq, Structural)]
pub enum HookInputFailure {
    /// Reading failed, or the input was empty or larger than one MiB.
    Unreadable,
    NotUtf8,
    /// Not one JSON document, or one with a duplicate key.
    NotJson,
}

/// The end of a hook run: what it prints on standard output and on
/// standard error, and its exit status.
pub struct HookReply {
    pub stdout: Option<JsonValue>,
    pub stderr: Option<String>,
    pub exit_code: i32,
}

pub struct HookReplyView {
    pub stdout: Option<JsonView>,
    pub stderr: Option<Seq<char>>,
    pub exit_code: i32,
}

impl View for HookReply {
    type V = HookReplyView;

    open spec fn view(&self) -> HookReplyView {
        HookReplyView {
            stdout: match self.stdout {
                Some(j) => Some(j@),
                None => None,
            },
            stderr: match self.stderr {
                Some(s) => Some(s@),
                None => None,
            },
            exit_code: self.exit_code,
        }
    }
}

pub open spec fn failure_reason(f: HookInputFailure) -> Seq<char> {
    match f {
        HookInputFailure::Unreadable => "malformed or oversized PreToolUse input"@,
        HookInputFailure::NotUtf8 => "PreToolUse input is not valid UTF-8"@,
        HookInputFailure::NotJson => "PreToolUse input is malformed JSON or contains duplicate keys"@,
    }
}

pub open spec fn deny_reply(reason: Seq<char>) -> HookReplyView {
    HookReplyView { stdout: Some(deny_output_spec(reason)), stderr: None, exit_code: 0 }
}

pub open spec fn fail_reply(message: Seq<char>) -> HookReplyView {
    HookReplyView { stdout: None, stderr: Some(message), exit_code: 2 }
}

/// The reply to an input that could not be read as JSON.
pub fn reply_to_unreadable_input(event: HookEvent, failure: HookInputFailure) -> (result: HookReply)
    ensures
        result@ == if event == HookEvent::PreToolUse {
            deny_reply(failure_reason(failure))
        } else {
            fail_reply("invalid "@ + hook_event_name_spec(event) + " hook input"@)
        },
{
    if event == HookEvent::PreToolUse {
        let reason = match failure {
            HookInputFailure::Unreadable => "malformed or oversized PreToolUse input",
            HookInputFailure::NotUtf8 => "PreToolUse input is not valid UTF-8",
            HookInputFailure::NotJson => "PreToolUse input is malformed JSON or contains duplicate keys",
        };
        HookReply { stdout: Some(pre_tool_use_deny_output(reason)), stderr: None, exit_code: 0 }
    } else {
        let head = concat_str("invalid ", event.hook_event_name());
        HookReply { stdout: None, stderr: Some(concat_str(head.as_str(), " hook input")), exit_code: 2 }
    }
}

/// The reply to a JSON input that failed validation with `error`.
pub fn reply_to_invalid_input(event: HookEvent, error: &str) -> (result: HookReply)
    ensures
        result@ == if event == HookEvent::PreToolUse {
            deny_reply("malformed PreToolUse input: "@ + error@)
        } else {
            fail_reply(error@)
        },
{
    if event == HookEvent::PreToolUse {
        let reason = concat_str("malformed PreToolUse input: ", error);
        HookReply { stdout: Some(pre_tool_use_deny_output(reason.as_str())), stderr: None, exit_code: 0 }
    } else {
        HookReply { stdout: None, stderr: Some(error.to_owned()), exit_code: 2 }
    }
}

/// The reply that ends a PreToolUse run before any lifecycle report, when
/// the call is denied.
pub fn denial_reply(event: HookEvent, input: &ValidatedHookInput) -> (result: Option<HookReply>)
    ensures
        event != HookEvent::PreToolUse ==> result is None,
        event == HookEvent::PreToolUse ==> match (input.tool_name, input.tool_input) {
            (Some(name), Some(tool_input)) => match pre_tool_use_denial_spec(name@, tool_input@, input.cwd@) {
                Some(r) => result matches Some(reply) && reply@ == deny_reply(r),
                None => result is None,
            },
            _ => result is None,
        },
{
    if event != HookEvent::PreToolUse {
        return None;
    }
    match pre_tool_use_denial_reason(input) {
        Some(reason) => Some(HookReply { stdout: Some(pre_tool_use_deny_output(reason.as_str())), stderr: None, exit_code: 0 }),
        None => None,
    }
}

// ----------------------------------------------------------------------
// The lifecycle observation.
// ----------------------------------------------------------------------

/// The instance a hook reports for: the owning Codex Desktop process when
/// one is known, else the session itself.
pub open spec fn lifecycle_instance_spec(session_id: Seq<char>, owner_pid: Option<u32>) -> Seq<char> {
    match owner_pid {
        Some(pid) => "codex-desktop:"@ + decimal(pid as nat),
        None => "codex-session:"@ + session_id,
    }
}

pub fn lifecycle_instance_id(session_id: &str, owner_pid: Option<u32>) -> (result: String)
    ensures
        result@ == lifecycle_instance_spec(session_id@, owner_pid),
{
    match owner_pid {
        Some(pid) => {
            let digits = decimal_string(pid as u64);
            concat_str("codex-desktop:", digits.as_str())
        },
        None => concat_str("codex-session:", session_id),
    }
}

/// The `lifecycle.observe` payload a hook sends to the Controller.
pub open spec fn observation_spec(event: HookEvent, session_id: Seq<char>, owner_pid: Option<u32>) -> JsonView {
    JsonView::Object(seq![
        ("event"@, JsonView::Str(lifecycle_event_spec(event))),
        ("instance_id"@, JsonView::Str(lifecycle_instance_spec(session_id, owner_pid))),
        ("task_id"@, JsonView::Str(session_id)),
        ("owner_pid"@, match owner_pid {
            Some(pid) => JsonView::Number(decimal(pid as nat)),
            None => JsonView::Null,
        }),
    ])
}

pub fn lifecycle_observation(event: HookEvent, session_id: &str, owner_pid: Option<u32>) -> (result: JsonValue)
    ensures
        result@ == observation_spec(event, session_id@, owner_pid),
{
    let pid = match owner_pid {
        Some(p) => JsonValue::Number(decimal_string(p as u64)),
        None => JsonValue::Null,
    };
    let mut members: Vec<JsonMember> = Vec::new();
    members.push(JsonMember { key: "event".to_owned(), value: JsonValue::Str(event.lifecycle_event().to_owned()) });
    members.push(JsonMember { key: "instance_id".to_owned(), value: JsonValue::Str(lifecycle_instance_id(session_id, owner_pid)) });
    members.push(JsonMember { key: "task_id".to_owned(), value: JsonValue::Str(session_id.to_owned()) });
    members.push(JsonMember { key: "owner_pid".to_owned(), value: pid });
    proof {
        lemma_members_view(members@);
        assert(json_members_view(members@) =~= match observation_spec(event, session_id@, owner_pid) {
            JsonView::Object(m) => m,
            _ => Seq::empty(),
        });
    }
    JsonValue::Object(members)
}

/// The error a bounded lifecycle report ends with when it runs out of
/// time, for the events that have a budget.
pub fn lifecycle_timeout_message(event: HookEvent) -> (result: Option<String>)
    ensures
        event == HookEvent::SessionEnd ==> (result matches Some(m)
            && m@ == hook_event_name_spec(event) + " lifecycle observation exceeded the "@ + decimal(SESSION_END_LIFECYCLE_REPORT_TIMEOUT_MILLIS as nat) + " ms internal Hook budget"@),
        event != HookEvent::SessionEnd ==> result is None,
{
    match event.lifecycle_report_timeout() {
        Some(millis) => {
            let head = concat_str(event.hook_event_name(), " lifecycle observation exceeded the ");
            let digits = decimal_string(millis as u64);
            let with_digits = concat_str(head.as_str(), digits.as_str());
            Some(concat_str(with_digits.as_str(), " ms internal Hook budget"))
        },
        None => None,
    }
}

// ----------------------------------------------------------------------
// The reply after the lifecycle report.
// ----------------------------------------------------------------------

/// The context a session start adds: the Star-Control operating rules
/// followed by the fixed MCP server instructions.
pub open spec fn session_start_context(server_instructions: Seq<char>) -> Seq<char> {
    "`star-control-operations` 지침을 따른다. `orchestrate-parallel-implementation`의 implicit invocation은 새 Codex task/thread 승인이나 병렬 위임이 아니다. 일반 구현은 현재 task single-agent로 수행한다. 명시 승인 Bundle은 `list_projects({})` 뒤 unique bundle_id/BOOTSTRAP_ONLY만 든 prompt와 `target:{type:project, projectId, environment:{type:worktree}}`로 bootstrap하고, threadId/hostId/cwd identity 확인 뒤 같은 threadId에 complete Context Pack + ACTIVATE_BUNDLE을 보낸다. activation 전 Goal/commentary/mutation/test/commit은 금지하며 clientThreadId만 있으면 bounded list_threads unique match가 resolve될 때까지 fail-closed한다. Terra는 WORKER_COMPLETE 한 번 뒤 멈추며 controller만 Sol review를 관찰하고, same threadId/Goal correction은 exact diff 승인 뒤에만 complete할 수 있다. "@
        + server_instructions
}

pub open spec fn session_start_output_spec(server_instructions: Seq<char>) -> JsonView {
    JsonView::Object(seq![
        ("continue"@, JsonView::Bool(true)),
        ("hookSpecificOutput"@, JsonView::Object(seq![
            ("hookEventName"@, JsonView::Str("SessionStart"@)),
            ("additionalContext"@, JsonView::Str(session_start_context(server_instructions))),
        ])),
    ])
}

/// The SessionStart hook output.
pub fn session_start_hook_output(server_instructions: &str) -> (result: JsonValue)
    ensures
        result@ == session_start_output_spec(server_instructions@),
{
    let context = concat_str(
        "`star-control-operations` 지침을 따른다. `orchestrate-parallel-implementation`의 implicit invocation은 새 Codex task/thread 승인이나 병렬 위임이 아니다. 일반 구현은 현재 task single-agent로 수행한다. 명시 승인 Bundle은 `list_projects({})` 뒤 unique bundle_id/BOOTSTRAP_ONLY만 든 prompt와 `target:{type:project, projectId, environment:{type:worktree}}`로 bootstrap하고, threadId/hostId/cwd identity 확인 뒤 같은 threadId에 complete Context Pack + ACTIVATE_BUNDLE을 보낸다. activation 전 Goal/commentary/mutation/test/commit은 금지하며 clientThreadId만 있으면 bounded list_threads unique match가 resolve될 때까지 fail-closed한다. Terra는 WORKER_COMPLETE 한 번 뒤 멈추며 controller만 Sol review를 관찰하고, same threadId/Goal correction은 exact diff 승인 뒤에만 complete할 수 있다. ",
        server_instructions,
    );
    let mut inner: Vec<JsonMember> = Vec::new();
    inner.push(JsonMember { key: "hookEventName".to_owned(), value: JsonValue::Str("SessionStart".to_owned()) });
    inner.push(JsonMember { key: "additionalContext".to_owned(), value: JsonValue::Str(context) });
    proof {
        lemma_members_view(inner@);
        assert(json_members_view(inner@) =~= seq![
            ("hookEventName"@, JsonView::Str("SessionStart"@)),
            ("additionalContext"@, JsonView::Str(session_start_context(server_instructions@))),
        ]);
        assert(json_view(JsonValue::Object(inner)) == JsonView::Object(json_members_view(inner@)));
    }
    let mut outer: Vec<JsonMember> = Vec::new();
    outer.push(JsonMember { key: "continue".to_owned(), value: JsonValue::Bool(true) });
    outer.push(JsonMember { key: "hookSpecificOutput".to_owned(), value: JsonValue::Object(inner) });
    proof {
        lemma_members_view(outer@);
        assert(json_members_view(outer@) =~= seq![
            ("continue"@, JsonView::Bool(true)),
            ("hookSpecificOutput"@, json_view(outer@[1].value)),
        ]);
    }
    JsonValue::Object(outer)
}

pub open spec fn continue_output_spec() -> JsonView {
    JsonView::Object(seq![("continue"@, JsonView::Bool(true))])
}

/// What a hook prints after its lifecycle report, by event.
pub open spec fn final_stdout_spec(event: HookEvent, tool_response: Option<JsonView>, server_instructions: Seq<char>) -> Option<JsonView> {
    match event {
        HookEvent::SessionStart => Some(session_start_output_spec(server_instructions)),
        HookEvent::PostToolUse => match tool_response {
            None => None,
            Some(response) => {
                let f = value_findings(response, None);
                if f.markers == Set::<Seq<char>>::empty() && f.operation_ids == Set::<Seq<char>>::empty() {
                    None
                } else {
                    Some(post_tool_output_spec(sorted_listing(f.markers), sorted_listing(f.operation_ids)))
                }
            },
        },
        HookEvent::Stop | HookEvent::SubagentStop => Some(continue_output_spec()),
        _ => None,
    }
}

/// The reply of a hook whose input was valid and, for PreToolUse, not
/// denied, after the lifecycle report ended with `report_error` (`None`
/// when it was recorded).  A failed report is only noted: the hook still
/// succeeds.
pub fn final_reply(event: HookEvent, input: &ValidatedHookInput, report_error: Option<&str>, server_instructions: &str) -> (result: HookReply)
    ensures
        result@ == (HookReplyView {
            stdout: final_stdout_spec(
                event,
                match input.tool_response { Some(r) => Some(r@), None => None },
                server_instructions@,
            ),
            stderr: match report_error {
                Some(e) => Some("Star-Control lifecycle observation was not recorded: "@ + e@),
                None => None,
            },
            exit_code: 0,
        }),
{
    let stderr = match report_error {
        Some(e) => Some(concat_str("Star-Control lifecycle observation was not recorded: ", e)),
        None => None,
    };
    let stdout = match event {
        HookEvent::SessionStart => Some(session_start_hook_output(server_instructions)),
        HookEvent::PostToolUse => post_tool_use_context(input),
        HookEvent::Stop | HookEvent::SubagentStop => {
            let mut members: Vec<JsonMember> = Vec::new();
            members.push(JsonMember { key: "continue".to_owned(), value: JsonValue::Bool(true) });
            proof {
                lemma_members_view(members@);
                assert(json_members_view(members@) =~= seq![("continue"@, JsonView::Bool(true))]);
            }
            Some(JsonValue::Object(members))
        },
        _ => None,
    };
    HookReply { stdout, stderr, exit_code: 0 }
}

} // verus!

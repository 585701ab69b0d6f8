use serde_json::{Map as JsonMap, Value};
use star_control::hook::{validate_typed_hook_input, HookEvent};
use star_control::hook_reply::{
    denial_reply, final_reply, lifecycle_instance_id, lifecycle_observation, lifecycle_timeout_message,
    reply_to_invalid_input, reply_to_unreadable_input, session_start_hook_output, HookInputFailure,
};
use star_control::json::{JsonMember, JsonValue};

const SERVER_INSTRUCTIONS: &str = "Star-Control 작업은 fixed MCP Gateway와 Catalog-declared CLI-only 경계를 구분한다. MCP action을 사용할 때는 `star_tool_search`로 현재 registry를 검색하고 action readiness가 `ready`인 결과만 `star_tool_describe`로 다시 확인한다. describe에서 현재 Schema, 위험 lane, `descriptor_hash`, `required_call_tool`을 받은 뒤 그 tool에 `tool_id`, `descriptor_hash`, `arguments`를 전달한다. package나 manifest의 ready 상태는 action readiness가 아니다. Catalog에 MCP action이 없는 기능과 C01 Profile만 설치된 `star` CLI의 선언된 command로 실행하고 live `profile show|resolve` 결과를 고정한다. MCP action이 non-ready인 기능을 CLI로 우회하지 않는다. ready MCP action도 CLI-only command도 사용할 수 없으면 일반 Codex 개발 작업을 막지 말고 프로젝트 native 도구를 사용하며 fallback 사실과 이유와 Star-Control evidence 부재를 결과에 기록한다. `star_tool_registry_status`는 진단용이며 필수 선행 Gate가 아니다. `TOOL_DESCRIPTOR_STALE`이면 다시 describe한다. `approval_required`, `question_required`와 Operation ID 반환은 완료가 아니다.";

fn to_json(v: &Value) -> JsonValue {
    match v {
        Value::Null => JsonValue::Null,
        Value::Bool(b) => JsonValue::Bool(*b),
        Value::Number(n) => JsonValue::Number(n.to_string()),
        Value::String(s) => JsonValue::Str(s.clone()),
        Value::Array(items) => JsonValue::Array(items.iter().map(to_json).collect()),
        Value::Object(members) => JsonValue::Object(
            members
                .iter()
                .map(|(k, v)| JsonMember { key: k.clone(), value: to_json(v) })
                .collect(),
        ),
    }
}

fn from_json(v: &JsonValue) -> Value {
    match v {
        JsonValue::Null => Value::Null,
        JsonValue::Bool(b) => Value::Bool(*b),
        JsonValue::Number(n) => serde_json::from_str(n).unwrap(),
        JsonValue::Str(s) => Value::String(s.clone()),
        JsonValue::Array(items) => Value::Array(items.iter().map(from_json).collect()),
        JsonValue::Object(members) => {
            let mut map = JsonMap::new();
            for m in members {
                map.insert(m.key.clone(), from_json(&m.value));
            }
            Value::Object(map)
        }
    }
}

fn input(event_name: &str, extra: &str) -> Value {
    serde_json::from_str(&format!(
        r#"{{"session_id":"thr_fixture","transcript_path":null,"cwd":"D:\\work\\repo","hook_event_name":"{event_name}","model":"gpt-5.6-sol","permission_mode":"default","turn_id":"turn_fixture"{extra}}}"#
    ))
    .unwrap()
}

#[test]
fn session_start_hook_output_matches_operations_snapshot() {
    let output = from_json(&session_start_hook_output(SERVER_INSTRUCTIONS));
    let serialized = serde_json::to_string(&output).unwrap();
    assert_eq!(serialized, r#"{"continue":true,"hookSpecificOutput":{"additionalContext":"`star-control-operations` 지침을 따른다. `orchestrate-parallel-implementation`의 implicit invocation은 새 Codex task/thread 승인이나 병렬 위임이 아니다. 일반 구현은 현재 task single-agent로 수행한다. 명시 승인 Bundle은 `list_projects({})` 뒤 unique bundle_id/BOOTSTRAP_ONLY만 든 prompt와 `target:{type:project, projectId, environment:{type:worktree}}`로 bootstrap하고, threadId/hostId/cwd identity 확인 뒤 같은 threadId에 complete Context Pack + ACTIVATE_BUNDLE을 보낸다. activation 전 Goal/commentary/mutation/test/commit은 금지하며 clientThreadId만 있으면 bounded list_threads unique match가 resolve될 때까지 fail-closed한다. Terra는 WORKER_COMPLETE 한 번 뒤 멈추며 controller만 Sol review를 관찰하고, same threadId/Goal correction은 exact diff 승인 뒤에만 complete할 수 있다. Star-Control 작업은 fixed MCP Gateway와 Catalog-declared CLI-only 경계를 구분한다. MCP action을 사용할 때는 `star_tool_search`로 현재 registry를 검색하고 action readiness가 `ready`인 결과만 `star_tool_describe`로 다시 확인한다. describe에서 현재 Schema, 위험 lane, `descriptor_hash`, `required_call_tool`을 받은 뒤 그 tool에 `tool_id`, `descriptor_hash`, `arguments`를 전달한다. package나 manifest의 ready 상태는 action readiness가 아니다. Catalog에 MCP action이 없는 기능과 C01 Profile만 설치된 `star` CLI의 선언된 command로 실행하고 live `profile show|resolve` 결과를 고정한다. MCP action이 non-ready인 기능을 CLI로 우회하지 않는다. ready MCP action도 CLI-only command도 사용할 수 없으면 일반 Codex 개발 작업을 막지 말고 프로젝트 native 도구를 사용하며 fallback 사실과 이유와 Star-Control evidence 부재를 결과에 기록한다. `star_tool_registry_status`는 진단용이며 필수 선행 Gate가 아니다. `TOOL_DESCRIPTOR_STALE`이면 다시 describe한다. `approval_required`, `question_required`와 Operation ID 반환은 완료가 아니다.","hookEventName":"SessionStart"}}"#);
    let context = output["hookSpecificOutput"]["additionalContext"].as_str().unwrap();
    assert!(context.contains("프로젝트 native 도구"));
    assert!(context.contains("fallback 사실과 이유"));
    assert!(context.contains("implicit invocation은 새 Codex task/thread 승인이나 병렬 위임이 아니다"));
    assert!(context.contains("list_projects({})"));
    assert!(context.contains("BOOTSTRAP_ONLY만 든 prompt"));
}

#[test]
fn unreadable_pre_tool_input_is_denied_and_other_hooks_fail() {
    let reply = reply_to_unreadable_input(HookEvent::PreToolUse, HookInputFailure::NotJson);
    assert_eq!(reply.exit_code, 0);
    assert!(reply.stderr.is_none());
    let out = from_json(reply.stdout.as_ref().unwrap());
    assert_eq!(out["hookSpecificOutput"]["permissionDecision"], "deny");
    assert_eq!(
        out["hookSpecificOutput"]["permissionDecisionReason"],
        "PreToolUse input is malformed JSON or contains duplicate keys"
    );
    let reply = reply_to_unreadable_input(HookEvent::Stop, HookInputFailure::NotUtf8);
    assert_eq!(reply.exit_code, 2);
    assert!(reply.stdout.is_none());
    assert_eq!(reply.stderr.as_deref(), Some("invalid Stop hook input"));
}

#[test]
fn invalid_pre_tool_input_is_denied_with_the_validation_error() {
    let reply = reply_to_invalid_input(HookEvent::PreToolUse, "hook input has no string cwd");
    assert_eq!(reply.exit_code, 0);
    let out = from_json(reply.stdout.as_ref().unwrap());
    assert_eq!(
        out["hookSpecificOutput"]["permissionDecisionReason"],
        "malformed PreToolUse input: hook input has no string cwd"
    );
    let reply = reply_to_invalid_input(HookEvent::SubagentStart, "hook input has no string agent_id");
    assert_eq!(reply.exit_code, 2);
    assert_eq!(reply.stderr.as_deref(), Some("hook input has no string agent_id"));
}

#[test]
fn only_denied_pre_tool_calls_end_before_the_report() {
    let value = input(
        "PreToolUse",
        r#","tool_name":"Bash","tool_use_id":"t","tool_input":{"command":"git clean -fdx"}"#,
    );
    let validated = validate_typed_hook_input(HookEvent::PreToolUse, &to_json(&value)).unwrap();
    let reply = denial_reply(HookEvent::PreToolUse, &validated).unwrap();
    let out = from_json(reply.stdout.as_ref().unwrap());
    assert_eq!(
        out["hookSpecificOutput"]["permissionDecisionReason"],
        "git clean is forbidden; preserve dirty and untracked worktrees"
    );
    assert!(denial_reply(HookEvent::PostToolUse, &validated).is_none());
}

#[test]
fn final_replies_follow_the_event_and_never_fail_on_a_missing_controller() {
    let value = input("Stop", r#","stop_hook_active":false"#);
    let validated = validate_typed_hook_input(HookEvent::Stop, &to_json(&value)).unwrap();
    let reply = final_reply(HookEvent::Stop, &validated, Some("Controller IPC configuration is unavailable"), SERVER_INSTRUCTIONS);
    assert_eq!(reply.exit_code, 0);
    assert_eq!(from_json(reply.stdout.as_ref().unwrap()), serde_json::from_str::<Value>(r#"{"continue":true}"#).unwrap());
    assert_eq!(
        reply.stderr.as_deref(),
        Some("Star-Control lifecycle observation was not recorded: Controller IPC configuration is unavailable")
    );
    let value = input("UserPromptSubmit", r#","prompt":"hi""#);
    let validated = validate_typed_hook_input(HookEvent::UserPromptSubmit, &to_json(&value)).unwrap();
    let reply = final_reply(HookEvent::UserPromptSubmit, &validated, None, SERVER_INSTRUCTIONS);
    assert!(reply.stdout.is_none() && reply.stderr.is_none());
    assert_eq!(reply.exit_code, 0);
}

#[test]
fn lifecycle_observations_name_the_owner_or_the_session() {
    assert_eq!(lifecycle_instance_id("thr_1", Some(41)), "codex-desktop:41");
    assert_eq!(lifecycle_instance_id("thr_1", None), "codex-session:thr_1");
    let payload = from_json(&lifecycle_observation(HookEvent::SessionEnd, "thr_1", Some(4000000000)));
    let expected: Value = serde_json::from_str(
        r#"{"event":"root_stop","instance_id":"codex-desktop:4000000000","task_id":"thr_1","owner_pid":4000000000}"#,
    )
    .unwrap();
    assert_eq!(payload, expected);
    let payload = from_json(&lifecycle_observation(HookEvent::PreToolUse, "thr_1", None));
    assert_eq!(payload["owner_pid"], Value::Null);
    assert_eq!(payload["event"], "tool_started");
}

#[test]
fn a_stalled_session_end_report_names_its_budget() {
    assert_eq!(
        lifecycle_timeout_message(HookEvent::SessionEnd).as_deref(),
        Some("SessionEnd lifecycle observation exceeded the 2000 ms internal Hook budget")
    );
    assert!(lifecycle_timeout_message(HookEvent::Stop).is_none());
}

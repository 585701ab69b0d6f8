use serde_json::{Map as JsonMap, Value};
use star_control::hook::{
    parse_hook_event, pre_tool_use_denial_reason, pre_tool_use_deny_output, validate_typed_hook_input,
    lifecycle_identifier_valid, HookEvent, SESSION_END_CODEX_HOST_TIMEOUT_SECONDS,
    SESSION_END_LIFECYCLE_REPORT_TIMEOUT_MILLIS,
};
use star_control::json::{JsonMember, JsonValue};
use star_control::post_tool::post_tool_use_context;

fn to_json(v: &Value) -> JsonValue {
    match v {
        Value::Null => JsonValue::Null,
        Value::Bool(b) => JsonValue::Bool(*b),
        Value::Number(n) => JsonValue::Number(n.to_string()),
        Value::String(s) => JsonValue::Str(s.clone()),
        Value::Array(items) => JsonValue::Array(items.iter().map(to_json).collect()),
        Value::Object(members) => JsonValue::Object(
            members
                .iter()
                .map(|(k, v)| JsonMember { key: k.clone(), value: to_json(v) })
                .collect(),
        ),
    }
}

fn from_json(v: &JsonValue) -> Value {
    match v {
        JsonValue::Null => Value::Null,
        JsonValue::Bool(b) => Value::Bool(*b),
        JsonValue::Number(n) => serde_json::from_str(n).unwrap(),
        JsonValue::Str(s) => Value::String(s.clone()),
        JsonValue::Array(items) => Value::Array(items.iter().map(from_json).collect()),
        JsonValue::Object(members) => {
            let mut map = JsonMap::new();
            for m in members {
                map.insert(m.key.clone(), from_json(&m.value));
            }
            Value::Object(map)
        }
    }
}

fn text(s: &str) -> Value {
    Value::String(s.to_owned())
}

fn pre_tool_hook_input(command: &str) -> Value {
    let mut tool_input = JsonMap::new();
    tool_input.insert("command".to_owned(), text(command));
    let mut map = JsonMap::new();
    map.insert("session_id".to_owned(), text("thr_fixture"));
    map.insert("transcript_path".to_owned(), Value::Null);
    map.insert("cwd".to_owned(), text(r"D:\work\repo"));
    map.insert("hook_event_name".to_owned(), text("PreToolUse"));
    map.insert("model".to_owned(), text("gpt-5.6-sol"));
    map.insert("permission_mode".to_owned(), text("default"));
    map.insert("turn_id".to_owned(), text("turn_fixture"));
    map.insert("tool_name".to_owned(), text("Bash"));
    map.insert("tool_use_id".to_owned(), text("tool_fixture"));
    map.insert("tool_input".to_owned(), Value::Object(tool_input));
    Value::Object(map)
}

fn denial_for(value: &Value) -> Option<String> {
    let input = validate_typed_hook_input(HookEvent::PreToolUse, &to_json(value)).unwrap();
    pre_tool_use_denial_reason(&input)
}

#[test]
fn session_end_uses_the_existing_bounded_root_stop_lifecycle() {
    assert_eq!(HookEvent::SessionEnd.hook_event_name(), "SessionEnd");
    assert_eq!(HookEvent::SessionEnd.lifecycle_event(), "root_stop");
}

#[test]
fn session_end_lifecycle_report_budget_stays_inside_codex_host_timeout() {
    assert_eq!(
        HookEvent::SessionEnd.lifecycle_report_timeout(),
        Some(SESSION_END_LIFECYCLE_REPORT_TIMEOUT_MILLIS)
    );
    assert!(SESSION_END_LIFECYCLE_REPORT_TIMEOUT_MILLIS < SESSION_END_CODEX_HOST_TIMEOUT_SECONDS * 1000);
    assert_eq!(HookEvent::Stop.lifecycle_report_timeout(), None);
}

#[test]
fn typed_pre_tool_hook_denies_malformed_and_every_force_flag_position() {
    let malformed: Value =
        serde_json::from_str(r#"{"hook_event_name":"PreToolUse","session_id":"thr_fixture"}"#).unwrap();
    assert!(validate_typed_hook_input(HookEvent::PreToolUse, &to_json(&malformed)).is_err());

    for command in [
        "git push --force origin main",
        "git push origin main --force",
        "git -C D:\\work\\repo push origin main -f",
        "pwsh -Command git push upstream HEAD --force-with-lease=abc",
        "git push origin +main:main",
        "git push -vf origin main",
    ] {
        let value = pre_tool_hook_input(command);
        assert_eq!(
            denial_for(&value).as_deref(),
            Some("force push is forbidden regardless of flag position"),
            "{command}"
        );
    }
    let safe = pre_tool_hook_input("git push origin main");
    assert!(denial_for(&safe).is_none());
}

#[test]
fn typed_pre_tool_hook_denies_destructive_git_generated_state_and_unbounded_paths() {
    for (command, reason_fragment) in [
        ("git reset HEAD --hard", "git reset --hard"),
        ("git clean -fd", "git clean"),
        (r"Set-Content C:\Users\u\.codex\plugins\cache\x\SKILL.md changed", "generated runtime state"),
        ("Remove-Item -Recurse $target", "recursive delete or move"),
        ("Move-Item source destination", "recursive delete or move"),
    ] {
        let value = pre_tool_hook_input(command);
        let reason = denial_for(&value).unwrap();
        assert!(reason.contains(reason_fragment), "{command}: {reason}");
    }

    for command in [
        r"Remove-Item -LiteralPath D:\work\repo\tmp -Recurse",
        r"Move-Item -LiteralPath D:\work\repo\from -Destination D:\work\repo\to",
    ] {
        let value = pre_tool_hook_input(command);
        assert!(denial_for(&value).is_none(), "{command}");
    }
}

fn post_tool_input() -> Value {
    serde_json::from_str(
        r#"{
            "session_id":"thr_fixture",
            "transcript_path":null,
            "cwd":"D:\\work\\repo",
            "hook_event_name":"PostToolUse",
            "model":"gpt-5.6-sol",
            "permission_mode":"default",
            "turn_id":"turn_fixture",
            "tool_name":"mcp__star__invoke",
            "tool_use_id":"tool_fixture",
            "tool_input":{"tool_id":"star.example"},
            "tool_response":{
                "status":"accepted",
                "operation_id":"op_fixture",
                "terminal":false,
                "evidence":{"completeness":"partial"}
            }
        }"#,
    )
    .unwrap()
}

#[test]
fn post_tool_hook_marks_non_terminal_states_without_claiming_rollback() {
    let value = post_tool_input();
    let input = validate_typed_hook_input(HookEvent::PostToolUse, &to_json(&value)).unwrap();
    let output = from_json(&post_tool_use_context(&input).unwrap());
    let context = output["hookSpecificOutput"]["additionalContext"].as_str().unwrap();
    assert!(context.contains("accepted"));
    assert!(context.contains("partial"));
    assert!(context.contains("op_fixture"));
    assert!(context.contains("side effect를 되돌리지 않는다"));
}

#[test]
fn post_tool_markers_are_sorted_and_listed_once() {
    let value = post_tool_input();
    let input = validate_typed_hook_input(HookEvent::PostToolUse, &to_json(&value)).unwrap();
    let output = from_json(&post_tool_use_context(&input).unwrap());
    assert_eq!(output["hookSpecificOutput"]["hookEventName"], "PostToolUse");
    let context = output["hookSpecificOutput"]["additionalContext"].as_str().unwrap();
    assert!(context.starts_with(
        "Star-Control terminal-state guard: markers=[accepted,partial,terminal=false] operation_ids=[op_fixture]. "
    ));
}

#[test]
fn post_tool_hook_is_silent_without_markers() {
    let mut value = post_tool_input();
    value["tool_response"] = serde_json::from_str(r#"{"status":"succeeded","items":[{"state":"done"}]}"#).unwrap();
    let input = validate_typed_hook_input(HookEvent::PostToolUse, &to_json(&value)).unwrap();
    assert!(post_tool_use_context(&input).is_none());
}

#[test]
fn post_tool_markers_are_found_in_nested_arrays_under_status_keys() {
    let mut value = post_tool_input();
    value["tool_response"] = serde_json::from_str(
        r#"{"Result":["STALE","flaky"],"approval_required":true,"operation_id":"op_b","nested":{"operation_id":"op_a"}}"#,
    )
    .unwrap();
    let input = validate_typed_hook_input(HookEvent::PostToolUse, &to_json(&value)).unwrap();
    let output = from_json(&post_tool_use_context(&input).unwrap());
    let context = output["hookSpecificOutput"]["additionalContext"].as_str().unwrap();
    assert!(context.starts_with(
        "Star-Control terminal-state guard: markers=[approval_required,flaky,stale] operation_ids=[op_a,op_b]. "
    ));
}

#[test]
fn hook_event_names_parse_from_the_command_word() {
    assert_eq!(parse_hook_event("session-start"), Some(HookEvent::SessionStart));
    assert_eq!(parse_hook_event("pre-tool-use"), Some(HookEvent::PreToolUse));
    assert_eq!(parse_hook_event("subagent-stop"), Some(HookEvent::SubagentStop));
    assert_eq!(parse_hook_event("SessionStart"), None);
    assert_eq!(HookEvent::PreToolUse.lifecycle_event(), "tool_started");
    assert_eq!(HookEvent::Stop.lifecycle_event(), "root_stop");
}

#[test]
fn hook_input_errors_name_the_failing_field() {
    let mut value = pre_tool_hook_input("git status");
    value["hook_event_name"] = text("PostToolUse");
    let err = validate_typed_hook_input(HookEvent::PreToolUse, &to_json(&value)).err().unwrap();
    assert_eq!(err, "hook_event_name must be PreToolUse");

    let mut value = pre_tool_hook_input("git status");
    value["permission_mode"] = text("yolo");
    let err = validate_typed_hook_input(HookEvent::PreToolUse, &to_json(&value)).err().unwrap();
    assert_eq!(err, "hook input has unsupported permission_mode");

    let mut value = pre_tool_hook_input("git status");
    value["session_id"] = text("");
    let err = validate_typed_hook_input(HookEvent::PreToolUse, &to_json(&value)).err().unwrap();
    assert_eq!(err, "hook input has invalid session_id");

    let mut value = pre_tool_hook_input("git status");
    value.as_object_mut().unwrap().remove("tool_input");
    let err = validate_typed_hook_input(HookEvent::PreToolUse, &to_json(&value)).err().unwrap();
    assert_eq!(err, "tool hook input has no tool_input");

    let err = validate_typed_hook_input(HookEvent::PreToolUse, &JsonValue::Array(vec![])).err().unwrap();
    assert_eq!(err, "hook input must be one JSON object");

    assert!(lifecycle_identifier_valid("thr_fixture"));
    assert!(!lifecycle_identifier_valid(""));
    assert!(!lifecycle_identifier_valid("a\0b"));
    assert!(!lifecycle_identifier_valid(&"é".repeat(129)));
}

#[test]
fn malformed_shell_input_and_mutating_tools_are_denied() {
    let mut value = pre_tool_hook_input("ignored");
    value["tool_input"] = serde_json::from_str(r#"{"script":"x"}"#).unwrap();
    assert_eq!(denial_for(&value).as_deref(), Some("malformed Bash input has no string command"));

    let mut value = pre_tool_hook_input("ignored");
    value["tool_name"] = text("WriteFile");
    value["tool_input"] =
        serde_json::from_str(r#"{"path":"C:/Users/u/AppData/Local/Star-Control/state.json"}"#).unwrap();
    assert_eq!(
        denial_for(&value).as_deref(),
        Some("direct mutation of Codex trust/runtime DB, plugin cache, or Star-Control generated runtime state is forbidden")
    );

    let mut value = pre_tool_hook_input("ignored");
    value["tool_name"] = text("ReadFile");
    value["tool_input"] =
        serde_json::from_str(r#"{"path":"C:/Users/u/AppData/Local/Star-Control/state.json"}"#).unwrap();
    assert!(denial_for(&value).is_none());
}

#[test]
fn deny_output_names_the_reason() {
    let output = from_json(&pre_tool_use_deny_output("no"));
    let expected: Value = serde_json::from_str(
        r#"{"hookSpecificOutput":{"hookEventName":"PreToolUse","permissionDecision":"deny","permissionDecisionReason":"no"}}"#,
    )
    .unwrap();
    assert_eq!(output, expected);
}

#[test]
fn mutating_tools_are_screened_over_their_whole_serialized_input() {
    let mut value = pre_tool_hook_input("unused");
    let mut tool_input = JsonMap::new();
    tool_input.insert("file_path".to_owned(), text("C:/Users/dev/.codex/plugins/cache/x.json"));
    tool_input.insert("content".to_owned(), text("{}"));
    value["tool_input"] = Value::Object(tool_input);
    value["tool_name"] = text("Write");
    assert_eq!(
        denial_for(&value).as_deref(),
        Some("direct mutation of Codex trust/runtime DB, plugin cache, or Star-Control generated runtime state is forbidden")
    );
    value["tool_name"] = text("Read");
    assert_eq!(denial_for(&value), None);
}

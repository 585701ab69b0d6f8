use star_control::controller_cli::{parse_controller_command, relative_path_members, CLI_HELP};
use star_control::json::render_json;

fn args(words: &[&str]) -> Vec<String> {
    words.iter().map(|w| (*w).to_owned()).collect()
}

fn request(words: &[&str]) -> (String, String, bool) {
    let r = parse_controller_command(&args(words)).unwrap().unwrap();
    (r.command.clone(), render_json(&r.payload), r.json)
}

fn error(words: &[&str]) -> String {
    match parse_controller_command(&args(words)) {
        Some(Err(e)) => e,
        _ => panic!("expected an error"),
    }
}

#[test]
fn tools_list_maps_to_an_exact_search() {
    assert_eq!(
        request(&["tools", "list"]),
        (
            "tool.search".to_owned(),
            r#"{"limit":50,"query":"","readiness":["ready","unavailable","untrusted","incompatible","degraded"],"sources":null}"#.to_owned(),
            false
        )
    );
    assert_eq!(
        request(&["tools", "--json", "list", "--source", "user", "--readiness", "ready"]),
        (
            "tool.search".to_owned(),
            r#"{"limit":50,"query":"","readiness":["ready"],"sources":["user"]}"#.to_owned(),
            true
        )
    );
    assert_eq!(error(&["tools", "list", "--source", "remote"]), "--source must be release, user, or project");
    assert_eq!(error(&["tools", "list", "--readiness", "gone"]), "--readiness has an unsupported value");
    assert_eq!(error(&["tools", "list", "extra"]), "tools list requires exactly 0 positional argument(s)");
    assert_eq!(error(&["tools", "list", "--json", "--json"]), "--json may be supplied only once");
}

#[test]
fn tool_queries_carry_their_ids() {
    assert_eq!(request(&["tools", "describe", "user.fake"]).1, r#"{"tool_id":"user.fake"}"#);
    assert_eq!(request(&["tools", "status"]).1, r#"{"limit":200,"package_id":null}"#);
    assert_eq!(request(&["tools", "status", "pkg"]).1, r#"{"limit":200,"package_id":"pkg"}"#);
    assert_eq!(error(&["tools", "status", "a", "b"]), "tools status accepts at most one package ID");
    assert_eq!(
        request(&["tools", "probe", "pkg", "--executable", "main"]),
        ("tool.probe".to_owned(), r#"{"executable_id":"main","package_id":"pkg"}"#.to_owned(), false)
    );
    assert_eq!(request(&["tools", "probe", "pkg"]).1, r#"{"executable_id":null,"package_id":"pkg"}"#);
    assert_eq!(error(&["tools", "describe"]), "tools describe requires exactly 1 positional argument(s)");
    assert_eq!(error(&["tools", "describe", "a", "--lane", "x"]), "unknown option: --lane");
}

#[test]
fn tool_revocation_needs_a_bounded_reason() {
    assert_eq!(
        request(&["tools", "revoke", "pkg", "--reason", "compromised", "--cancel-running"]),
        ("tool.revoke".to_owned(), r#"{"cancel_running":true,"package_id":"pkg","reason":"compromised"}"#.to_owned(), false)
    );
    assert_eq!(request(&["tools", "revoke", "pkg", "--reason", "r"]).1, r#"{"cancel_running":false,"package_id":"pkg","reason":"r"}"#);
    assert_eq!(error(&["tools", "revoke", "pkg"]), "command requires --reason");
    assert_eq!(error(&["tools", "revoke", "pkg", "--reason", "a\0b"]), "--reason must contain 1 through 1000 characters");
    let long = "x".repeat(1001);
    assert_eq!(error(&["tools", "revoke", "pkg", "--reason", &long]), "--reason must contain 1 through 1000 characters");
    assert!(parse_controller_command(&args(&["tools", "revoke", "pkg", "--reason", &"x".repeat(1000)])).unwrap().is_ok());
}

#[test]
fn doctor_and_project_queries_take_their_exact_positionals() {
    assert_eq!(request(&["doctor"]), ("doctor.run".to_owned(), "{}".to_owned(), false));
    assert_eq!(request(&["project", "list", "--json"]), ("project.list".to_owned(), "{}".to_owned(), true));
    assert_eq!(request(&["project", "status", "alpha"]).1, r#"{"project_key":"alpha"}"#);
    assert_eq!(error(&["doctor", "now"]), "doctor requires exactly 0 positional argument(s)");
    assert_eq!(error(&["project", "status"]), "project status requires exactly 1 positional argument(s)");
    assert!(parse_controller_command(&args(&["tools", "call", "x"])).is_none());
    assert_eq!(error(&["installation", "status"]), CLI_HELP);
    assert_eq!(error(&[]), CLI_HELP);
    assert_eq!(error(&["tools"]), CLI_HELP);
    assert_eq!(error(&["tools", "call", "x", "--json", "--json"]), "--json may be supplied only once");
}

#[test]
fn profile_evaluation_management_and_controller_commands() {
    assert_eq!(request(&["profile", "list"]), ("profile.list".to_owned(), "{}".to_owned(), false));
    assert_eq!(request(&["profile", "show", "c01_base"]).1, r#"{"profile_id":"c01_base"}"#);
    assert_eq!(
        error(&["profile", "show", "Bad-Id"]),
        "profile-id must use 1 through 96 lowercase ASCII letters, digits, or underscores"
    );
    assert_eq!(request(&["evaluation", "show", "run:1.a"]).1, r#"{"evaluation_run_id":"run:1.a"}"#);
    assert_eq!(
        error(&["evaluation", "show", "a b"]),
        "evaluation-run-id must use 1 through 256 ASCII identifier characters"
    );
    assert_eq!(request(&["management", "status", "--json"]), ("management.status".to_owned(), "{}".to_owned(), true));
    assert_eq!(request(&["management", "retention", "plan"]).0, "management.retention.plan");
    assert_eq!(request(&["management", "rebuild", "plan"]).0, "management.rebuild.plan");
    assert_eq!(
        request(&["management", "migrate", "project-v1-v2", "plan"]).0,
        "management.migrate.project-v1-v2.plan"
    );
    assert_eq!(
        error(&["management", "retention", "plan", "x"]),
        "management retention plan requires exactly 0 positional argument(s)"
    );
    assert_eq!(request(&["controller", "start", "--background"]).1, r#"{"background":true}"#);
    assert_eq!(request(&["controller", "start"]).1, r#"{"background":false}"#);
    assert_eq!(error(&["controller", "start", "--json"]), "controller start does not support --json");
    assert_eq!(
        error(&["management", "backup", "plan"]),
        "management backup plan requires exactly 1 positional argument(s)"
    );
    assert!(parse_controller_command(&args(&["management", "backup", "apply", "x"])).is_none());
}

#[test]
fn release_evidence_and_retention_commands() {
    assert_eq!(
        request(&["release", "promote", "rm-1.2"]),
        ("release.promote".to_owned(), r#"{"release_manifest_id":"rm-1.2"}"#.to_owned(), false)
    );
    assert_eq!(request(&["release", "status", "rm"]).0, "release.status");
    assert_eq!(
        error(&["release", "show", ""]),
        "release-manifest-id must use 1 through 256 ASCII identifier characters"
    );
    assert_eq!(
        request(&["evidence", "get", "proj", "target/validation/run-1.a_b/report.json"]).1,
        r#"{"evidence_ref":"target/validation/run-1.a_b/report.json","project_key":"proj"}"#
    );
    for bad in [
        "target/validation//report.json",
        "target/validation/a/b/report.json",
        "target/validation/a/report.txt",
        "target/other/a/report.json",
        "target/validation/é/report.json",
    ] {
        assert_eq!(error(&["evidence", "get", "proj", bad]), "evidence-ref must be target/validation/<run>/report.json");
    }
    let digest = format!("sha256:{}", "ab".repeat(32));
    assert_eq!(
        request(&["management", "retention", "apply", "--approve", &digest]).1,
        format!(r#"{{"approved_plan_fingerprint":"{digest}"}}"#)
    );
    assert_eq!(
        error(&["management", "retention", "apply", "--approve", "abc"]),
        "--approve must be the exact retention plan sha256"
    );
    assert_eq!(error(&["management", "retention", "apply"]), "command requires --approve");
}

#[test]
fn trust_resolve_and_record_commands() {
    let digest = format!("sha256:{}", "0f".repeat(32));
    assert_eq!(
        request(&["tools", "trust", "pkg", "--manifest-hash", &digest, "--expires", "2026-01-02T03:04:05Z"]).1,
        format!(r#"{{"expires":"2026-01-02T03:04:05Z","manifest_hash":"{digest}","package_id":"pkg"}}"#)
    );
    assert_eq!(
        request(&["tools", "trust", "pkg", "--manifest-hash", &digest]),
        ("tool.trust".to_owned(), format!(r#"{{"expires":null,"manifest_hash":"{digest}","package_id":"pkg"}}"#), false)
    );
    assert_eq!(
        error(&["tools", "trust", "pkg", "--manifest-hash", &digest, "--expires", "tomorrow"]),
        "--expires must be an RFC 3339 timestamp"
    );
    assert_eq!(
        error(&["tools", "trust", "pkg", "--manifest-hash", "ABC"]),
        "--manifest-hash must be a lowercase sha256 value"
    );
    assert_eq!(
        request(&["profile", "resolve", "base", "c01"]),
        ("profile.resolve".to_owned(), r#"{"profile_ids":["base","c01"]}"#.to_owned(), false)
    );
    assert_eq!(error(&["profile", "resolve"]), "profile resolve requires 1 through 16 profile IDs");
    let many: Vec<String> = (0..17).map(|i| format!("p{i}")).collect();
    let mut words = vec!["profile", "resolve"];
    words.extend(many.iter().map(String::as_str));
    assert_eq!(error(&words), "profile resolve requires 1 through 16 profile IDs");
    assert_eq!(error(&["profile", "resolve", "a", "a"]), "profile resolve does not accept duplicate profile IDs");
    assert_eq!(
        error(&["profile", "resolve", "a", "B"]),
        "profile-id must use 1 through 96 lowercase ASCII letters, digits, or underscores"
    );
    assert_eq!(
        request(&["development", "record", "show", "task", "t-1", "--revision", "3"]),
        (
            "development.record.show".to_owned(),
            r#"{"record_id":"t-1","record_kind":"task","revision":3}"#.to_owned(),
            false
        )
    );
    assert_eq!(
        request(&["development", "record", "show", "task", "t-1"]).1,
        r#"{"record_id":"t-1","record_kind":"task","revision":null}"#
    );
    assert_eq!(
        error(&["development", "record", "show", "task", "t-1", "--revision", "0"]),
        "--revision must be a positive integer"
    );
    assert_eq!(
        error(&["development", "record", "show", "task", "t 1"]),
        "record-id must use 1 through 256 ASCII identifier characters"
    );
}

#[test]
fn validation_plan_and_run_carry_only_the_given_options() {
    assert_eq!(
        request(&["validation", "plan", "proj"]),
        ("validation.plan".to_owned(), r#"{"project_key":"proj"}"#.to_owned(), false)
    );
    assert_eq!(
        request(&["validation", "plan", "proj", "--unit", "core.lib-1", "--profile", "quick"]).1,
        r#"{"project_key":"proj","requested_profile":"quick","unit":"core.lib-1"}"#
    );
    assert_eq!(
        request(&["validation", "run", "proj", "--timeout-ms", "+01000"]),
        ("validation.run".to_owned(), r#"{"project_key":"proj","timeout_ms":1000}"#.to_owned(), false)
    );
    assert_eq!(error(&["validation", "plan", "proj", "--timeout-ms", "1000"]), "unknown option: --timeout-ms");
    assert_eq!(error(&["validation", "run", "proj", "--timeout-ms", "999"]), "--timeout-ms must be between 1000 and 3600000");
    assert_eq!(error(&["validation", "run", "proj", "--timeout-ms", "soon"]), "--timeout-ms must be an integer");
    assert_eq!(error(&["validation", "run", "proj", "--profile", "slow"]), "--profile must be quick, target, full, or release");
    assert_eq!(error(&["validation", "plan", "proj", "--unit", "a/b"]), "--unit contains an invalid unit identifier");
    assert_eq!(error(&["validation", "plan"]), "validation plan requires exactly 1 positional argument(s)");
}

fn parse(words: &[&str]) -> Result<star_control::controller_cli::ControllerRequest, String> {
    parse_controller_command(&args(words)).expect("a command form read by the library")
}

#[test]
fn help_and_frozen_commands_parse_without_local_state() {
    let parsed = parse(&["tools", "list", "--json"]).unwrap();
    assert_eq!(parsed.command, "tool.search");
    assert!(parsed.json);
    assert!(render_json(&parsed.payload).contains(r#""limit":50"#));
    assert!(render_json(&parsed.payload).contains(r#""readiness":["ready","unavailable","untrusted","incompatible","degraded"]"#));
    let status = parse(&["tools", "status"]).unwrap();
    assert!(render_json(&status.payload).contains(r#""limit":200"#));
    assert_eq!(parse(&["tools", "trust", "x"]).err().unwrap(), "command requires --manifest-hash");
    assert!(parse(&["tools", "list", "--source", "user", "--source", "project"]).err().unwrap().contains("only once"));
    assert!(parse(&["tools", "describe", "core.test.echo", "--unknown"]).err().unwrap().contains("unknown option"));
}

#[test]
fn every_frozen_cli_syntax_maps_to_the_exact_controller_command() {
    let hash = "sha256:0123456789abcdef0123456789abcdef0123456789abcdef0123456789abcdef";
    let cases: Vec<(Vec<&str>, &str)> = vec![
        (vec!["tools", "list"], "tool.search"),
        (vec!["tools", "describe", "user.fake.echo.run"], "tool.describe"),
        (vec!["tools", "status"], "tool.registry.status"),
        (vec!["tools", "validate", "package.toml", "--source", "user"], "tool.validate"),
        (vec!["tools", "probe", "user.fake.echo"], "tool.probe"),
        (
            vec!["tools", "trust", "user.fake.echo", "--manifest-hash", hash, "--expires", "2026-07-12T00:00:00Z"],
            "tool.trust",
        ),
        (vec!["tools", "revoke", "user.fake.echo", "--cancel-running", "--reason", "test"], "tool.revoke"),
        (vec!["tools", "scaffold", "tool.exe", "--output", "tool.toml"], "tool.scaffold"),
        (vec!["controller", "start", "--background"], "controller.start"),
        (vec!["controller", "autostart", "enable"], "controller.autostart.enable"),
        (vec!["controller", "autostart", "disable"], "controller.autostart.disable"),
        (vec!["controller", "autostart", "status"], "controller.autostart.status"),
    ];
    for (arguments, expected) in cases {
        assert_eq!(parse(&arguments).unwrap().command, expected);
    }
}

#[test]
fn unsupported_json_and_invalid_timestamp_forms_fail_before_ipc() {
    for command in [
        vec!["tools", "scaffold", "tool.exe", "--output", "tool.toml", "--json"],
        vec!["controller", "start", "--json"],
        vec!["controller", "autostart", "status", "--json"],
    ] {
        assert!(parse(&command).err().unwrap().contains("does not support --json"));
    }
    let hash = "sha256:0123456789abcdef0123456789abcdef0123456789abcdef0123456789abcdef";
    assert!(parse(&["tools", "trust", "user.fake.echo", "--manifest-hash", hash, "--expires", "tomorrow"])
        .err().unwrap()
        .contains("RFC 3339"));
}

#[test]
fn m10_release_and_evaluation_commands_emit_typed_controller_requests() {
    let release = parse(&["release", "status", "rel_01KY0000000000000000000000"]).unwrap();
    assert_eq!(release.command, "release.status");
    assert_eq!(render_json(&release.payload), r#"{"release_manifest_id":"rel_01KY0000000000000000000000"}"#);

    let transition = parse(&[
        "evaluation",
        "catalog",
        "transition",
        "rust-style@1.0.0",
        "rejected",
        "--trial-candidate",
        "--revision",
        "2",
    ])
    .unwrap();
    assert_eq!(transition.command, "evaluation.catalog.transition");
    assert!(render_json(&transition.payload).contains(r#""trial_candidate":true"#));
    assert!(render_json(&transition.payload).contains(r#""record_revision":2"#));

    let publish = parse(&["release", "publish", "prepare", "rel_01KY0000000000000000000000", "remote-before"]).unwrap();
    assert_eq!(publish.command, "release.publish.prepare");
    assert!(render_json(&publish.payload).contains(r#""before_snapshot_ref":"remote-before""#));
}

#[test]
fn profile_commands_emit_strict_controller_requests() {
    let list = parse(&["profile", "list"]).unwrap();
    assert_eq!(list.command, "profile.list");
    assert_eq!(render_json(&list.payload), "{}");

    let show = parse(&["profile", "show", "rust_style_auto_fix"]).unwrap();
    assert_eq!(show.command, "profile.show");
    assert_eq!(render_json(&show.payload), r#"{"profile_id":"rust_style_auto_fix"}"#);

    let resolve = parse(&["profile", "resolve", "security_supply_chain", "rust_style_auto_fix"]).unwrap();
    assert_eq!(resolve.command, "profile.resolve");
    assert_eq!(render_json(&resolve.payload), r#"{"profile_ids":["security_supply_chain","rust_style_auto_fix"]}"#);
    assert!(parse(&["profile", "resolve", "rust_style_auto_fix", "rust_style_auto_fix"]).is_err());
}

#[test]
fn path_commands_leave_their_paths_to_the_caller() {
    let scaffold = parse(&["tools", "scaffold", "tool.exe", "--output", "tool.toml"]).unwrap();
    assert_eq!(render_json(&scaffold.payload), r#"{"executable_path":"tool.exe","output_path":"tool.toml"}"#);
    assert_eq!(relative_path_members(&scaffold.command), vec!["executable_path".to_owned(), "output_path".to_owned()]);
    assert_eq!(parse(&["tools", "scaffold", "tool.exe"]).err().unwrap(), "command requires --output");
    let validate = parse(&["tools", "validate", "package.toml", "--source", "project"]).unwrap();
    assert_eq!(render_json(&validate.payload), r#"{"manifest_path":"package.toml","source":"project"}"#);
    assert_eq!(relative_path_members(&validate.command), vec!["manifest_path".to_owned()]);
    assert_eq!(
        parse(&["tools", "validate", "package.toml", "--source", "release"]).err().unwrap(),
        "validate --source must be user or project"
    );
    let backup = parse(&["management", "restore", "plan", "D:/backups"]).unwrap();
    assert_eq!(backup.command, "management.restore.plan");
    assert_eq!(render_json(&backup.payload), r#"{"backup_root":"D:/backups"}"#);
    assert_eq!(relative_path_members(&backup.command), vec!["backup_root".to_owned()]);
    assert!(relative_path_members("tool.search").is_empty());
}

#[test]
fn change_bundle_recipe_and_publish_forms() {
    assert_eq!(parse(&["change-bundle", "conflicts", "cb-1"]).unwrap().command, "change-bundle.conflicts");
    assert_eq!(
        parse(&["change-bundle", "show", "cb 1"]).err().unwrap(),
        "bundle-id must use 1 through 256 ASCII identifier characters"
    );
    let digest = format!("sha256:{}", "1a".repeat(32));
    let apply = parse(&["change-bundle", "remote", "operation", "apply", "op-1", "--request-fingerprint", &digest]).unwrap();
    assert_eq!(render_json(&apply.payload), format!(r#"{{"remote_operation_id":"op-1","request_fingerprint":"{digest}"}}"#));
    assert_eq!(
        parse(&["change-bundle", "remote", "operation", "apply", "op-1", "--request-fingerprint", "x"]).err().unwrap(),
        "--request-fingerprint must be an exact lowercase sha256"
    );
    assert!(parse_controller_command(&args(&["change-bundle", "remote", "operation", "prepare", "x"])).is_none());
    assert_eq!(render_json(&parse(&["recipe", "describe", "rust-style@1.0.0"]).unwrap().payload), r#"{"recipe_spec":"rust-style@1.0.0"}"#);
    assert_eq!(parse(&["recipe", "describe", "rust-style"]).err().unwrap(), "recipe describe requires recipe-id@semver");
    let wide = format!("{}@1", "é".repeat(128));
    assert_eq!(wide.chars().count(), 130);
    assert_eq!(parse(&["recipe", "describe", &wide]).err().unwrap(), "recipe describe requires recipe-id@semver");
    let narrow = format!("{}@1", "é".repeat(126));
    assert!(parse(&["recipe", "describe", &narrow]).is_ok());
    assert_eq!(
        parse(&["evaluation", "catalog", "transition", "r", "active"]).err().unwrap(),
        "next lifecycle must be deprecated, retired, or rejected"
    );
    assert_eq!(
        render_json(&parse(&["evaluation", "catalog", "transition", "r", "retired"]).unwrap().payload),
        r#"{"next":"retired","record_id":"r","record_revision":1,"trial_candidate":false}"#
    );
    assert_eq!(
        render_json(&parse(&["release", "publish", "apply", "rel"]).unwrap().payload),
        r#"{"release_manifest_id":"rel"}"#
    );
    assert!(parse_controller_command(&args(&["release", "publish", "authorize", "rel", "appr"])).is_none());
    assert_eq!(parse(&["controller", "autostart", "status", "extra"]).err().unwrap(), CLI_HELP);
}

use star_control::cli::{
    decimal_string, development_revision, parse_positive_revision, parse_tail, parse_u64, require_positionals,
    required_option, required_sha256_option, validate_development_id, validate_git_oid_cli, validate_idempotency_key, validate_profile_id,
    exit_code, require_json_object_keys, CliOptions, ResponseStatus,
};
use star_control::json::{JsonMember, JsonValue};
use star_control::local_options::{
    parse_bootstrap_state_generation, parse_integration_options, parse_offline_installer_restart_options,
    is_absolute_path_text, trim_chars,
};

fn args(values: &[&str]) -> Vec<String> {
    values.iter().map(|v| (*v).to_owned()).collect()
}

#[test]
fn git_object_ids_are_lowercase_hex_of_sha1_or_sha256_length() {
    assert!(validate_git_oid_cli(&"a".repeat(40), "--revision").is_ok());
    assert!(validate_git_oid_cli(&"0123456789abcdef".repeat(4), "--revision").is_ok());
    assert_eq!(
        validate_git_oid_cli(&"A".repeat(40), "--base").err().unwrap(),
        "--base must be a lowercase Git object id"
    );
    assert!(validate_git_oid_cli(&"a".repeat(41), "x").is_err());
    assert!(validate_git_oid_cli(&"g".repeat(40), "x").is_err());
}

#[test]
fn profile_and_development_ids_have_bounded_ascii_shapes() {
    assert!(validate_profile_id("rust_style_auto_fix").is_ok());
    assert!(validate_profile_id(&"a".repeat(96)).is_ok());
    assert!(validate_profile_id(&"a".repeat(97)).is_err());
    assert_eq!(
        validate_profile_id("Rust").err().unwrap(),
        "profile-id must use 1 through 96 lowercase ASCII letters, digits, or underscores"
    );
    assert!(validate_profile_id("").is_err());
    assert!(validate_development_id("language_migration_plan:plan-one", "record-id").is_ok());
    assert_eq!(
        validate_development_id("bad id", "record-id").err().unwrap(),
        "record-id must use 1 through 256 ASCII identifier characters"
    );
    assert!(validate_development_id(&"a".repeat(257), "x").is_err());
}

#[test]
fn idempotency_keys_are_not_blank_bounded_and_nul_free() {
    assert!(validate_idempotency_key("idem-1").is_ok());
    assert!(validate_idempotency_key(" \t ").is_err());
    assert!(validate_idempotency_key("a\0b").is_err());
    assert!(validate_idempotency_key(&"é".repeat(128)).is_ok());
    assert_eq!(
        validate_idempotency_key(&"é".repeat(129)).err().unwrap(),
        "--idempotency must contain 1 through 128 non-NUL characters"
    );
}

#[test]
fn revisions_are_positive_u64_numbers() {
    assert_eq!(parse_positive_revision("7"), Ok(7));
    assert_eq!(parse_positive_revision("+12"), Ok(12));
    assert_eq!(parse_positive_revision("18446744073709551615"), Ok(u64::MAX));
    for bad in ["0", "", "+", "-1", "18446744073709551616", "1.5", " 3"] {
        assert_eq!(parse_positive_revision(bad).err().unwrap(), "--revision must be a positive integer", "{bad}");
    }
    assert_eq!(parse_u64("0042"), Some(42));
    assert_eq!(parse_u64("x"), None);
    assert_eq!(decimal_string(0), "0");
    assert_eq!(decimal_string(1907), "1907");
}

#[test]
fn option_tails_split_positionals_values_and_flags() {
    let (positionals, options) = parse_tail(
        &args(&["user.fake.echo", "--manifest-hash", "sha256:1", "--json", "extra"]),
        &["--manifest-hash", "--expires"],
        &["--json"],
    )
    .unwrap();
    assert_eq!(positionals, vec!["user.fake.echo".to_owned(), "extra".to_owned()]);
    assert_eq!(options.get("--manifest-hash"), Some(Some("sha256:1".to_owned())));
    assert_eq!(options.get("--json"), Some(None));
    assert_eq!(options.get("--expires"), None);
    assert_eq!(required_option(&options, "--manifest-hash"), Ok("sha256:1".to_owned()));
    assert_eq!(required_option(&options, "--expires").err().unwrap(), "command requires --expires");
    assert_eq!(required_option(&options, "--json").err().unwrap(), "command requires --json");

    assert_eq!(
        parse_tail(&args(&["--json", "--json"]), &[], &["--json"]).err().unwrap(),
        "--json may be supplied only once"
    );
    assert_eq!(
        parse_tail(&args(&["--expires"]), &["--expires"], &[]).err().unwrap(),
        "--expires requires a value"
    );
    assert_eq!(
        parse_tail(&args(&["--expires", "--json"]), &["--expires"], &["--json"]).err().unwrap(),
        "--expires requires a value"
    );
    assert_eq!(parse_tail(&args(&["--unknown"]), &[], &[]).err().unwrap(), "unknown option: --unknown");
}

#[test]
fn development_revision_defaults_to_one() {
    let (_, options) = parse_tail(&args(&["--revision", "3"]), &["--revision"], &[]).unwrap();
    assert_eq!(development_revision(&options), Ok(3));
    assert_eq!(development_revision(&CliOptions::new()), Ok(1));
    let (_, options) = parse_tail(&args(&["--revision", "0"]), &["--revision"], &[]).unwrap();
    assert!(development_revision(&options).is_err());
}

#[test]
fn positional_counts_are_exact() {
    assert!(require_positionals(&args(&["a", "b"]), 2, "tools describe").is_ok());
    assert_eq!(
        require_positionals(&args(&["a"]), 2, "tools describe").err().unwrap(),
        "tools describe requires exactly 2 positional argument(s)"
    );
}

#[test]
fn bridge_initialize_takes_one_trimmed_state_generation() {
    assert_eq!(
        parse_bootstrap_state_generation(&args(&["--state-generation", "  bootstrap_v2 "])),
        Ok("bootstrap_v2".to_owned())
    );
    assert_eq!(
        parse_bootstrap_state_generation(&args(&["--state-generation", "   "])).err().unwrap(),
        "--state-generation must be a bounded non-empty id"
    );
    assert!(parse_bootstrap_state_generation(&args(&["--state-generation", &"x".repeat(129)])).is_err());
    assert_eq!(
        parse_bootstrap_state_generation(&args(&["--other", "x"])).err().unwrap(),
        "installation bridge initialize requires --state-generation <id>"
    );
    assert_eq!(trim_chars(&" \u{3000}a b\t".chars().collect::<Vec<_>>()).into_iter().collect::<String>(), "a b");
}

#[test]
fn integration_options_accept_one_codex_and_optional_skip() {
    assert_eq!(parse_integration_options(&args(&["--skip-register"]), true), Ok((None, true)));
    assert_eq!(
        parse_integration_options(&args(&["--codex", "a.exe"]), false),
        Ok((Some("a.exe".to_owned()), false))
    );
    assert_eq!(
        parse_integration_options(&args(&["--codex", "a.exe", "--codex", "b.exe"]), true).err().unwrap(),
        "--codex requires one executable path"
    );
    assert_eq!(
        parse_integration_options(&args(&["--skip-register"]), false).err().unwrap(),
        "unknown or duplicate option: --skip-register"
    );
    assert!(parse_integration_options(&args(&["--skip-register", "--skip-register"]), true).is_err());
}

#[test]
fn offline_installer_restart_needs_three_absolute_paths() {
    let ok = parse_offline_installer_restart_options(&args(&[
        "--install-root",
        r"D:\\Star-Control",
        "--installer",
        r"D:\\dist\\setup.exe",
        "--codex-desktop",
        r"C:\\Codex\\ChatGPT.exe",
    ]))
    .unwrap();
    assert_eq!(ok.0, r"D:\\Star-Control");
    assert_eq!(ok.2, r"C:\\Codex\\ChatGPT.exe");
    assert_eq!(
        parse_offline_installer_restart_options(&args(&["--install-root", "relative"])).err().unwrap(),
        "--install-root must be an absolute path"
    );
    assert_eq!(
        parse_offline_installer_restart_options(&args(&["--installer"])).err().unwrap(),
        "--installer requires one value"
    );
    assert_eq!(
        parse_offline_installer_restart_options(&args(&["--install-root", r"D:\x"])).err().unwrap(),
        "offline installer restart requires --installer <absolute-path>"
    );
    assert!(is_absolute_path_text(r"\\server\share\x"));
    assert!(!is_absolute_path_text(r"\rooted"));
    assert!(!is_absolute_path_text("C:relative"));
}

#[test]
fn cli_exit_codes_follow_the_frozen_management_contract() {
    assert_eq!(exit_code(ResponseStatus::Success, None), 0);
    assert_eq!(exit_code(ResponseStatus::Accepted, None), 0);
    assert_eq!(exit_code(ResponseStatus::ApprovalRequired, None), 3);
    assert_eq!(exit_code(ResponseStatus::QuestionRequired, None), 3);
    assert_eq!(exit_code(ResponseStatus::Blocked, None), 3);
    assert_eq!(exit_code(ResponseStatus::Error, Some("IPC_PROTOCOL_MISMATCH")), 6);
    assert_eq!(exit_code(ResponseStatus::Error, Some("TOOL_EXECUTABLE_UNTRUSTED")), 3);
    assert_eq!(exit_code(ResponseStatus::Error, Some("TOOL_MANIFEST_INVALID")), 2);
    assert_eq!(exit_code(ResponseStatus::Error, Some("TOOL_PROCESS_START_FAILED")), 4);
}

#[test]
fn error_codes_without_a_code_and_policy_prefixes_map_exactly() {
    assert_eq!(exit_code(ResponseStatus::Error, None), 4);
    assert_eq!(exit_code(ResponseStatus::Error, Some("POLICY_DENIED")), 3);
    assert_eq!(exit_code(ResponseStatus::Error, Some("X_POLICY_DENIED")), 4);
    assert_eq!(exit_code(ResponseStatus::Error, Some("SCHEMA_VERSION_UNSUPPORTED_MANIFEST")), 6);
    assert_eq!(exit_code(ResponseStatus::Error, Some("SCAFFOLD_EXISTS")), 2);
}

fn object(keys: &[&str]) -> JsonValue {
    JsonValue::Object(keys.iter().map(|k| JsonMember { key: (*k).to_owned(), value: JsonValue::Null }).collect())
}

#[test]
fn json_inputs_need_exactly_the_expected_fields() {
    assert!(require_json_object_keys(&object(&["commands", "config_keys"]), &["config_keys", "commands"]).is_ok());
    assert_eq!(
        require_json_object_keys(&object(&["commands"]), &["commands", "config_keys"]).err().unwrap(),
        "JSON input has missing or unknown fields"
    );
    assert_eq!(
        require_json_object_keys(&object(&["commands", "extra"]), &["commands"]).err().unwrap(),
        "JSON input has missing or unknown fields"
    );
    assert_eq!(
        require_json_object_keys(&JsonValue::Array(vec![]), &[]).err().unwrap(),
        "JSON input must be an object"
    );
    assert!(require_json_object_keys(&object(&[]), &[]).is_ok());
}

#[test]
fn sha256_options_are_prefixed_lowercase_digests() {
    let digest = "sha256:0123456789abcdef0123456789abcdef0123456789abcdef0123456789abcdef";
    let (_, options) = parse_tail(
        &args(&["--approve", digest, "--scope", "sha256:ABC"]),
        &["--approve", "--scope", "--other"],
        &[],
    )
    .unwrap();
    assert_eq!(required_sha256_option(&options, "--approve"), Ok(digest.to_owned()));
    assert_eq!(
        required_sha256_option(&options, "--scope").err().unwrap(),
        "--scope must be an exact lowercase sha256"
    );
    assert_eq!(required_sha256_option(&options, "--other").err().unwrap(), "command requires --other");
}

use star_control::hook::HookEvent;
use star_control::local_command::{
    is_sha256_digest, parse_integration_update_apply_options, parse_local, parse_update_apply_options, LocalCommand,
    ParsedLocal, TargetArchitecture,
};

const DIGEST: &str = "sha256:0000000000000000000000000000000000000000000000000000000000000000";

fn args(values: &[&str]) -> Vec<String> {
    values.iter().map(|value| (*value).to_owned()).collect()
}

fn parse(values: &[&str]) -> Result<Option<ParsedLocal>, String> {
    parse_local(&args(values))
}

fn command(values: &[&str]) -> LocalCommand {
    parse(values).unwrap().unwrap().command
}

fn error(values: &[&str]) -> String {
    match parse(values) {
        Err(e) => e,
        _ => panic!("{values:?} must be refused"),
    }
}

#[test]
fn parses_local_lifecycle_without_controller_state() {
    assert!(
        parse(&["installation", "finalize", "--architecture", "x64", "--replace-existing", "--json"])
            .unwrap()
            .unwrap()
            .json
    );
    assert!(matches!(
        command(&["integration", "repair", "--skip-register"]),
        LocalCommand::IntegrationInstall { repair: true, skip_register: true, .. }
    ));
    assert!(matches!(
        command(&["hook", "session-start"]),
        LocalCommand::Hook { event: HookEvent::SessionStart }
    ));
    assert!(matches!(command(&["hook", "session-end"]), LocalCommand::Hook { event: HookEvent::SessionEnd }));
    assert!(matches!(
        command(&["integration", "repair", "restart", "--codex-desktop", r"C:\\Codex\\ChatGPT.exe"]),
        LocalCommand::IntegrationRepairRestart { .. }
    ));
    assert!(matches!(command(&["controller", "autostart", "enable"]), LocalCommand::ControllerAutostart { .. }));
    assert!(matches!(command(&["update", "verify", "--json"]), LocalCommand::UpdateVerify));
    assert!(matches!(
        command(&["installation", "bridge", "initialize", "--state-generation", "bootstrap_v2"]),
        LocalCommand::InstallationBridgeInitialize { .. }
    ));
    assert!(matches!(command(&["update", "stage", "D:\\stage\\rt_candidate"]), LocalCommand::UpdateStage { .. }));
    assert!(matches!(command(&["update", "inspect", "rt_candidate"]), LocalCommand::UpdateInspect { .. }));
    assert!(matches!(
        command(&["update", "inspect", r"D:\\stage\\star-control-x64"]),
        LocalCommand::UpdateInspect { .. }
    ));
    assert!(matches!(
        command(&["update", "apply", "rt_candidate", "--state-generation", "state_2", "--approve", DIGEST]),
        LocalCommand::UpdateApply { .. }
    ));
    assert!(matches!(
        command(&[
            "update",
            "apply",
            r"D:\\stage\\star-control-x64",
            "--codex-desktop",
            r"C:\\Codex\\ChatGPT.exe",
            "--approve",
            DIGEST,
        ]),
        LocalCommand::UpdateIntegrationApply { .. }
    ));
    assert!(matches!(
        command(&[
            "update",
            "offline-installer-restart",
            "--install-root",
            r"D:\\Star-Control",
            "--installer",
            r"D:\\dist\\setup.exe",
            "--codex-desktop",
            r"C:\\Codex\\ChatGPT.exe",
        ]),
        LocalCommand::UpdateOfflineInstallerRestart { .. }
    ));
    assert!(matches!(
        command(&["update", "reconcile-installed-runtime", "--install-root", r"D:\Star-Control"]),
        LocalCommand::UpdateReconcileInstalledRuntime { .. }
    ));
}

#[test]
fn rejects_ambiguous_local_options() {
    assert!(parse(&["installation", "finalize"]).is_err());
    assert!(parse(&["integration", "install", "--codex", "a.exe", "--codex", "b.exe"]).is_err());
    assert!(parse(&["hook", "session-start", "--json"]).is_err());
    assert!(parse(&["update", "apply", "rt_candidate"]).is_err());
    assert!(parse(&["installation", "bridge", "initialize"]).is_err());
}

#[test]
fn controller_commands_are_not_local() {
    assert!(parse(&["tools", "list"]).unwrap().is_none());
    assert!(parse(&["controller", "start"]).unwrap().is_none());
    assert!(parse(&[]).unwrap().is_none());
    assert!(parse(&["--json", "hook", "stop"]).unwrap().is_none());
}

#[test]
fn local_command_errors_name_the_problem() {
    assert_eq!(error(&["update", "status", "--json", "--json"]), "--json may be supplied only once");
    assert_eq!(error(&["installation", "finalize"]), "installation finalize requires --architecture x64|arm64");
    assert_eq!(
        error(&["installation", "finalize", "--architecture"]),
        "installation finalize requires one --architecture value"
    );
    assert_eq!(
        error(&["installation", "finalize", "--architecture", "x64", "--architecture", "arm64"]),
        "installation finalize requires one --architecture value"
    );
    assert_eq!(
        error(&["installation", "finalize", "--replace-existing", "--replace-existing"]),
        "unknown or duplicate option: --replace-existing"
    );
    assert_eq!(
        error(&["installation", "bridge", "initialize"]),
        "installation bridge initialize requires --state-generation <id>"
    );
    assert_eq!(
        error(&["integration", "repair", "restart"]),
        "integration repair restart requires --codex-desktop <absolute-path>"
    );
    assert_eq!(
        error(&["integration", "repair", "restart", "--codex-desktop", "ChatGPT.exe"]),
        "--codex-desktop must be an absolute path"
    );
    assert_eq!(error(&["integration", "install", "--codex", "a", "--codex", "b"]), "--codex requires one executable path");
    assert_eq!(
        error(&["integration", "uninstall", "--skip-register"]),
        "unknown or duplicate option: --skip-register"
    );
    assert_eq!(error(&["update", "apply", "rt_candidate"]), "update apply requires --state-generation <id>");
    assert_eq!(
        error(&["update", "apply", "rt_candidate", "--state-generation", "s"]),
        "update apply requires --approve <sha256>"
    );
    assert_eq!(
        error(&["update", "apply", r"D:\stage", "--approve", DIGEST]),
        "integration update apply requires --codex-desktop <absolute-path>"
    );
    assert_eq!(
        error(&["update", "reconcile-installed-runtime"]),
        "update reconcile-installed-runtime requires one --install-root value"
    );
    assert_eq!(
        error(&["update", "reconcile-installed-runtime", "--root", r"D:\Star"]),
        "update reconcile-installed-runtime requires --install-root"
    );
    assert_eq!(
        error(&["update", "reconcile-installed-runtime", "--install-root", "Star"]),
        "--install-root must be an absolute path"
    );
    assert_eq!(error(&["hook", "launch"]), "unsupported hook event: launch");
    assert_eq!(error(&["hook", "stop", "--json"]), "hook commands do not accept --json");
    assert_eq!(
        error(&["controller", "autostart", "toggle"]),
        "unsupported local command; use star --help for installation, integration and hook syntax"
    );
    assert_eq!(
        error(&["update", "stage"]),
        "unsupported local command; use star --help for installation, integration and hook syntax"
    );
}

#[test]
fn finalize_reads_the_architecture_and_replacement_flag() {
    match command(&["installation", "finalize", "--replace-existing", "--architecture", "arm64"]) {
        LocalCommand::InstallationFinalize { architecture, replace_existing } => {
            assert_eq!(architecture, TargetArchitecture::Arm64);
            assert!(replace_existing);
        }
        _ => panic!("finalize"),
    }
    assert!(parse(&["installation", "finalize", "--architecture", "x86"]).is_err());
}

#[test]
fn update_apply_keeps_the_trimmed_state_generation_and_digest() {
    let (state, digest) =
        parse_update_apply_options(&args(&["--approve", DIGEST, "--state-generation", "  state_2 "])).unwrap();
    assert_eq!(state, "state_2");
    assert_eq!(digest, DIGEST);
    assert_eq!(
        parse_update_apply_options(&args(&["--state-generation", "   "])).unwrap_err(),
        "--state-generation must be a bounded non-empty id"
    );
    assert_eq!(parse_update_apply_options(&args(&["--approve"])).unwrap_err(), "--approve requires one value");
    assert_eq!(
        parse_update_apply_options(&args(&["--approve", "sha256:XYZ"])).unwrap_err(),
        "--approve must be a sha256 digest"
    );
    let (desktop, digest) =
        parse_integration_update_apply_options(&args(&["--codex-desktop", r"C:\Codex\ChatGPT.exe", "--approve", DIGEST]))
            .unwrap();
    assert_eq!(desktop, r"C:\Codex\ChatGPT.exe");
    assert_eq!(digest, DIGEST);
    assert_eq!(
        parse_integration_update_apply_options(&args(&["--codex-desktop", r"C:\Codex\ChatGPT.exe"])).unwrap_err(),
        "integration update apply requires --approve <sha256>"
    );
}

#[test]
fn digests_are_prefixed_lowercase_hex() {
    assert!(is_sha256_digest(DIGEST));
    assert!(is_sha256_digest("sha256:0123456789abcdef0123456789abcdef0123456789abcdef0123456789abcdef"));
    assert!(!is_sha256_digest("0123456789abcdef0123456789abcdef0123456789abcdef0123456789abcdef"));
    assert!(!is_sha256_digest("sha256:0123456789ABCDEF0123456789abcdef0123456789abcdef0123456789abcdef"));
    assert!(!is_sha256_digest("sha256:0123"));
    assert!(!is_sha256_digest("sha512:0123456789abcdef0123456789abcdef0123456789abcdef0123456789abcdef"));
}

#[test]
fn json_flag_may_stand_anywhere_after_the_first_word() {
    for words in [
        &["update", "--json", "verify"][..],
        &["update", "verify", "--json"][..],
        &["integration", "--json", "install", "--codex", "C:\\codex.exe"][..],
        &["integration", "install", "--codex", "C:\\codex.exe", "--json"][..],
    ] {
        let parsed = parse(words).unwrap().unwrap();
        assert!(parsed.json, "{words:?}");
    }
    assert!(matches!(command(&["update", "--json", "verify"]), LocalCommand::UpdateVerify));
    match command(&["integration", "--json", "install", "--codex", "C:\\codex.exe"]) {
        LocalCommand::IntegrationInstall { repair, codex, skip_register } => {
            assert!(!repair);
            assert_eq!(codex.as_deref(), Some("C:\\codex.exe"));
            assert!(!skip_register);
        }
        _ => panic!("integration install"),
    }
    assert_eq!(error(&["update", "--json", "--json", "verify"]), "--json may be supplied only once");
}

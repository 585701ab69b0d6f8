//! The local `star` commands that run without the Controller:
//! `installation`, `integration`, `update`, `controller autostart` and
//! `hook`.  This module reads the argument list into one command.
use vstd::prelude::*;

use crate::cli::{string_texts, is_lower_hex};
use crate::hook::{HookEvent, hook_event_named, parse_hook_event, concat_str};
use crate::local_options::{
    bounded_generation_id, trim_chars, integration_scan, parse_integration_options, is_absolute_text,
    is_absolute_path_text, offline_restart_spec, parse_offline_installer_restart_options,
    parse_bootstrap_state_generation, opt_view,
};
use crate::shell::{strings_view, clone_strings_from};
use crate::text::{chars_of, str_eq, string_from_chars};

verus! {

#[derive(Clone, Copy, Debug, PartialEq, Eq, Structural)]
pub enum TargetArchitecture {
    X64,
    Arm64,
}

/// The architectures `installation finalize --architecture` takes:
/// `x64` and `arm64`.
pub open spec fn architecture_named(t: Seq<char>) -> Option<TargetArchitecture> {
    if t == "x64"@ {
        Some(TargetArchitecture::X64)
    } else if t == "arm64"@ {
        Some(TargetArchitecture::Arm64)
    } else {
        None
    }
}

pub fn parse_architecture(text: &str) -> (result: Option<TargetArchitecture>)
    ensures
        result == architecture_named(text@),
{
    if str_eq(text, "x64") {
        Some(TargetArchitecture::X64)
    } else if str_eq(text, "arm64") {
        Some(TargetArchitecture::Arm64)
    } else {
        None
    }
}

/// A SHA-256 digest as the CLI takes it: `sha256:` and exactly 64
/// lowercase hexadecimal digits.
pub open spec fn is_sha256_text(t: Seq<char>) -> bool {
    &&& t.len() == 71
    &&& t.take(7) == "sha256:"@
    &&& forall|i: int| 7 <= i < t.len() ==> is_lower_hex(#[trigger] t[i])
}

pub fn is_sha256_digest(text: &str) -> (result: bool)
    ensures
        result == is_sha256_text(text@),
{
    let chars = chars_of(text);
    let prefix = chars_of("sha256:");
    proof {
        reveal_strlit("sha256:");
    }
    if chars.len() != 71 {
        return false;
    }
    assert(prefix@.len() == 7);
    let mut i: usize = 0;
    while i < 7
        invariant
            chars@ == text@,
            chars@.len() == 71,
            prefix@ == "sha256:"@,
            prefix@.len() == 7,
            i <= 7,
            chars@.take(i as int) == prefix@.take(i as int),
        decreases 7 - i,
    {
        if chars[i] != prefix[i] {
            assert(chars@.take(7)[i as int] != "sha256:"@[i as int]);
            return false;
        }
        assert(chars@.take(i + 1) =~= chars@.take(i as int).push(chars@[i as int]));
        assert(prefix@.take(i + 1) =~= prefix@.take(i as int).push(prefix@[i as int]));
        i = i + 1;
    }
    assert(prefix@.take(7) =~= prefix@);
    while i < chars.len()
        invariant
            chars@ == text@,
            chars@.len() == 71,
            7 <= i <= chars@.len(),
            forall|k: int| 7 <= k < i ==> is_lower_hex(#[trigger] chars@[k]),
        decreases chars@.len() - i,
    {
        let c = chars[i];
        if !(('0' <= c && c <= '9') || ('a' <= c && c <= 'f')) {
            assert(!is_lower_hex(chars@[i as int]));
            return false;
        }
        i = i + 1;
    }
    true
}

// ----------------------------------------------------------------------
// Option tails.
// ----------------------------------------------------------------------

/// Reads `--architecture <x64|arm64>` and `--replace-existing`, each at most
/// once, from position `i` on.
pub open spec fn finalize_scan(
    tail: Seq<Seq<char>>,
    i: int,
    architecture: Option<TargetArchitecture>,
    replace: bool,
) -> Result<(Option<TargetArchitecture>, bool), Seq<char>>
    decreases tail.len() - i,
{
    if i < 0 || i >= tail.len() {
        Ok((architecture, replace))
    } else if tail[i] == "--architecture"@ {
        if architecture is Some || i + 1 >= tail.len() {
            Err("installation finalize requires one --architecture value"@)
        } else {
            match architecture_named(tail[i + 1]) {
                None => Err("--architecture must be x64 or arm64"@),
                Some(a) => finalize_scan(tail, i + 2, Some(a), replace),
            }
        }
    } else if tail[i] == "--replace-existing"@ && !replace {
        finalize_scan(tail, i + 1, architecture, true)
    } else {
        Err("unknown or duplicate option: "@ + tail[i])
    }
}

pub open spec fn finalize_spec(tail: Seq<Seq<char>>) -> Result<(TargetArchitecture, bool), Seq<char>> {
    match finalize_scan(tail, 0, None, false) {
        Err(e) => Err(e),
        Ok((architecture, replace)) => match architecture {
            None => Err("installation finalize requires --architecture x64|arm64"@),
            Some(a) => Ok((a, replace)),
        },
    }
}

pub fn parse_finalize_options(tail: &[String]) -> (result: Result<(TargetArchitecture, bool), String>)
    ensures
        match finalize_spec(string_texts(tail@)) {
            Ok((a, replace)) => result matches Ok((ra, rr)) && ra == a && rr == replace,
            Err(e) => result matches Err(r) && r@ == e,
        },
{
    let ghost t = string_texts(tail@);
    let mut architecture: Option<TargetArchitecture> = None;
    let mut replace_existing = false;
    let mut index: usize = 0;
    while index < tail.len()
        invariant
            t == string_texts(tail@),
            t.len() == tail@.len(),
            finalize_scan(t, 0, None, false) == finalize_scan(t, index as int, architecture, replace_existing),
        decreases tail@.len() - index,
    {
        let token = tail[index].as_str();
        assert(t[index as int] == token@);
        if str_eq(token, "--architecture") {
            if architecture.is_some() || index + 1 >= tail.len() {
                return Err("installation finalize requires one --architecture value".to_owned());
            }
            assert(t[index + 1] == tail@[index + 1]@);
            match parse_architecture(tail[index + 1].as_str()) {
                Some(a) => {
                    architecture = Some(a);
                },
                None => return Err("--architecture must be x64 or arm64".to_owned()),
            }
            index = index + 2;
        } else if str_eq(token, "--replace-existing") && !replace_existing {
            replace_existing = true;
            index = index + 1;
        } else {
            return Err(concat_str("unknown or duplicate option: ", token));
        }
    }
    match architecture {
        Some(a) => Ok((a, replace_existing)),
        None => Err("installation finalize requires --architecture x64|arm64".to_owned()),
    }
}

/// Reads `--state-generation <id>` and `--approve <sha256>`, each at most
/// once, from position `i` on.
pub open spec fn update_apply_scan(
    tail: Seq<Seq<char>>,
    i: int,
    state: Option<Seq<char>>,
    approve: Option<Seq<char>>,
) -> Result<(Option<Seq<char>>, Option<Seq<char>>), Seq<char>>
    decreases tail.len() - i,
{
    if i < 0 || i >= tail.len() {
        Ok((state, approve))
    } else if i + 1 >= tail.len() {
        Err(tail[i] + " requires one value"@)
    } else if tail[i] == "--state-generation"@ && state is None {
        match bounded_generation_id(tail[i + 1]) {
            None => Err("--state-generation must be a bounded non-empty id"@),
            Some(id) => update_apply_scan(tail, i + 2, Some(id), approve),
        }
    } else if tail[i] == "--approve"@ && approve is None {
        if is_sha256_text(tail[i + 1]) {
            update_apply_scan(tail, i + 2, state, Some(tail[i + 1]))
        } else {
            Err("--approve must be a sha256 digest"@)
        }
    } else {
        Err("unknown or duplicate option: "@ + tail[i])
    }
}

/// `update apply <generation-id>` options: the state generation and the
/// approved scope digest.
pub open spec fn update_apply_spec(tail: Seq<Seq<char>>) -> Result<(Seq<char>, Seq<char>), Seq<char>> {
    match update_apply_scan(tail, 0, None, None) {
        Err(e) => Err(e),
        Ok((state, approve)) => match state {
            None => Err("update apply requires --state-generation <id>"@),
            Some(s) => match approve {
                None => Err("update apply requires --approve <sha256>"@),
                Some(h) => Ok((s, h)),
            },
        },
    }
}

pub fn parse_update_apply_options(tail: &[String]) -> (result: Result<(String, String), String>)
    ensures
        match update_apply_spec(string_texts(tail@)) {
            Ok((s, h)) => result matches Ok((rs, rh)) && rs@ == s && rh@ == h,
            Err(e) => result matches Err(r) && r@ == e,
        },
{
    let ghost t = string_texts(tail@);
    let mut state: Option<String> = None;
    let mut approve: Option<String> = None;
    let mut index: usize = 0;
    while index < tail.len()
        invariant
            t == string_texts(tail@),
            t.len() == tail@.len(),
            update_apply_scan(t, 0, None, None) == update_apply_scan(t, index as int, opt_view(state), opt_view(approve)),
        decreases tail@.len() - index,
    {
        assert(t[index as int] == tail@[index as int]@);
        if index + 1 >= tail.len() {
            return Err(concat_str(tail[index].as_str(), " requires one value"));
        }
        assert(t[index + 1] == tail@[index + 1]@);
        let name = tail[index].as_str();
        let value = tail[index + 1].as_str();
        if str_eq(name, "--state-generation") && state.is_none() {
            let trimmed = trim_chars(chars_of(value).as_slice());
            if trimmed.len() == 0 || trimmed.len() > 128 {
                return Err("--state-generation must be a bounded non-empty id".to_owned());
            }
            state = Some(string_from_chars(trimmed.as_slice()));
        } else if str_eq(name, "--approve") && approve.is_none() {
            if !is_sha256_digest(value) {
                return Err("--approve must be a sha256 digest".to_owned());
            }
            approve = Some(value.to_owned());
        } else {
            return Err(concat_str("unknown or duplicate option: ", name));
        }
        index = index + 2;
    }
    let state = match state {
        Some(s) => s,
        None => return Err("update apply requires --state-generation <id>".to_owned()),
    };
    match approve {
        Some(h) => Ok((state, h)),
        None => Err("update apply requires --approve <sha256>".to_owned()),
    }
}

/// Reads `--codex-desktop <absolute-path>` and `--approve <sha256>`, each at
/// most once, from position `i` on.
pub open spec fn integration_apply_scan(
    tail: Seq<Seq<char>>,
    i: int,
    desktop: Option<Seq<char>>,
    approve: Option<Seq<char>>,
) -> Result<(Option<Seq<char>>, Option<Seq<char>>), Seq<char>>
    decreases tail.len() - i,
{
    if i < 0 || i >= tail.len() {
        Ok((desktop, approve))
    } else if i + 1 >= tail.len() {
        Err(tail[i] + " requires one value"@)
    } else if tail[i] == "--codex-desktop"@ && desktop is None {
        if is_absolute_text(tail[i + 1]) {
            integration_apply_scan(tail, i + 2, Some(tail[i + 1]), approve)
        } else {
            Err("--codex-desktop must be an absolute path"@)
        }
    } else if tail[i] == "--approve"@ && approve is None {
        if is_sha256_text(tail[i + 1]) {
            integration_apply_scan(tail, i + 2, desktop, Some(tail[i + 1]))
        } else {
            Err("--approve must be a sha256 digest"@)
        }
    } else {
        Err("unknown or duplicate option: "@ + tail[i])
    }
}

/// `update apply <absolute-candidate-root>` options: the Codex desktop
/// executable and the approved scope digest.
pub open spec fn integration_apply_spec(tail: Seq<Seq<char>>) -> Result<(Seq<char>, Seq<char>), Seq<char>> {
    match integration_apply_scan(tail, 0, None, None) {
        Err(e) => Err(e),
        Ok((desktop, approve)) => match desktop {
            None => Err("integration update apply requires --codex-desktop <absolute-path>"@),
            Some(d) => match approve {
                None => Err("integration update apply requires --approve <sha256>"@),
                Some(h) => Ok((d, h)),
            },
        },
    }
}

pub fn parse_integration_update_apply_options(tail: &[String]) -> (result: Result<(String, String), String>)
    ensures
        match integration_apply_spec(string_texts(tail@)) {
            Ok((d, h)) => result matches Ok((rd, rh)) && rd@ == d && rh@ == h,
            Err(e) => result matches Err(r) && r@ == e,
        },
{
    let ghost t = string_texts(tail@);
    let mut desktop: Option<String> = None;
    let mut approve: Option<String> = None;
    let mut index: usize = 0;
    while index < tail.len()
        invariant
            t == string_texts(tail@),
            t.len() == tail@.len(),
            integration_apply_scan(t, 0, None, None) == integration_apply_scan(t, index as int, opt_view(desktop), opt_view(approve)),
        decreases tail@.len() - index,
    {
        assert(t[index as int] == tail@[index as int]@);
        if index + 1 >= tail.len() {
            return Err(concat_str(tail[index].as_str(), " requires one value"));
        }
        assert(t[index + 1] == tail@[index + 1]@);
        let name = tail[index].as_str();
        let value = tail[index + 1].as_str();
        if str_eq(name, "--codex-desktop") && desktop.is_none() {
            if !is_absolute_path_text(value) {
                return Err("--codex-desktop must be an absolute path".to_owned());
            }
            desktop = Some(value.to_owned());
        } else if str_eq(name, "--approve") && approve.is_none() {
            if !is_sha256_digest(value) {
                return Err("--approve must be a sha256 digest".to_owned());
            }
            approve = Some(value.to_owned());
        } else {
            return Err(concat_str("unknown or duplicate option: ", name));
        }
        index = index + 2;
    }
    let desktop = match desktop {
        Some(d) => d,
        None => return Err("integration update apply requires --codex-desktop <absolute-path>".to_owned()),
    };
    match approve {
        Some(h) => Ok((desktop, h)),
        None => Err("integration update apply requires --approve <sha256>".to_owned()),
    }
}

// ----------------------------------------------------------------------
// Commands.
// ----------------------------------------------------------------------

pub enum LocalCommand {
    InstallationFinalize { architecture: TargetArchitecture, replace_existing: bool },
    InstallationBridgeInitialize { state_generation_id: String },
    InstallationStatus,
    IntegrationInstall { repair: bool, codex: Option<String>, skip_register: bool },
    IntegrationStatus,
    IntegrationUninstall { codex: Option<String> },
    IntegrationRepairRestart { codex_desktop: String },
    UpdateStatus,
    UpdateVerify,
    UpdateStage { source_generation_root: String },
    UpdateInspect { generation_id: String },
    UpdateApply { generation_id: String, state_generation_id: String, approval_scope_sha256: String },
    UpdateIntegrationApply { candidate_root: String, codex_desktop: String, approval_scope_sha256: String },
    UpdateOfflineInstallerRestart { target_install_root: String, installer: String, codex_desktop: String },
    UpdateReconcileInstalledRuntime { target_install_root: String },
    ControllerAutostart { action: String },
    Hook { event: HookEvent },
}

pub enum LocalCommandView {
    InstallationFinalize { architecture: TargetArchitecture, replace_existing: bool },
    InstallationBridgeInitialize { state_generation_id: Seq<char> },
    InstallationStatus,
    IntegrationInstall { repair: bool, codex: Option<Seq<char>>, skip_register: bool },
    IntegrationStatus,
    IntegrationUninstall { codex: Option<Seq<char>> },
    IntegrationRepairRestart { codex_desktop: Seq<char> },
    UpdateStatus,
    UpdateVerify,
    UpdateStage { source_generation_root: Seq<char> },
    UpdateInspect { generation_id: Seq<char> },
    UpdateApply { generation_id: Seq<char>, state_generation_id: Seq<char>, approval_scope_sha256: Seq<char> },
    UpdateIntegrationApply { candidate_root: Seq<char>, codex_desktop: Seq<char>, approval_scope_sha256: Seq<char> },
    UpdateOfflineInstallerRestart { target_install_root: Seq<char>, installer: Seq<char>, codex_desktop: Seq<char> },
    UpdateReconcileInstalledRuntime { target_install_root: Seq<char> },
    ControllerAutostart { action: Seq<char> },
    Hook { event: HookEvent },
}

impl View for LocalCommand {
    type V = LocalCommandView;

    open spec fn view(&self) -> LocalCommandView {
        match self {
            LocalCommand::InstallationFinalize { architecture, replace_existing } =>
                LocalCommandView::InstallationFinalize { architecture: *architecture, replace_existing: *replace_existing },
            LocalCommand::InstallationBridgeInitialize { state_generation_id } =>
                LocalCommandView::InstallationBridgeInitialize { state_generation_id: state_generation_id@ },
            LocalCommand::InstallationStatus => LocalCommandView::InstallationStatus,
            LocalCommand::IntegrationInstall { repair, codex, skip_register } =>
                LocalCommandView::IntegrationInstall { repair: *repair, codex: opt_view(*codex), skip_register: *skip_register },
            LocalCommand::IntegrationStatus => LocalCommandView::IntegrationStatus,
            LocalCommand::IntegrationUninstall { codex } => LocalCommandView::IntegrationUninstall { codex: opt_view(*codex) },
            LocalCommand::IntegrationRepairRestart { codex_desktop } =>
                LocalCommandView::IntegrationRepairRestart { codex_desktop: codex_desktop@ },
            LocalCommand::UpdateStatus => LocalCommandView::UpdateStatus,
            LocalCommand::UpdateVerify => LocalCommandView::UpdateVerify,
            LocalCommand::UpdateStage { source_generation_root } =>
                LocalCommandView::UpdateStage { source_generation_root: source_generation_root@ },
            LocalCommand::UpdateInspect { generation_id } => LocalCommandView::UpdateInspect { generation_id: generation_id@ },
            LocalCommand::UpdateApply { generation_id, state_generation_id, approval_scope_sha256 } =>
                LocalCommandView::UpdateApply {
                    generation_id: generation_id@,
                    state_generation_id: state_generation_id@,
                    approval_scope_sha256: approval_scope_sha256@,
                },
            LocalCommand::UpdateIntegrationApply { candidate_root, codex_desktop, approval_scope_sha256 } =>
                LocalCommandView::UpdateIntegrationApply {
                    candidate_root: candidate_root@,
                    codex_desktop: codex_desktop@,
                    approval_scope_sha256: approval_scope_sha256@,
                },
            LocalCommand::UpdateOfflineInstallerRestart { target_install_root, installer, codex_desktop } =>
                LocalCommandView::UpdateOfflineInstallerRestart {
                    target_install_root: target_install_root@,
                    installer: installer@,
                    codex_desktop: codex_desktop@,
                },
            LocalCommand::UpdateReconcileInstalledRuntime { target_install_root } =>
                LocalCommandView::UpdateReconcileInstalledRuntime { target_install_root: target_install_root@ },
            LocalCommand::ControllerAutostart { action } => LocalCommandView::ControllerAutostart { action: action@ },
            LocalCommand::Hook { event } => LocalCommandView::Hook { event: *event },
        }
    }
}

pub struct ParsedLocal {
    pub command: LocalCommand,
    pub json: bool,
}

/// `installation bridge initialize` options.
pub open spec fn bootstrap_spec(t: Seq<Seq<char>>) -> Result<Seq<char>, Seq<char>> {
    if t.len() == 2 && t[0] == "--state-generation"@ {
        match bounded_generation_id(t[1]) {
            Some(id) => Ok(id),
            None => Err("--state-generation must be a bounded non-empty id"@),
        }
    } else {
        Err("installation bridge initialize requires --state-generation <id>"@)
    }
}

pub open spec fn unsupported_local() -> Seq<char> {
    "unsupported local command; use star --help for installation, integration and hook syntax"@
}

/// The local command that the words `f` (without `--json`) name.
pub open spec fn local_command_spec(f: Seq<Seq<char>>, json: bool) -> Result<LocalCommandView, Seq<char>> {
    let n = f.len();
    if n >= 2 && f[0] == "installation"@ && f[1] == "finalize"@ {
        match finalize_spec(f.skip(2)) {
            Ok((a, replace)) => Ok(LocalCommandView::InstallationFinalize { architecture: a, replace_existing: replace }),
            Err(e) => Err(e),
        }
    } else if n == 2 && f[0] == "installation"@ && f[1] == "status"@ {
        Ok(LocalCommandView::InstallationStatus)
    } else if n >= 3 && f[0] == "installation"@ && f[1] == "bridge"@ && f[2] == "initialize"@ {
        match bootstrap_spec(f.skip(3)) {
            Ok(id) => Ok(LocalCommandView::InstallationBridgeInitialize { state_generation_id: id }),
            Err(e) => Err(e),
        }
    } else if n >= 3 && f[0] == "integration"@ && f[1] == "repair"@ && f[2] == "restart"@ {
        let t = f.skip(3);
        if !(t.len() == 2 && t[0] == "--codex-desktop"@) {
            Err("integration repair restart requires --codex-desktop <absolute-path>"@)
        } else if !is_absolute_text(t[1]) {
            Err("--codex-desktop must be an absolute path"@)
        } else {
            Ok(LocalCommandView::IntegrationRepairRestart { codex_desktop: t[1] })
        }
    } else if n >= 2 && f[0] == "integration"@ && (f[1] == "install"@ || f[1] == "repair"@) {
        match integration_scan(f.skip(2), true, 0, None, false) {
            Ok((codex, skip)) => Ok(LocalCommandView::IntegrationInstall { repair: f[1] == "repair"@, codex, skip_register: skip }),
            Err(e) => Err(e),
        }
    } else if n == 2 && f[0] == "integration"@ && f[1] == "status"@ {
        Ok(LocalCommandView::IntegrationStatus)
    } else if n == 2 && f[0] == "update"@ && f[1] == "status"@ {
        Ok(LocalCommandView::UpdateStatus)
    } else if n == 2 && f[0] == "update"@ && f[1] == "verify"@ {
        Ok(LocalCommandView::UpdateVerify)
    } else if n == 3 && f[0] == "update"@ && f[1] == "stage"@ {
        Ok(LocalCommandView::UpdateStage { source_generation_root: f[2] })
    } else if n == 3 && f[0] == "update"@ && f[1] == "inspect"@ {
        Ok(LocalCommandView::UpdateInspect { generation_id: f[2] })
    } else if n >= 3 && f[0] == "update"@ && f[1] == "apply"@ {
        if is_absolute_text(f[2]) {
            match integration_apply_spec(f.skip(3)) {
                Ok((d, h)) => Ok(LocalCommandView::UpdateIntegrationApply { candidate_root: f[2], codex_desktop: d, approval_scope_sha256: h }),
                Err(e) => Err(e),
            }
        } else {
            match update_apply_spec(f.skip(3)) {
                Ok((s, h)) => Ok(LocalCommandView::UpdateApply { generation_id: f[2], state_generation_id: s, approval_scope_sha256: h }),
                Err(e) => Err(e),
            }
        }
    } else if n >= 2 && f[0] == "update"@ && f[1] == "offline-installer-restart"@ {
        match offline_restart_spec(f.skip(2)) {
            Ok((root, installer, desktop)) => Ok(LocalCommandView::UpdateOfflineInstallerRestart {
                target_install_root: root,
                installer,
                codex_desktop: desktop,
            }),
            Err(e) => Err(e),
        }
    } else if n >= 2 && f[0] == "update"@ && f[1] == "reconcile-installed-runtime"@ {
        let t = f.skip(2);
        if t.len() != 2 {
            Err("update reconcile-installed-runtime requires one --install-root value"@)
        } else if t[0] != "--install-root"@ {
            Err("update reconcile-installed-runtime requires --install-root"@)
        } else if !is_absolute_text(t[1]) {
            Err("--install-root must be an absolute path"@)
        } else {
            Ok(LocalCommandView::UpdateReconcileInstalledRuntime { target_install_root: t[1] })
        }
    } else if n >= 2 && f[0] == "integration"@ && f[1] == "uninstall"@ {
        match integration_scan(f.skip(2), false, 0, None, false) {
            Ok((codex, skip)) => if skip {
                Err("integration uninstall does not accept --skip-register"@)
            } else {
                Ok(LocalCommandView::IntegrationUninstall { codex })
            },
            Err(e) => Err(e),
        }
    } else if n == 3 && f[0] == "controller"@ && f[1] == "autostart"@
        && (f[2] == "enable"@ || f[2] == "disable"@ || f[2] == "status"@) {
        Ok(LocalCommandView::ControllerAutostart { action: f[2] })
    } else if n == 2 && f[0] == "hook"@ && !json {
        match hook_event_named(f[1]) {
            Some(event) => Ok(LocalCommandView::Hook { event }),
            None => Err("unsupported hook event: "@ + f[1]),
        }
    } else if n == 2 && f[0] == "hook"@ {
        Err("hook commands do not accept --json"@)
    } else {
        Err(unsupported_local())
    }
}

/// How many arguments are `--json`.
pub open spec fn json_flag_count(args: Seq<Seq<char>>) -> nat
    decreases args.len(),
{
    if args.len() == 0 {
        0
    } else {
        json_flag_count(args.drop_last()) + if args.last() == "--json"@ { 1nat } else { 0nat }
    }
}

/// The arguments without `--json`, in order.
pub open spec fn without_json_flag(args: Seq<Seq<char>>) -> Seq<Seq<char>>
    decreases args.len(),
{
    if args.len() == 0 {
        args
    } else if args.last() == "--json"@ {
        without_json_flag(args.drop_last())
    } else {
        without_json_flag(args.drop_last()).push(args.last())
    }
}

/// The local commands begin with `installation`, `integration`, `hook`,
/// `update` or `controller autostart`.
pub open spec fn is_local_spec(args: Seq<Seq<char>>) -> bool {
    args.len() > 0 && (args[0] == "installation"@ || args[0] == "integration"@ || args[0] == "hook"@
        || args[0] == "update"@ || (args[0] == "controller"@ && args.len() > 1 && args[1] == "autostart"@))
}

/// `None` for a command that is not local; otherwise the command and
/// whether `--json` was given, or the error.
pub open spec fn local_parse_spec(args: Seq<Seq<char>>) -> Result<Option<(LocalCommandView, bool)>, Seq<char>> {
    if !is_local_spec(args) {
        Ok(None)
    } else if json_flag_count(args) > 1 {
        Err("--json may be supplied only once"@)
    } else {
        let json = json_flag_count(args) == 1;
        match local_command_spec(without_json_flag(args), json) {
            Ok(c) => Ok(Some((c, json))),
            Err(e) => Err(e),
        }
    }
}

fn word_is(f: &Vec<String>, i: usize, w: &str) -> (result: bool)
    ensures
        result == (i < f@.len() && f@[i as int]@ == w@),
{
    i < f.len() && str_eq(f[i].as_str(), w)
}

proof fn lemma_texts_agree(v: Seq<String>)
    ensures
        string_texts(v) == strings_view(v),
{
    assert(string_texts(v) =~= strings_view(v));
}

/// The words from position `from` on.
fn tail_from(f: &Vec<String>, from: usize) -> (result: Vec<String>)
    requires
        from <= f@.len(),
    ensures
        string_texts(result@) == string_texts(f@).skip(from as int),
{
    let t = clone_strings_from(f, from);
    proof {
        lemma_texts_agree(t@);
        lemma_texts_agree(f@);
    }
    t
}

/// The local command that the words `f` (without `--json`) name.
pub fn local_command(f: &Vec<String>, json: bool) -> (result: Result<LocalCommand, String>)
    ensures
        match local_command_spec(string_texts(f@), json) {
            Ok(c) => result matches Ok(r) && r@ == c,
            Err(e) => result matches Err(r) && r@ == e,
        },
{
    let ghost w = string_texts(f@);
    let n = f.len();
    assert(w.len() == n);
    assert(n >= 1 ==> w[0] == f@[0]@);
    assert(n >= 2 ==> w[1] == f@[1]@);
    assert(n >= 3 ==> w[2] == f@[2]@);
    if n >= 2 && word_is(f, 0, "installation") && word_is(f, 1, "finalize") {
        let tail = tail_from(f, 2);
        return match parse_finalize_options(tail.as_slice()) {
            Ok((architecture, replace_existing)) => Ok(LocalCommand::InstallationFinalize { architecture, replace_existing }),
            Err(e) => Err(e),
        };
    }
    if n == 2 && word_is(f, 0, "installation") && word_is(f, 1, "status") {
        return Ok(LocalCommand::InstallationStatus);
    }
    if n >= 3 && word_is(f, 0, "installation") && word_is(f, 1, "bridge") && word_is(f, 2, "initialize") {
        let tail = tail_from(f, 3);
        return match parse_bootstrap_state_generation(tail.as_slice()) {
            Ok(state_generation_id) => Ok(LocalCommand::InstallationBridgeInitialize { state_generation_id }),
            Err(e) => Err(e),
        };
    }
    if n >= 3 && word_is(f, 0, "integration") && word_is(f, 1, "repair") && word_is(f, 2, "restart") {
        let ghost t = w.skip(3);
        if !(n == 5 && word_is(f, 3, "--codex-desktop")) {
            proof {
                if t.len() == 2 {
                    assert(t[0] == f@[3]@);
                }
            }
            return Err("integration repair restart requires --codex-desktop <absolute-path>".to_owned());
        }
        assert(t[1] == f@[4]@);
        if !is_absolute_path_text(f[4].as_str()) {
            return Err("--codex-desktop must be an absolute path".to_owned());
        }
        return Ok(LocalCommand::IntegrationRepairRestart { codex_desktop: f[4].clone() });
    }
    if n >= 2 && word_is(f, 0, "integration") && (word_is(f, 1, "install") || word_is(f, 1, "repair")) {
        let tail = tail_from(f, 2);
        let repair = word_is(f, 1, "repair");
        return match parse_integration_options(tail.as_slice(), true) {
            Ok((codex, skip_register)) => Ok(LocalCommand::IntegrationInstall { repair, codex, skip_register }),
            Err(e) => Err(e),
        };
    }
    if n == 2 && word_is(f, 0, "integration") && word_is(f, 1, "status") {
        return Ok(LocalCommand::IntegrationStatus);
    }
    if n == 2 && word_is(f, 0, "update") && word_is(f, 1, "status") {
        return Ok(LocalCommand::UpdateStatus);
    }
    if n == 2 && word_is(f, 0, "update") && word_is(f, 1, "verify") {
        return Ok(LocalCommand::UpdateVerify);
    }
    if n == 3 && word_is(f, 0, "update") && word_is(f, 1, "stage") {
        return Ok(LocalCommand::UpdateStage { source_generation_root: f[2].clone() });
    }
    if n == 3 && word_is(f, 0, "update") && word_is(f, 1, "inspect") {
        return Ok(LocalCommand::UpdateInspect { generation_id: f[2].clone() });
    }
    if n >= 3 && word_is(f, 0, "update") && word_is(f, 1, "apply") {
        let tail = tail_from(f, 3);
        if is_absolute_path_text(f[2].as_str()) {
            return match parse_integration_update_apply_options(tail.as_slice()) {
                Ok((codex_desktop, approval_scope_sha256)) => Ok(LocalCommand::UpdateIntegrationApply {
                    candidate_root: f[2].clone(),
                    codex_desktop,
                    approval_scope_sha256,
                }),
                Err(e) => Err(e),
            };
        } else {
            return match parse_update_apply_options(tail.as_slice()) {
                Ok((state_generation_id, approval_scope_sha256)) => Ok(LocalCommand::UpdateApply {
                    generation_id: f[2].clone(),
                    state_generation_id,
                    approval_scope_sha256,
                }),
                Err(e) => Err(e),
            };
        }
    }
    if n >= 2 && word_is(f, 0, "update") && word_is(f, 1, "offline-installer-restart") {
        let tail = tail_from(f, 2);
        return match parse_offline_installer_restart_options(tail.as_slice()) {
            Ok((target_install_root, installer, codex_desktop)) => Ok(LocalCommand::UpdateOfflineInstallerRestart {
                target_install_root,
                installer,
                codex_desktop,
            }),
            Err(e) => Err(e),
        };
    }
    if n >= 2 && word_is(f, 0, "update") && word_is(f, 1, "reconcile-installed-runtime") {
        let ghost t = w.skip(2);
        if n != 4 {
            return Err("update reconcile-installed-runtime requires one --install-root value".to_owned());
        }
        assert(t[0] == f@[2]@);
        assert(t[1] == f@[3]@);
        if !word_is(f, 2, "--install-root") {
            return Err("update reconcile-installed-runtime requires --install-root".to_owned());
        }
        if !is_absolute_path_text(f[3].as_str()) {
            return Err("--install-root must be an absolute path".to_owned());
        }
        return Ok(LocalCommand::UpdateReconcileInstalledRuntime { target_install_root: f[3].clone() });
    }
    if n >= 2 && word_is(f, 0, "integration") && word_is(f, 1, "uninstall") {
        let tail = tail_from(f, 2);
        return match parse_integration_options(tail.as_slice(), false) {
            Ok((codex, skip_register)) => if skip_register {
                Err("integration uninstall does not accept --skip-register".to_owned())
            } else {
                Ok(LocalCommand::IntegrationUninstall { codex })
            },
            Err(e) => Err(e),
        };
    }
    if n == 3 && word_is(f, 0, "controller") && word_is(f, 1, "autostart")
        && (word_is(f, 2, "enable") || word_is(f, 2, "disable") || word_is(f, 2, "status")) {
        return Ok(LocalCommand::ControllerAutostart { action: f[2].clone() });
    }
    if n == 2 && word_is(f, 0, "hook") && !json {
        return match parse_hook_event(f[1].as_str()) {
            Some(event) => Ok(LocalCommand::Hook { event }),
            None => Err(concat_str("unsupported hook event: ", f[1].as_str())),
        };
    }
    if n == 2 && word_is(f, 0, "hook") {
        return Err("hook commands do not accept --json".to_owned());
    }
    Err("unsupported local command; use star --help for installation, integration and hook syntax".to_owned())
}

/// The arguments without `--json`, and how many `--json` there were.
pub fn split_json_flag(args: &[String]) -> (result: (Vec<String>, usize))
    ensures
        string_texts(result.0@) == without_json_flag(string_texts(args@)),
        result.1 == json_flag_count(string_texts(args@)),
{
    let ghost a = string_texts(args@);
    let n = args.len();
    let mut count: usize = 0;
    let mut filtered: Vec<String> = Vec::new();
    let mut i: usize = 0;
    assert(a.take(0) =~= Seq::<Seq<char>>::empty());
    assert(string_texts(filtered@) =~= Seq::<Seq<char>>::empty());
    while i < n
        invariant
            n == args@.len(),
            a == string_texts(args@),
            i <= n,
            count == json_flag_count(a.take(i as int)),
            count <= i,
            string_texts(filtered@) == without_json_flag(a.take(i as int)),
        decreases n - i,
    {
        let ghost before = filtered@;
        assert(a.take(i + 1).drop_last() =~= a.take(i as int));
        assert(a.take(i + 1).last() == args@[i as int]@);
        if str_eq(args[i].as_str(), "--json") {
            count = count + 1;
        } else {
            filtered.push(args[i].clone());
            assert(string_texts(filtered@) =~= string_texts(before).push(args@[i as int]@));
        }
        i = i + 1;
    }
    assert(a.take(n as int) =~= a);
    (filtered, count)
}

/// Reads a local command: `Ok(None)` when the arguments do not name one;
/// `--json` may stand anywhere, once.
pub fn parse_local(args: &[String]) -> (result: Result<Option<ParsedLocal>, String>)
    ensures
        match local_parse_spec(string_texts(args@)) {
            Ok(None) => result matches Ok(None),
            Ok(Some((c, json))) => result matches Ok(Some(p)) && p.command@ == c && p.json == json,
            Err(e) => result matches Err(r) && r@ == e,
        },
{
    let ghost a = string_texts(args@);
    let n = args.len();
    assert(n >= 1 ==> a[0] == args@[0]@);
    assert(n >= 2 ==> a[1] == args@[1]@);
    let is_local = n > 0 && (str_eq(args[0].as_str(), "installation") || str_eq(args[0].as_str(), "integration")
        || str_eq(args[0].as_str(), "hook") || str_eq(args[0].as_str(), "update")
        || (str_eq(args[0].as_str(), "controller") && n > 1 && str_eq(args[1].as_str(), "autostart")));
    if !is_local {
        return Ok(None);
    }
    let (filtered, count) = split_json_flag(args);
    if count > 1 {
        return Err("--json may be supplied only once".to_owned());
    }
    let json = count == 1;
    match local_command(&filtered, json) {
        Ok(command) => Ok(Some(ParsedLocal { command, json })),
        Err(e) => Err(e),
    }
}

// ----------------------------------------------------------------------
// Where `--json` stands.
// ----------------------------------------------------------------------

proof fn lemma_insert_json(args: Seq<Seq<char>>, i: int)
    requires
        0 <= i <= args.len(),
    ensures
        json_flag_count(args.insert(i, "--json"@)) == json_flag_count(args) + 1,
        without_json_flag(args.insert(i, "--json"@)) == without_json_flag(args),
    decreases args.len(),
{
    let ins = args.insert(i, "--json"@);
    if i == args.len() {
        assert(ins.drop_last() =~= args);
    } else {
        lemma_insert_json(args.drop_last(), i);
        assert(ins.drop_last() =~= args.drop_last().insert(i, "--json"@));
        assert(ins.last() == args.last());
    }
}

proof fn lemma_no_json(args: Seq<Seq<char>>)
    requires
        forall|k: int| 0 <= k < args.len() ==> args[k] != "--json"@,
    ensures
        json_flag_count(args) == 0,
        without_json_flag(args) == args,
    decreases args.len(),
{
    if args.len() > 0 {
        lemma_no_json(args.drop_last());
        assert(args.drop_last().push(args.last()) =~= args);
    }
}

/// `--json` is one global flag: inserted anywhere among the words of a
/// local command (after the words that make it local), it asks for the
/// same command with JSON output; given twice it is refused.
pub proof fn law_json_flag_position_does_not_matter(args: Seq<Seq<char>>, i: int)
    requires
        0 <= i <= args.len(),
        forall|k: int| 0 <= k < args.len() ==> args[k] != "--json"@,
        is_local_spec(args.insert(i, "--json"@)),
    ensures
        local_parse_spec(args.insert(i, "--json"@)) == match local_command_spec(args, true) {
            Ok(c) => Ok(Some((c, true))),
            Err(e) => Err(e),
        },
        is_local_spec(args) ==> local_parse_spec(args) == match local_command_spec(args, false) {
            Ok(c) => Ok(Some((c, false))),
            Err(e) => Err::<Option<(LocalCommandView, bool)>, Seq<char>>(e),
        },
        local_parse_spec(args.insert(i, "--json"@).insert(i, "--json"@))
            == Err::<Option<(LocalCommandView, bool)>, Seq<char>>("--json may be supplied only once"@),
{
    lemma_no_json(args);
    lemma_insert_json(args, i);
    let once = args.insert(i, "--json"@);
    lemma_insert_json(once, i);
    let twice = once.insert(i, "--json"@);
    reveal_strlit("--json");
    reveal_strlit("installation");
    reveal_strlit("integration");
    reveal_strlit("hook");
    reveal_strlit("update");
    reveal_strlit("controller");
    reveal_strlit("autostart");
    if i == 0 {
        assert(once[0] == "--json"@);
        assert("--json"@ != "update"@) by {
            assert("--json"@[0] != "update"@[0]);
        }
        assert("--json"@.len() != "installation"@.len());
        assert("--json"@.len() != "integration"@.len());
        assert("--json"@.len() != "hook"@.len());
        assert("--json"@.len() != "controller"@.len());
        assert(false);
    }
    assert(twice[0] == once[0]);
    if i == 1 {
        assert(twice[1] == "--json"@);
        assert(once[1] == "--json"@);
    } else if once.len() > 1 {
        assert(twice[1] == once[1]);
    }
    assert(is_local_spec(twice));
}

} // verus!

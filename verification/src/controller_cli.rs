//! The Controller commands of the `star` CLI: each command form that needs
//! nothing but its words (and, for `tools trust`, a timestamp check) maps
//! to one Controller command and its payload, or to the form's error.
//! Paths stay as typed; the caller makes them absolute.  `--json` may
//! stand anywhere, once.
use vstd::prelude::*;

use crate::cli::{decimal, u64_text, parse_positive_revision, is_development_id, is_profile_id, validate_development_id, validate_profile_id, parse_tail, parse_tail_spec, require_positionals, required_option, string_texts, CliOptions};
use crate::json::{json_items_view, json_members_view, json_view, JsonMember, JsonValue, JsonView};
use crate::local_command::{is_sha256_digest, is_sha256_text, json_flag_count, split_json_flag, without_json_flag};
use crate::text::{chars_of, contains_char, str_eq};
use crate::hook::concat_str;
use crate::approval_store::{strings_json, strings_json_items};

verus! {

/// A request for the Controller: the command, its payload, and whether the
/// answer is printed as compact JSON.
pub struct ControllerRequest {
    pub command: String,
    pub payload: JsonValue,
    pub json: bool,
}

pub struct RequestView {
    pub command: Seq<char>,
    pub payload: JsonView,
    pub json: bool,
}

impl View for ControllerRequest {
    type V = RequestView;

    open spec fn view(&self) -> RequestView {
        RequestView { command: self.command@, payload: self.payload@, json: self.json }
    }
}

// ----------------------------------------------------------------------
// The rules, over words.
// ----------------------------------------------------------------------

/// The error of a command given the wrong number of positionals.
pub open spec fn positionals_error(command: Seq<char>, expected: nat) -> Seq<char> {
    command + " requires exactly "@ + decimal(expected) + " positional argument(s)"@
}

/// The value given for the value option `name`, if any.
pub open spec fn option_value(o: Map<Seq<char>, Option<Seq<char>>>, name: Seq<char>) -> Option<Seq<char>> {
    match o.get(name) {
        Some(Some(v)) => Some(v),
        _ => None,
    }
}

pub open spec fn text_or_null(v: Option<Seq<char>>) -> JsonView {
    match v {
        Some(t) => JsonView::Str(t),
        None => JsonView::Null,
    }
}

pub open spec fn is_tool_source(v: Seq<char>) -> bool {
    v == "release"@ || v == "user"@ || v == "project"@
}

pub open spec fn is_readiness(v: Seq<char>) -> bool {
    v == "ready"@ || v == "unavailable"@ || v == "untrusted"@ || v == "incompatible"@ || v == "degraded"@
}

pub open spec fn all_readiness() -> Seq<JsonView> {
    seq![
        JsonView::Str("ready"@),
        JsonView::Str("unavailable"@),
        JsonView::Str("untrusted"@),
        JsonView::Str("incompatible"@),
        JsonView::Str("degraded"@),
    ]
}

/// `tools list [--source S] [--readiness R]`.
pub open spec fn tools_list_spec(tail: Seq<Seq<char>>) -> Result<(Seq<char>, JsonView), Seq<char>> {
    match parse_tail_spec(tail, seq!["--source"@, "--readiness"@], seq![]) {
        Err(e) => Err(e),
        Ok((p, o)) => {
            let source = option_value(o, "--source"@);
            let readiness = option_value(o, "--readiness"@);
            if p.len() != 0 {
                Err(positionals_error("tools list"@, 0))
            } else if source is Some && !is_tool_source(source->0) {
                Err("--source must be release, user, or project"@)
            } else if readiness is Some && !is_readiness(readiness->0) {
                Err("--readiness has an unsupported value"@)
            } else {
                Ok(("tool.search"@, JsonView::Object(seq![
                    ("limit"@, JsonView::Number("50"@)),
                    ("query"@, JsonView::Str(Seq::empty())),
                    ("readiness"@, JsonView::Array(match readiness {
                        Some(r) => seq![JsonView::Str(r)],
                        None => all_readiness(),
                    })),
                    ("sources"@, match source {
                        Some(s) => JsonView::Array(seq![JsonView::Str(s)]),
                        None => JsonView::Null,
                    }),
                ])))
            }
        },
    }
}

/// `tools describe <tool-id>`.
pub open spec fn tools_describe_spec(tail: Seq<Seq<char>>) -> Result<(Seq<char>, JsonView), Seq<char>> {
    match parse_tail_spec(tail, seq![], seq![]) {
        Err(e) => Err(e),
        Ok((p, o)) => if p.len() != 1 {
            Err(positionals_error("tools describe"@, 1))
        } else {
            Ok(("tool.describe"@, JsonView::Object(seq![("tool_id"@, JsonView::Str(p[0]))])))
        },
    }
}

/// `tools status [<package-id>]`.
pub open spec fn tools_status_spec(tail: Seq<Seq<char>>) -> Result<(Seq<char>, JsonView), Seq<char>> {
    match parse_tail_spec(tail, seq![], seq![]) {
        Err(e) => Err(e),
        Ok((p, o)) => if p.len() > 1 {
            Err("tools status accepts at most one package ID"@)
        } else {
            Ok(("tool.registry.status"@, JsonView::Object(seq![
                ("limit"@, JsonView::Number("200"@)),
                ("package_id"@, if p.len() == 1 { JsonView::Str(p[0]) } else { JsonView::Null }),
            ])))
        },
    }
}

/// `tools probe <package-id> [--executable E]`.
pub open spec fn tools_probe_spec(tail: Seq<Seq<char>>) -> Result<(Seq<char>, JsonView), Seq<char>> {
    match parse_tail_spec(tail, seq!["--executable"@], seq![]) {
        Err(e) => Err(e),
        Ok((p, o)) => if p.len() != 1 {
            Err(positionals_error("tools probe"@, 1))
        } else {
            Ok(("tool.probe"@, JsonView::Object(seq![
                ("executable_id"@, text_or_null(option_value(o, "--executable"@))),
                ("package_id"@, JsonView::Str(p[0])),
            ])))
        },
    }
}

/// A revocation reason: 1 through 1000 characters, none of them NUL.
pub open spec fn is_revoke_reason(r: Seq<char>) -> bool {
    0 < r.len() <= 1000 && !r.contains('\0')
}

/// `tools revoke <package-id> --reason R [--cancel-running]`.
pub open spec fn tools_revoke_spec(tail: Seq<Seq<char>>) -> Result<(Seq<char>, JsonView), Seq<char>> {
    match parse_tail_spec(tail, seq!["--reason"@], seq!["--cancel-running"@]) {
        Err(e) => Err(e),
        Ok((p, o)) => if p.len() != 1 {
            Err(positionals_error("tools revoke"@, 1))
        } else {
            match option_value(o, "--reason"@) {
                None => Err("command requires "@ + "--reason"@),
                Some(reason) => if !is_revoke_reason(reason) {
                    Err("--reason must contain 1 through 1000 characters"@)
                } else {
                    Ok(("tool.revoke"@, JsonView::Object(seq![
                        ("cancel_running"@, JsonView::Bool(o.contains_key("--cancel-running"@))),
                        ("package_id"@, JsonView::Str(p[0])),
                        ("reason"@, JsonView::Str(reason)),
                    ])))
                },
            }
        },
    }
}

/// A command with no options and `expected` positionals.
pub open spec fn plain_spec(tail: Seq<Seq<char>>, name: Seq<char>, expected: nat) -> Result<Seq<Seq<char>>, Seq<char>> {
    match parse_tail_spec(tail, seq![], seq![]) {
        Err(e) => Err(e),
        Ok((p, o)) => if p.len() != expected { Err(positionals_error(name, expected)) } else { Ok(p) },
    }
}

/// `doctor`.
pub open spec fn doctor_spec(tail: Seq<Seq<char>>) -> Result<(Seq<char>, JsonView), Seq<char>> {
    match plain_spec(tail, "doctor"@, 0) {
        Err(e) => Err(e),
        Ok(p) => Ok(("doctor.run"@, JsonView::Object(seq![]))),
    }
}

/// `project list`.
pub open spec fn project_list_spec(tail: Seq<Seq<char>>) -> Result<(Seq<char>, JsonView), Seq<char>> {
    match plain_spec(tail, "project list"@, 0) {
        Err(e) => Err(e),
        Ok(p) => Ok(("project.list"@, JsonView::Object(seq![]))),
    }
}

/// `project status <project-key>`.
pub open spec fn project_status_spec(tail: Seq<Seq<char>>) -> Result<(Seq<char>, JsonView), Seq<char>> {
    match plain_spec(tail, "project status"@, 1) {
        Err(e) => Err(e),
        Ok(p) => Ok(("project.status"@, JsonView::Object(seq![("project_key"@, JsonView::Str(p[0]))]))),
    }
}

/// A command with no options, no positionals and an empty payload.
pub open spec fn empty_spec(tail: Seq<Seq<char>>, name: Seq<char>, command: Seq<char>) -> Result<(Seq<char>, JsonView), Seq<char>> {
    match plain_spec(tail, name, 0) {
        Err(e) => Err(e),
        Ok(p) => Ok((command, JsonView::Object(seq![]))),
    }
}

/// `profile show <profile-id>`.
pub open spec fn profile_show_spec(tail: Seq<Seq<char>>) -> Result<(Seq<char>, JsonView), Seq<char>> {
    match plain_spec(tail, "profile show"@, 1) {
        Err(e) => Err(e),
        Ok(p) => if !is_profile_id(p[0]) {
            Err("profile-id must use 1 through 96 lowercase ASCII letters, digits, or underscores"@)
        } else {
            Ok(("profile.show"@, JsonView::Object(seq![("profile_id"@, JsonView::Str(p[0]))])))
        },
    }
}

/// `evaluation show <evaluation-run-id>`.
pub open spec fn evaluation_show_spec(tail: Seq<Seq<char>>) -> Result<(Seq<char>, JsonView), Seq<char>> {
    match plain_spec(tail, "evaluation show"@, 1) {
        Err(e) => Err(e),
        Ok(p) => if !is_development_id(p[0]) {
            Err("evaluation-run-id"@ + " must use 1 through 256 ASCII identifier characters"@)
        } else {
            Ok(("evaluation.show"@, JsonView::Object(seq![("evaluation_run_id"@, JsonView::Str(p[0]))])))
        },
    }
}

/// `controller start [--background]`, which has no JSON answer.
pub open spec fn controller_start_spec(tail: Seq<Seq<char>>, json: bool) -> Result<(Seq<char>, JsonView), Seq<char>> {
    if json {
        Err("controller start does not support --json"@)
    } else {
        match parse_tail_spec(tail, seq![], seq!["--background"@]) {
            Err(e) => Err(e),
            Ok((p, o)) => if p.len() != 0 {
                Err(positionals_error("controller start"@, 0))
            } else {
                Ok(("controller.start"@, JsonView::Object(seq![("background"@, JsonView::Bool(o.contains_key("--background"@)))])))
            },
        }
    }
}

/// `release promote|show|status <release-manifest-id>`.
pub open spec fn release_spec(tail: Seq<Seq<char>>, action: Seq<char>) -> Result<(Seq<char>, JsonView), Seq<char>> {
    match plain_spec(tail, "release promote|show|status"@, 1) {
        Err(e) => Err(e),
        Ok(p) => if !is_development_id(p[0]) {
            Err("release-manifest-id"@ + " must use 1 through 256 ASCII identifier characters"@)
        } else {
            Ok(("release."@ + action, JsonView::Object(seq![("release_manifest_id"@, JsonView::Str(p[0]))])))
        },
    }
}

/// `management retention apply --approve <sha256>`.
pub open spec fn retention_apply_spec(tail: Seq<Seq<char>>) -> Result<(Seq<char>, JsonView), Seq<char>> {
    match parse_tail_spec(tail, seq!["--approve"@], seq![]) {
        Err(e) => Err(e),
        Ok((p, o)) => if p.len() != 0 {
            Err(positionals_error("management retention apply"@, 0))
        } else {
            match option_value(o, "--approve"@) {
                None => Err("command requires "@ + "--approve"@),
                Some(a) => if !is_sha256_text(a) {
                    Err("--approve must be the exact retention plan sha256"@)
                } else {
                    Ok(("management.retention.apply"@, JsonView::Object(seq![("approved_plan_fingerprint"@, JsonView::Str(a))])))
                },
            }
        },
    }
}

/// A validation run name inside an evidence reference: ASCII letters,
/// digits, `.`, `_` and `-`.
pub open spec fn is_run_char(c: char) -> bool {
    ('a' <= c && c <= 'z') || ('A' <= c && c <= 'Z') || ('0' <= c && c <= '9') || c == '.' || c == '_' || c == '-'
}

/// An evidence reference: `target/validation/<run>/report.json` with a
/// non-empty run name.
pub open spec fn is_evidence_ref(r: Seq<char>) -> bool {
    exists|run: Seq<char>| #![trigger "target/validation/"@ + run]
        run.len() > 0 && (forall|i: int| 0 <= i < run.len() ==> is_run_char(#[trigger] run[i]))
        && r == "target/validation/"@ + run + "/report.json"@
}

/// `evidence get <project-key> <evidence-ref>`.
pub open spec fn evidence_get_spec(tail: Seq<Seq<char>>) -> Result<(Seq<char>, JsonView), Seq<char>> {
    match plain_spec(tail, "evidence get"@, 2) {
        Err(e) => Err(e),
        Ok(p) => if !is_evidence_ref(p[1]) {
            Err("evidence-ref must be target/validation/<run>/report.json"@)
        } else {
            Ok(("evidence.get"@, JsonView::Object(seq![
                ("evidence_ref"@, JsonView::Str(p[1])),
                ("project_key"@, JsonView::Str(p[0])),
            ])))
        },
    }
}

/// Whether `text` parses as an RFC 3339 timestamp.
pub uninterp spec fn rfc3339_accepts(text: Seq<char>) -> bool;

/// Calls `chrono::DateTime::parse_from_rfc3339` on `text` and reports
/// whether it parsed.  Claimed: the answer is the named verdict on the text.
#[verifier::external_body]
fn parses_as_rfc3339(text: &str) -> (result: bool)
    ensures
        result == rfc3339_accepts(text@),
{
    chrono::DateTime::parse_from_rfc3339(text).is_ok()
}

/// `tools trust <package-id> --manifest-hash <sha256> [--expires T]`.
pub open spec fn tools_trust_spec(tail: Seq<Seq<char>>) -> Result<(Seq<char>, JsonView), Seq<char>> {
    match parse_tail_spec(tail, seq!["--manifest-hash"@, "--expires"@], seq![]) {
        Err(e) => Err(e),
        Ok((p, o)) => if p.len() != 1 {
            Err(positionals_error("tools trust"@, 1))
        } else {
            match option_value(o, "--manifest-hash"@) {
                None => Err("command requires "@ + "--manifest-hash"@),
                Some(h) => if !is_sha256_text(h) {
                    Err("--manifest-hash must be a lowercase sha256 value"@)
                } else {
                    let expires = option_value(o, "--expires"@);
                    if expires is Some && !rfc3339_accepts(expires->0) {
                        Err("--expires must be an RFC 3339 timestamp"@)
                    } else {
                        Ok(("tool.trust"@, JsonView::Object(seq![
                            ("expires"@, text_or_null(expires)),
                            ("manifest_hash"@, JsonView::Str(h)),
                            ("package_id"@, JsonView::Str(p[0])),
                        ])))
                    }
                },
            }
        },
    }
}

/// `profile resolve <profile-id>...`: 1 through 16 distinct profile ids.
pub open spec fn profile_resolve_spec(tail: Seq<Seq<char>>) -> Result<(Seq<char>, JsonView), Seq<char>> {
    match parse_tail_spec(tail, seq![], seq![]) {
        Err(e) => Err(e),
        Ok((p, o)) => if p.len() == 0 || p.len() > 16 {
            Err("profile resolve requires 1 through 16 profile IDs"@)
        } else if exists|i: int| 0 <= i < p.len() && !is_profile_id(#[trigger] p[i]) {
            Err("profile-id must use 1 through 96 lowercase ASCII letters, digits, or underscores"@)
        } else if !p.no_duplicates() {
            Err("profile resolve does not accept duplicate profile IDs"@)
        } else {
            Ok(("profile.resolve"@, JsonView::Object(seq![("profile_ids"@, JsonView::Array(strings_json(p)))])))
        },
    }
}

/// `development record show <record-kind> <record-id> [--revision N]`.
pub open spec fn record_show_spec(tail: Seq<Seq<char>>) -> Result<(Seq<char>, JsonView), Seq<char>> {
    match parse_tail_spec(tail, seq!["--revision"@], seq![]) {
        Err(e) => Err(e),
        Ok((p, o)) => if p.len() != 2 {
            Err(positionals_error("development record show"@, 2))
        } else if !is_development_id(p[0]) {
            Err("record-kind"@ + " must use 1 through 256 ASCII identifier characters"@)
        } else if !is_development_id(p[1]) {
            Err("record-id"@ + " must use 1 through 256 ASCII identifier characters"@)
        } else {
            let revision = match option_value(o, "--revision"@) {
                None => Ok(JsonView::Null),
                Some(v) => match u64_text(v) {
                    Some(n) => if n > 0 { Ok(JsonView::Number(decimal(n))) } else { Err("--revision must be a positive integer"@) },
                    None => Err("--revision must be a positive integer"@),
                },
            };
            match revision {
                Err(e) => Err(e),
                Ok(r) => Ok(("development.record.show"@, JsonView::Object(seq![
                    ("record_id"@, JsonView::Str(p[1])),
                    ("record_kind"@, JsonView::Str(p[0])),
                    ("revision"@, r),
                ]))),
            }
        },
    }
}

pub open spec fn is_validation_profile(v: Seq<char>) -> bool {
    v == "quick"@ || v == "target"@ || v == "full"@ || v == "release"@
}

/// A validation unit: 1 through 128 ASCII letters, digits, `.`, `_` or `-`.
pub open spec fn is_unit_id(u: Seq<char>) -> bool {
    1 <= u.len() <= 128 && forall|i: int| 0 <= i < u.len() ==> is_run_char(#[trigger] u[i])
}

/// The member `name` when `v` is present, nothing otherwise.
pub open spec fn opt_member(name: Seq<char>, v: Option<JsonView>) -> Seq<(Seq<char>, JsonView)> {
    match v {
        Some(x) => seq![(name, x)],
        None => seq![],
    }
}

pub open spec fn opt_str(v: Option<Seq<char>>) -> Option<JsonView> {
    match v {
        Some(t) => Some(JsonView::Str(t)),
        None => None,
    }
}

/// `validation plan <project-key> [--profile P] [--unit U]`, and
/// `validation run`, which also takes `--timeout-ms`.
pub open spec fn validation_spec(tail: Seq<Seq<char>>, run: bool) -> Result<(Seq<char>, JsonView), Seq<char>> {
    let value_options = if run { seq!["--profile"@, "--unit"@, "--timeout-ms"@] } else { seq!["--profile"@, "--unit"@] };
    match parse_tail_spec(tail, value_options, seq![]) {
        Err(e) => Err(e),
        Ok((p, o)) => if p.len() != 1 {
            Err(positionals_error(if run { "validation run"@ } else { "validation plan"@ }, 1))
        } else {
            let profile = option_value(o, "--profile"@);
            let unit = option_value(o, "--unit"@);
            let timeout = if run { option_value(o, "--timeout-ms"@) } else { None };
            if profile is Some && !is_validation_profile(profile->0) {
                Err("--profile must be quick, target, full, or release"@)
            } else if unit is Some && !is_unit_id(unit->0) {
                Err("--unit contains an invalid unit identifier"@)
            } else if timeout is Some && u64_text(timeout->0) is None {
                Err("--timeout-ms must be an integer"@)
            } else if timeout is Some && !(1000 <= u64_text(timeout->0)->0 <= 3600000) {
                Err("--timeout-ms must be between 1000 and 3600000"@)
            } else {
                let timeout_value = match timeout {
                    Some(t) => Some(JsonView::Number(decimal(u64_text(t)->0))),
                    None => None,
                };
                Ok((if run { "validation.run"@ } else { "validation.plan"@ }, JsonView::Object(
                    seq![("project_key"@, JsonView::Str(p[0]))]
                        + opt_member("requested_profile"@, opt_str(profile))
                        + opt_member("timeout_ms"@, timeout_value)
                        + opt_member("unit"@, opt_str(unit)),
                )))
            }
        },
    }
}

/// `tools scaffold <executable> --output <path>`, which has no JSON answer.
/// Both paths are taken as given; the caller makes them absolute (see
/// `path_members`).
pub open spec fn tools_scaffold_spec(tail: Seq<Seq<char>>, json: bool) -> Result<(Seq<char>, JsonView), Seq<char>> {
    if json {
        Err("tools scaffold does not support --json"@)
    } else {
        match parse_tail_spec(tail, seq!["--output"@], seq![]) {
            Err(e) => Err(e),
            Ok((p, o)) => if p.len() != 1 {
                Err(positionals_error("tools scaffold"@, 1))
            } else {
                match option_value(o, "--output"@) {
                    None => Err("command requires "@ + "--output"@),
                    Some(out) => Ok(("tool.scaffold"@, JsonView::Object(seq![
                        ("executable_path"@, JsonView::Str(p[0])),
                        ("output_path"@, JsonView::Str(out)),
                    ]))),
                }
            },
        }
    }
}

/// `tools validate <manifest-path> --source user|project`; the path is
/// made absolute by the caller.
pub open spec fn tools_validate_spec(tail: Seq<Seq<char>>) -> Result<(Seq<char>, JsonView), Seq<char>> {
    match parse_tail_spec(tail, seq!["--source"@], seq![]) {
        Err(e) => Err(e),
        Ok((p, o)) => if p.len() != 1 {
            Err(positionals_error("tools validate"@, 1))
        } else {
            match option_value(o, "--source"@) {
                None => Err("command requires "@ + "--source"@),
                Some(source) => if !(source == "user"@ || source == "project"@) {
                    Err("validate --source must be user or project"@)
                } else {
                    Ok(("tool.validate"@, JsonView::Object(seq![
                        ("manifest_path"@, JsonView::Str(p[0])),
                        ("source"@, JsonView::Str(source)),
                    ])))
                },
            }
        },
    }
}

/// `management backup|restore plan <root>`; the root is made absolute by
/// the caller.
pub open spec fn management_plan_spec(tail: Seq<Seq<char>>, action: Seq<char>) -> Result<(Seq<char>, JsonView), Seq<char>> {
    match plain_spec(tail, "management "@ + action + " plan"@, 1) {
        Err(e) => Err(e),
        Ok(p) => Ok(("management."@ + action + ".plan"@, JsonView::Object(seq![("backup_root"@, JsonView::Str(p[0]))]))),
    }
}

/// `change-bundle show|status|conflicts <bundle-id>`.
pub open spec fn change_bundle_spec(tail: Seq<Seq<char>>, action: Seq<char>) -> Result<(Seq<char>, JsonView), Seq<char>> {
    match plain_spec(tail, "change-bundle show|status|conflicts"@, 1) {
        Err(e) => Err(e),
        Ok(p) => if !is_development_id(p[0]) {
            Err("bundle-id"@ + " must use 1 through 256 ASCII identifier characters"@)
        } else {
            Ok(("change-bundle."@ + action, JsonView::Object(seq![("bundle_id"@, JsonView::Str(p[0]))])))
        },
    }
}

/// `change-bundle remote operation apply <remote-operation-id>
/// --request-fingerprint <sha256>`.
pub open spec fn remote_apply_spec(tail: Seq<Seq<char>>) -> Result<(Seq<char>, JsonView), Seq<char>> {
    match parse_tail_spec(tail, seq!["--request-fingerprint"@], seq![]) {
        Err(e) => Err(e),
        Ok((p, o)) => if p.len() != 1 {
            Err(positionals_error("change-bundle remote operation apply"@, 1))
        } else if !is_development_id(p[0]) {
            Err("remote-operation-id"@ + " must use 1 through 256 ASCII identifier characters"@)
        } else {
            match option_value(o, "--request-fingerprint"@) {
                None => Err("command requires "@ + "--request-fingerprint"@),
                Some(h) => if !is_sha256_text(h) {
                    Err("--request-fingerprint"@ + " must be an exact lowercase sha256"@)
                } else {
                    Ok(("change-bundle.remote.operation.apply"@, JsonView::Object(seq![
                        ("remote_operation_id"@, JsonView::Str(p[0])),
                        ("request_fingerprint"@, JsonView::Str(h)),
                    ])))
                },
            }
        },
    }
}

pub open spec fn is_catalog_lifecycle(v: Seq<char>) -> bool {
    v == "deprecated"@ || v == "retired"@ || v == "rejected"@
}

/// `evaluation catalog transition <record-id> <next> [--revision N]
/// [--trial-candidate]`.
pub open spec fn catalog_transition_spec(tail: Seq<Seq<char>>) -> Result<(Seq<char>, JsonView), Seq<char>> {
    match parse_tail_spec(tail, seq!["--revision"@], seq!["--trial-candidate"@]) {
        Err(e) => Err(e),
        Ok((p, o)) => if p.len() != 2 {
            Err(positionals_error("evaluation catalog transition"@, 2))
        } else if p[0].len() == 0 || p[0].len() > 384 || p[0].contains('\0') {
            Err("evaluation catalog record-id is invalid"@)
        } else if !is_catalog_lifecycle(p[1]) {
            Err("next lifecycle must be deprecated, retired, or rejected"@)
        } else {
            let revision = match option_value(o, "--revision"@) {
                None => Ok(1nat),
                Some(v) => match u64_text(v) {
                    Some(n) => if n > 0 { Ok(n) } else { Err("--revision must be a positive integer"@) },
                    None => Err("--revision must be a positive integer"@),
                },
            };
            match revision {
                Err(e) => Err(e),
                Ok(n) => Ok(("evaluation.catalog.transition"@, JsonView::Object(seq![
                    ("next"@, JsonView::Str(p[1])),
                    ("record_id"@, JsonView::Str(p[0])),
                    ("record_revision"@, JsonView::Number(decimal(n))),
                    ("trial_candidate"@, JsonView::Bool(o.contains_key("--trial-candidate"@))),
                ]))),
            }
        },
    }
}

/// The number of UTF-8 bytes that encode `c`.
pub open spec fn utf8_width(c: char) -> nat {
    if (c as u32) < 0x80 { 1 } else if (c as u32) < 0x800 { 2 } else if (c as u32) < 0x10000 { 3 } else { 4 }
}

/// The length of `s` in UTF-8 bytes (`str::len`).
pub open spec fn utf8_len(s: Seq<char>) -> nat
    decreases s.len(),
{
    if s.len() == 0 { 0 } else { utf8_len(s.drop_last()) + utf8_width(s.last()) }
}

/// A recipe spec: holds an `@`, no NUL, and at most 256 UTF-8 bytes.
pub open spec fn is_recipe_spec(r: Seq<char>) -> bool {
    r.contains('@') && utf8_len(r) <= 256 && !r.contains('\0')
}

/// `recipe describe <recipe-id@semver>`.
pub open spec fn recipe_describe_spec(tail: Seq<Seq<char>>) -> Result<(Seq<char>, JsonView), Seq<char>> {
    match plain_spec(tail, "recipe describe"@, 1) {
        Err(e) => Err(e),
        Ok(p) => if !is_recipe_spec(p[0]) {
            Err("recipe describe requires recipe-id@semver"@)
        } else {
            Ok(("recipe.describe"@, JsonView::Object(seq![("recipe_spec"@, JsonView::Str(p[0]))])))
        },
    }
}

/// `controller autostart enable|disable|status`, which has no JSON answer.
pub open spec fn controller_autostart_spec(action: Seq<char>, json: bool) -> Result<(Seq<char>, JsonView), Seq<char>> {
    if json {
        Err("controller autostart does not support --json"@)
    } else {
        Ok(("controller.autostart."@ + action, JsonView::Object(seq![])))
    }
}

/// The payload members of `command` that hold paths as the user typed
/// them, which the caller makes absolute against its working directory.
pub open spec fn path_members(command: Seq<char>) -> Seq<Seq<char>> {
    if command == "tool.scaffold"@ {
        seq!["executable_path"@, "output_path"@]
    } else if command == "tool.validate"@ {
        seq!["manifest_path"@]
    } else if command == "management.backup.plan"@ || command == "management.restore.plan"@ {
        seq!["backup_root"@]
    } else {
        seq![]
    }
}

/// `release publish prepare <release-manifest-id> <before-snapshot-id>` and
/// `release publish apply <release-manifest-id>`.
pub open spec fn release_publish_spec(tail: Seq<Seq<char>>, action: Seq<char>) -> Result<(Seq<char>, JsonView), Seq<char>> {
    match plain_spec(tail, "release publish"@, if action == "apply"@ { 1 } else { 2 }) {
        Err(e) => Err(e),
        Ok(p) => if !is_development_id(p[0]) {
            Err("release-manifest-id"@ + " must use 1 through 256 ASCII identifier characters"@)
        } else if action == "apply"@ {
            Ok(("release.publish."@ + action, JsonView::Object(seq![("release_manifest_id"@, JsonView::Str(p[0]))])))
        } else if !is_development_id(p[1]) {
            Err("before-snapshot-id"@ + " must use 1 through 256 ASCII identifier characters"@)
        } else {
            Ok(("release.publish."@ + action, JsonView::Object(seq![
                ("before_snapshot_ref"@, JsonView::Str(p[1])),
                ("release_manifest_id"@, JsonView::Str(p[0])),
            ])))
        },
    }
}

/// Words that name none of the commands read here: `None` for a command
/// form of the CLI that needs what this library does not hold (the typed
/// ids, request ids and files of the Star-Control contracts), the command
/// synopsis as the error for words that name no command form at all.
pub open spec fn unread_form(w: Seq<Seq<char>>) -> Option<Result<(Seq<char>, JsonView), Seq<char>>> {
    if is_cli_form(w) {
        None
    } else {
        Some(Err(CLI_HELP@))
    }
}

/// The command and payload that the words `w` (without `--json`) name,
/// or `None` when they name none of the commands read here.
pub open spec fn command_spec(w: Seq<Seq<char>>, json: bool) -> Option<Result<(Seq<char>, JsonView), Seq<char>>> {
    if w.len() >= 1 && w[0] == "doctor"@ {
        Some(doctor_spec(w.skip(1)))
    } else if w.len() < 2 {
        unread_form(w)
    } else if w[0] == "tools"@ && w[1] == "list"@ {
        Some(tools_list_spec(w.skip(2)))
    } else if w[0] == "tools"@ && w[1] == "describe"@ {
        Some(tools_describe_spec(w.skip(2)))
    } else if w[0] == "tools"@ && w[1] == "status"@ {
        Some(tools_status_spec(w.skip(2)))
    } else if w[0] == "tools"@ && w[1] == "probe"@ {
        Some(tools_probe_spec(w.skip(2)))
    } else if w[0] == "tools"@ && w[1] == "revoke"@ {
        Some(tools_revoke_spec(w.skip(2)))
    } else if w[0] == "tools"@ && w[1] == "trust"@ {
        Some(tools_trust_spec(w.skip(2)))
    } else if w[0] == "tools"@ && w[1] == "validate"@ {
        Some(tools_validate_spec(w.skip(2)))
    } else if w[0] == "tools"@ && w[1] == "scaffold"@ {
        Some(tools_scaffold_spec(w.skip(2), json))
    } else if w[0] == "change-bundle"@ && (w[1] == "show"@ || w[1] == "status"@ || w[1] == "conflicts"@) {
        Some(change_bundle_spec(w.skip(2), w[1]))
    } else if w[0] == "recipe"@ && w[1] == "describe"@ {
        Some(recipe_describe_spec(w.skip(2)))
    } else if w[0] == "project"@ && w[1] == "list"@ {
        Some(project_list_spec(w.skip(2)))
    } else if w[0] == "project"@ && w[1] == "status"@ {
        Some(project_status_spec(w.skip(2)))
    } else if w[0] == "profile"@ && w[1] == "list"@ {
        Some(empty_spec(w.skip(2), "profile list"@, "profile.list"@))
    } else if w[0] == "profile"@ && w[1] == "show"@ {
        Some(profile_show_spec(w.skip(2)))
    } else if w[0] == "profile"@ && w[1] == "resolve"@ {
        Some(profile_resolve_spec(w.skip(2)))
    } else if w[0] == "evaluation"@ && w[1] == "show"@ {
        Some(evaluation_show_spec(w.skip(2)))
    } else if w[0] == "management"@ && w[1] == "status"@ {
        Some(empty_spec(w.skip(2), "management status"@, "management.status"@))
    } else if w[0] == "controller"@ && w[1] == "start"@ {
        Some(controller_start_spec(w.skip(2), json))
    } else if w[0] == "release"@ && (w[1] == "promote"@ || w[1] == "show"@ || w[1] == "status"@) {
        Some(release_spec(w.skip(2), w[1]))
    } else if w[0] == "evidence"@ && w[1] == "get"@ {
        Some(evidence_get_spec(w.skip(2)))
    } else if w[0] == "validation"@ && w[1] == "plan"@ {
        Some(validation_spec(w.skip(2), false))
    } else if w[0] == "validation"@ && w[1] == "run"@ {
        Some(validation_spec(w.skip(2), true))
    } else if w.len() < 3 {
        unread_form(w)
    } else if w[0] == "management"@ && (w[1] == "backup"@ || w[1] == "restore"@) && w[2] == "plan"@ {
        Some(management_plan_spec(w.skip(3), w[1]))
    } else if w[0] == "evaluation"@ && w[1] == "catalog"@ && w[2] == "transition"@ {
        Some(catalog_transition_spec(w.skip(3)))
    } else if w.len() == 3 && w[0] == "controller"@ && w[1] == "autostart"@
        && (w[2] == "enable"@ || w[2] == "disable"@ || w[2] == "status"@) {
        Some(controller_autostart_spec(w[2], json))
    } else if w.len() >= 4 && w[0] == "change-bundle"@ && w[1] == "remote"@ && w[2] == "operation"@ && w[3] == "apply"@ {
        Some(remote_apply_spec(w.skip(4)))
    } else if w[0] == "development"@ && w[1] == "record"@ && w[2] == "show"@ {
        Some(record_show_spec(w.skip(3)))
    } else if w[0] == "release"@ && w[1] == "publish"@ && (w[2] == "prepare"@ || w[2] == "apply"@) {
        Some(release_publish_spec(w.skip(3), w[2]))
    } else if w[0] == "management"@ && w[1] == "retention"@ && w[2] == "plan"@ {
        Some(empty_spec(w.skip(3), "management retention plan"@, "management.retention.plan"@))
    } else if w[0] == "management"@ && w[1] == "retention"@ && w[2] == "apply"@ {
        Some(retention_apply_spec(w.skip(3)))
    } else if w[0] == "management"@ && w[1] == "rebuild"@ && w[2] == "plan"@ {
        Some(empty_spec(w.skip(3), "management rebuild plan"@, "management.rebuild.plan"@))
    } else if w.len() >= 4 && w[0] == "management"@ && w[1] == "migrate"@ && w[2] == "project-v1-v2"@ && w[3] == "plan"@ {
        Some(empty_spec(w.skip(4), "management migrate project-v1-v2 plan"@, "management.migrate.project-v1-v2.plan"@))
    } else {
        unread_form(w)
    }
}

/// The command synopsis, answered for words that name no command.
pub const CLI_HELP: &'static str = "star tools list [--source release|user|project] [--readiness <value>] [--json]\n\
star tools describe <tool-id> [--json]\n\
star tools status [<package-id>] [--json]\n\
star tools validate <manifest-path> --source user|project [--json]\n\
star tools probe <package-id> [--executable <id>] [--json]\n\
star tools trust <package-id> --manifest-hash <sha256> [--expires <rfc3339>] [--json]\n\
star tools revoke <package-id> [--cancel-running] --reason <text> [--json]\n\
star tools scaffold <exe-path> --output <toml-path>\n\
star tools call <tool-id> <descriptor-sha256> <arguments-json> --lane read_closed|read_open|write_closed|write_open|destructive_closed|destructive_open [--wait auto|accepted|completed] [--timeout-ms <milliseconds>] [--idempotency <key>] [--json]\n\
star approvals resolve <approval-id> <scope-sha256> <approve|deny> [--reason <text>] [--json]\n\
star operations get <operation-id> [--after-sequence <n>] [--wait-ms <milliseconds>] [--json]\n\
star operations cancel <operation-id> [--reason <text>] [--json]\n\
star doctor [--json]\n\
star project register <project-key> [--idempotency <key>] [--json]\n\
star project discover [<explicit-root> ...] [--idempotency <key>] [--json]\n\
star project checkout attach <explicit-root> [--idempotency <key>] [--json]\n\
star project checkout list <project-id> [--json]\n\
star project checkout show <checkout-id> [--json]\n\
star project list [--json]\n\
star project status <project-key> [--json]\n\
star planning create <task-json> [--idempotency <key>] [--json]\n\
star planning get|show <task-spec-id> [--json]\n\
star planning status <task-spec-id> [--json]\n\
star planning history <task-spec-id> [--json]\n\
star planning scope revise <task-spec-id> <task-json> --reason <text> [--idempotency <key>] [--json]\n\
star planning impact inspect <task-spec-id> [--json]\n\
star planning affected-checks show <task-spec-id> [--json]\n\
star planning override <task-spec-id> <family> --kind add|promote|omit --reason <text> [--idempotency <key>] [--json]\n\
star planning waiver <task-spec-id> <family> --reason <text> [--idempotency <key>] [--json]\n\
star planning invalidate <task-spec-id> --reason <text> [--idempotency <key>] [--json]\n\
star planning replan <task-spec-id> --reason <text> [--idempotency <key>] [--json]\n\
star validation preflight <task-spec-id> [--claims <json-file>] [--guard-evidence <json-file>] [--json]\n\
star validation run-plan <task-spec-id> [--claims <json-file>] [--guard-evidence <json-file>] [--json]\n\
star validation status <project-id> [--json]\n\
star diagnostic list <project-id> [--json]\n\
star diagnostic show <project-id> <diagnostic-id> [--json]\n\
star baseline inspect <project-id> [--json]\n\
star suppression inspect <project-id> [--json]\n\
star gate show <project-id> <gate-id> [--json]\n\
star evidence bundle export <project-id> <evidence-bundle-id> [--json]\n\
star review-pack export <project-id> <review-pack-id> [--json]\n\
star validation plan <project-key> [--profile quick|target|full|release] [--unit <unit>] [--json]\n\
star validation run <project-key> [--profile quick|target|full|release] [--unit <unit>] [--timeout-ms <milliseconds>] [--json]\n\
star evidence get <project-key> <evidence-ref> [--json]\n\
star scan run <project-id> [--mode full|incremental] [--idempotency <key>] [--json]\n\
star index status <project-id> [--json]\n\
star index files <project-id> [query] [--allow-stale] [--json]\n\
star index search <project-id> <query> [--tier text|syntax|semantic] [--allow-stale] [--json]\n\
star index definitions <project-id> <query> [--allow-stale] [--json]\n\
star index references <project-id> <symbol-id> [--allow-stale] [--json]\n\
star index hardcoding <project-id> [--allow-stale] [--json]\n\
star registry list <project-id> [--manifest <project-relative-path>] [--json]\n\
star registry show <project-id> <managed-declaration-id> [--manifest <project-relative-path>] [--json]\n\
star registry candidate inspect <project-id> [--manifest <project-relative-path>] [--json]\n\
star registry candidate classify <project-id> <candidate-id> <managed_declaration|candidate|local_implementation_constant> --reason <text> [--manifest <project-relative-path>] [--json]\n\
star registry declaration plan <project-id> <change-kind> --desired <json-file> --reason <text> [--declaration <managed-declaration-id>] [--consumers <json-file>] [--manifest <project-relative-path>] [--json]\n\
star registry status <project-id> [--manifest <project-relative-path>] [--json]\n\
star contract snapshot <project-id> <snapshot-id> --role baseline|current [--source-revision <git-revision>] [--manifest <project-relative-path>] [--registry-snapshot <ref>] [--revision <n>] [--json]\n\
star contract compare <project-id> <report-id> <baseline-snapshot-id> <current-snapshot-id> [--manifest <project-relative-path>] [--revision <n>] [--json]\n\
star docs check <project-id> <snapshot-id> --registrations <json-file> [--manifest <project-relative-path>] [--revision <n>] [--json]\n\
star config trace <project-id> <trace-id> --input <json-file> [--revision <n>] [--json]\n\
star environment fingerprint <project-id> <snapshot-id> [--revision <n>] [--json]\n\
star project doctor <project-id> <report-id> <environment-snapshot-id> --input <json-file> [--manifest <project-relative-path>] [--revision <n>] [--json]\n\
star clean-room specification publish <project-id> <json-file> [--revision <n>] [--json]\n\
star clean-room readiness <project-id> <report-id> <environment-snapshot-id> --input <json-file> [--manifest <project-relative-path>] [--revision <n>] [--json]\n\
star dependency-security input <project-id> <manifest-id> <environment-snapshot-id> [--revision <n>] [--json]\n\
star failures inspect <project-id> <failure-record-id> --input <json-file> [--revision <n>] [--json]\n\
star failures reproduce <project-id> <reproduction-pack-id> <failure-record-id> --input <json-file> [--revision <n>] [--json]\n\
star failures compare <project-id> <regression-record-json> [--revision <n>] [--json]\n\
star failures recovery-plan <project-id> <recovery-plan-json> [--revision <n>] [--json]\n\
star security inspect <project-id> <snapshot-id> <effect-receipt-id> --input <json-file> [--revision <n>] [--json]\n\
star security release-manifest <project-id> <snapshot-id> <dependency-snapshot-id> --input <json-file> [--revision <n>] [--json]\n\
star deps scan <project-id> <snapshot-id> [--revision <n>] [--json]\n\
star deps candidates|prepare <project-id> <plan-id> <dependency-snapshot-id> --input <json-file> [--revision <n>] [--json]\n\
star deps status <project-id> <plan-id> [--json]\n\
star deps rollback-plan <project-id> <recovery-plan-json> [--revision <n>] [--json]\n\
star maintenance radar <snapshot-id> --input <json-file> [--revision <n>] [--json]\n\
star migration inspect <project-id> <target-id> [--manifest <project-relative-path>] [--json]\n\
star migration plan <project-id> <input-json> [--manifest <project-relative-path>] [--revision <n>] [--json]\n\
star migration checkpoint <project-id> <plan-id> <checkpoint-json> [--revision <n>] [--json]\n\
star migration dry-run|backup|rehearse|execute|resume|validate|rollback <project-id> <plan-id> <attempt-json> --fingerprint <sha256> [--revision <n>] [--json]\n\
star migration validation-report <project-id> <report-json> [--revision <n>] [--json]\n\
star migration restore-verify <project-id> <record-json> [--revision <n>] [--json]\n\
star migration status <project-id> <plan-id> [--json]\n\
star migration handoff <handoff-json> [--revision <n>] [--json]\n\
star performance plan <project-id> <workload-json> [--revision <n>] [--json]\n\
star performance run <project-id> <workload-id> <run-json> [--revision <n>] [--json]\n\
star performance compare <project-id> <workload-id> <comparison-id> --baseline-runs <json-file> --candidate-runs <json-file> [--revision <n>] [--json]\n\
star language-migration plan <project-id> <plan-json> [--revision <n>] [--json]\n\
star language-migration equivalence <project-id> <plan-id> <report-json> [--revision <n>] [--json]\n\
star language-migration cutover <project-id> <plan-id> <equivalence-report-id> <effect-receipt-id> --fingerprint <sha256> [--json]\n\
star language-migration status <project-id> <plan-id> [--json]\n\
star change-bundle goal publish <goal-json> [--revision <n>] [--json]\n\
star change-bundle participant publish <participant-json> [--revision <n>] [--json]\n\
star change-bundle plan|hold|resume <goal-id> <bundle-json> --participants <json-file> [--revision <n>] [--json]\n\
star change-bundle show|status|conflicts <bundle-id> [--json]\n\
star change-bundle preflight <bundle-id> <analysis-id> --subjects <json-file> --ordered-pairs <json-file> [--revision <n>] [--json]\n\
star change-bundle apply <project-id> <participant-json> --patch-applications <json-file> --migration-attempts <json-file> [--revision <n>] [--json]\n\
star change-bundle validate <project-id> <participant-json> [--revision <n>] [--json]\n\
star change-bundle worktree plan <project-id> <record-json> [--revision <n>] [--json]\n\
star change-bundle worktree create <project-id> <worktree-id> --branch <star-branch> --permission <decision-ref> --gate <decision-ref> --approve <sha256> [--json]\n\
star change-bundle merge plan <project-id> <plan-json> <overlap-analysis-id> [--revision <n>] [--json]\n\
star change-bundle merge enqueue <project-id> <queue-json> [--revision <n>] [--json]\n\
star change-bundle merge run <project-id> <merge-plan-id> <input-commit-oid> <result-json> --permission <decision-ref> --gate <decision-ref> --approve <sha256> [--revision <n>] [--json]\n\
star change-bundle merge result <project-id> <result-json> [--revision <n>] [--json]\n\
star change-bundle conflict publish <project-id> <conflict-json> [--revision <n>] [--json]\n\
star change-bundle remote refresh <project-id> <remote-name> <snapshot-id> --captured-at <rfc3339> --valid-until <rfc3339> [--revision <n>] [--json]\n\
star change-bundle remote operation prepare|observe <operation-json> [--revision <n>] [--json]\n\
star change-bundle remote operation apply <operation-id> --request-fingerprint <sha256> [--json]\n\
star change-bundle release-handoff plan <handoff-json> [--revision <n>] [--json]\n\
star change-bundle recovery plan <project-id> <plan-json> [--revision <n>] [--json]\n\
star change-bundle recovery apply <project-id> <plan-id> --approve <sha256> --permission <decision-ref> --gate <decision-ref> --receipt <effect-receipt-id> [--json]\n\
star release candidate create <project-id> <candidate-json> [--json]\n\
star release artifacts verify <project-id> <release-manifest-id> <artifacts-json> [--json]\n\
star release verification record <project-id> <release-manifest-id> <verification-json> [--json]\n\
star release promote|show|status <release-manifest-id> [--json]\n\
star release lifecycle publish <project-id> <lifecycle-id> <evidence-json> [--revision <n>] [--json]\n\
star release publish prepare <release-manifest-id> <before-snapshot-id> [--json]\n\
star release publish authorize <release-manifest-id> <approval-id> [--json]\n\
star release publish apply <release-manifest-id> [--json]\n\
star evaluation run <project-id> <input-json> [--json]\n\
star evaluation show <evaluation-run-id> [--json]\n\
star evaluation catalog publish <item-json> [--revision <n>] [--json]\n\
star evaluation catalog transition <record-id> <deprecated|retired|rejected> [--trial-candidate] [--revision <n>] [--json]\n\
star profile list [--json]\n\
star profile show <profile-id> [--json]\n\
star profile resolve <profile-id> [<profile-id> ...] [--json]\n\
star development effect record <project-id> <receipt-id> <effect-kind> <subject-ref> <subject-sha256> <operation-id> --arguments <json-file> [--approval <ref>] [--permission <ref>] [--gate <ref>] [--revision <n>] [--json]\n\
star development record show <record-kind> <record-id> [--revision <n>] [--json]\n\
star development record list <record-kind> [--project <project-id>] [--json]\n\
star graph neighbors <project-id> <entity-key> [--allow-stale] [--json]\n\
star style rust inspect <project-id> [--json]\n\
star style rust check <project-id> [--scope workspace|package] [--package <package>] [--json]\n\
star style rust prepare <project-id> --scope workspace|package [--package <package>] [--json]\n\
star style rust auto-apply <project-id> --scope workspace|package [--package <package>] [--json]\n\
star finding list <project-id> [--json]\n\
star recipe list [--language <language>] [--rewrite-kind text_exact|syntax_aware|symbol_aware|codegen_assured] [--json]\n\
star recipe describe <recipe-id@semver> [--json]\n\
star recipe validate <recipe-json> [--json]\n\
star change prepare <project-id> <checkout-id> <recipe-id@semver> --selector <json-file> --parameters <json-file> [--workspace current|isolated] [--json]\n\
star patch show <patch-set-id> [--json]\n\
star patch apply <patch-set-id> --fingerprint <sha256> [--manual-approval <approval-id>] [--guard-evidence <json-file>] [--json]\n\
star patch status <patch-application-id> [--json]\n\
star patch recover <patch-application-id> --strategy reverse-patch|discard-isolated [--json]\n\
star patch prepare <project-id> <finding-id> [--json]\n\
star patch apply <project-id> <patch-set-id> --approve <sha256> [--json]\n\
star management status [--json]\n\
star management backup plan <backup-root> [--json]\n\
star management backup apply <backup-root> <plan-json> --approve <sha256> [--json]\n\
star management restore plan <backup-root> [--json]\n\
star management restore apply <backup-root> <plan-json> --approve <sha256> [--json]\n\
star management local-state export plan <project-id> <destination-json> [--json]\n\
star management local-state export apply <destination-json> <plan-json> --approve <sha256> [--json]\n\
star management local-state import plan <source-json> [--json]\n\
star management local-state import apply <source-json> <plan-json> --approve <sha256> [--json]\n\
star management retention plan [--json]\n\
star management retention apply --approve <sha256> [--json]\n\
star management rebuild plan [--json]\n\
star management rebuild apply <plan-json> --approve <sha256> [--json]\n\
star management migrate project-v1-v2 plan [--json]\n\
star management migrate project-v1-v2 apply <plan-json> --approve <sha256> [--json]\n\
star management migrate project-v1-v2 rollback <plan-json> --approve <sha256> [--json]\n\
star management migrate patch-v1-v2 plan <project-id> [--json]\n\
star management migrate patch-v1-v2 apply <plan-json> --approve <sha256> [--json]\n\
star management migrate patch-v1-v2 rollback <plan-json> --approve <sha256> [--json]\n\
star installation finalize --architecture x64|arm64 [--replace-existing] [--json]\n\
star installation bridge initialize --state-generation <id> [--json]\n\
star installation status [--json]\n\
star integration install|repair [--codex <exe>] [--skip-register] [--json]\n\
star integration repair restart --codex-desktop <absolute-exe> [--json]\n\
star integration status [--json]\n\
star integration uninstall [--codex <exe>] [--json]\n\
star update status [--json]\n\
star update verify [--json]\n\
star update stage <runtime-generation-dir> [--json]\n\
star update inspect <generation-id|absolute-release-stage> [--json]\n\
star update apply <generation-id> --state-generation <id> --approve <sha256> [--json]\n\
star hook session-start\n\
star controller start [--background]\n\
star controller autostart enable|disable|status";

pub open spec fn original_forms_0(w: Seq<Seq<char>>) -> bool {
    ||| (w.len() >= 2 && w[0] == "tools"@ && w[1] == "call"@)
    ||| (w.len() >= 2 && w[0] == "approvals"@ && w[1] == "resolve"@)
    ||| (w.len() >= 2 && w[0] == "operations"@ && w[1] == "get"@)
    ||| (w.len() >= 2 && w[0] == "operations"@ && w[1] == "cancel"@)
    ||| (w.len() >= 2 && w[0] == "tools"@ && w[1] == "list"@)
    ||| (w.len() >= 2 && w[0] == "tools"@ && w[1] == "describe"@)
    ||| (w.len() >= 2 && w[0] == "tools"@ && w[1] == "status"@)
    ||| (w.len() >= 2 && w[0] == "tools"@ && w[1] == "validate"@)
    ||| (w.len() >= 2 && w[0] == "tools"@ && w[1] == "probe"@)
    ||| (w.len() >= 2 && w[0] == "tools"@ && w[1] == "trust"@)
    ||| (w.len() >= 2 && w[0] == "tools"@ && w[1] == "revoke"@)
    ||| (w.len() >= 2 && w[0] == "tools"@ && w[1] == "scaffold"@)
    ||| (w.len() >= 1 && w[0] == "doctor"@)
    ||| (w.len() >= 2 && w[0] == "project"@ && w[1] == "register"@)
    ||| (w.len() >= 2 && w[0] == "project"@ && w[1] == "list"@)
    ||| (w.len() >= 2 && w[0] == "project"@ && w[1] == "discover"@)
    ||| (w.len() >= 3 && w[0] == "project"@ && w[1] == "checkout"@ && w[2] == "attach"@)
    ||| (w.len() >= 3 && w[0] == "project"@ && w[1] == "checkout"@ && w[2] == "list"@)
    ||| (w.len() >= 3 && w[0] == "project"@ && w[1] == "checkout"@ && w[2] == "show"@)
    ||| (w.len() >= 2 && w[0] == "project"@ && w[1] == "status"@)
    ||| (w.len() >= 2 && w[0] == "planning"@ && w[1] == "create"@)
    ||| (w.len() >= 2 && w[0] == "planning"@ && (w[1] == "get"@ || w[1] == "show"@))
    ||| (w.len() >= 2 && w[0] == "planning"@ && (w[1] == "status"@ || w[1] == "history"@))
    ||| (w.len() >= 3 && w[0] == "planning"@ && w[1] == "scope"@ && w[2] == "revise"@)
    ||| (w.len() >= 3 && w[0] == "planning"@ && w[1] == "impact"@ && w[2] == "inspect"@)
}

pub open spec fn original_forms_1(w: Seq<Seq<char>>) -> bool {
    ||| (w.len() >= 3 && w[0] == "planning"@ && w[1] == "affected-checks"@ && w[2] == "show"@)
    ||| (w.len() >= 2 && w[0] == "planning"@ && (w[1] == "override"@ || w[1] == "waiver"@))
    ||| (w.len() >= 2 && w[0] == "planning"@ && (w[1] == "invalidate"@ || w[1] == "replan"@))
    ||| (w.len() >= 2 && w[0] == "validation"@ && (w[1] == "preflight"@ || w[1] == "run-plan"@))
    ||| (w.len() >= 2 && w[0] == "validation"@ && w[1] == "status"@)
    ||| (w.len() >= 2 && w[0] == "diagnostic"@ && (w[1] == "list"@ || w[1] == "show"@))
    ||| (w.len() >= 2 && (w[0] == "baseline"@ || w[0] == "suppression"@) && w[1] == "inspect"@)
    ||| (w.len() >= 2 && w[0] == "gate"@ && w[1] == "show"@)
    ||| (w.len() >= 3 && w[0] == "evidence"@ && w[1] == "bundle"@ && w[2] == "export"@)
    ||| (w.len() >= 2 && w[0] == "review-pack"@ && w[1] == "export"@)
    ||| (w.len() >= 2 && w[0] == "validation"@ && w[1] == "plan"@)
    ||| (w.len() >= 2 && w[0] == "validation"@ && w[1] == "run"@)
    ||| (w.len() >= 2 && w[0] == "evidence"@ && w[1] == "get"@)
    ||| (w.len() >= 2 && w[0] == "scan"@ && w[1] == "run"@)
    ||| (w.len() >= 2 && w[0] == "index"@ && w[1] == "status"@)
    ||| (w.len() >= 2 && w[0] == "index"@ && w[1] == "files"@)
    ||| (w.len() >= 2 && w[0] == "index"@ && w[1] == "search"@)
    ||| (w.len() >= 2 && w[0] == "index"@ && w[1] == "definitions"@)
    ||| (w.len() >= 2 && w[0] == "index"@ && w[1] == "references"@)
    ||| (w.len() >= 2 && w[0] == "index"@ && w[1] == "hardcoding"@)
    ||| (w.len() >= 2 && w[0] == "registry"@ && (w[1] == "list"@ || w[1] == "status"@))
    ||| (w.len() >= 2 && w[0] == "registry"@ && w[1] == "show"@)
    ||| (w.len() >= 3 && w[0] == "registry"@ && w[1] == "candidate"@ && w[2] == "inspect"@)
    ||| (w.len() >= 3 && w[0] == "registry"@ && w[1] == "candidate"@ && w[2] == "classify"@)
    ||| (w.len() >= 3 && w[0] == "registry"@ && w[1] == "declaration"@ && w[2] == "plan"@)
}

pub open spec fn original_forms_2(w: Seq<Seq<char>>) -> bool {
    ||| (w.len() >= 2 && w[0] == "contract"@ && w[1] == "snapshot"@)
    ||| (w.len() >= 2 && w[0] == "contract"@ && w[1] == "compare"@)
    ||| (w.len() >= 2 && w[0] == "docs"@ && w[1] == "check"@)
    ||| (w.len() >= 2 && w[0] == "config"@ && w[1] == "trace"@)
    ||| (w.len() >= 2 && w[0] == "environment"@ && w[1] == "fingerprint"@)
    ||| (w.len() >= 2 && w[0] == "project"@ && w[1] == "doctor"@)
    ||| (w.len() >= 3 && w[0] == "clean-room"@ && w[1] == "specification"@ && w[2] == "publish"@)
    ||| (w.len() >= 2 && w[0] == "clean-room"@ && w[1] == "readiness"@)
    ||| (w.len() >= 2 && w[0] == "dependency-security"@ && w[1] == "input"@)
    ||| (w.len() >= 3 && w[0] == "development"@ && w[1] == "effect"@ && w[2] == "record"@)
    ||| (w.len() >= 3 && w[0] == "development"@ && w[1] == "record"@ && w[2] == "show"@)
    ||| (w.len() >= 3 && w[0] == "development"@ && w[1] == "record"@ && w[2] == "list"@)
    ||| (w.len() >= 2 && w[0] == "failures"@ && w[1] == "inspect"@)
    ||| (w.len() >= 2 && w[0] == "failures"@ && w[1] == "reproduce"@)
    ||| (w.len() >= 2 && w[0] == "failures"@ && w[1] == "compare"@)
    ||| (w.len() >= 2 && w[0] == "failures"@ && w[1] == "recovery-plan"@)
    ||| (w.len() >= 2 && w[0] == "security"@ && w[1] == "inspect"@)
    ||| (w.len() >= 2 && w[0] == "security"@ && w[1] == "release-manifest"@)
    ||| (w.len() >= 2 && w[0] == "deps"@ && w[1] == "scan"@)
    ||| (w.len() >= 2 && w[0] == "deps"@ && (w[1] == "candidates"@ || w[1] == "prepare"@))
    ||| (w.len() >= 2 && w[0] == "deps"@ && w[1] == "status"@)
    ||| (w.len() >= 2 && w[0] == "deps"@ && w[1] == "rollback-plan"@)
    ||| (w.len() >= 2 && w[0] == "maintenance"@ && w[1] == "radar"@)
    ||| (w.len() >= 2 && w[0] == "migration"@ && w[1] == "inspect"@)
    ||| (w.len() >= 2 && w[0] == "migration"@ && w[1] == "plan"@)
}

pub open spec fn original_forms_3(w: Seq<Seq<char>>) -> bool {
    ||| (w.len() >= 2 && w[0] == "migration"@ && w[1] == "checkpoint"@)
    ||| (w.len() >= 2 && w[0] == "migration"@ && (w[1] == "dry-run"@ || w[1] == "backup"@ || w[1] == "rehearse"@ || w[1] == "execute"@ || w[1] == "resume"@ || w[1] == "validate"@ || w[1] == "rollback"@))
    ||| (w.len() >= 2 && w[0] == "migration"@ && w[1] == "validation-report"@)
    ||| (w.len() >= 2 && w[0] == "migration"@ && w[1] == "restore-verify"@)
    ||| (w.len() >= 2 && w[0] == "migration"@ && w[1] == "status"@)
    ||| (w.len() >= 2 && w[0] == "migration"@ && w[1] == "handoff"@)
    ||| (w.len() >= 2 && w[0] == "performance"@ && w[1] == "plan"@)
    ||| (w.len() >= 2 && w[0] == "performance"@ && w[1] == "run"@)
    ||| (w.len() >= 2 && w[0] == "performance"@ && w[1] == "compare"@)
    ||| (w.len() >= 2 && w[0] == "language-migration"@ && w[1] == "plan"@)
    ||| (w.len() >= 2 && w[0] == "language-migration"@ && w[1] == "equivalence"@)
    ||| (w.len() >= 2 && w[0] == "language-migration"@ && w[1] == "cutover"@)
    ||| (w.len() >= 2 && w[0] == "language-migration"@ && w[1] == "status"@)
    ||| (w.len() >= 3 && w[0] == "change-bundle"@ && w[1] == "goal"@ && w[2] == "publish"@)
    ||| (w.len() >= 3 && w[0] == "change-bundle"@ && w[1] == "participant"@ && w[2] == "publish"@)
    ||| (w.len() >= 2 && w[0] == "change-bundle"@ && (w[1] == "plan"@ || w[1] == "hold"@ || w[1] == "resume"@))
    ||| (w.len() >= 2 && w[0] == "change-bundle"@ && (w[1] == "show"@ || w[1] == "status"@ || w[1] == "conflicts"@))
    ||| (w.len() >= 2 && w[0] == "change-bundle"@ && w[1] == "preflight"@)
    ||| (w.len() >= 3 && w[0] == "change-bundle"@ && w[1] == "worktree"@ && w[2] == "plan"@)
    ||| (w.len() >= 2 && w[0] == "change-bundle"@ && w[1] == "apply"@)
    ||| (w.len() >= 2 && w[0] == "change-bundle"@ && w[1] == "validate"@)
    ||| (w.len() >= 3 && w[0] == "change-bundle"@ && w[1] == "worktree"@ && w[2] == "create"@)
    ||| (w.len() >= 3 && w[0] == "change-bundle"@ && w[1] == "merge"@ && w[2] == "plan"@)
    ||| (w.len() >= 3 && w[0] == "change-bundle"@ && w[1] == "merge"@ && w[2] == "enqueue"@)
    ||| (w.len() >= 3 && w[0] == "change-bundle"@ && w[1] == "merge"@ && w[2] == "run"@)
}

pub open spec fn original_forms_4(w: Seq<Seq<char>>) -> bool {
    ||| (w.len() >= 3 && w[0] == "change-bundle"@ && w[1] == "merge"@ && w[2] == "result"@)
    ||| (w.len() >= 3 && w[0] == "change-bundle"@ && w[1] == "conflict"@ && w[2] == "publish"@)
    ||| (w.len() >= 3 && w[0] == "change-bundle"@ && w[1] == "remote"@ && w[2] == "refresh"@)
    ||| (w.len() >= 4 && w[0] == "change-bundle"@ && w[1] == "remote"@ && w[2] == "operation"@ && (w[3] == "prepare"@ || w[3] == "observe"@))
    ||| (w.len() >= 4 && w[0] == "change-bundle"@ && w[1] == "remote"@ && w[2] == "operation"@ && w[3] == "apply"@)
    ||| (w.len() >= 3 && w[0] == "change-bundle"@ && w[1] == "release-handoff"@ && w[2] == "plan"@)
    ||| (w.len() >= 3 && w[0] == "change-bundle"@ && w[1] == "recovery"@ && w[2] == "plan"@)
    ||| (w.len() >= 3 && w[0] == "change-bundle"@ && w[1] == "recovery"@ && w[2] == "apply"@)
    ||| (w.len() >= 3 && w[0] == "release"@ && w[1] == "candidate"@ && w[2] == "create"@)
    ||| (w.len() >= 3 && w[0] == "release"@ && w[1] == "artifacts"@ && w[2] == "verify"@)
    ||| (w.len() >= 3 && w[0] == "release"@ && w[1] == "verification"@ && w[2] == "record"@)
    ||| (w.len() >= 2 && w[0] == "release"@ && (w[1] == "promote"@ || w[1] == "show"@ || w[1] == "status"@))
    ||| (w.len() >= 3 && w[0] == "release"@ && w[1] == "lifecycle"@ && w[2] == "publish"@)
    ||| (w.len() >= 3 && w[0] == "release"@ && w[1] == "publish"@ && (w[2] == "prepare"@ || w[2] == "authorize"@ || w[2] == "apply"@))
    ||| (w.len() >= 2 && w[0] == "evaluation"@ && w[1] == "run"@)
    ||| (w.len() >= 2 && w[0] == "evaluation"@ && w[1] == "show"@)
    ||| (w.len() >= 3 && w[0] == "evaluation"@ && w[1] == "catalog"@ && w[2] == "publish"@)
    ||| (w.len() >= 3 && w[0] == "evaluation"@ && w[1] == "catalog"@ && w[2] == "transition"@)
    ||| (w.len() >= 2 && w[0] == "profile"@ && w[1] == "list"@)
    ||| (w.len() >= 2 && w[0] == "profile"@ && w[1] == "show"@)
    ||| (w.len() >= 2 && w[0] == "profile"@ && w[1] == "resolve"@)
    ||| (w.len() >= 2 && w[0] == "graph"@ && w[1] == "neighbors"@)
    ||| (w.len() >= 2 && w[0] == "finding"@ && w[1] == "list"@)
    ||| (w.len() >= 3 && w[0] == "style"@ && w[1] == "rust"@ && w[2] == "inspect"@)
    ||| (w.len() >= 3 && w[0] == "style"@ && w[1] == "rust"@ && (w[2] == "check"@ || w[2] == "prepare"@ || w[2] == "auto-apply"@))
}

pub open spec fn original_forms_5(w: Seq<Seq<char>>) -> bool {
    ||| (w.len() >= 2 && w[0] == "recipe"@ && w[1] == "list"@)
    ||| (w.len() >= 2 && w[0] == "recipe"@ && w[1] == "describe"@)
    ||| (w.len() >= 2 && w[0] == "recipe"@ && w[1] == "validate"@)
    ||| (w.len() >= 2 && w[0] == "change"@ && w[1] == "prepare"@)
    ||| (w.len() >= 2 && w[0] == "patch"@ && w[1] == "show"@)
    ||| (w.len() >= 2 && w[0] == "patch"@ && w[1] == "status"@)
    ||| (w.len() >= 2 && w[0] == "patch"@ && w[1] == "recover"@)
    ||| (w.len() >= 2 && w[0] == "patch"@ && w[1] == "prepare"@)
    ||| (w.len() >= 2 && w[0] == "patch"@ && w[1] == "apply"@)
    ||| (w.len() >= 2 && w[0] == "management"@ && w[1] == "status"@)
    ||| (w.len() >= 3 && w[0] == "management"@ && (w[1] == "backup"@ || w[1] == "restore"@) && w[2] == "plan"@)
    ||| (w.len() >= 3 && w[0] == "management"@ && (w[1] == "backup"@ || w[1] == "restore"@) && w[2] == "apply"@)
    ||| (w.len() >= 4 && w[0] == "management"@ && w[1] == "local-state"@ && (w[2] == "export"@ || w[2] == "import"@) && w[3] == "plan"@)
    ||| (w.len() >= 4 && w[0] == "management"@ && w[1] == "local-state"@ && (w[2] == "export"@ || w[2] == "import"@) && w[3] == "apply"@)
    ||| (w.len() >= 4 && w[0] == "management"@ && w[1] == "migrate"@ && w[2] == "project-v1-v2"@ && w[3] == "plan"@)
    ||| (w.len() >= 4 && w[0] == "management"@ && w[1] == "migrate"@ && w[2] == "project-v1-v2"@ && (w[3] == "apply"@ || w[3] == "rollback"@))
    ||| (w.len() >= 4 && w[0] == "management"@ && w[1] == "migrate"@ && w[2] == "patch-v1-v2"@ && w[3] == "plan"@)
    ||| (w.len() >= 4 && w[0] == "management"@ && w[1] == "migrate"@ && w[2] == "patch-v1-v2"@ && (w[3] == "apply"@ || w[3] == "rollback"@))
    ||| (w.len() >= 3 && w[0] == "management"@ && w[1] == "retention"@ && w[2] == "plan"@)
    ||| (w.len() >= 3 && w[0] == "management"@ && w[1] == "retention"@ && w[2] == "apply"@)
    ||| (w.len() >= 3 && w[0] == "management"@ && w[1] == "rebuild"@ && w[2] == "plan"@)
    ||| (w.len() >= 3 && w[0] == "management"@ && w[1] == "rebuild"@ && w[2] == "apply"@)
    ||| (w.len() >= 2 && w[0] == "controller"@ && w[1] == "start"@)
    ||| (w.len() == 3 && w[0] == "controller"@ && w[1] == "autostart"@ && (w[2] == "enable"@ || w[2] == "disable"@ || w[2] == "status"@))
}

/// The words name one of the command forms of the `star` CLI, whether or
/// not it is read here.
pub open spec fn is_cli_form(w: Seq<Seq<char>>) -> bool {
    original_forms_0(w) || original_forms_1(w) || original_forms_2(w) || original_forms_3(w) || original_forms_4(w) || original_forms_5(w)
}

/// The request that the arguments `args` name: an error when `--json` is
/// given more than once; otherwise as `command_spec` reads the words
/// without `--json`.
pub open spec fn controller_request_spec(args: Seq<Seq<char>>) -> Option<Result<RequestView, Seq<char>>> {
    if json_flag_count(args) > 1 {
        Some(Err("--json may be supplied only once"@))
    } else {
        match command_spec(without_json_flag(args), json_flag_count(args) == 1) {
            None => None,
            Some(Ok((command, payload))) => Some(Ok(RequestView { command, payload, json: json_flag_count(args) == 1 })),
            Some(Err(e)) => Some(Err(e)),
        }
    }
}

// ----------------------------------------------------------------------
// Executable parts.
// ----------------------------------------------------------------------

fn mk(key: &str, value: JsonValue) -> (result: JsonMember)
    ensures
        result.key@ == key@,
        result.value == value,
{
    JsonMember { key: key.to_owned(), value }
}

fn option_text(o: &CliOptions, name: &str) -> (result: Option<String>)
    requires
        o.wf(),
    ensures
        match option_value(o.map(), name@) {
            Some(v) => result matches Some(r) && r@ == v,
            None => result is None,
        },
{
    match o.get(name) {
        Some(Some(v)) => Some(v),
        _ => None,
    }
}

fn str_value(text: &str) -> (result: JsonValue)
    ensures
        result@ == JsonView::Str(text@),
{
    JsonValue::Str(text.to_owned())
}

/// The outcome of one command, against its rule.
pub open spec fn outcome_matches(result: Result<(String, JsonValue), String>, spec: Result<(Seq<char>, JsonView), Seq<char>>) -> bool {
    match spec {
        Ok((c, p)) => result matches Ok((rc, rp)) && rc@ == c && rp@ == p,
        Err(e) => result matches Err(r) && r@ == e,
    }
}

#[verifier::rlimit(40)]
fn tools_list(tail: &[String]) -> (result: Result<(String, JsonValue), String>)
    ensures
        outcome_matches(result, tools_list_spec(string_texts(tail@))),
{
    let vo: Vec<&str> = vec!["--source", "--readiness"];
    let fo: Vec<&str> = vec![];
    assert(crate::cli::texts(vo@) =~= seq!["--source"@, "--readiness"@]);
    assert(crate::cli::texts(fo@) =~= Seq::<Seq<char>>::empty());
    let (positionals, options) = match parse_tail(tail, vo.as_slice(), fo.as_slice()) {
        Ok(r) => r,
        Err(e) => return Err(e),
    };
    if positionals.len() != 0 {
        return match require_positionals(positionals.as_slice(), 0, "tools list") {
            Ok(()) => Err(String::new()),
            Err(e) => Err(e),
        };
    }
    let source = option_text(&options, "--source");
    let readiness = option_text(&options, "--readiness");
    if let Some(v) = &source {
        if !(str_eq(v.as_str(), "release") || str_eq(v.as_str(), "user") || str_eq(v.as_str(), "project")) {
            return Err("--source must be release, user, or project".to_owned());
        }
    }
    if let Some(v) = &readiness {
        if !(str_eq(v.as_str(), "ready") || str_eq(v.as_str(), "unavailable") || str_eq(v.as_str(), "untrusted")
            || str_eq(v.as_str(), "incompatible") || str_eq(v.as_str(), "degraded")) {
            return Err("--readiness has an unsupported value".to_owned());
        }
    }
    let readiness_items: Vec<JsonValue> = match &readiness {
        Some(r) => {
            let items: Vec<JsonValue> = vec![str_value(r.as_str())];
            proof {
                reveal_with_fuel(json_items_view, 2);
                assert(json_items_view(items@) =~= seq![JsonView::Str(r@)]);
            }
            items
        },
        None => {
            let items: Vec<JsonValue> = vec![
                str_value("ready"),
                str_value("unavailable"),
                str_value("untrusted"),
                str_value("incompatible"),
                str_value("degraded"),
            ];
            proof {
                reveal_with_fuel(json_items_view, 6);
                assert(json_items_view(items@) =~= all_readiness());
            }
            items
        },
    };
    let sources = match &source {
        Some(v) => {
            let items: Vec<JsonValue> = vec![str_value(v.as_str())];
            proof {
                reveal_with_fuel(json_items_view, 2);
                assert(json_items_view(items@) =~= seq![JsonView::Str(v@)]);
            }
            JsonValue::Array(items)
        },
        None => JsonValue::Null,
    };
    let members: Vec<JsonMember> = vec![
        mk("limit", JsonValue::Number("50".to_owned())),
        mk("query", JsonValue::Str(String::new())),
        mk("readiness", JsonValue::Array(readiness_items)),
        mk("sources", sources),
    ];
    proof {
        reveal_with_fuel(json_members_view, 5);
        let o = options.map();
        assert(option_value(o, "--readiness"@) == crate::cli::opt_text(readiness));
        assert(option_value(o, "--source"@) == crate::cli::opt_text(source));
        let sq = seq![
            ("limit"@, JsonView::Number("50"@)),
            ("query"@, JsonView::Str(Seq::empty())),
            ("readiness"@, JsonView::Array(match option_value(o, "--readiness"@) {
                Some(r) => seq![JsonView::Str(r)],
                None => all_readiness(),
            })),
            ("sources"@, match option_value(o, "--source"@) {
                Some(s) => JsonView::Array(seq![JsonView::Str(s)]),
                None => JsonView::Null,
            }),
        ];
        assert(json_view(members@[1].value) == JsonView::Str(Seq::<char>::empty()));
        assert(json_members_view(members@) =~~= sq);
        match tools_list_spec(string_texts(tail@)) {
            Ok((c, pv)) => {
                assert(pv->Object_0 =~= sq);
            },
            Err(_) => {},
        }
    }
    Ok(("tool.search".to_owned(), JsonValue::Object(members)))
}

fn tools_describe(tail: &[String]) -> (result: Result<(String, JsonValue), String>)
    ensures
        outcome_matches(result, tools_describe_spec(string_texts(tail@))),
{
    let none: Vec<&str> = vec![];
    assert(crate::cli::texts(none@) =~= Seq::<Seq<char>>::empty());
    let (positionals, _options) = match parse_tail(tail, none.as_slice(), none.as_slice()) {
        Ok(r) => r,
        Err(e) => return Err(e),
    };
    match require_positionals(positionals.as_slice(), 1, "tools describe") {
        Ok(()) => {},
        Err(e) => return Err(e),
    }
    assert(string_texts(positionals@)[0] == positionals@[0]@);
    let members: Vec<JsonMember> = vec![mk("tool_id", str_value(positionals[0].as_str()))];
    proof {
        reveal_with_fuel(json_members_view, 2);
        assert(members@.len() == 1);
        assert(members@[0].key@ == "tool_id"@);
        assert(json_view(members@[0].value) == JsonView::Str(string_texts(positionals@)[0]));
        assert(json_members_view(members@) =~= seq![("tool_id"@, JsonView::Str(string_texts(positionals@)[0]))]);
    }
    Ok(("tool.describe".to_owned(), JsonValue::Object(members)))
}

fn tools_status(tail: &[String]) -> (result: Result<(String, JsonValue), String>)
    ensures
        outcome_matches(result, tools_status_spec(string_texts(tail@))),
{
    let none: Vec<&str> = vec![];
    assert(crate::cli::texts(none@) =~= Seq::<Seq<char>>::empty());
    let (positionals, _options) = match parse_tail(tail, none.as_slice(), none.as_slice()) {
        Ok(r) => r,
        Err(e) => return Err(e),
    };
    if positionals.len() > 1 {
        return Err("tools status accepts at most one package ID".to_owned());
    }
    let package = if positionals.len() == 1 {
        assert(string_texts(positionals@)[0] == positionals@[0]@);
        str_value(positionals[0].as_str())
    } else {
        JsonValue::Null
    };
    let members: Vec<JsonMember> = vec![mk("limit", JsonValue::Number("200".to_owned())), mk("package_id", package)];
    proof {
        reveal_with_fuel(json_members_view, 3);
        assert(json_members_view(members@) =~= seq![("limit"@, JsonView::Number("200"@)), ("package_id"@, package@)]);
    }
    Ok(("tool.registry.status".to_owned(), JsonValue::Object(members)))
}

fn tools_probe(tail: &[String]) -> (result: Result<(String, JsonValue), String>)
    ensures
        outcome_matches(result, tools_probe_spec(string_texts(tail@))),
{
    let vo: Vec<&str> = vec!["--executable"];
    let fo: Vec<&str> = vec![];
    assert(crate::cli::texts(vo@) =~= seq!["--executable"@]);
    assert(crate::cli::texts(fo@) =~= Seq::<Seq<char>>::empty());
    let (positionals, options) = match parse_tail(tail, vo.as_slice(), fo.as_slice()) {
        Ok(r) => r,
        Err(e) => return Err(e),
    };
    match require_positionals(positionals.as_slice(), 1, "tools probe") {
        Ok(()) => {},
        Err(e) => return Err(e),
    }
    assert(string_texts(positionals@)[0] == positionals@[0]@);
    let executable = match option_text(&options, "--executable") {
        Some(v) => str_value(v.as_str()),
        None => JsonValue::Null,
    };
    let members: Vec<JsonMember> = vec![mk("executable_id", executable), mk("package_id", str_value(positionals[0].as_str()))];
    proof {
        reveal_with_fuel(json_members_view, 3);
        assert(json_members_view(members@) =~= seq![("executable_id"@, executable@),
            ("package_id"@, JsonView::Str(string_texts(positionals@)[0]))]);
    }
    Ok(("tool.probe".to_owned(), JsonValue::Object(members)))
}

fn tools_revoke(tail: &[String]) -> (result: Result<(String, JsonValue), String>)
    ensures
        outcome_matches(result, tools_revoke_spec(string_texts(tail@))),
{
    let vo: Vec<&str> = vec!["--reason"];
    let fo: Vec<&str> = vec!["--cancel-running"];
    assert(crate::cli::texts(vo@) =~= seq!["--reason"@]);
    assert(crate::cli::texts(fo@) =~= seq!["--cancel-running"@]);
    let (positionals, options) = match parse_tail(tail, vo.as_slice(), fo.as_slice()) {
        Ok(r) => r,
        Err(e) => return Err(e),
    };
    match require_positionals(positionals.as_slice(), 1, "tools revoke") {
        Ok(()) => {},
        Err(e) => return Err(e),
    }
    assert(string_texts(positionals@)[0] == positionals@[0]@);
    let reason = match required_option(&options, "--reason") {
        Ok(r) => r,
        Err(e) => return Err(e),
    };
    let chars = chars_of(reason.as_str());
    if contains_char(chars.as_slice(), '\0') || chars.len() == 0 || chars.len() > 1000 {
        return Err("--reason must contain 1 through 1000 characters".to_owned());
    }
    let cancel_running = match options.get("--cancel-running") {
        Some(_) => true,
        None => false,
    };
    let members: Vec<JsonMember> = vec![
        mk("cancel_running", JsonValue::Bool(cancel_running)),
        mk("package_id", str_value(positionals[0].as_str())),
        mk("reason", str_value(reason.as_str())),
    ];
    proof {
        reveal_with_fuel(json_members_view, 4);
        assert(json_members_view(members@) =~= seq![
            ("cancel_running"@, JsonView::Bool(cancel_running)),
            ("package_id"@, JsonView::Str(string_texts(positionals@)[0])),
            ("reason"@, JsonView::Str(reason@)),
        ]);
    }
    Ok(("tool.revoke".to_owned(), JsonValue::Object(members)))
}

fn plain(tail: &[String], name: &str, expected: usize) -> (result: Result<Vec<String>, String>)
    ensures
        match plain_spec(string_texts(tail@), name@, expected as nat) {
            Ok(p) => result matches Ok(r) && string_texts(r@) == p,
            Err(e) => result matches Err(r) && r@ == e,
        },
{
    let none: Vec<&str> = vec![];
    assert(crate::cli::texts(none@) =~= Seq::<Seq<char>>::empty());
    let (positionals, _options) = match parse_tail(tail, none.as_slice(), none.as_slice()) {
        Ok(r) => r,
        Err(e) => return Err(e),
    };
    match require_positionals(positionals.as_slice(), expected, name) {
        Ok(()) => Ok(positionals),
        Err(e) => Err(e),
    }
}

fn doctor(tail: &[String]) -> (result: Result<(String, JsonValue), String>)
    ensures
        outcome_matches(result, doctor_spec(string_texts(tail@))),
{
    match plain(tail, "doctor", 0) {
        Ok(_) => {
            let members: Vec<JsonMember> = vec![];
            proof {
                reveal_with_fuel(json_members_view, 1);
            }
            Ok(("doctor.run".to_owned(), JsonValue::Object(members)))
        },
        Err(e) => Err(e),
    }
}

fn project_list(tail: &[String]) -> (result: Result<(String, JsonValue), String>)
    ensures
        outcome_matches(result, project_list_spec(string_texts(tail@))),
{
    match plain(tail, "project list", 0) {
        Ok(_) => {
            let members: Vec<JsonMember> = vec![];
            proof {
                reveal_with_fuel(json_members_view, 1);
            }
            Ok(("project.list".to_owned(), JsonValue::Object(members)))
        },
        Err(e) => Err(e),
    }
}

fn project_status(tail: &[String]) -> (result: Result<(String, JsonValue), String>)
    ensures
        outcome_matches(result, project_status_spec(string_texts(tail@))),
{
    match plain(tail, "project status", 1) {
        Ok(p) => {
            assert(string_texts(p@)[0] == p@[0]@);
            let members: Vec<JsonMember> = vec![mk("project_key", str_value(p[0].as_str()))];
            proof {
                reveal_with_fuel(json_members_view, 2);
                assert(json_members_view(members@) =~= seq![("project_key"@, JsonView::Str(string_texts(p@)[0]))]);
            }
            Ok(("project.status".to_owned(), JsonValue::Object(members)))
        },
        Err(e) => Err(e),
    }
}

fn empty_command(tail: &[String], name: &str, command: &str) -> (result: Result<(String, JsonValue), String>)
    ensures
        outcome_matches(result, empty_spec(string_texts(tail@), name@, command@)),
{
    match plain(tail, name, 0) {
        Ok(_) => {
            let members: Vec<JsonMember> = vec![];
            proof {
                reveal_with_fuel(json_members_view, 1);
                assert(json_members_view(members@) =~= Seq::<(Seq<char>, JsonView)>::empty());
            }
            Ok((command.to_owned(), JsonValue::Object(members)))
        },
        Err(e) => Err(e),
    }
}

fn profile_show(tail: &[String]) -> (result: Result<(String, JsonValue), String>)
    ensures
        outcome_matches(result, profile_show_spec(string_texts(tail@))),
{
    match plain(tail, "profile show", 1) {
        Ok(p) => {
            assert(string_texts(p@)[0] == p@[0]@);
            match validate_profile_id(p[0].as_str()) {
                Ok(()) => {},
                Err(e) => return Err(e),
            }
            let members: Vec<JsonMember> = vec![mk("profile_id", str_value(p[0].as_str()))];
            proof {
                reveal_with_fuel(json_members_view, 2);
                assert(json_members_view(members@) =~= seq![("profile_id"@, JsonView::Str(string_texts(p@)[0]))]);
            }
            Ok(("profile.show".to_owned(), JsonValue::Object(members)))
        },
        Err(e) => Err(e),
    }
}

fn evaluation_show(tail: &[String]) -> (result: Result<(String, JsonValue), String>)
    ensures
        outcome_matches(result, evaluation_show_spec(string_texts(tail@))),
{
    match plain(tail, "evaluation show", 1) {
        Ok(p) => {
            assert(string_texts(p@)[0] == p@[0]@);
            match validate_development_id(p[0].as_str(), "evaluation-run-id") {
                Ok(()) => {},
                Err(e) => return Err(e),
            }
            let members: Vec<JsonMember> = vec![mk("evaluation_run_id", str_value(p[0].as_str()))];
            proof {
                reveal_with_fuel(json_members_view, 2);
                assert(json_members_view(members@) =~= seq![("evaluation_run_id"@, JsonView::Str(string_texts(p@)[0]))]);
            }
            Ok(("evaluation.show".to_owned(), JsonValue::Object(members)))
        },
        Err(e) => Err(e),
    }
}

fn controller_start(tail: &[String], json: bool) -> (result: Result<(String, JsonValue), String>)
    ensures
        outcome_matches(result, controller_start_spec(string_texts(tail@), json)),
{
    if json {
        return Err("controller start does not support --json".to_owned());
    }
    let vo: Vec<&str> = vec![];
    let fo: Vec<&str> = vec!["--background"];
    assert(crate::cli::texts(vo@) =~= Seq::<Seq<char>>::empty());
    assert(crate::cli::texts(fo@) =~= seq!["--background"@]);
    let (positionals, options) = match parse_tail(tail, vo.as_slice(), fo.as_slice()) {
        Ok(r) => r,
        Err(e) => return Err(e),
    };
    match require_positionals(positionals.as_slice(), 0, "controller start") {
        Ok(()) => {},
        Err(e) => return Err(e),
    }
    let background = match options.get("--background") {
        Some(_) => true,
        None => false,
    };
    let members: Vec<JsonMember> = vec![mk("background", JsonValue::Bool(background))];
    proof {
        reveal_with_fuel(json_members_view, 2);
        assert(json_members_view(members@) =~= seq![("background"@, JsonView::Bool(background))]);
    }
    Ok(("controller.start".to_owned(), JsonValue::Object(members)))
}

fn release(tail: &[String], action: &str) -> (result: Result<(String, JsonValue), String>)
    ensures
        outcome_matches(result, release_spec(string_texts(tail@), action@)),
{
    match plain(tail, "release promote|show|status", 1) {
        Ok(p) => {
            assert(string_texts(p@)[0] == p@[0]@);
            match validate_development_id(p[0].as_str(), "release-manifest-id") {
                Ok(()) => {},
                Err(e) => return Err(e),
            }
            let members: Vec<JsonMember> = vec![mk("release_manifest_id", str_value(p[0].as_str()))];
            proof {
                reveal_with_fuel(json_members_view, 2);
                assert(json_members_view(members@) =~= seq![("release_manifest_id"@, JsonView::Str(string_texts(p@)[0]))]);
            }
            Ok((concat_str("release.", action), JsonValue::Object(members)))
        },
        Err(e) => Err(e),
    }
}

fn retention_apply(tail: &[String]) -> (result: Result<(String, JsonValue), String>)
    ensures
        outcome_matches(result, retention_apply_spec(string_texts(tail@))),
{
    let vo: Vec<&str> = vec!["--approve"];
    let fo: Vec<&str> = vec![];
    assert(crate::cli::texts(vo@) =~= seq!["--approve"@]);
    assert(crate::cli::texts(fo@) =~= Seq::<Seq<char>>::empty());
    let (positionals, options) = match parse_tail(tail, vo.as_slice(), fo.as_slice()) {
        Ok(r) => r,
        Err(e) => return Err(e),
    };
    match require_positionals(positionals.as_slice(), 0, "management retention apply") {
        Ok(()) => {},
        Err(e) => return Err(e),
    }
    let approval = match required_option(&options, "--approve") {
        Ok(a) => a,
        Err(e) => return Err(e),
    };
    if !is_sha256_digest(approval.as_str()) {
        return Err("--approve must be the exact retention plan sha256".to_owned());
    }
    let members: Vec<JsonMember> = vec![mk("approved_plan_fingerprint", str_value(approval.as_str()))];
    proof {
        reveal_with_fuel(json_members_view, 2);
        assert(json_members_view(members@) =~= seq![("approved_plan_fingerprint"@, JsonView::Str(approval@))]);
    }
    Ok(("management.retention.apply".to_owned(), JsonValue::Object(members)))
}

fn is_run_char_exec(c: char) -> (result: bool)
    ensures
        result == is_run_char(c),
{
    ('a' <= c && c <= 'z') || ('A' <= c && c <= 'Z') || ('0' <= c && c <= '9') || c == '.' || c == '_' || c == '-'
}

fn evidence_ref_ok(r: &str) -> (result: bool)
    ensures
        result == is_evidence_ref(r@),
{
    let chars = chars_of(r);
    let prefix = chars_of("target/validation/");
    let suffix = chars_of("/report.json");
    proof {
        reveal_strlit("target/validation/");
        reveal_strlit("/report.json");
    }
    let p = prefix.len();
    let q = suffix.len();
    assert(p == 18 && q == 12);
    if chars.len() <= p + q {
        proof {
            if is_evidence_ref(r@) {
                let run = choose|run: Seq<char>| #![trigger "target/validation/"@ + run]
                    run.len() > 0 && (forall|i: int| 0 <= i < run.len() ==> is_run_char(#[trigger] run[i]))
                    && r@ == "target/validation/"@ + run + "/report.json"@;
                assert(r@.len() == 18 + run.len() + 12);
            }
        }
        return false;
    }
    let n = chars.len();
    let mut ok = true;
    let mut i: usize = 0;
    while i < p
        invariant
            i <= p,
            p == prefix@.len(),
            n == chars@.len(),
            p + q < n,
            ok == (forall|k: int| 0 <= k < i ==> chars@[k] == prefix@[k]),
        decreases p - i,
    {
        if chars[i] != prefix[i] {
            ok = false;
        }
        i = i + 1;
    }
    let mut j: usize = 0;
    while j < q
        invariant
            j <= q,
            q == suffix@.len(),
            n == chars@.len(),
            p + q < n,
            ok == ((forall|k: int| 0 <= k < p ==> chars@[k] == prefix@[k])
                && (forall|k: int| 0 <= k < j ==> chars@[n - q + k] == suffix@[k])),
        decreases q - j,
    {
        if chars[n - q + j] != suffix[j] {
            ok = false;
        }
        j = j + 1;
    }
    let mut m: usize = p;
    while m < n - q
        invariant
            p <= m <= n - q,
            n == chars@.len(),
            p + q < n,
            ok == ((forall|k: int| 0 <= k < p ==> chars@[k] == prefix@[k])
                && (forall|k: int| 0 <= k < q ==> chars@[n - q + k] == suffix@[k])
                && (forall|k: int| p <= k < m ==> is_run_char(#[trigger] chars@[k]))),
        decreases n - q - m,
    {
        if !is_run_char_exec(chars[m]) {
            ok = false;
        }
        m = m + 1;
    }
    proof {
        let run = chars@.subrange(p as int, n - q);
        if ok {
            assert(r@ =~= "target/validation/"@ + run + "/report.json"@);
            assert forall|i: int| 0 <= i < run.len() implies is_run_char(#[trigger] run[i]) by {
                assert(run[i] == chars@[p + i]);
            }
            assert(is_evidence_ref(r@));
        } else if is_evidence_ref(r@) {
            let w = choose|w: Seq<char>| #![trigger "target/validation/"@ + w]
                w.len() > 0 && (forall|i: int| 0 <= i < w.len() ==> is_run_char(#[trigger] w[i]))
                && r@ == "target/validation/"@ + w + "/report.json"@;
            assert(w.len() == n - p - q);
            assert forall|k: int| 0 <= k < p implies chars@[k] == prefix@[k] by {
                assert(chars@[k] == ("target/validation/"@ + w + "/report.json"@)[k]);
            }
            assert forall|k: int| 0 <= k < q implies chars@[n - q + k] == suffix@[k] by {
                assert(chars@[n - q + k] == ("target/validation/"@ + w + "/report.json"@)[n - q + k]);
            }
            assert forall|k: int| p <= k < n - q implies is_run_char(#[trigger] chars@[k]) by {
                assert(chars@[k] == ("target/validation/"@ + w + "/report.json"@)[k]);
                assert(chars@[k] == w[k - p]);
            }
            assert(false);
        }
    }
    ok
}

fn evidence_get(tail: &[String]) -> (result: Result<(String, JsonValue), String>)
    ensures
        outcome_matches(result, evidence_get_spec(string_texts(tail@))),
{
    match plain(tail, "evidence get", 2) {
        Ok(p) => {
            assert(string_texts(p@)[0] == p@[0]@);
            assert(string_texts(p@)[1] == p@[1]@);
            if !evidence_ref_ok(p[1].as_str()) {
                return Err("evidence-ref must be target/validation/<run>/report.json".to_owned());
            }
            let members: Vec<JsonMember> = vec![
                mk("evidence_ref", str_value(p[1].as_str())),
                mk("project_key", str_value(p[0].as_str())),
            ];
            proof {
                reveal_with_fuel(json_members_view, 3);
                assert(json_members_view(members@) =~= seq![
                    ("evidence_ref"@, JsonView::Str(string_texts(p@)[1])),
                    ("project_key"@, JsonView::Str(string_texts(p@)[0])),
                ]);
            }
            Ok(("evidence.get".to_owned(), JsonValue::Object(members)))
        },
        Err(e) => Err(e),
    }
}

fn tools_trust(tail: &[String]) -> (result: Result<(String, JsonValue), String>)
    ensures
        outcome_matches(result, tools_trust_spec(string_texts(tail@))),
{
    let vo: Vec<&str> = vec!["--manifest-hash", "--expires"];
    let fo: Vec<&str> = vec![];
    assert(crate::cli::texts(vo@) =~= seq!["--manifest-hash"@, "--expires"@]);
    assert(crate::cli::texts(fo@) =~= Seq::<Seq<char>>::empty());
    let (positionals, options) = match parse_tail(tail, vo.as_slice(), fo.as_slice()) {
        Ok(r) => r,
        Err(e) => return Err(e),
    };
    match require_positionals(positionals.as_slice(), 1, "tools trust") {
        Ok(()) => {},
        Err(e) => return Err(e),
    }
    assert(string_texts(positionals@)[0] == positionals@[0]@);
    let hash = match required_option(&options, "--manifest-hash") {
        Ok(h) => h,
        Err(e) => return Err(e),
    };
    if !is_sha256_digest(hash.as_str()) {
        return Err("--manifest-hash must be a lowercase sha256 value".to_owned());
    }
    let expires = option_text(&options, "--expires");
    if let Some(e) = &expires {
        if !parses_as_rfc3339(e.as_str()) {
            return Err("--expires must be an RFC 3339 timestamp".to_owned());
        }
    }
    let expires_value = match &expires {
        Some(e) => str_value(e.as_str()),
        None => JsonValue::Null,
    };
    let members: Vec<JsonMember> = vec![
        mk("expires", expires_value),
        mk("manifest_hash", str_value(hash.as_str())),
        mk("package_id", str_value(positionals[0].as_str())),
    ];
    proof {
        reveal_with_fuel(json_members_view, 4);
        assert(json_members_view(members@) =~= seq![
            ("expires"@, text_or_null(crate::cli::opt_text(expires))),
            ("manifest_hash"@, JsonView::Str(hash@)),
            ("package_id"@, JsonView::Str(string_texts(positionals@)[0])),
        ]);
    }
    Ok(("tool.trust".to_owned(), JsonValue::Object(members)))
}

#[verifier::loop_isolation(false)]
fn profile_resolve(tail: &[String]) -> (result: Result<(String, JsonValue), String>)
    ensures
        outcome_matches(result, profile_resolve_spec(string_texts(tail@))),
{
    let none: Vec<&str> = vec![];
    assert(crate::cli::texts(none@) =~= Seq::<Seq<char>>::empty());
    let (positionals, _options) = match parse_tail(tail, none.as_slice(), none.as_slice()) {
        Ok(r) => r,
        Err(e) => return Err(e),
    };
    let ghost p = string_texts(positionals@);
    assert(parse_tail_spec(string_texts(tail@), seq![], seq![])
        == Ok::<(Seq<Seq<char>>, Map<Seq<char>, Option<Seq<char>>>), Seq<char>>((p, _options.map())));
    let n = positionals.len();
    if n == 0 || n > 16 {
        return Err("profile resolve requires 1 through 16 profile IDs".to_owned());
    }
    let mut i: usize = 0;
    while i < n
        invariant
            i <= n,
            n == positionals@.len(),
            p == string_texts(positionals@),
            forall|k: int| 0 <= k < i ==> is_profile_id(#[trigger] p[k]),
        decreases n - i,
    {
        assert(p[i as int] == positionals@[i as int]@);
        match validate_profile_id(positionals[i].as_str()) {
            Ok(()) => {},
            Err(e) => {
                proof {
                    assert(!is_profile_id(p[i as int]));
                }
                return Err(e);
            },
        }
        i = i + 1;
    }
    let mut a: usize = 0;
    while a < n
        invariant
            a <= n,
            n == positionals@.len(),
            p == string_texts(positionals@),
            forall|k: int| 0 <= k < n ==> is_profile_id(#[trigger] p[k]),
            forall|x: int, y: int| 0 <= x < a && 0 <= y < n && x != y ==> p[x] != p[y],
        decreases n - a,
    {
        let mut b: usize = 0;
        while b < n
            invariant
                a < n,
                b <= n,
                n == positionals@.len(),
                p == string_texts(positionals@),
                forall|k: int| 0 <= k < n ==> is_profile_id(#[trigger] p[k]),
                forall|x: int, y: int| 0 <= x < a && 0 <= y < n && x != y ==> p[x] != p[y],
                forall|y: int| 0 <= y < b && y != a ==> p[a as int] != p[y],
            decreases n - b,
        {
            assert(p[a as int] == positionals@[a as int]@);
            assert(p[b as int] == positionals@[b as int]@);
            if a != b && str_eq(positionals[a].as_str(), positionals[b].as_str()) {
                proof {
                    assert(!p.no_duplicates());
                }
                return Err("profile resolve does not accept duplicate profile IDs".to_owned());
            }
            b = b + 1;
        }
        a = a + 1;
    }
    assert(p.no_duplicates());
    let items = strings_json_items(&positionals);
    assert(string_texts(positionals@) =~= crate::shell::strings_view(positionals@));
    let members: Vec<JsonMember> = vec![mk("profile_ids", JsonValue::Array(items))];
    proof {
        reveal_with_fuel(json_members_view, 2);
        assert(json_members_view(members@) =~= seq![("profile_ids"@, JsonView::Array(strings_json(p)))]);
    }
    Ok(("profile.resolve".to_owned(), JsonValue::Object(members)))
}

fn record_show(tail: &[String]) -> (result: Result<(String, JsonValue), String>)
    ensures
        outcome_matches(result, record_show_spec(string_texts(tail@))),
{
    let vo: Vec<&str> = vec!["--revision"];
    let fo: Vec<&str> = vec![];
    assert(crate::cli::texts(vo@) =~= seq!["--revision"@]);
    assert(crate::cli::texts(fo@) =~= Seq::<Seq<char>>::empty());
    let (positionals, options) = match parse_tail(tail, vo.as_slice(), fo.as_slice()) {
        Ok(r) => r,
        Err(e) => return Err(e),
    };
    match require_positionals(positionals.as_slice(), 2, "development record show") {
        Ok(()) => {},
        Err(e) => return Err(e),
    }
    assert(string_texts(positionals@)[0] == positionals@[0]@);
    assert(string_texts(positionals@)[1] == positionals@[1]@);
    match validate_development_id(positionals[0].as_str(), "record-kind") {
        Ok(()) => {},
        Err(e) => return Err(e),
    }
    match validate_development_id(positionals[1].as_str(), "record-id") {
        Ok(()) => {},
        Err(e) => return Err(e),
    }
    let revision = match option_text(&options, "--revision") {
        None => JsonValue::Null,
        Some(v) => match parse_positive_revision(v.as_str()) {
            Ok(n) => JsonValue::Number(crate::cli::decimal_string(n)),
            Err(e) => return Err(e),
        },
    };
    let members: Vec<JsonMember> = vec![
        mk("record_id", str_value(positionals[1].as_str())),
        mk("record_kind", str_value(positionals[0].as_str())),
        mk("revision", revision),
    ];
    proof {
        reveal_with_fuel(json_members_view, 4);
        assert(json_members_view(members@) =~= seq![
            ("record_id"@, JsonView::Str(string_texts(positionals@)[1])),
            ("record_kind"@, JsonView::Str(string_texts(positionals@)[0])),
            ("revision"@, json_view(revision)),
        ]);
    }
    Ok(("development.record.show".to_owned(), JsonValue::Object(members)))
}

fn is_unit_ok(u: &str) -> (result: bool)
    ensures
        result == is_unit_id(u@),
{
    let chars = chars_of(u);
    if chars.len() == 0 || chars.len() > 128 {
        return false;
    }
    let mut i: usize = 0;
    while i < chars.len()
        invariant
            i <= chars@.len(),
            chars@ == u@,
            forall|k: int| 0 <= k < i ==> is_run_char(#[trigger] chars@[k]),
        decreases chars@.len() - i,
    {
        if !is_run_char_exec(chars[i]) {
            return false;
        }
        i = i + 1;
    }
    true
}

fn push_member(members: &mut Vec<JsonMember>, key: &str, value: JsonValue)
    ensures
        json_members_view(final(members)@) == json_members_view(old(members)@).push((key@, value@)),
{
    let ghost before = members@;
    members.push(mk(key, value));
    assert(members@.drop_last() =~= before);
}

#[verifier::loop_isolation(false)]
fn validation(tail: &[String], run: bool) -> (result: Result<(String, JsonValue), String>)
    ensures
        outcome_matches(result, validation_spec(string_texts(tail@), run)),
{
    let vo: Vec<&str> = if run { vec!["--profile", "--unit", "--timeout-ms"] } else { vec!["--profile", "--unit"] };
    let fo: Vec<&str> = vec![];
    assert(crate::cli::texts(vo@) =~= (if run { seq!["--profile"@, "--unit"@, "--timeout-ms"@] } else { seq!["--profile"@, "--unit"@] }));
    assert(crate::cli::texts(fo@) =~= Seq::<Seq<char>>::empty());
    let (positionals, options) = match parse_tail(tail, vo.as_slice(), fo.as_slice()) {
        Ok(r) => r,
        Err(e) => return Err(e),
    };
    let name = if run { "validation run" } else { "validation plan" };
    match require_positionals(positionals.as_slice(), 1, name) {
        Ok(()) => {},
        Err(e) => return Err(e),
    }
    assert(string_texts(positionals@)[0] == positionals@[0]@);
    let profile = option_text(&options, "--profile");
    let unit = option_text(&options, "--unit");
    let timeout = if run { option_text(&options, "--timeout-ms") } else { None };
    if let Some(v) = &profile {
        if !(str_eq(v.as_str(), "quick") || str_eq(v.as_str(), "target") || str_eq(v.as_str(), "full")
            || str_eq(v.as_str(), "release")) {
            return Err("--profile must be quick, target, full, or release".to_owned());
        }
    }
    if let Some(u) = &unit {
        if !is_unit_ok(u.as_str()) {
            return Err("--unit contains an invalid unit identifier".to_owned());
        }
    }
    let mut timeout_ms: Option<u64> = None;
    if let Some(t) = &timeout {
        match crate::cli::parse_u64(t.as_str()) {
            None => return Err("--timeout-ms must be an integer".to_owned()),
            Some(n) => {
                if !(1000 <= n && n <= 3600000) {
                    return Err("--timeout-ms must be between 1000 and 3600000".to_owned());
                }
                timeout_ms = Some(n);
            },
        }
    }
    let mut members: Vec<JsonMember> = Vec::new();
    assert(json_members_view(members@) =~= Seq::<(Seq<char>, JsonView)>::empty());
    push_member(&mut members, "project_key", str_value(positionals[0].as_str()));
    let ghost m0 = json_members_view(members@);
    if let Some(v) = &profile {
        push_member(&mut members, "requested_profile", str_value(v.as_str()));
    }
    let ghost m1 = json_members_view(members@);
    if let Some(n) = timeout_ms {
        push_member(&mut members, "timeout_ms", JsonValue::Number(crate::cli::decimal_string(n)));
    }
    let ghost m2 = json_members_view(members@);
    if let Some(u) = &unit {
        push_member(&mut members, "unit", str_value(u.as_str()));
    }
    proof {
        let o = options.map();
        let p = string_texts(positionals@);
        assert(option_value(o, "--profile"@) == crate::cli::opt_text(profile));
        assert(option_value(o, "--unit"@) == crate::cli::opt_text(unit));
        let tv = if run { option_value(o, "--timeout-ms"@) } else { None };
        assert(tv == crate::cli::opt_text(timeout));
        let timeout_value = match tv {
            Some(t) => Some(JsonView::Number(decimal(u64_text(t)->0))),
            None => None,
        };
        assert(m0 =~= seq![("project_key"@, JsonView::Str(p[0]))]);
        assert(m1 =~= m0 + opt_member("requested_profile"@, opt_str(option_value(o, "--profile"@))));
        assert(m2 =~= m1 + opt_member("timeout_ms"@, timeout_value));
        assert(json_members_view(members@) =~= m2 + opt_member("unit"@, opt_str(option_value(o, "--unit"@))));
        match validation_spec(string_texts(tail@), run) {
            Ok((c, pv)) => {
                assert(pv->Object_0 =~= json_members_view(members@));
            },
            Err(_) => {},
        }
    }
    let command = if run { "validation.run".to_owned() } else { "validation.plan".to_owned() };
    Ok((command, JsonValue::Object(members)))
}

fn original_forms_exec_0(w: &Vec<String>) -> (result: bool)
    ensures
        result == original_forms_0(string_texts(w@)),
{
    let ghost t = string_texts(w@);
    assert(w@.len() >= 1 ==> t[0] == w@[0]@);
    assert(w@.len() >= 2 ==> t[1] == w@[1]@);
    assert(w@.len() >= 3 ==> t[2] == w@[2]@);
    assert(w@.len() >= 4 ==> t[3] == w@[3]@);
    (w.len() >= 2 && word_is(w, 0, "tools") && word_is(w, 1, "call"))
        || (w.len() >= 2 && word_is(w, 0, "approvals") && word_is(w, 1, "resolve"))
        || (w.len() >= 2 && word_is(w, 0, "operations") && word_is(w, 1, "get"))
        || (w.len() >= 2 && word_is(w, 0, "operations") && word_is(w, 1, "cancel"))
        || (w.len() >= 2 && word_is(w, 0, "tools") && word_is(w, 1, "list"))
        || (w.len() >= 2 && word_is(w, 0, "tools") && word_is(w, 1, "describe"))
        || (w.len() >= 2 && word_is(w, 0, "tools") && word_is(w, 1, "status"))
        || (w.len() >= 2 && word_is(w, 0, "tools") && word_is(w, 1, "validate"))
        || (w.len() >= 2 && word_is(w, 0, "tools") && word_is(w, 1, "probe"))
        || (w.len() >= 2 && word_is(w, 0, "tools") && word_is(w, 1, "trust"))
        || (w.len() >= 2 && word_is(w, 0, "tools") && word_is(w, 1, "revoke"))
        || (w.len() >= 2 && word_is(w, 0, "tools") && word_is(w, 1, "scaffold"))
        || (w.len() >= 1 && word_is(w, 0, "doctor"))
        || (w.len() >= 2 && word_is(w, 0, "project") && word_is(w, 1, "register"))
        || (w.len() >= 2 && word_is(w, 0, "project") && word_is(w, 1, "list"))
        || (w.len() >= 2 && word_is(w, 0, "project") && word_is(w, 1, "discover"))
        || (w.len() >= 3 && word_is(w, 0, "project") && word_is(w, 1, "checkout") && word_is(w, 2, "attach"))
        || (w.len() >= 3 && word_is(w, 0, "project") && word_is(w, 1, "checkout") && word_is(w, 2, "list"))
        || (w.len() >= 3 && word_is(w, 0, "project") && word_is(w, 1, "checkout") && word_is(w, 2, "show"))
        || (w.len() >= 2 && word_is(w, 0, "project") && word_is(w, 1, "status"))
        || (w.len() >= 2 && word_is(w, 0, "planning") && word_is(w, 1, "create"))
        || (w.len() >= 2 && word_is(w, 0, "planning") && (word_is(w, 1, "get") || word_is(w, 1, "show")))
        || (w.len() >= 2 && word_is(w, 0, "planning") && (word_is(w, 1, "status") || word_is(w, 1, "history")))
        || (w.len() >= 3 && word_is(w, 0, "planning") && word_is(w, 1, "scope") && word_is(w, 2, "revise"))
        || (w.len() >= 3 && word_is(w, 0, "planning") && word_is(w, 1, "impact") && word_is(w, 2, "inspect"))
}

fn original_forms_exec_1(w: &Vec<String>) -> (result: bool)
    ensures
        result == original_forms_1(string_texts(w@)),
{
    let ghost t = string_texts(w@);
    assert(w@.len() >= 1 ==> t[0] == w@[0]@);
    assert(w@.len() >= 2 ==> t[1] == w@[1]@);
    assert(w@.len() >= 3 ==> t[2] == w@[2]@);
    assert(w@.len() >= 4 ==> t[3] == w@[3]@);
    (w.len() >= 3 && word_is(w, 0, "planning") && word_is(w, 1, "affected-checks") && word_is(w, 2, "show"))
        || (w.len() >= 2 && word_is(w, 0, "planning") && (word_is(w, 1, "override") || word_is(w, 1, "waiver")))
        || (w.len() >= 2 && word_is(w, 0, "planning") && (word_is(w, 1, "invalidate") || word_is(w, 1, "replan")))
        || (w.len() >= 2 && word_is(w, 0, "validation") && (word_is(w, 1, "preflight") || word_is(w, 1, "run-plan")))
        || (w.len() >= 2 && word_is(w, 0, "validation") && word_is(w, 1, "status"))
        || (w.len() >= 2 && word_is(w, 0, "diagnostic") && (word_is(w, 1, "list") || word_is(w, 1, "show")))
        || (w.len() >= 2 && (word_is(w, 0, "baseline") || word_is(w, 0, "suppression")) && word_is(w, 1, "inspect"))
        || (w.len() >= 2 && word_is(w, 0, "gate") && word_is(w, 1, "show"))
        || (w.len() >= 3 && word_is(w, 0, "evidence") && word_is(w, 1, "bundle") && word_is(w, 2, "export"))
        || (w.len() >= 2 && word_is(w, 0, "review-pack") && word_is(w, 1, "export"))
        || (w.len() >= 2 && word_is(w, 0, "validation") && word_is(w, 1, "plan"))
        || (w.len() >= 2 && word_is(w, 0, "validation") && word_is(w, 1, "run"))
        || (w.len() >= 2 && word_is(w, 0, "evidence") && word_is(w, 1, "get"))
        || (w.len() >= 2 && word_is(w, 0, "scan") && word_is(w, 1, "run"))
        || (w.len() >= 2 && word_is(w, 0, "index") && word_is(w, 1, "status"))
        || (w.len() >= 2 && word_is(w, 0, "index") && word_is(w, 1, "files"))
        || (w.len() >= 2 && word_is(w, 0, "index") && word_is(w, 1, "search"))
        || (w.len() >= 2 && word_is(w, 0, "index") && word_is(w, 1, "definitions"))
        || (w.len() >= 2 && word_is(w, 0, "index") && word_is(w, 1, "references"))
        || (w.len() >= 2 && word_is(w, 0, "index") && word_is(w, 1, "hardcoding"))
        || (w.len() >= 2 && word_is(w, 0, "registry") && (word_is(w, 1, "list") || word_is(w, 1, "status")))
        || (w.len() >= 2 && word_is(w, 0, "registry") && word_is(w, 1, "show"))
        || (w.len() >= 3 && word_is(w, 0, "registry") && word_is(w, 1, "candidate") && word_is(w, 2, "inspect"))
        || (w.len() >= 3 && word_is(w, 0, "registry") && word_is(w, 1, "candidate") && word_is(w, 2, "classify"))
        || (w.len() >= 3 && word_is(w, 0, "registry") && word_is(w, 1, "declaration") && word_is(w, 2, "plan"))
}

fn original_forms_exec_2(w: &Vec<String>) -> (result: bool)
    ensures
        result == original_forms_2(string_texts(w@)),
{
    let ghost t = string_texts(w@);
    assert(w@.len() >= 1 ==> t[0] == w@[0]@);
    assert(w@.len() >= 2 ==> t[1] == w@[1]@);
    assert(w@.len() >= 3 ==> t[2] == w@[2]@);
    assert(w@.len() >= 4 ==> t[3] == w@[3]@);
    (w.len() >= 2 && word_is(w, 0, "contract") && word_is(w, 1, "snapshot"))
        || (w.len() >= 2 && word_is(w, 0, "contract") && word_is(w, 1, "compare"))
        || (w.len() >= 2 && word_is(w, 0, "docs") && word_is(w, 1, "check"))
        || (w.len() >= 2 && word_is(w, 0, "config") && word_is(w, 1, "trace"))
        || (w.len() >= 2 && word_is(w, 0, "environment") && word_is(w, 1, "fingerprint"))
        || (w.len() >= 2 && word_is(w, 0, "project") && word_is(w, 1, "doctor"))
        || (w.len() >= 3 && word_is(w, 0, "clean-room") && word_is(w, 1, "specification") && word_is(w, 2, "publish"))
        || (w.len() >= 2 && word_is(w, 0, "clean-room") && word_is(w, 1, "readiness"))
        || (w.len() >= 2 && word_is(w, 0, "dependency-security") && word_is(w, 1, "input"))
        || (w.len() >= 3 && word_is(w, 0, "development") && word_is(w, 1, "effect") && word_is(w, 2, "record"))
        || (w.len() >= 3 && word_is(w, 0, "development") && word_is(w, 1, "record") && word_is(w, 2, "show"))
        || (w.len() >= 3 && word_is(w, 0, "development") && word_is(w, 1, "record") && word_is(w, 2, "list"))
        || (w.len() >= 2 && word_is(w, 0, "failures") && word_is(w, 1, "inspect"))
        || (w.len() >= 2 && word_is(w, 0, "failures") && word_is(w, 1, "reproduce"))
        || (w.len() >= 2 && word_is(w, 0, "failures") && word_is(w, 1, "compare"))
        || (w.len() >= 2 && word_is(w, 0, "failures") && word_is(w, 1, "recovery-plan"))
        || (w.len() >= 2 && word_is(w, 0, "security") && word_is(w, 1, "inspect"))
        || (w.len() >= 2 && word_is(w, 0, "security") && word_is(w, 1, "release-manifest"))
        || (w.len() >= 2 && word_is(w, 0, "deps") && word_is(w, 1, "scan"))
        || (w.len() >= 2 && word_is(w, 0, "deps") && (word_is(w, 1, "candidates") || word_is(w, 1, "prepare")))
        || (w.len() >= 2 && word_is(w, 0, "deps") && word_is(w, 1, "status"))
        || (w.len() >= 2 && word_is(w, 0, "deps") && word_is(w, 1, "rollback-plan"))
        || (w.len() >= 2 && word_is(w, 0, "maintenance") && word_is(w, 1, "radar"))
        || (w.len() >= 2 && word_is(w, 0, "migration") && word_is(w, 1, "inspect"))
        || (w.len() >= 2 && word_is(w, 0, "migration") && word_is(w, 1, "plan"))
}

fn original_forms_exec_3(w: &Vec<String>) -> (result: bool)
    ensures
        result == original_forms_3(string_texts(w@)),
{
    let ghost t = string_texts(w@);
    assert(w@.len() >= 1 ==> t[0] == w@[0]@);
    assert(w@.len() >= 2 ==> t[1] == w@[1]@);
    assert(w@.len() >= 3 ==> t[2] == w@[2]@);
    assert(w@.len() >= 4 ==> t[3] == w@[3]@);
    (w.len() >= 2 && word_is(w, 0, "migration") && word_is(w, 1, "checkpoint"))
        || (w.len() >= 2 && word_is(w, 0, "migration") && (word_is(w, 1, "dry-run") || word_is(w, 1, "backup") || word_is(w, 1, "rehearse") || word_is(w, 1, "execute") || word_is(w, 1, "resume") || word_is(w, 1, "validate") || word_is(w, 1, "rollback")))
        || (w.len() >= 2 && word_is(w, 0, "migration") && word_is(w, 1, "validation-report"))
        || (w.len() >= 2 && word_is(w, 0, "migration") && word_is(w, 1, "restore-verify"))
        || (w.len() >= 2 && word_is(w, 0, "migration") && word_is(w, 1, "status"))
        || (w.len() >= 2 && word_is(w, 0, "migration") && word_is(w, 1, "handoff"))
        || (w.len() >= 2 && word_is(w, 0, "performance") && word_is(w, 1, "plan"))
        || (w.len() >= 2 && word_is(w, 0, "performance") && word_is(w, 1, "run"))
        || (w.len() >= 2 && word_is(w, 0, "performance") && word_is(w, 1, "compare"))
        || (w.len() >= 2 && word_is(w, 0, "language-migration") && word_is(w, 1, "plan"))
        || (w.len() >= 2 && word_is(w, 0, "language-migration") && word_is(w, 1, "equivalence"))
        || (w.len() >= 2 && word_is(w, 0, "language-migration") && word_is(w, 1, "cutover"))
        || (w.len() >= 2 && word_is(w, 0, "language-migration") && word_is(w, 1, "status"))
        || (w.len() >= 3 && word_is(w, 0, "change-bundle") && word_is(w, 1, "goal") && word_is(w, 2, "publish"))
        || (w.len() >= 3 && word_is(w, 0, "change-bundle") && word_is(w, 1, "participant") && word_is(w, 2, "publish"))
        || (w.len() >= 2 && word_is(w, 0, "change-bundle") && (word_is(w, 1, "plan") || word_is(w, 1, "hold") || word_is(w, 1, "resume")))
        || (w.len() >= 2 && word_is(w, 0, "change-bundle") && (word_is(w, 1, "show") || word_is(w, 1, "status") || word_is(w, 1, "conflicts")))
        || (w.len() >= 2 && word_is(w, 0, "change-bundle") && word_is(w, 1, "preflight"))
        || (w.len() >= 3 && word_is(w, 0, "change-bundle") && word_is(w, 1, "worktree") && word_is(w, 2, "plan"))
        || (w.len() >= 2 && word_is(w, 0, "change-bundle") && word_is(w, 1, "apply"))
        || (w.len() >= 2 && word_is(w, 0, "change-bundle") && word_is(w, 1, "validate"))
        || (w.len() >= 3 && word_is(w, 0, "change-bundle") && word_is(w, 1, "worktree") && word_is(w, 2, "create"))
        || (w.len() >= 3 && word_is(w, 0, "change-bundle") && word_is(w, 1, "merge") && word_is(w, 2, "plan"))
        || (w.len() >= 3 && word_is(w, 0, "change-bundle") && word_is(w, 1, "merge") && word_is(w, 2, "enqueue"))
        || (w.len() >= 3 && word_is(w, 0, "change-bundle") && word_is(w, 1, "merge") && word_is(w, 2, "run"))
}

fn original_forms_exec_4(w: &Vec<String>) -> (result: bool)
    ensures
        result == original_forms_4(string_texts(w@)),
{
    let ghost t = string_texts(w@);
    assert(w@.len() >= 1 ==> t[0] == w@[0]@);
    assert(w@.len() >= 2 ==> t[1] == w@[1]@);
    assert(w@.len() >= 3 ==> t[2] == w@[2]@);
    assert(w@.len() >= 4 ==> t[3] == w@[3]@);
    (w.len() >= 3 && word_is(w, 0, "change-bundle") && word_is(w, 1, "merge") && word_is(w, 2, "result"))
        || (w.len() >= 3 && word_is(w, 0, "change-bundle") && word_is(w, 1, "conflict") && word_is(w, 2, "publish"))
        || (w.len() >= 3 && word_is(w, 0, "change-bundle") && word_is(w, 1, "remote") && word_is(w, 2, "refresh"))
        || (w.len() >= 4 && word_is(w, 0, "change-bundle") && word_is(w, 1, "remote") && word_is(w, 2, "operation") && (word_is(w, 3, "prepare") || word_is(w, 3, "observe")))
        || (w.len() >= 4 && word_is(w, 0, "change-bundle") && word_is(w, 1, "remote") && word_is(w, 2, "operation") && word_is(w, 3, "apply"))
        || (w.len() >= 3 && word_is(w, 0, "change-bundle") && word_is(w, 1, "release-handoff") && word_is(w, 2, "plan"))
        || (w.len() >= 3 && word_is(w, 0, "change-bundle") && word_is(w, 1, "recovery") && word_is(w, 2, "plan"))
        || (w.len() >= 3 && word_is(w, 0, "change-bundle") && word_is(w, 1, "recovery") && word_is(w, 2, "apply"))
        || (w.len() >= 3 && word_is(w, 0, "release") && word_is(w, 1, "candidate") && word_is(w, 2, "create"))
        || (w.len() >= 3 && word_is(w, 0, "release") && word_is(w, 1, "artifacts") && word_is(w, 2, "verify"))
        || (w.len() >= 3 && word_is(w, 0, "release") && word_is(w, 1, "verification") && word_is(w, 2, "record"))
        || (w.len() >= 2 && word_is(w, 0, "release") && (word_is(w, 1, "promote") || word_is(w, 1, "show") || word_is(w, 1, "status")))
        || (w.len() >= 3 && word_is(w, 0, "release") && word_is(w, 1, "lifecycle") && word_is(w, 2, "publish"))
        || (w.len() >= 3 && word_is(w, 0, "release") && word_is(w, 1, "publish") && (word_is(w, 2, "prepare") || word_is(w, 2, "authorize") || word_is(w, 2, "apply")))
        || (w.len() >= 2 && word_is(w, 0, "evaluation") && word_is(w, 1, "run"))
        || (w.len() >= 2 && word_is(w, 0, "evaluation") && word_is(w, 1, "show"))
        || (w.len() >= 3 && word_is(w, 0, "evaluation") && word_is(w, 1, "catalog") && word_is(w, 2, "publish"))
        || (w.len() >= 3 && word_is(w, 0, "evaluation") && word_is(w, 1, "catalog") && word_is(w, 2, "transition"))
        || (w.len() >= 2 && word_is(w, 0, "profile") && word_is(w, 1, "list"))
        || (w.len() >= 2 && word_is(w, 0, "profile") && word_is(w, 1, "show"))
        || (w.len() >= 2 && word_is(w, 0, "profile") && word_is(w, 1, "resolve"))
        || (w.len() >= 2 && word_is(w, 0, "graph") && word_is(w, 1, "neighbors"))
        || (w.len() >= 2 && word_is(w, 0, "finding") && word_is(w, 1, "list"))
        || (w.len() >= 3 && word_is(w, 0, "style") && word_is(w, 1, "rust") && word_is(w, 2, "inspect"))
        || (w.len() >= 3 && word_is(w, 0, "style") && word_is(w, 1, "rust") && (word_is(w, 2, "check") || word_is(w, 2, "prepare") || word_is(w, 2, "auto-apply")))
}

fn original_forms_exec_5(w: &Vec<String>) -> (result: bool)
    ensures
        result == original_forms_5(string_texts(w@)),
{
    let ghost t = string_texts(w@);
    assert(w@.len() >= 1 ==> t[0] == w@[0]@);
    assert(w@.len() >= 2 ==> t[1] == w@[1]@);
    assert(w@.len() >= 3 ==> t[2] == w@[2]@);
    assert(w@.len() >= 4 ==> t[3] == w@[3]@);
    (w.len() >= 2 && word_is(w, 0, "recipe") && word_is(w, 1, "list"))
        || (w.len() >= 2 && word_is(w, 0, "recipe") && word_is(w, 1, "describe"))
        || (w.len() >= 2 && word_is(w, 0, "recipe") && word_is(w, 1, "validate"))
        || (w.len() >= 2 && word_is(w, 0, "change") && word_is(w, 1, "prepare"))
        || (w.len() >= 2 && word_is(w, 0, "patch") && word_is(w, 1, "show"))
        || (w.len() >= 2 && word_is(w, 0, "patch") && word_is(w, 1, "status"))
        || (w.len() >= 2 && word_is(w, 0, "patch") && word_is(w, 1, "recover"))
        || (w.len() >= 2 && word_is(w, 0, "patch") && word_is(w, 1, "prepare"))
        || (w.len() >= 2 && word_is(w, 0, "patch") && word_is(w, 1, "apply"))
        || (w.len() >= 2 && word_is(w, 0, "management") && word_is(w, 1, "status"))
        || (w.len() >= 3 && word_is(w, 0, "management") && (word_is(w, 1, "backup") || word_is(w, 1, "restore")) && word_is(w, 2, "plan"))
        || (w.len() >= 3 && word_is(w, 0, "management") && (word_is(w, 1, "backup") || word_is(w, 1, "restore")) && word_is(w, 2, "apply"))
        || (w.len() >= 4 && word_is(w, 0, "management") && word_is(w, 1, "local-state") && (word_is(w, 2, "export") || word_is(w, 2, "import")) && word_is(w, 3, "plan"))
        || (w.len() >= 4 && word_is(w, 0, "management") && word_is(w, 1, "local-state") && (word_is(w, 2, "export") || word_is(w, 2, "import")) && word_is(w, 3, "apply"))
        || (w.len() >= 4 && word_is(w, 0, "management") && word_is(w, 1, "migrate") && word_is(w, 2, "project-v1-v2") && word_is(w, 3, "plan"))
        || (w.len() >= 4 && word_is(w, 0, "management") && word_is(w, 1, "migrate") && word_is(w, 2, "project-v1-v2") && (word_is(w, 3, "apply") || word_is(w, 3, "rollback")))
        || (w.len() >= 4 && word_is(w, 0, "management") && word_is(w, 1, "migrate") && word_is(w, 2, "patch-v1-v2") && word_is(w, 3, "plan"))
        || (w.len() >= 4 && word_is(w, 0, "management") && word_is(w, 1, "migrate") && word_is(w, 2, "patch-v1-v2") && (word_is(w, 3, "apply") || word_is(w, 3, "rollback")))
        || (w.len() >= 3 && word_is(w, 0, "management") && word_is(w, 1, "retention") && word_is(w, 2, "plan"))
        || (w.len() >= 3 && word_is(w, 0, "management") && word_is(w, 1, "retention") && word_is(w, 2, "apply"))
        || (w.len() >= 3 && word_is(w, 0, "management") && word_is(w, 1, "rebuild") && word_is(w, 2, "plan"))
        || (w.len() >= 3 && word_is(w, 0, "management") && word_is(w, 1, "rebuild") && word_is(w, 2, "apply"))
        || (w.len() >= 2 && word_is(w, 0, "controller") && word_is(w, 1, "start"))
        || (w.len() == 3 && word_is(w, 0, "controller") && word_is(w, 1, "autostart") && (word_is(w, 2, "enable") || word_is(w, 2, "disable") || word_is(w, 2, "status")))
}

fn is_cli_form_exec(w: &Vec<String>) -> (result: bool)
    ensures
        result == is_cli_form(string_texts(w@)),
{
    original_forms_exec_0(w) || original_forms_exec_1(w) || original_forms_exec_2(w) || original_forms_exec_3(w) || original_forms_exec_4(w) || original_forms_exec_5(w)
}

fn unread(w: &Vec<String>) -> (result: Option<Result<(String, JsonValue), String>>)
    ensures
        match unread_form(string_texts(w@)) {
            None => result is None,
            Some(r) => result matches Some(x) && outcome_matches(x, r),
        },
{
    if is_cli_form_exec(w) {
        None
    } else {
        Some(Err(CLI_HELP.to_owned()))
    }
}

fn tools_scaffold(tail: &[String], json: bool) -> (result: Result<(String, JsonValue), String>)
    ensures
        outcome_matches(result, tools_scaffold_spec(string_texts(tail@), json)),
{
    if json {
        return Err("tools scaffold does not support --json".to_owned());
    }
    let vo: Vec<&str> = vec!["--output"];
    let fo: Vec<&str> = vec![];
    assert(crate::cli::texts(vo@) =~= seq!["--output"@]);
    assert(crate::cli::texts(fo@) =~= Seq::<Seq<char>>::empty());
    let (positionals, options) = match parse_tail(tail, vo.as_slice(), fo.as_slice()) {
        Ok(r) => r,
        Err(e) => return Err(e),
    };
    match require_positionals(positionals.as_slice(), 1, "tools scaffold") {
        Ok(()) => {},
        Err(e) => return Err(e),
    }
    assert(string_texts(positionals@)[0] == positionals@[0]@);
    let output = match required_option(&options, "--output") {
        Ok(o) => o,
        Err(e) => return Err(e),
    };
    let members: Vec<JsonMember> = vec![
        mk("executable_path", str_value(positionals[0].as_str())),
        mk("output_path", str_value(output.as_str())),
    ];
    proof {
        reveal_with_fuel(json_members_view, 3);
        assert(json_members_view(members@) =~= seq![
            ("executable_path"@, JsonView::Str(string_texts(positionals@)[0])),
            ("output_path"@, JsonView::Str(output@)),
        ]);
    }
    Ok(("tool.scaffold".to_owned(), JsonValue::Object(members)))
}

fn tools_validate(tail: &[String]) -> (result: Result<(String, JsonValue), String>)
    ensures
        outcome_matches(result, tools_validate_spec(string_texts(tail@))),
{
    let vo: Vec<&str> = vec!["--source"];
    let fo: Vec<&str> = vec![];
    assert(crate::cli::texts(vo@) =~= seq!["--source"@]);
    assert(crate::cli::texts(fo@) =~= Seq::<Seq<char>>::empty());
    let (positionals, options) = match parse_tail(tail, vo.as_slice(), fo.as_slice()) {
        Ok(r) => r,
        Err(e) => return Err(e),
    };
    match require_positionals(positionals.as_slice(), 1, "tools validate") {
        Ok(()) => {},
        Err(e) => return Err(e),
    }
    assert(string_texts(positionals@)[0] == positionals@[0]@);
    let source = match required_option(&options, "--source") {
        Ok(v) => v,
        Err(e) => return Err(e),
    };
    if !(str_eq(source.as_str(), "user") || str_eq(source.as_str(), "project")) {
        return Err("validate --source must be user or project".to_owned());
    }
    let members: Vec<JsonMember> = vec![
        mk("manifest_path", str_value(positionals[0].as_str())),
        mk("source", str_value(source.as_str())),
    ];
    proof {
        reveal_with_fuel(json_members_view, 3);
        assert(json_members_view(members@) =~= seq![
            ("manifest_path"@, JsonView::Str(string_texts(positionals@)[0])),
            ("source"@, JsonView::Str(source@)),
        ]);
    }
    Ok(("tool.validate".to_owned(), JsonValue::Object(members)))
}

fn management_plan(tail: &[String], action: &str) -> (result: Result<(String, JsonValue), String>)
    ensures
        outcome_matches(result, management_plan_spec(string_texts(tail@), action@)),
{
    let head = concat_str("management ", action);
    let name = concat_str(head.as_str(), " plan");
    match plain(tail, name.as_str(), 1) {
        Ok(p) => {
            assert(string_texts(p@)[0] == p@[0]@);
            let members: Vec<JsonMember> = vec![mk("backup_root", str_value(p[0].as_str()))];
            proof {
                reveal_with_fuel(json_members_view, 2);
                assert(json_members_view(members@) =~= seq![("backup_root"@, JsonView::Str(string_texts(p@)[0]))]);
            }
            let command_head = concat_str("management.", action);
            Ok((concat_str(command_head.as_str(), ".plan"), JsonValue::Object(members)))
        },
        Err(e) => Err(e),
    }
}

fn change_bundle(tail: &[String], action: &str) -> (result: Result<(String, JsonValue), String>)
    ensures
        outcome_matches(result, change_bundle_spec(string_texts(tail@), action@)),
{
    match plain(tail, "change-bundle show|status|conflicts", 1) {
        Ok(p) => {
            assert(string_texts(p@)[0] == p@[0]@);
            match validate_development_id(p[0].as_str(), "bundle-id") {
                Ok(()) => {},
                Err(e) => return Err(e),
            }
            let members: Vec<JsonMember> = vec![mk("bundle_id", str_value(p[0].as_str()))];
            proof {
                reveal_with_fuel(json_members_view, 2);
                assert(json_members_view(members@) =~= seq![("bundle_id"@, JsonView::Str(string_texts(p@)[0]))]);
            }
            Ok((concat_str("change-bundle.", action), JsonValue::Object(members)))
        },
        Err(e) => Err(e),
    }
}

fn remote_apply(tail: &[String]) -> (result: Result<(String, JsonValue), String>)
    ensures
        outcome_matches(result, remote_apply_spec(string_texts(tail@))),
{
    let vo: Vec<&str> = vec!["--request-fingerprint"];
    let fo: Vec<&str> = vec![];
    assert(crate::cli::texts(vo@) =~= seq!["--request-fingerprint"@]);
    assert(crate::cli::texts(fo@) =~= Seq::<Seq<char>>::empty());
    let (positionals, options) = match parse_tail(tail, vo.as_slice(), fo.as_slice()) {
        Ok(r) => r,
        Err(e) => return Err(e),
    };
    match require_positionals(positionals.as_slice(), 1, "change-bundle remote operation apply") {
        Ok(()) => {},
        Err(e) => return Err(e),
    }
    assert(string_texts(positionals@)[0] == positionals@[0]@);
    match validate_development_id(positionals[0].as_str(), "remote-operation-id") {
        Ok(()) => {},
        Err(e) => return Err(e),
    }
    let fingerprint = match crate::cli::required_sha256_option(&options, "--request-fingerprint") {
        Ok(h) => h,
        Err(e) => return Err(e),
    };
    let members: Vec<JsonMember> = vec![
        mk("remote_operation_id", str_value(positionals[0].as_str())),
        mk("request_fingerprint", str_value(fingerprint.as_str())),
    ];
    proof {
        reveal_with_fuel(json_members_view, 3);
        assert(json_members_view(members@) =~= seq![
            ("remote_operation_id"@, JsonView::Str(string_texts(positionals@)[0])),
            ("request_fingerprint"@, JsonView::Str(fingerprint@)),
        ]);
    }
    Ok(("change-bundle.remote.operation.apply".to_owned(), JsonValue::Object(members)))
}

fn catalog_transition(tail: &[String]) -> (result: Result<(String, JsonValue), String>)
    ensures
        outcome_matches(result, catalog_transition_spec(string_texts(tail@))),
{
    let vo: Vec<&str> = vec!["--revision"];
    let fo: Vec<&str> = vec!["--trial-candidate"];
    assert(crate::cli::texts(vo@) =~= seq!["--revision"@]);
    assert(crate::cli::texts(fo@) =~= seq!["--trial-candidate"@]);
    let (positionals, options) = match parse_tail(tail, vo.as_slice(), fo.as_slice()) {
        Ok(r) => r,
        Err(e) => return Err(e),
    };
    match require_positionals(positionals.as_slice(), 2, "evaluation catalog transition") {
        Ok(()) => {},
        Err(e) => return Err(e),
    }
    assert(string_texts(positionals@)[0] == positionals@[0]@);
    assert(string_texts(positionals@)[1] == positionals@[1]@);
    let record = chars_of(positionals[0].as_str());
    if record.len() == 0 || record.len() > 384 || contains_char(record.as_slice(), '\0') {
        return Err("evaluation catalog record-id is invalid".to_owned());
    }
    let next = positionals[1].as_str();
    if !(str_eq(next, "deprecated") || str_eq(next, "retired") || str_eq(next, "rejected")) {
        return Err("next lifecycle must be deprecated, retired, or rejected".to_owned());
    }
    let trial = match options.get("--trial-candidate") {
        Some(_) => true,
        None => false,
    };
    let revision = match crate::cli::development_revision(&options) {
        Ok(n) => n,
        Err(e) => return Err(e),
    };
    let members: Vec<JsonMember> = vec![
        mk("next", str_value(next)),
        mk("record_id", str_value(positionals[0].as_str())),
        mk("record_revision", JsonValue::Number(crate::cli::decimal_string(revision))),
        mk("trial_candidate", JsonValue::Bool(trial)),
    ];
    proof {
        reveal_with_fuel(json_members_view, 5);
        assert(json_members_view(members@) =~= seq![
            ("next"@, JsonView::Str(string_texts(positionals@)[1])),
            ("record_id"@, JsonView::Str(string_texts(positionals@)[0])),
            ("record_revision"@, JsonView::Number(decimal(revision as nat))),
            ("trial_candidate"@, JsonView::Bool(trial)),
        ]);
    }
    Ok(("evaluation.catalog.transition".to_owned(), JsonValue::Object(members)))
}

fn utf8_width_exec(c: char) -> (result: usize)
    ensures
        result == utf8_width(c),
{
    let u = c as u32;
    if u < 0x80 { 1 } else if u < 0x800 { 2 } else if u < 0x10000 { 3 } else { 4 }
}

/// Whether the UTF-8 length of `s` is at most `limit`.
fn utf8_len_at_most(s: &str, limit: usize) -> (result: bool)
    requires
        limit < usize::MAX - 4,
    ensures
        result == (utf8_len(s@) <= limit),
{
    let chars = chars_of(s);
    let mut count: usize = 0;
    let mut i: usize = 0;
    while i < chars.len()
        invariant
            i <= chars@.len(),
            chars@ == s@,
            limit < usize::MAX - 4,
            count == utf8_len(chars@.take(i as int)),
            count <= limit,
        decreases chars@.len() - i,
    {
        assert(chars@.take(i + 1).drop_last() =~= chars@.take(i as int));
        count = count + utf8_width_exec(chars[i]);
        if count > limit {
            proof {
                lemma_utf8_len_monotone(chars@, i + 1);
            }
            return false;
        }
        i = i + 1;
    }
    assert(chars@.take(chars@.len() as int) =~= chars@);
    true
}

proof fn lemma_utf8_len_monotone(s: Seq<char>, k: int)
    requires
        0 <= k <= s.len(),
    ensures
        utf8_len(s.take(k)) <= utf8_len(s),
    decreases s.len() - k,
{
    if k < s.len() {
        lemma_utf8_len_monotone(s, k + 1);
        assert(s.take(k + 1).drop_last() =~= s.take(k));
    } else {
        assert(s.take(k) =~= s);
    }
}

fn recipe_describe(tail: &[String]) -> (result: Result<(String, JsonValue), String>)
    ensures
        outcome_matches(result, recipe_describe_spec(string_texts(tail@))),
{
    match plain(tail, "recipe describe", 1) {
        Ok(p) => {
            assert(string_texts(p@)[0] == p@[0]@);
            let chars = chars_of(p[0].as_str());
            if !contains_char(chars.as_slice(), '@') || !utf8_len_at_most(p[0].as_str(), 256)
                || contains_char(chars.as_slice(), '\0') {
                return Err("recipe describe requires recipe-id@semver".to_owned());
            }
            let members: Vec<JsonMember> = vec![mk("recipe_spec", str_value(p[0].as_str()))];
            proof {
                reveal_with_fuel(json_members_view, 2);
                assert(json_members_view(members@) =~= seq![("recipe_spec"@, JsonView::Str(string_texts(p@)[0]))]);
            }
            Ok(("recipe.describe".to_owned(), JsonValue::Object(members)))
        },
        Err(e) => Err(e),
    }
}

fn controller_autostart(action: &str, json: bool) -> (result: Result<(String, JsonValue), String>)
    ensures
        outcome_matches(result, controller_autostart_spec(action@, json)),
{
    if json {
        return Err("controller autostart does not support --json".to_owned());
    }
    let members: Vec<JsonMember> = vec![];
    proof {
        reveal_with_fuel(json_members_view, 1);
        assert(json_members_view(members@) =~= Seq::<(Seq<char>, JsonView)>::empty());
    }
    Ok((concat_str("controller.autostart.", action), JsonValue::Object(members)))
}

/// The payload members of `command` whose paths the caller makes
/// absolute (see `path_members`).
pub fn relative_path_members(command: &str) -> (result: Vec<String>)
    ensures
        crate::shell::strings_view(result@) == path_members(command@),
{
    let out: Vec<String> = if str_eq(command, "tool.scaffold") {
        vec!["executable_path".to_owned(), "output_path".to_owned()]
    } else if str_eq(command, "tool.validate") {
        vec!["manifest_path".to_owned()]
    } else if str_eq(command, "management.backup.plan") || str_eq(command, "management.restore.plan") {
        vec!["backup_root".to_owned()]
    } else {
        vec![]
    };
    assert(crate::shell::strings_view(out@) =~= path_members(command@));
    out
}

fn release_publish(tail: &[String], action: &str) -> (result: Result<(String, JsonValue), String>)
    ensures
        outcome_matches(result, release_publish_spec(string_texts(tail@), action@)),
{
    let apply = str_eq(action, "apply");
    match plain(tail, "release publish", if apply { 1 } else { 2 }) {
        Ok(p) => {
            assert(string_texts(p@)[0] == p@[0]@);
            match validate_development_id(p[0].as_str(), "release-manifest-id") {
                Ok(()) => {},
                Err(e) => return Err(e),
            }
            let command = concat_str("release.publish.", action);
            if apply {
                let members: Vec<JsonMember> = vec![mk("release_manifest_id", str_value(p[0].as_str()))];
                proof {
                    reveal_with_fuel(json_members_view, 2);
                    assert(json_members_view(members@) =~= seq![("release_manifest_id"@, JsonView::Str(string_texts(p@)[0]))]);
                }
                return Ok((command, JsonValue::Object(members)));
            }
            assert(string_texts(p@)[1] == p@[1]@);
            match validate_development_id(p[1].as_str(), "before-snapshot-id") {
                Ok(()) => {},
                Err(e) => return Err(e),
            }
            let members: Vec<JsonMember> = vec![
                mk("before_snapshot_ref", str_value(p[1].as_str())),
                mk("release_manifest_id", str_value(p[0].as_str())),
            ];
            proof {
                reveal_with_fuel(json_members_view, 3);
                assert(json_members_view(members@) =~= seq![
                    ("before_snapshot_ref"@, JsonView::Str(string_texts(p@)[1])),
                    ("release_manifest_id"@, JsonView::Str(string_texts(p@)[0])),
                ]);
            }
            Ok((command, JsonValue::Object(members)))
        },
        Err(e) => Err(e),
    }
}

fn word_is(w: &Vec<String>, i: usize, word: &str) -> (result: bool)
    ensures
        result == (i < w@.len() && w@[i as int]@ == word@),
{
    i < w.len() && str_eq(w[i].as_str(), word)
}

fn tail_from(w: &Vec<String>, from: usize) -> (result: Vec<String>)
    requires
        from <= w@.len(),
    ensures
        string_texts(result@) == string_texts(w@).skip(from as int),
{
    let mut out: Vec<String> = Vec::new();
    let mut i: usize = from;
    while i < w.len()
        invariant
            from <= i <= w@.len(),
            string_texts(out@) == string_texts(w@).subrange(from as int, i as int),
        decreases w@.len() - i,
    {
        let ghost before = out@;
        out.push(w[i].clone());
        assert(string_texts(out@) =~= string_texts(before).push(w@[i as int]@));
        assert(string_texts(w@).subrange(from as int, i + 1) =~= string_texts(w@).subrange(from as int, i as int).push(w@[i as int]@));
        i = i + 1;
    }
    assert(string_texts(w@).subrange(from as int, w@.len() as int) =~= string_texts(w@).skip(from as int));
    out
}

#[verifier::rlimit(100)]
fn command(w: &Vec<String>, json: bool) -> (result: Option<Result<(String, JsonValue), String>>)
    ensures
        match command_spec(string_texts(w@), json) {
            None => result is None,
            Some(r) => result matches Some(x) && outcome_matches(x, r),
        },
{
    let ghost t = string_texts(w@);
    assert(w@.len() >= 1 ==> t[0] == w@[0]@);
    assert(w@.len() >= 2 ==> t[1] == w@[1]@);
    assert(w@.len() >= 3 ==> t[2] == w@[2]@);
    assert(w@.len() >= 4 ==> t[3] == w@[3]@);
    if word_is(w, 0, "doctor") {
        return Some(doctor(tail_from(w, 1).as_slice()));
    }
    if w.len() < 2 {
        return unread(w);
    }
    if word_is(w, 0, "tools") {
        if word_is(w, 1, "list") {
            return Some(tools_list(tail_from(w, 2).as_slice()));
        }
        if word_is(w, 1, "describe") {
            return Some(tools_describe(tail_from(w, 2).as_slice()));
        }
        if word_is(w, 1, "status") {
            return Some(tools_status(tail_from(w, 2).as_slice()));
        }
        if word_is(w, 1, "probe") {
            return Some(tools_probe(tail_from(w, 2).as_slice()));
        }
        if word_is(w, 1, "revoke") {
            return Some(tools_revoke(tail_from(w, 2).as_slice()));
        }
        if word_is(w, 1, "trust") {
            return Some(tools_trust(tail_from(w, 2).as_slice()));
        }
        if word_is(w, 1, "validate") {
            return Some(tools_validate(tail_from(w, 2).as_slice()));
        }
        if word_is(w, 1, "scaffold") {
            return Some(tools_scaffold(tail_from(w, 2).as_slice(), json));
        }
    }
    if word_is(w, 0, "change-bundle") && (word_is(w, 1, "show") || word_is(w, 1, "status") || word_is(w, 1, "conflicts")) {
        return Some(change_bundle(tail_from(w, 2).as_slice(), w[1].as_str()));
    }
    if word_is(w, 0, "recipe") && word_is(w, 1, "describe") {
        return Some(recipe_describe(tail_from(w, 2).as_slice()));
    }
    if word_is(w, 0, "project") {
        if word_is(w, 1, "list") {
            return Some(project_list(tail_from(w, 2).as_slice()));
        }
        if word_is(w, 1, "status") {
            return Some(project_status(tail_from(w, 2).as_slice()));
        }
    }
    if word_is(w, 0, "profile") {
        if word_is(w, 1, "list") {
            return Some(empty_command(tail_from(w, 2).as_slice(), "profile list", "profile.list"));
        }
        if word_is(w, 1, "show") {
            return Some(profile_show(tail_from(w, 2).as_slice()));
        }
        if word_is(w, 1, "resolve") {
            return Some(profile_resolve(tail_from(w, 2).as_slice()));
        }
    }
    if word_is(w, 0, "evaluation") && word_is(w, 1, "show") {
        return Some(evaluation_show(tail_from(w, 2).as_slice()));
    }
    if word_is(w, 0, "management") && word_is(w, 1, "status") {
        return Some(empty_command(tail_from(w, 2).as_slice(), "management status", "management.status"));
    }
    if word_is(w, 0, "controller") && word_is(w, 1, "start") {
        return Some(controller_start(tail_from(w, 2).as_slice(), json));
    }
    if word_is(w, 0, "release") && (word_is(w, 1, "promote") || word_is(w, 1, "show") || word_is(w, 1, "status")) {
        return Some(release(tail_from(w, 2).as_slice(), w[1].as_str()));
    }
    if word_is(w, 0, "evidence") && word_is(w, 1, "get") {
        return Some(evidence_get(tail_from(w, 2).as_slice()));
    }
    if word_is(w, 0, "validation") && word_is(w, 1, "plan") {
        return Some(validation(tail_from(w, 2).as_slice(), false));
    }
    if word_is(w, 0, "validation") && word_is(w, 1, "run") {
        return Some(validation(tail_from(w, 2).as_slice(), true));
    }
    if w.len() < 3 {
        return unread(w);
    }
    if word_is(w, 0, "management") && (word_is(w, 1, "backup") || word_is(w, 1, "restore")) && word_is(w, 2, "plan") {
        return Some(management_plan(tail_from(w, 3).as_slice(), w[1].as_str()));
    }
    if word_is(w, 0, "evaluation") && word_is(w, 1, "catalog") && word_is(w, 2, "transition") {
        return Some(catalog_transition(tail_from(w, 3).as_slice()));
    }
    if w.len() == 3 && word_is(w, 0, "controller") && word_is(w, 1, "autostart")
        && (word_is(w, 2, "enable") || word_is(w, 2, "disable") || word_is(w, 2, "status")) {
        return Some(controller_autostart(w[2].as_str(), json));
    }
    if w.len() >= 4 && word_is(w, 0, "change-bundle") && word_is(w, 1, "remote") && word_is(w, 2, "operation")
        && word_is(w, 3, "apply") {
        return Some(remote_apply(tail_from(w, 4).as_slice()));
    }
    if word_is(w, 0, "development") && word_is(w, 1, "record") && word_is(w, 2, "show") {
        proof {
            reveal_strlit("development");
            reveal_strlit("management");
        }
        return Some(record_show(tail_from(w, 3).as_slice()));
    }
    if word_is(w, 0, "release") && word_is(w, 1, "publish") && (word_is(w, 2, "prepare") || word_is(w, 2, "apply")) {
        return Some(release_publish(tail_from(w, 3).as_slice(), w[2].as_str()));
    }
    if word_is(w, 0, "management") {
        if word_is(w, 1, "retention") && word_is(w, 2, "plan") {
            return Some(empty_command(tail_from(w, 3).as_slice(), "management retention plan", "management.retention.plan"));
        }
        if word_is(w, 1, "retention") && word_is(w, 2, "apply") {
            return Some(retention_apply(tail_from(w, 3).as_slice()));
        }
        if word_is(w, 1, "rebuild") && word_is(w, 2, "plan") {
            return Some(empty_command(tail_from(w, 3).as_slice(), "management rebuild plan", "management.rebuild.plan"));
        }
        if w.len() >= 4 && word_is(w, 1, "migrate") && word_is(w, 2, "project-v1-v2") && word_is(w, 3, "plan") {
            return Some(empty_command(tail_from(w, 4).as_slice(), "management migrate project-v1-v2 plan",
                "management.migrate.project-v1-v2.plan"));
        }
    }
    unread(w)
}

/// Reads a Controller command: the request or its error, the command
/// synopsis as the error for words that name no command, and `None` for a
/// command form that this library does not read (see `unread_form`).
pub fn parse_controller_command(args: &[String]) -> (result: Option<Result<ControllerRequest, String>>)
    ensures
        match controller_request_spec(string_texts(args@)) {
            None => result is None,
            Some(Ok(r)) => result matches Some(Ok(x)) && x@ == r,
            Some(Err(e)) => result matches Some(Err(m)) && m@ == e,
        },
{
    let (words, count) = split_json_flag(args);
    if count > 1 {
        return Some(Err("--json may be supplied only once".to_owned()));
    }
    match command(&words, count == 1) {
        None => None,
        Some(Ok((command, payload))) => Some(Ok(ControllerRequest { command, payload, json: count == 1 })),
        Some(Err(e)) => Some(Err(e)),
    }
}


/// `tools list` accepts each registry source, release, user and project,
/// and searches exactly that source over every readiness; any other source
/// is refused.
pub proof fn law_tools_list_searches_each_named_source(
    tail: Seq<Seq<char>>,
    p: Seq<Seq<char>>,
    o: Map<Seq<char>, Option<Seq<char>>>,
    source: Seq<char>,
)
    requires
        parse_tail_spec(tail, seq!["--source"@, "--readiness"@], seq![]) == Ok::<
            (Seq<Seq<char>>, Map<Seq<char>, Option<Seq<char>>>),
            Seq<char>,
        >((p, o)),
        p.len() == 0,
        option_value(o, "--source"@) == Some(source),
        option_value(o, "--readiness"@) is None,
    ensures
        source == "release"@ || source == "user"@ || source == "project"@ ==> tools_list_spec(tail)
            == Ok::<(Seq<char>, JsonView), Seq<char>>(("tool.search"@, JsonView::Object(seq![
                ("limit"@, JsonView::Number("50"@)),
                ("query"@, JsonView::Str(Seq::empty())),
                ("readiness"@, JsonView::Array(seq![
                    JsonView::Str("ready"@),
                    JsonView::Str("unavailable"@),
                    JsonView::Str("untrusted"@),
                    JsonView::Str("incompatible"@),
                    JsonView::Str("degraded"@),
                ])),
                ("sources"@, JsonView::Array(seq![JsonView::Str(source)])),
            ]))),
        !(source == "release"@ || source == "user"@ || source == "project"@) ==> tools_list_spec(tail)
            == Err::<(Seq<char>, JsonView), Seq<char>>("--source must be release, user, or project"@),
{
    if source == "release"@ || source == "user"@ || source == "project"@ {
        let sq = seq![
            ("limit"@, JsonView::Number("50"@)),
            ("query"@, JsonView::Str(Seq::empty())),
            ("readiness"@, JsonView::Array(seq![
                JsonView::Str("ready"@),
                JsonView::Str("unavailable"@),
                JsonView::Str("untrusted"@),
                JsonView::Str("incompatible"@),
                JsonView::Str("degraded"@),
            ])),
            ("sources"@, JsonView::Array(seq![JsonView::Str(source)])),
        ];
        match tools_list_spec(tail) {
            Ok((c, pv)) => {
                assert(all_readiness() =~= seq![
                    JsonView::Str("ready"@),
                    JsonView::Str("unavailable"@),
                    JsonView::Str("untrusted"@),
                    JsonView::Str("incompatible"@),
                    JsonView::Str("degraded"@),
                ]);
                assert(pv->Object_0 =~~= sq);
            },
            Err(_) => {},
        }
    }
}


/// `tools list` accepts each readiness, ready, unavailable, untrusted,
/// incompatible and degraded, and searches every source for exactly that
/// readiness; any other readiness is refused.
pub proof fn law_tools_list_searches_each_named_readiness(
    tail: Seq<Seq<char>>,
    p: Seq<Seq<char>>,
    o: Map<Seq<char>, Option<Seq<char>>>,
    readiness: Seq<char>,
)
    requires
        parse_tail_spec(tail, seq!["--source"@, "--readiness"@], seq![]) == Ok::<
            (Seq<Seq<char>>, Map<Seq<char>, Option<Seq<char>>>),
            Seq<char>,
        >((p, o)),
        p.len() == 0,
        option_value(o, "--source"@) is None,
        option_value(o, "--readiness"@) == Some(readiness),
    ensures
        readiness == "ready"@ || readiness == "unavailable"@ || readiness == "untrusted"@
            || readiness == "incompatible"@ || readiness == "degraded"@ ==> tools_list_spec(tail)
            == Ok::<(Seq<char>, JsonView), Seq<char>>(("tool.search"@, JsonView::Object(seq![
                ("limit"@, JsonView::Number("50"@)),
                ("query"@, JsonView::Str(Seq::empty())),
                ("readiness"@, JsonView::Array(seq![JsonView::Str(readiness)])),
                ("sources"@, JsonView::Null),
            ]))),
        !(readiness == "ready"@ || readiness == "unavailable"@ || readiness == "untrusted"@
            || readiness == "incompatible"@ || readiness == "degraded"@) ==> tools_list_spec(tail)
            == Err::<(Seq<char>, JsonView), Seq<char>>("--readiness has an unsupported value"@),
{
    if readiness == "ready"@ || readiness == "unavailable"@ || readiness == "untrusted"@
        || readiness == "incompatible"@ || readiness == "degraded"@ {
        let sq = seq![
            ("limit"@, JsonView::Number("50"@)),
            ("query"@, JsonView::Str(Seq::empty())),
            ("readiness"@, JsonView::Array(seq![JsonView::Str(readiness)])),
            ("sources"@, JsonView::Null),
        ];
        match tools_list_spec(tail) {
            Ok((c, pv)) => {
                assert(pv->Object_0 =~~= sq);
            },
            Err(_) => {},
        }
    }
}

/// `validation plan <project-key> --profile P` accepts each validation
/// profile, quick, target, full and release, and asks for exactly that
/// profile; any other profile is refused.
pub proof fn law_validation_plan_accepts_each_profile(
    tail: Seq<Seq<char>>,
    p: Seq<Seq<char>>,
    o: Map<Seq<char>, Option<Seq<char>>>,
    profile: Seq<char>,
)
    requires
        parse_tail_spec(tail, seq!["--profile"@, "--unit"@], seq![]) == Ok::<
            (Seq<Seq<char>>, Map<Seq<char>, Option<Seq<char>>>),
            Seq<char>,
        >((p, o)),
        p.len() == 1,
        option_value(o, "--profile"@) == Some(profile),
        option_value(o, "--unit"@) is None,
    ensures
        profile == "quick"@ || profile == "target"@ || profile == "full"@ || profile == "release"@
            ==> validation_spec(tail, false) == Ok::<(Seq<char>, JsonView), Seq<char>>(("validation.plan"@,
                JsonView::Object(seq![
                    ("project_key"@, JsonView::Str(p[0])),
                    ("requested_profile"@, JsonView::Str(profile)),
                ]))),
        !(profile == "quick"@ || profile == "target"@ || profile == "full"@ || profile == "release"@)
            ==> validation_spec(tail, false)
            == Err::<(Seq<char>, JsonView), Seq<char>>("--profile must be quick, target, full, or release"@),
{
    if profile == "quick"@ || profile == "target"@ || profile == "full"@ || profile == "release"@ {
        let sq = seq![
            ("project_key"@, JsonView::Str(p[0])),
            ("requested_profile"@, JsonView::Str(profile)),
        ];
        match validation_spec(tail, false) {
            Ok((c, pv)) => {
                assert(pv->Object_0 =~~= sq);
            },
            Err(_) => {},
        }
    }
}

} // verus!

//! Durable approval scopes for pre-side-effect policy gates.
//!
//! One record per approval id.  A record is resolved at most once: the same
//! scope hash and decision given again return the stored resolution
//! unchanged, and anything else is stale.
use vstd::prelude::*;

use crate::json::{JsonValue, JsonView, JsonMember, json_view, clone_json, clone_items, clone_members, json_items_view, json_members_view};
use crate::keyed::{Keyed, keys_unique, has_key, keyed_map, lemma_keyed_update, lemma_keyed_push, lemma_map_lookup};
use crate::listing::{sorted_strict, sorted_listing, lemma_sorted_listing, insert_sorted};
use crate::operation_store::{now, opt_json_view, is_utc_millis_text};
use crate::shell::{strings_view, clone_strings_from};
use crate::text::{seq_lt, string_lt, str_eq, lemma_seq_lt_total, lemma_seq_lt_transitive};
use crate::json::{json_text, render_json};
use crate::cli::{decimal, decimal_string};
use crate::digest::{sha256_hex, sha256_hex_of};
use crate::hook::concat_str;

verus! {

/// The version of the persisted approval file.
pub const APPROVAL_FORMAT_VERSION: u32 = 1;

#[derive(Clone, Copy, Debug, PartialEq, Eq, Structural)]
pub enum ApprovalDecision {
    Approve,
    Deny,
}

#[derive(Clone, Copy, Debug, PartialEq, Eq, Structural)]
pub enum ApprovalStoreError {
    LocalAppDataUnavailable,
    Io,
    Corrupt,
    Dacl,
    Stale,
}

impl ApprovalStoreError {
    /// The text that `message` gives for each error.
    pub open spec fn message_text(self) -> Seq<char> {
        match self {
            ApprovalStoreError::LocalAppDataUnavailable => "LOCALAPPDATA is not available"@,
            ApprovalStoreError::Io => "approval state I/O failed"@,
            ApprovalStoreError::Corrupt => "approval state is corrupt"@,
            ApprovalStoreError::Dacl => "approval state DACL failed"@,
            ApprovalStoreError::Stale => "POLICY_APPROVAL_STALE"@,
        }
    }

    /// The error's message.
    pub fn message(&self) -> (result: &'static str)
        ensures
            result@ == self.message_text(),
    {
        match self {
            ApprovalStoreError::LocalAppDataUnavailable => "LOCALAPPDATA is not available",
            ApprovalStoreError::Io => "approval state I/O failed",
            ApprovalStoreError::Corrupt => "approval state is corrupt",
            ApprovalStoreError::Dacl => "approval state DACL failed",
            ApprovalStoreError::Stale => "POLICY_APPROVAL_STALE",
        }
    }
}

/// What an approval is asked for.
pub struct ApprovalScope {
    pub operation_id: String,
    pub tool_id: String,
    pub descriptor_hash: String,
    pub arguments_hash: String,
    pub permission_actions: Vec<String>,
    pub paid_limit: JsonValue,
    pub target_refs: Vec<JsonValue>,
    pub expected_revision: Option<u64>,
    pub arguments: JsonValue,
    pub actor: JsonValue,
    pub runtime_scope: JsonValue,
}

/// One durable approval.
pub struct ApprovalRecord {
    pub approval_id: String,
    pub scope_hash: String,
    pub operation_id: String,
    pub tool_id: String,
    pub descriptor_hash: String,
    pub arguments_hash: String,
    pub permission_actions: Vec<String>,
    pub paid_limit: JsonValue,
    pub target_refs: Vec<JsonValue>,
    pub expected_revision: Option<u64>,
    pub arguments: JsonValue,
    pub actor: JsonValue,
    pub runtime_scope: JsonValue,
    pub decision: Option<ApprovalDecision>,
    pub resolved_at: Option<String>,
    pub decision_reason: Option<String>,
    pub decision_conditions: Option<Vec<JsonMember>>,
    pub resolved_by: Option<JsonValue>,
}

pub struct ScopeView {
    pub operation_id: Seq<char>,
    pub tool_id: Seq<char>,
    pub descriptor_hash: Seq<char>,
    pub arguments_hash: Seq<char>,
    pub permission_actions: Seq<Seq<char>>,
    pub paid_limit: JsonView,
    pub target_refs: Seq<JsonView>,
    pub expected_revision: Option<u64>,
    pub arguments: JsonView,
    pub actor: JsonView,
    pub runtime_scope: JsonView,
}

pub struct ApprovalView {
    pub approval_id: Seq<char>,
    pub scope_hash: Seq<char>,
    pub operation_id: Seq<char>,
    pub tool_id: Seq<char>,
    pub descriptor_hash: Seq<char>,
    pub arguments_hash: Seq<char>,
    pub permission_actions: Seq<Seq<char>>,
    pub paid_limit: JsonView,
    pub target_refs: Seq<JsonView>,
    pub expected_revision: Option<u64>,
    pub arguments: JsonView,
    pub actor: JsonView,
    pub runtime_scope: JsonView,
    pub decision: Option<ApprovalDecision>,
    pub resolved_at: Option<Seq<char>>,
    pub decision_reason: Option<Seq<char>>,
    pub decision_conditions: Option<Seq<(Seq<char>, JsonView)>>,
    pub resolved_by: Option<JsonView>,
}

pub open spec fn opt_text(v: Option<String>) -> Option<Seq<char>> {
    match v {
        Some(s) => Some(s@),
        None => None,
    }
}

pub open spec fn opt_members(v: Option<Vec<JsonMember>>) -> Option<Seq<(Seq<char>, JsonView)>> {
    match v {
        Some(m) => Some(json_members_view(m@)),
        None => None,
    }
}

impl View for ApprovalScope {
    type V = ScopeView;

    open spec fn view(&self) -> ScopeView {
        ScopeView {
            operation_id: self.operation_id@,
            tool_id: self.tool_id@,
            descriptor_hash: self.descriptor_hash@,
            arguments_hash: self.arguments_hash@,
            permission_actions: strings_view(self.permission_actions@),
            paid_limit: self.paid_limit@,
            target_refs: json_items_view(self.target_refs@),
            expected_revision: self.expected_revision,
            arguments: self.arguments@,
            actor: self.actor@,
            runtime_scope: self.runtime_scope@,
        }
    }
}

impl View for ApprovalRecord {
    type V = ApprovalView;

    open spec fn view(&self) -> ApprovalView {
        ApprovalView {
            approval_id: self.approval_id@,
            scope_hash: self.scope_hash@,
            operation_id: self.operation_id@,
            tool_id: self.tool_id@,
            descriptor_hash: self.descriptor_hash@,
            arguments_hash: self.arguments_hash@,
            permission_actions: strings_view(self.permission_actions@),
            paid_limit: self.paid_limit@,
            target_refs: json_items_view(self.target_refs@),
            expected_revision: self.expected_revision,
            arguments: self.arguments@,
            actor: self.actor@,
            runtime_scope: self.runtime_scope@,
            decision: self.decision,
            resolved_at: opt_text(self.resolved_at),
            decision_reason: opt_text(self.decision_reason),
            decision_conditions: opt_members(self.decision_conditions),
            resolved_by: opt_json_view(self.resolved_by),
        }
    }
}

impl Keyed for ApprovalRecord {
    open spec fn key(&self) -> Seq<char> {
        self.approval_id@
    }
}

// ----------------------------------------------------------------------
// The rules, over views.
// ----------------------------------------------------------------------

/// Permission actions as stored: sorted, each once.
pub open spec fn normalized_permissions(p: Seq<Seq<char>>) -> Seq<Seq<char>> {
    sorted_listing(p.to_set())
}

/// The fields of an approval that its scope hash binds, as one JSON object
/// with its keys in ascending order.  The operation id, the arguments, the
/// actor and the runtime scope are not bound.
pub open spec fn public_scope_document(
    approval_id: Seq<char>,
    tool_id: Seq<char>,
    descriptor_hash: Seq<char>,
    arguments_hash: Seq<char>,
    permission_actions: Seq<Seq<char>>,
    paid_limit: JsonView,
    target_refs: Seq<JsonView>,
    expected_revision: Option<u64>,
) -> JsonView {
    JsonView::Object(seq![
        ("approval_id"@, JsonView::Str(approval_id)),
        ("arguments_hash"@, JsonView::Str(arguments_hash)),
        ("descriptor_hash"@, JsonView::Str(descriptor_hash)),
        ("expected_revision"@, revision_json(expected_revision)),
        ("paid_limit"@, paid_limit),
        ("permission_actions"@, JsonView::Array(strings_json(permission_actions))),
        ("target_refs"@, JsonView::Array(target_refs)),
        ("tool_id"@, JsonView::Str(tool_id)),
    ])
}

pub open spec fn revision_json(r: Option<u64>) -> JsonView {
    match r {
        Some(n) => JsonView::Number(decimal(n as nat)),
        None => JsonView::Null,
    }
}

pub open spec fn strings_json(s: Seq<Seq<char>>) -> Seq<JsonView> {
    s.map_values(|a: Seq<char>| JsonView::Str(a))
}

/// The compact JSON text that the scope hash of approval `approval_id`
/// of scope `s` is taken over.
pub open spec fn approval_scope_document_spec(approval_id: Seq<char>, s: ScopeView) -> Seq<char> {
    json_text(public_scope_document(approval_id, s.tool_id, s.descriptor_hash, s.arguments_hash,
        s.permission_actions, s.paid_limit, s.target_refs, s.expected_revision))
}

/// The scope hash of approval `approval_id` of scope `s`: `sha256:`
/// followed by the hexadecimal SHA-256 digest of its scope document.
pub open spec fn approval_scope_hash_spec(approval_id: Seq<char>, s: ScopeView) -> Seq<char> {
    "sha256:"@ + sha256_hex(approval_scope_document_spec(approval_id, s))
}

/// The scope that a stored record was approved for.
pub open spec fn record_scope(r: ApprovalView) -> ScopeView {
    ScopeView {
        operation_id: r.operation_id,
        tool_id: r.tool_id,
        descriptor_hash: r.descriptor_hash,
        arguments_hash: r.arguments_hash,
        permission_actions: r.permission_actions,
        paid_limit: r.paid_limit,
        target_refs: r.target_refs,
        expected_revision: r.expected_revision,
        arguments: r.arguments,
        actor: r.actor,
        runtime_scope: r.runtime_scope,
    }
}

/// `s` with its permission actions sorted and each kept once.
pub open spec fn normalized_scope(s: ScopeView) -> ScopeView {
    ScopeView { permission_actions: normalized_permissions(s.permission_actions), ..s }
}

/// What every stored record satisfies: its permission actions are sorted
/// and distinct, its scope hash is the hash of its own id and scope, and
/// it carries a resolution time exactly when it carries a decision.
pub open spec fn record_consistent(r: ApprovalView) -> bool {
    &&& sorted_strict(r.permission_actions)
    &&& r.scope_hash == approval_scope_hash_spec(r.approval_id, record_scope(r))
    &&& (r.decision is Some <==> r.resolved_at is Some)
}

/// Every record is stored under its own id and is consistent.
pub open spec fn approvals_sound(v: Map<Seq<char>, ApprovalView>) -> bool {
    forall|k: Seq<char>| #[trigger] v.contains_key(k) ==> v[k].approval_id == k && record_consistent(v[k])
}

/// A new, unresolved approval of `scope` under `approval_id`.
pub open spec fn fresh_approval(approval_id: Seq<char>, scope_hash: Seq<char>, s: ScopeView) -> ApprovalView {
    ApprovalView {
        approval_id,
        scope_hash,
        operation_id: s.operation_id,
        tool_id: s.tool_id,
        descriptor_hash: s.descriptor_hash,
        arguments_hash: s.arguments_hash,
        permission_actions: normalized_permissions(s.permission_actions),
        paid_limit: s.paid_limit,
        target_refs: s.target_refs,
        expected_revision: s.expected_revision,
        arguments: s.arguments,
        actor: s.actor,
        runtime_scope: s.runtime_scope,
        decision: None,
        resolved_at: None,
        decision_reason: None,
        decision_conditions: None,
        resolved_by: None,
    }
}

/// Creating approval `approval_id` of scope `s`: the new unresolved record,
/// whose scope hash is taken over the id and the normalized scope.
pub open spec fn create_spec(
    v: Map<Seq<char>, ApprovalView>,
    approval_id: Seq<char>,
    s: ScopeView,
) -> (Map<Seq<char>, ApprovalView>, ApprovalView) {
    let r = fresh_approval(approval_id, approval_scope_hash_spec(approval_id, normalized_scope(s)), s);
    (v.insert(approval_id, r), r)
}

pub open spec fn with_resolution(
    r: ApprovalView,
    decision: ApprovalDecision,
    reason: Option<Seq<char>>,
    conditions: Option<Seq<(Seq<char>, JsonView)>>,
    resolved_by: JsonView,
    resolved_at: Seq<char>,
) -> ApprovalView {
    ApprovalView {
        decision: Some(decision),
        resolved_at: Some(resolved_at),
        decision_reason: reason,
        decision_conditions: conditions,
        resolved_by: Some(resolved_by),
        ..r
    }
}

/// Resolving approval `approval_id` for `scope_hash` with `decision` at
/// time `resolved_at`: stale unless the approval exists with that scope
/// hash and no other decision; the first resolution is recorded, a repeated
/// one returns the record unchanged.
pub open spec fn resolve_spec(
    v: Map<Seq<char>, ApprovalView>,
    approval_id: Seq<char>,
    scope_hash: Seq<char>,
    decision: ApprovalDecision,
    reason: Option<Seq<char>>,
    conditions: Option<Seq<(Seq<char>, JsonView)>>,
    resolved_by: JsonView,
    resolved_at: Seq<char>,
) -> (Map<Seq<char>, ApprovalView>, Result<ApprovalView, ApprovalStoreError>) {
    if !v.contains_key(approval_id) {
        (v, Err(ApprovalStoreError::Stale))
    } else {
        let r = v[approval_id];
        if r.scope_hash != scope_hash || (r.decision is Some && r.decision != Some(decision)) {
            (v, Err(ApprovalStoreError::Stale))
        } else if r.decision is None {
            let resolved = with_resolution(r, decision, reason, conditions, resolved_by, resolved_at);
            (v.insert(approval_id, resolved), Ok(resolved))
        } else {
            (v, Ok(r))
        }
    }
}

/// `after` and `result` are what resolving at time `resolved_at` gives.
pub open spec fn final_matches(
    before: Map<Seq<char>, ApprovalView>,
    after: Map<Seq<char>, ApprovalView>,
    approval_id: Seq<char>,
    scope_hash: Seq<char>,
    decision: ApprovalDecision,
    reason: Option<Seq<char>>,
    conditions: Option<Seq<(Seq<char>, JsonView)>>,
    resolved_by: JsonView,
    resolved_at: Seq<char>,
    result: Result<ApprovalRecord, ApprovalStoreError>,
) -> bool {
    let (v, r) = resolve_spec(before, approval_id, scope_hash, decision, reason, conditions, resolved_by, resolved_at);
    &&& after == v
    &&& match (result, r) {
        (Ok(x), Ok(y)) => x@ == y,
        (Err(e), Err(f)) => e == f,
        _ => false,
    }
}

pub open spec fn unresolved_match(r: ApprovalView, tool_id: Seq<char>, arguments_hash: Seq<char>, expected_revision: Option<u64>) -> bool {
    &&& r.tool_id == tool_id
    &&& r.arguments_hash == arguments_hash
    &&& r.expected_revision == expected_revision
    &&& r.decision is None
}

/// `k` is the smallest approval id among the unresolved approvals of the
/// exact tool, arguments hash and expected revision.
pub open spec fn first_unresolved(
    v: Map<Seq<char>, ApprovalView>,
    k: Seq<char>,
    tool_id: Seq<char>,
    arguments_hash: Seq<char>,
    expected_revision: Option<u64>,
) -> bool {
    &&& v.contains_key(k)
    &&& unresolved_match(v[k], tool_id, arguments_hash, expected_revision)
    &&& forall|j: Seq<char>| #[trigger] v.contains_key(j) && unresolved_match(v[j], tool_id, arguments_hash, expected_revision) && j != k
        ==> seq_lt(k, j)
}

/// The `(key, record)` entries of a persisted approval file are acceptable:
/// each record is stored under its own id, no id occurs twice, and each
/// record is consistent.
pub open spec fn entries_acceptable(entries: Seq<(String, ApprovalRecord)>) -> bool {
    &&& forall|i: int| 0 <= i < entries.len() ==> (#[trigger] entries[i]).0@ == entries[i].1.approval_id@
        && record_consistent(entries[i].1@)
    &&& keys_unique(records_of(entries))
}

pub open spec fn records_of(entries: Seq<(String, ApprovalRecord)>) -> Seq<ApprovalRecord> {
    entries.map_values(|e: (String, ApprovalRecord)| e.1)
}

pub open spec fn records_view(records: Seq<ApprovalRecord>) -> Map<Seq<char>, ApprovalView> {
    keyed_map(records).map_values(|r: ApprovalRecord| r@)
}

// ----------------------------------------------------------------------
// Executable parts.
// ----------------------------------------------------------------------

/// Sorts permission actions and drops repeats.
pub fn normalize_permissions(actions: &Vec<String>) -> (result: Vec<String>)
    ensures
        strings_view(result@) == normalized_permissions(strings_view(actions@)),
        sorted_strict(strings_view(result@)),
{
    let ghost all = strings_view(actions@);
    let mut out: Vec<String> = Vec::new();
    let mut i: usize = 0;
    assert(strings_view(out@).to_set() =~= all.subrange(0, 0).to_set());
    while i < actions.len()
        invariant
            i <= actions@.len(),
            all == strings_view(actions@),
            sorted_strict(strings_view(out@)),
            strings_view(out@).to_set() == all.subrange(0, i as int).to_set(),
        decreases actions@.len() - i,
    {
        insert_sorted(&mut out, actions[i].clone());
        assert(all.subrange(0, i + 1) =~= all.subrange(0, i as int).push(actions@[i as int]@));
        proof {
            all.subrange(0, i as int).lemma_push_to_set_commute(actions@[i as int]@);
        }
        i = i + 1;
    }
    assert(all.subrange(0, actions@.len() as int) =~= all);
    proof {
        lemma_sorted_listing(strings_view(out@));
    }
    out
}

pub(crate) fn strings_json_items(actions: &Vec<String>) -> (result: Vec<JsonValue>)
    ensures
        json_items_view(result@) == strings_json(strings_view(actions@)),
{
    let ghost all = strings_view(actions@);
    let mut out: Vec<JsonValue> = Vec::new();
    let mut i: usize = 0;
    assert(json_items_view(out@) =~= strings_json(all.take(0)));
    while i < actions.len()
        invariant
            i <= actions@.len(),
            all == strings_view(actions@),
            json_items_view(out@) == strings_json(all.take(i as int)),
        decreases actions@.len() - i,
    {
        let item = JsonValue::Str(actions[i].clone());
        proof {
            assert(out@.push(item).drop_last() =~= out@);
            assert(strings_json(all.take(i + 1)) =~= strings_json(all.take(i as int)).push(JsonView::Str(actions@[i as int]@)));
        }
        let ghost before = out@;
        out.push(item);
        proof {
            assert(out@.drop_last() =~= before);
            assert(json_items_view(out@) == json_items_view(before).push(json_view(item)));
            assert(all[i as int] == actions@[i as int]@);
        }
        i = i + 1;
    }
    assert(all.take(actions@.len() as int) =~= all);
    out
}

fn scope_document_text(
    approval_id: &str,
    tool_id: &String,
    descriptor_hash: &String,
    arguments_hash: &String,
    permission_actions: &Vec<String>,
    paid_limit: &JsonValue,
    target_refs: &Vec<JsonValue>,
    expected_revision: Option<u64>,
) -> (result: String)
    ensures
        result@ == json_text(public_scope_document(approval_id@, tool_id@, descriptor_hash@, arguments_hash@,
            strings_view(permission_actions@), paid_limit@, json_items_view(target_refs@), expected_revision)),
{
    let revision = match expected_revision {
        Some(n) => JsonValue::Number(decimal_string(n)),
        None => JsonValue::Null,
    };
    let members: Vec<JsonMember> = vec![
        JsonMember { key: "approval_id".to_owned(), value: JsonValue::Str(approval_id.to_owned()) },
        JsonMember { key: "arguments_hash".to_owned(), value: JsonValue::Str(arguments_hash.clone()) },
        JsonMember { key: "descriptor_hash".to_owned(), value: JsonValue::Str(descriptor_hash.clone()) },
        JsonMember { key: "expected_revision".to_owned(), value: revision },
        JsonMember { key: "paid_limit".to_owned(), value: clone_json(paid_limit) },
        JsonMember { key: "permission_actions".to_owned(), value: JsonValue::Array(strings_json_items(permission_actions)) },
        JsonMember { key: "target_refs".to_owned(), value: JsonValue::Array(clone_items(target_refs)) },
        JsonMember { key: "tool_id".to_owned(), value: JsonValue::Str(tool_id.clone()) },
    ];
    let document = JsonValue::Object(members);
    proof {
        reveal_with_fuel(json_members_view, 9);
        assert(revision@ == revision_json(expected_revision));
        assert(members@[5].value@ == JsonView::Array(strings_json(strings_view(permission_actions@))));
        assert(json_members_view(members@) =~= seq![
            ("approval_id"@, JsonView::Str(approval_id@)),
            ("arguments_hash"@, JsonView::Str(arguments_hash@)),
            ("descriptor_hash"@, JsonView::Str(descriptor_hash@)),
            ("expected_revision"@, revision_json(expected_revision)),
            ("paid_limit"@, paid_limit@),
            ("permission_actions"@, JsonView::Array(strings_json(strings_view(permission_actions@)))),
            ("target_refs"@, JsonView::Array(json_items_view(target_refs@))),
            ("tool_id"@, JsonView::Str(tool_id@)),
        ]);
        assert(document@ == public_scope_document(approval_id@, tool_id@, descriptor_hash@, arguments_hash@,
            strings_view(permission_actions@), paid_limit@, json_items_view(target_refs@), expected_revision));
    }
    render_json(&document)
}

fn scope_hash_of_parts(
    approval_id: &str,
    tool_id: &String,
    descriptor_hash: &String,
    arguments_hash: &String,
    permission_actions: &Vec<String>,
    paid_limit: &JsonValue,
    target_refs: &Vec<JsonValue>,
    expected_revision: Option<u64>,
) -> (result: String)
    ensures
        result@ == "sha256:"@ + sha256_hex(json_text(public_scope_document(approval_id@, tool_id@, descriptor_hash@,
            arguments_hash@, strings_view(permission_actions@), paid_limit@, json_items_view(target_refs@), expected_revision))),
{
    let document = scope_document_text(approval_id, tool_id, descriptor_hash, arguments_hash, permission_actions,
        paid_limit, target_refs, expected_revision);
    let digest = sha256_hex_of(document.as_str());
    concat_str("sha256:", digest.as_str())
}

/// The compact JSON text that the scope hash of approval `approval_id` of
/// `scope` is taken over: the bound fields, keys in ascending order.
pub fn approval_scope_document(approval_id: &str, scope: &ApprovalScope) -> (result: String)
    ensures
        result@ == approval_scope_document_spec(approval_id@, scope@),
{
    scope_document_text(approval_id, &scope.tool_id, &scope.descriptor_hash, &scope.arguments_hash,
        &scope.permission_actions, &scope.paid_limit, &scope.target_refs, scope.expected_revision)
}

/// The scope hash of approval `approval_id` of `scope`, taken over the
/// scope as given.
pub fn approval_scope_hash(approval_id: &str, scope: &ApprovalScope) -> (result: String)
    ensures
        result@ == approval_scope_hash_spec(approval_id@, scope@),
{
    scope_hash_of_parts(approval_id, &scope.tool_id, &scope.descriptor_hash, &scope.arguments_hash,
        &scope.permission_actions, &scope.paid_limit, &scope.target_refs, scope.expected_revision)
}

fn record_scope_hash(r: &ApprovalRecord) -> (result: String)
    ensures
        result@ == approval_scope_hash_spec(r.approval_id@, record_scope(r@)),
{
    scope_hash_of_parts(r.approval_id.as_str(), &r.tool_id, &r.descriptor_hash, &r.arguments_hash,
        &r.permission_actions, &r.paid_limit, &r.target_refs, r.expected_revision)
}

fn clone_opt_string(value: &Option<String>) -> (result: Option<String>)
    ensures
        opt_text(result) == opt_text(*value),
{
    match value {
        Some(s) => Some(s.clone()),
        None => None,
    }
}

/// A deep copy of a record.
pub fn clone_record(r: &ApprovalRecord) -> (result: ApprovalRecord)
    ensures
        result@ == r@,
{
    let permission_actions = clone_strings_from(&r.permission_actions, 0);
    assert(strings_view(r.permission_actions@).skip(0) =~= strings_view(r.permission_actions@));
    ApprovalRecord {
        approval_id: r.approval_id.clone(),
        scope_hash: r.scope_hash.clone(),
        operation_id: r.operation_id.clone(),
        tool_id: r.tool_id.clone(),
        descriptor_hash: r.descriptor_hash.clone(),
        arguments_hash: r.arguments_hash.clone(),
        permission_actions,
        paid_limit: clone_json(&r.paid_limit),
        target_refs: clone_items(&r.target_refs),
        expected_revision: r.expected_revision,
        arguments: clone_json(&r.arguments),
        actor: clone_json(&r.actor),
        runtime_scope: clone_json(&r.runtime_scope),
        decision: r.decision,
        resolved_at: clone_opt_string(&r.resolved_at),
        decision_reason: clone_opt_string(&r.decision_reason),
        decision_conditions: match &r.decision_conditions {
            Some(m) => Some(clone_members(m)),
            None => None,
        },
        resolved_by: match &r.resolved_by {
            Some(b) => Some(clone_json(b)),
            None => None,
        },
    }
}

fn unresolved_match_exec(r: &ApprovalRecord, tool_id: &String, arguments_hash: &String, expected_revision: Option<u64>) -> (result: bool)
    ensures
        result == unresolved_match(r@, tool_id@, arguments_hash@, expected_revision),
{
    r.tool_id == *tool_id && r.arguments_hash == *arguments_hash && r.expected_revision == expected_revision
        && r.decision.is_none()
}

/// The durable approvals, by approval id.
pub struct ApprovalStore {
    records: Vec<ApprovalRecord>,
}

impl View for ApprovalStore {
    type V = Map<Seq<char>, ApprovalView>;

    closed spec fn view(&self) -> Map<Seq<char>, ApprovalView> {
        records_view(self.records@)
    }
}

impl ApprovalStore {
    pub closed spec fn wf(&self) -> bool {
        &&& keys_unique(self.records@)
        &&& forall|i: int| 0 <= i < self.records@.len() ==> record_consistent(#[trigger] self.records@[i]@)
    }

    proof fn lemma_sound(&self)
        requires
            self.wf(),
        ensures
            approvals_sound(self@),
    {
        assert forall|k: Seq<char>| #[trigger] self@.contains_key(k) implies self@[k].approval_id == k && record_consistent(self@[k]) by {
            let x = choose|x: int| 0 <= x < self.records@.len() && #[trigger] self.records@[x].key() == k;
            lemma_map_lookup(self.records@, x);
        }
    }

    /// A store without approvals (no file yet).
    pub fn new() -> (result: Self)
        ensures
            result.wf(),
            result@ == Map::<Seq<char>, ApprovalView>::empty(),
    {
        let s = ApprovalStore { records: Vec::new() };
        assert(s@ =~= Map::empty());
        s
    }

    /// Rebuilds the store from the entries of a persisted file: corrupt
    /// unless the file has the current format version and its entries are
    /// acceptable.
    pub fn from_entries(format_version: u32, entries: &Vec<(String, ApprovalRecord)>) -> (result: Result<Self, ApprovalStoreError>)
        ensures
            match result {
                Ok(s) => s.wf() && approvals_sound(s@) && s@ == records_view(records_of(entries@)),
                Err(e) => e == ApprovalStoreError::Corrupt,
            },
            result is Ok <==> (format_version == APPROVAL_FORMAT_VERSION && entries_acceptable(entries@)),
    {
        let ghost recs = records_of(entries@);
        if format_version != APPROVAL_FORMAT_VERSION {
            return Err(ApprovalStoreError::Corrupt);
        }
        let mut records: Vec<ApprovalRecord> = Vec::new();
        let mut i: usize = 0;
        while i < entries.len()
            invariant
                i <= entries@.len(),
                recs == records_of(entries@),
                recs.len() == entries@.len(),
                records@.len() == i,
                forall|x: int| 0 <= x < i ==> #[trigger] records@[x]@ == entries@[x].1@,
                forall|x: int| 0 <= x < i ==> #[trigger] records@[x].key() == recs[x].key(),
                forall|x: int| 0 <= x < i ==> (#[trigger] entries@[x]).0@ == entries@[x].1.approval_id@
                    && record_consistent(entries@[x].1@),
                forall|x: int, y: int| 0 <= x < i && 0 <= y < i && x != y ==> #[trigger] recs[x].key() != #[trigger] recs[y].key(),
            decreases entries@.len() - i,
        {
            let key = &entries[i].0;
            let record = &entries[i].1;
            assert(recs[i as int] == entries@[i as int].1);
            if *key != record.approval_id {
                proof {
                    assert(!entries_acceptable(entries@));
                }
                return Err(ApprovalStoreError::Corrupt);
            }
            let mut sorted = true;
            let mut p: usize = 1;
            while p < record.permission_actions.len()
                invariant
                    1 <= p,
                    sorted ==> forall|a: int, b: int| 0 <= a < b < p && b < record.permission_actions@.len()
                        ==> seq_lt(#[trigger] record.permission_actions@[a]@, #[trigger] record.permission_actions@[b]@),
                    !sorted ==> !sorted_strict(strings_view(record.permission_actions@)),
                decreases record.permission_actions@.len() - p,
            {
                if sorted {
                    let lt = string_lt(&record.permission_actions[p - 1], &record.permission_actions[p]);
                    if lt {
                        proof {
                            assert forall|a: int, b: int| 0 <= a < b < p + 1 && b < record.permission_actions@.len()
                                implies seq_lt(#[trigger] record.permission_actions@[a]@, #[trigger] record.permission_actions@[b]@) by {
                                if b == p && a < p - 1 {
                                    lemma_seq_lt_transitive(record.permission_actions@[a]@, record.permission_actions@[p - 1]@,
                                        record.permission_actions@[b]@);
                                }
                            }
                        }
                    } else {
                        sorted = false;
                        proof {
                            let sv = strings_view(record.permission_actions@);
                            assert(sv[p - 1] == record.permission_actions@[p - 1]@);
                            assert(sv[p as int] == record.permission_actions@[p as int]@);
                        }
                    }
                }
                p = p + 1;
            }
            proof {
                if sorted {
                    let sv = strings_view(record.permission_actions@);
                    assert forall|a: int, b: int| 0 <= a < b < sv.len() implies seq_lt(#[trigger] sv[a], #[trigger] sv[b]) by {
                        assert(sv[a] == record.permission_actions@[a]@);
                        assert(sv[b] == record.permission_actions@[b]@);
                    }
                }
            }
            let expected_hash = record_scope_hash(record);
            if !sorted || !str_eq(expected_hash.as_str(), record.scope_hash.as_str())
                || record.decision.is_some() != record.resolved_at.is_some() {
                proof {
                    assert(!record_consistent(entries@[i as int].1@));
                    assert(!entries_acceptable(entries@));
                }
                return Err(ApprovalStoreError::Corrupt);
            }
            let mut j: usize = 0;
            while j < i
                invariant
                    j <= i,
                    i < entries@.len(),
                    recs == records_of(entries@),
                    recs.len() == entries@.len(),
                    record.approval_id@ == recs[i as int].key(),
                    records@.len() == i,
                    forall|x: int| 0 <= x < i ==> #[trigger] records@[x].key() == recs[x].key(),
                    forall|y: int| 0 <= y < j ==> #[trigger] recs[y].key() != recs[i as int].key(),
                decreases i - j,
            {
                assert(records@[j as int].key() == recs[j as int].key());
                if records[j].approval_id == record.approval_id {
                    proof {
                        assert(recs[j as int].key() == recs[i as int].key());
                        assert(!keys_unique(recs));
                        assert(!entries_acceptable(entries@));
                    }
                    return Err(ApprovalStoreError::Corrupt);
                }
                j = j + 1;
            }
            records.push(clone_record(record));
            i = i + 1;
        }
        proof {
            assert forall|x: int, y: int| 0 <= x < recs.len() && 0 <= y < recs.len() && x != y
                implies #[trigger] recs[x].key() != #[trigger] recs[y].key() by {}
            assert forall|x: int, y: int| 0 <= x < records@.len() && 0 <= y < records@.len() && x != y
                implies #[trigger] records@[x].key() != #[trigger] records@[y].key() by {
                assert(records@[x].key() == recs[x].key());
                assert(records@[y].key() == recs[y].key());
            }
        }
        let s = ApprovalStore { records };
        proof {
            assert forall|x: int| 0 <= x < s.records@.len() implies record_consistent(#[trigger] s.records@[x]@) by {
                assert(s.records@[x]@ == entries@[x].1@);
            }
            s.lemma_sound();
            lemma_same_view(s.records@, recs);
        }
        Ok(s)
    }

    /// The stored records, for persistence.
    pub fn records(&self) -> (result: &Vec<ApprovalRecord>)
        requires
            self.wf(),
        ensures
            records_view(result@) == self@,
            keys_unique(result@),
    {
        &self.records
    }

    fn find(&self, approval_id: &str) -> (result: Option<usize>)
        requires
            self.wf(),
        ensures
            match result {
                Some(i) => i < self.records@.len() && self.records@[i as int].key() == approval_id@,
                None => !has_key(self.records@, approval_id@),
            },
    {
        let id: String = approval_id.to_owned();
        let mut i: usize = 0;
        while i < self.records.len()
            invariant
                i <= self.records@.len(),
                id@ == approval_id@,
                forall|x: int| 0 <= x < i ==> #[trigger] self.records@[x].key() != approval_id@,
            decreases self.records@.len() - i,
        {
            if self.records[i].approval_id == id {
                return Some(i);
            }
            i = i + 1;
        }
        None
    }

    /// Records a new unresolved approval of `scope` under the fresh id
    /// `approval_id`, with its permission actions normalized and its scope
    /// hash taken over the id and the normalized scope.
    pub fn create(&mut self, approval_id: String, scope: ApprovalScope) -> (result: ApprovalRecord)
        requires
            old(self).wf(),
            !old(self)@.contains_key(approval_id@),
        ensures
            final(self).wf(),
            approvals_sound(final(self)@),
            (final(self)@, result@) == create_spec(old(self)@, approval_id@, scope@),
    {
        let permission_actions = normalize_permissions(&scope.permission_actions);
        let scope_hash = scope_hash_of_parts(approval_id.as_str(), &scope.tool_id, &scope.descriptor_hash,
            &scope.arguments_hash, &permission_actions, &scope.paid_limit, &scope.target_refs, scope.expected_revision);
        let ghost s = scope@;
        let record = ApprovalRecord {
            approval_id,
            scope_hash,
            operation_id: scope.operation_id,
            tool_id: scope.tool_id,
            descriptor_hash: scope.descriptor_hash,
            arguments_hash: scope.arguments_hash,
            permission_actions,
            paid_limit: scope.paid_limit,
            target_refs: scope.target_refs,
            expected_revision: scope.expected_revision,
            arguments: scope.arguments,
            actor: scope.actor,
            runtime_scope: scope.runtime_scope,
            decision: None,
            resolved_at: None,
            decision_reason: None,
            decision_conditions: None,
            resolved_by: None,
        };
        assert(record@ == fresh_approval(record.approval_id@, approval_scope_hash_spec(record.approval_id@, normalized_scope(s)), s));
        let result = clone_record(&record);
        let ghost before = self.records@;
        match self.find(record.approval_id.as_str()) {
            Some(i) => {
                proof {
                    lemma_keyed_update(before, i as int, record);
                }
                self.records.set(i, record);
                proof {
                    assert(self.records@ == before.update(i as int, record));
                    assert(records_view(self.records@) =~= records_view(before).insert(result@.approval_id, result@));
                }
            },
            None => {
                proof {
                    lemma_keyed_push(before, record);
                }
                self.records.push(record);
                proof {
                    assert(records_view(self.records@) =~= records_view(before).insert(result@.approval_id, result@));
                }
            },
        }
        proof {
            assert forall|x: int| 0 <= x < self.records@.len() implies record_consistent(#[trigger] self.records@[x]@) by {
                if x < before.len() && self.records@[x] == before[x] {
                } else {
                    assert(self.records@[x]@ == result@);
                }
            }
            self.lemma_sound();
        }
        result
    }

    /// The stored approval `approval_id`, unchanged.
    pub fn get(&self, approval_id: &str) -> (result: Option<ApprovalRecord>)
        requires
            self.wf(),
        ensures
            match result {
                Some(r) => self@.contains_key(approval_id@) && r@ == self@[approval_id@],
                None => !self@.contains_key(approval_id@),
            },
    {
        match self.find(approval_id) {
            Some(i) => {
                proof {
                    lemma_map_lookup(self.records@, i as int);
                }
                Some(clone_record(&self.records[i]))
            },
            None => None,
        }
    }

    /// The unresolved approval of exactly this tool, arguments hash and
    /// expected revision whose approval id sorts first.
    pub fn find_unresolved_exact(&self, tool_id: &str, arguments_hash: &str, expected_revision: Option<u64>) -> (result: Option<ApprovalRecord>)
        requires
            self.wf(),
        ensures
            match result {
                Some(r) => first_unresolved(self@, r@.approval_id, tool_id@, arguments_hash@, expected_revision)
                    && r@ == self@[r@.approval_id],
                None => forall|k: Seq<char>| #[trigger] self@.contains_key(k)
                    ==> !unresolved_match(self@[k], tool_id@, arguments_hash@, expected_revision),
            },
    {
        let tool: String = tool_id.to_owned();
        let args: String = arguments_hash.to_owned();
        let mut best: Option<usize> = None;
        let mut i: usize = 0;
        while i < self.records.len()
            invariant
                self.wf(),
                tool@ == tool_id@,
                args@ == arguments_hash@,
                i <= self.records@.len(),
                match best {
                    Some(b) => b < i && unresolved_match(self.records@[b as int]@, tool@, args@, expected_revision)
                        && forall|j: int| 0 <= j < i && #[trigger] unresolved_match(self.records@[j]@, tool@, args@, expected_revision) && j != b
                            ==> seq_lt(self.records@[b as int].key(), self.records@[j].key()),
                    None => forall|j: int| 0 <= j < i ==> !#[trigger] unresolved_match(self.records@[j]@, tool@, args@, expected_revision),
                },
            decreases self.records@.len() - i,
        {
            if unresolved_match_exec(&self.records[i], &tool, &args, expected_revision) {
                match best {
                    None => {
                        best = Some(i);
                    },
                    Some(b) => {
                        let smaller = string_lt(&self.records[i].approval_id, &self.records[b].approval_id);
                        proof {
                            let kb = self.records@[b as int].key();
                            let ki = self.records@[i as int].key();
                            lemma_seq_lt_total(kb, ki);
                            if smaller {
                                assert forall|j: int| 0 <= j < i + 1 && #[trigger] unresolved_match(self.records@[j]@, tool@, args@, expected_revision) && j != i
                                    implies seq_lt(ki, self.records@[j].key()) by {
                                    if j != b {
                                        lemma_seq_lt_transitive(ki, kb, self.records@[j].key());
                                    }
                                }
                            } else {
                                assert(kb != ki);
                            }
                        }
                        if smaller {
                            best = Some(i);
                        }
                    },
                }
            }
            i = i + 1;
        }
        match best {
            None => {
                proof {
                    assert forall|k: Seq<char>| #[trigger] self@.contains_key(k)
                        implies !unresolved_match(self@[k], tool_id@, arguments_hash@, expected_revision) by {
                        let x = choose|x: int| 0 <= x < self.records@.len() && #[trigger] self.records@[x].key() == k;
                        lemma_map_lookup(self.records@, x);
                    }
                }
                None
            },
            Some(b) => {
                proof {
                    lemma_map_lookup(self.records@, b as int);
                    let kb = self.records@[b as int].key();
                    assert forall|k: Seq<char>| #[trigger] self@.contains_key(k)
                        && unresolved_match(self@[k], tool_id@, arguments_hash@, expected_revision) && k != kb implies seq_lt(kb, k) by {
                        let x = choose|x: int| 0 <= x < self.records@.len() && #[trigger] self.records@[x].key() == k;
                        lemma_map_lookup(self.records@, x);
                    }
                }
                Some(clone_record(&self.records[b]))
            },
        }
    }

    /// Resolves approval `approval_id` at time `resolved_at` (see
    /// `resolve_spec`).
    pub fn resolve_at(
        &mut self,
        approval_id: &str,
        scope_hash: &str,
        decision: ApprovalDecision,
        reason: Option<String>,
        conditions: Option<Vec<JsonMember>>,
        resolved_by: JsonValue,
        resolved_at: String,
    ) -> (result: Result<ApprovalRecord, ApprovalStoreError>)
        requires
            old(self).wf(),
        ensures
            final(self).wf(),
            approvals_sound(final(self)@),
            final_matches(old(self)@, final(self)@, approval_id@, scope_hash@, decision, opt_text(reason),
                opt_members(conditions), resolved_by@, resolved_at@, result),
    {
        let i = match self.find(approval_id) {
            Some(i) => i,
            None => {
                proof {
                    self.lemma_sound();
                    assert(!self@.contains_key(approval_id@));
                }
                return Err(ApprovalStoreError::Stale);
            },
        };
        proof {
            lemma_map_lookup(self.records@, i as int);
            self.lemma_sound();
        }
        let hash: String = scope_hash.to_owned();
        let conflicting = match self.records[i].decision {
            Some(existing) => existing != decision,
            None => false,
        };
        if self.records[i].scope_hash != hash || conflicting {
            return Err(ApprovalStoreError::Stale);
        }
        if self.records[i].decision.is_some() {
            return Ok(clone_record(&self.records[i]));
        }
        let ghost before = self.records@;
        let ghost reason_view = opt_text(reason);
        let ghost conditions_view = opt_members(conditions);
        let ghost by_view = resolved_by@;
        let mut record = clone_record(&self.records[i]);
        record.decision = Some(decision);
        record.resolved_at = Some(resolved_at);
        record.decision_reason = reason;
        record.decision_conditions = conditions;
        record.resolved_by = Some(resolved_by);
        assert(record@ == with_resolution(before[i as int]@, decision, reason_view, conditions_view, by_view,
            record.resolved_at->0@));
        let result = clone_record(&record);
        proof {
            lemma_keyed_update(before, i as int, record);
        }
        self.records.set(i, record);
        proof {
            assert(self.records@ == before.update(i as int, record));
            assert(records_view(self.records@) =~= records_view(before).insert(approval_id@, result@));
            assert forall|x: int| 0 <= x < self.records@.len() implies record_consistent(#[trigger] self.records@[x]@) by {
                if x != i {
                    assert(self.records@[x] == before[x]);
                }
            }
            self.lemma_sound();
        }
        Ok(result)
    }

    /// Resolves approval `approval_id` now: stale unless it exists with
    /// `scope_hash` and no other decision; the first resolution is recorded
    /// with the current time, a repeated one returns the stored record.
    pub fn resolve(
        &mut self,
        approval_id: &str,
        scope_hash: &str,
        decision: ApprovalDecision,
        reason: Option<String>,
        conditions: Option<Vec<JsonMember>>,
        resolved_by: JsonValue,
    ) -> (result: Result<ApprovalRecord, ApprovalStoreError>)
        requires
            old(self).wf(),
        ensures
            final(self).wf(),
            approvals_sound(final(self)@),
            exists|at: Seq<char>| #[trigger] final_matches(old(self)@, final(self)@, approval_id@, scope_hash@, decision,
                opt_text(reason), opt_members(conditions), resolved_by@, at, result) && is_utc_millis_text(at),
    {
        let at = now();
        let ghost at_view = at@;
        let ghost reason_view = opt_text(reason);
        let ghost conditions_view = opt_members(conditions);
        let ghost by_view = resolved_by@;
        let result = self.resolve_at(approval_id, scope_hash, decision, reason, conditions, resolved_by, at);
        assert(final_matches(old(self)@, self@, approval_id@, scope_hash@, decision, reason_view, conditions_view, by_view,
            at_view, result));
        result
    }
}

// ----------------------------------------------------------------------
// Laws.
// ----------------------------------------------------------------------

/// An approval is resolved once: after a resolution succeeds, resolving it
/// again with the same scope hash and decision returns the same record and
/// changes nothing, whatever reason, conditions, resolver and time come with
/// it; another decision or another scope hash is stale and changes nothing.
pub proof fn law_resolution_is_idempotent_only_for_the_exact_scope_and_decision(
    v: Map<Seq<char>, ApprovalView>,
    approval_id: Seq<char>,
    scope_hash: Seq<char>,
    decision: ApprovalDecision,
    reason: Option<Seq<char>>,
    conditions: Option<Seq<(Seq<char>, JsonView)>>,
    resolved_by: JsonView,
    resolved_at: Seq<char>,
    later_reason: Option<Seq<char>>,
    later_conditions: Option<Seq<(Seq<char>, JsonView)>>,
    later_resolved_by: JsonView,
    later_resolved_at: Seq<char>,
    other_decision: ApprovalDecision,
    other_scope_hash: Seq<char>,
)
    requires
        resolve_spec(v, approval_id, scope_hash, decision, reason, conditions, resolved_by, resolved_at).1 is Ok,
    ensures
        ({
            let first = resolve_spec(v, approval_id, scope_hash, decision, reason, conditions, resolved_by, resolved_at);
            &&& resolve_spec(first.0, approval_id, scope_hash, decision, later_reason, later_conditions,
                later_resolved_by, later_resolved_at) == first
            &&& other_decision != decision ==> resolve_spec(first.0, approval_id, scope_hash, other_decision,
                later_reason, later_conditions, later_resolved_by, later_resolved_at)
                == (first.0, Err::<ApprovalView, ApprovalStoreError>(ApprovalStoreError::Stale))
            &&& other_scope_hash != scope_hash ==> resolve_spec(first.0, approval_id, other_scope_hash, decision,
                later_reason, later_conditions, later_resolved_by, later_resolved_at)
                == (first.0, Err::<ApprovalView, ApprovalStoreError>(ApprovalStoreError::Stale))
        }),
{
}

/// A resolution decides the approval for good: it is stored with the
/// decision and a resolution time, no exact-scope lookup finds it as
/// pending any more, and no other approval changes.
pub proof fn law_resolution_ends_the_pending_state(
    v: Map<Seq<char>, ApprovalView>,
    approval_id: Seq<char>,
    scope_hash: Seq<char>,
    decision: ApprovalDecision,
    reason: Option<Seq<char>>,
    conditions: Option<Seq<(Seq<char>, JsonView)>>,
    resolved_by: JsonView,
    resolved_at: Seq<char>,
    tool_id: Seq<char>,
    arguments_hash: Seq<char>,
    expected_revision: Option<u64>,
)
    requires
        approvals_sound(v),
        resolve_spec(v, approval_id, scope_hash, decision, reason, conditions, resolved_by, resolved_at).1 is Ok,
    ensures
        ({
            let after = resolve_spec(v, approval_id, scope_hash, decision, reason, conditions, resolved_by, resolved_at).0;
            &&& approvals_sound(after)
            &&& after.dom() == v.dom()
            &&& after[approval_id].decision == Some(decision)
            &&& after[approval_id].resolved_at is Some
            &&& !unresolved_match(after[approval_id], tool_id, arguments_hash, expected_revision)
            &&& forall|k: Seq<char>| #[trigger] v.contains_key(k) && k != approval_id ==> after[k] == v[k]
        }),
{
    let after = resolve_spec(v, approval_id, scope_hash, decision, reason, conditions, resolved_by, resolved_at).0;
    assert(after.dom() =~= v.dom());
}

/// A new approval is pending: it is stored unresolved under its id with the
/// scope's tool, arguments hash and expected revision, so the exact-scope
/// lookup finds a pending approval, and no other approval changes.
pub proof fn law_created_approval_is_pending(
    v: Map<Seq<char>, ApprovalView>,
    approval_id: Seq<char>,
    scope: ScopeView,
)
    ensures
        ({
            let (after, record) = create_spec(v, approval_id, scope);
            &&& after.contains_key(approval_id)
            &&& after[approval_id] == record
            &&& record.decision is None
            &&& record.scope_hash == approval_scope_hash_spec(approval_id, normalized_scope(scope))
            &&& unresolved_match(record, scope.tool_id, scope.arguments_hash, scope.expected_revision)
            &&& exists|k: Seq<char>| #[trigger] after.contains_key(k)
                && unresolved_match(after[k], scope.tool_id, scope.arguments_hash, scope.expected_revision)
            &&& forall|k: Seq<char>| #[trigger] v.contains_key(k) && k != approval_id ==> after[k] == v[k]
        }),
{
    let (after, record) = create_spec(v, approval_id, scope);
    assert(after.contains_key(approval_id));
}

/// The scope hash binds the approval id, the tool id, the descriptor and
/// arguments hashes, the permission actions, the paid limit, the target
/// references and the expected revision, and nothing else: two scopes that
/// agree on these have the same hash whatever their operation id,
/// arguments, actor and runtime scope.
pub proof fn law_scope_hash_binds_only_the_public_scope(approval_id: Seq<char>, a: ScopeView, b: ScopeView)
    requires
        a.tool_id == b.tool_id,
        a.descriptor_hash == b.descriptor_hash,
        a.arguments_hash == b.arguments_hash,
        a.permission_actions == b.permission_actions,
        a.paid_limit == b.paid_limit,
        a.target_refs == b.target_refs,
        a.expected_revision == b.expected_revision,
    ensures
        approval_scope_hash_spec(approval_id, a) == approval_scope_hash_spec(approval_id, b),
        approval_scope_document_spec(approval_id, a) == approval_scope_document_spec(approval_id, b),
{
}

proof fn lemma_same_view(a: Seq<ApprovalRecord>, b: Seq<ApprovalRecord>)
    requires
        a.len() == b.len(),
        forall|x: int| 0 <= x < a.len() ==> #[trigger] a[x]@ == b[x]@,
        forall|x: int| 0 <= x < a.len() ==> #[trigger] a[x].key() == b[x].key(),
        keys_unique(a),
        keys_unique(b),
    ensures
        records_view(a) == records_view(b),
{
    assert forall|k: Seq<char>| records_view(a).contains_key(k) <==> records_view(b).contains_key(k) by {
        if has_key(a, k) {
            let x = choose|x: int| 0 <= x < a.len() && #[trigger] a[x].key() == k;
            assert(b[x].key() == k);
        }
        if has_key(b, k) {
            let x = choose|x: int| 0 <= x < b.len() && #[trigger] b[x].key() == k;
            assert(a[x].key() == k);
        }
    }
    assert forall|k: Seq<char>| #[trigger] records_view(a).contains_key(k) implies records_view(a)[k] == records_view(b)[k] by {
        let x = choose|x: int| 0 <= x < a.len() && #[trigger] a[x].key() == k;
        lemma_map_lookup(a, x);
        assert(b[x].key() == k);
        lemma_map_lookup(b, x);
    }
    assert(records_view(a) =~= records_view(b));
}


/// The exact-scope lookup finds only a pending approval of the very tool,
/// arguments hash and expected revision asked for, and it passes over no
/// such approval: whatever it returns carries all three and no decision,
/// and a store that holds a pending approval with all three is never
/// answered with nothing.
pub proof fn law_exact_lookup_matches_tool_arguments_and_revision(
    v: Map<Seq<char>, ApprovalView>,
    k: Seq<char>,
    tool_id: Seq<char>,
    arguments_hash: Seq<char>,
    expected_revision: Option<u64>,
)
    ensures
        first_unresolved(v, k, tool_id, arguments_hash, expected_revision) ==> {
            &&& v[k].tool_id == tool_id
            &&& v[k].arguments_hash == arguments_hash
            &&& v[k].expected_revision == expected_revision
            &&& v[k].decision is None
        },
        v.contains_key(k) && v[k].tool_id == tool_id && v[k].arguments_hash == arguments_hash
            && v[k].expected_revision == expected_revision && v[k].decision is None
            ==> unresolved_match(v[k], tool_id, arguments_hash, expected_revision),
{
}

} // verus!

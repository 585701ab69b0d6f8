use sha2::Digest;
use star_control::approval_store::{
    approval_scope_document, approval_scope_hash, normalize_permissions, ApprovalDecision, ApprovalRecord, ApprovalScope, ApprovalStore, ApprovalStoreError,
    APPROVAL_FORMAT_VERSION,
};
use star_control::json::{JsonMember, JsonValue};

const DESCRIPTOR: &str = "9f86d081884c7d659a2feaa0c55ad015a3bf4f1b2b0b822cd15d6c15b0f00a08";
const ARGUMENTS: &str = "60303ae22b998861bce3b28f33eec1be758a213c86c93c076dbe9f558c11c752";
const STALE: &str = "a1fce4363854ff888cff4b8e7875d600c2682390412a8cf79b37d0b11148b0fa";

fn scope(tool_id: &str, expected_revision: Option<u64>, permissions: &[&str]) -> ApprovalScope {
    ApprovalScope {
        operation_id: "op-1".to_owned(),
        tool_id: tool_id.to_owned(),
        descriptor_hash: DESCRIPTOR.to_owned(),
        arguments_hash: ARGUMENTS.to_owned(),
        permission_actions: permissions.iter().map(|p| (*p).to_owned()).collect(),
        paid_limit: JsonValue::Null,
        target_refs: vec![],
        expected_revision,
        arguments: JsonValue::Object(vec![JsonMember { key: "value".to_owned(), value: JsonValue::Str("same".to_owned()) }]),
        actor: JsonValue::Null,
        runtime_scope: JsonValue::Object(vec![]),
    }
}

fn kind(value: &str) -> JsonValue {
    JsonValue::Object(vec![JsonMember { key: "kind".to_owned(), value: JsonValue::Str(value.to_owned()) }])
}

#[test]
fn approval_resolution_is_idempotent_only_for_the_exact_scope_and_decision() {
    let mut store = ApprovalStore::new();
    let record = store.create(
        "appr-1".to_owned(),
        scope("user.fake.paid.run", Some(7), &["paid_action"]),
    );
    let approved = store
        .resolve(
            &record.approval_id,
            &record.scope_hash,
            ApprovalDecision::Approve,
            Some("reviewed".to_owned()),
            Some(vec![]),
            kind("mcp"),
        )
        .unwrap();
    let repeated = store
        .resolve(
            &record.approval_id,
            &record.scope_hash,
            ApprovalDecision::Approve,
            Some("different repeated reason".to_owned()),
            None,
            kind("replay"),
        )
        .unwrap();
    assert_eq!(approved.resolved_at, repeated.resolved_at);
    assert!(approved.resolved_at.is_some());
    assert_eq!(approved.decision_reason.as_deref(), Some("reviewed"));
    assert_eq!(repeated.decision_reason, approved.decision_reason);
    assert_eq!(repeated.decision_conditions.as_ref().map(Vec::len), Some(0));
    assert!(matches!(repeated.resolved_by, Some(JsonValue::Object(ref m)) if matches!(&m[0].value, JsonValue::Str(s) if s == "mcp")));
    assert!(matches!(
        store.resolve(&record.approval_id, &record.scope_hash, ApprovalDecision::Deny, None, None, JsonValue::Null),
        Err(ApprovalStoreError::Stale)
    ));
    assert!(matches!(
        store.resolve(&record.approval_id, STALE, ApprovalDecision::Approve, None, None, JsonValue::Null),
        Err(ApprovalStoreError::Stale)
    ));
}

#[test]
fn unknown_approval_is_stale() {
    let mut store = ApprovalStore::new();
    assert!(matches!(
        store.resolve("appr-missing", STALE, ApprovalDecision::Approve, None, None, JsonValue::Null),
        Err(ApprovalStoreError::Stale)
    ));
    assert_eq!(ApprovalStoreError::Stale.message(), "POLICY_APPROVAL_STALE");
}

#[test]
fn resolution_at_a_given_time_records_every_field_once() {
    let mut store = ApprovalStore::new();
    let created = store.create("appr-1".to_owned(), scope("tool", None, &[]));
    let hash = created.scope_hash.clone();
    let denied = store
        .resolve_at(
            "appr-1",
            &hash,
            ApprovalDecision::Deny,
            Some("no".to_owned()),
            None,
            kind("cli"),
            "2026-01-02T03:04:05.678Z".to_owned(),
        )
        .unwrap();
    assert_eq!(denied.decision, Some(ApprovalDecision::Deny));
    assert_eq!(denied.resolved_at.as_deref(), Some("2026-01-02T03:04:05.678Z"));
    let again = store
        .resolve_at("appr-1", &hash, ApprovalDecision::Deny, None, None, JsonValue::Null, "later".to_owned())
        .unwrap();
    assert_eq!(again.resolved_at.as_deref(), Some("2026-01-02T03:04:05.678Z"));
    assert_eq!(again.decision_reason.as_deref(), Some("no"));
    let stored = store.get("appr-1").unwrap();
    assert_eq!(stored.resolved_at.as_deref(), Some("2026-01-02T03:04:05.678Z"));
}

#[test]
fn permission_actions_are_stored_sorted_and_once() {
    let normalized = normalize_permissions(&vec![
        "write".to_owned(),
        "paid_action".to_owned(),
        "write".to_owned(),
        "delete".to_owned(),
    ]);
    assert_eq!(normalized, vec!["delete".to_owned(), "paid_action".to_owned(), "write".to_owned()]);
    let mut store = ApprovalStore::new();
    let record = store.create("appr-1".to_owned(), scope("tool", None, &["b", "a", "b"]));
    assert_eq!(record.permission_actions, vec!["a".to_owned(), "b".to_owned()]);
    assert!(record.decision.is_none());
    assert!(record.resolved_at.is_none());
}

#[test]
fn exact_scope_lookup_finds_only_pending_approvals_and_the_first_id() {
    let mut store = ApprovalStore::new();
    let b = store.create("appr-b".to_owned(), scope("tool", Some(3), &[]));
    let a = store.create("appr-a".to_owned(), scope("tool", Some(3), &[]));
    store.create("appr-c".to_owned(), scope("tool", None, &[]));
    let found = store.find_unresolved_exact("tool", ARGUMENTS, Some(3)).unwrap();
    assert_eq!(found.approval_id, "appr-a");
    assert!(store.find_unresolved_exact("tool", ARGUMENTS, Some(4)).is_none());
    assert!(store.find_unresolved_exact("other", ARGUMENTS, Some(3)).is_none());
    assert_eq!(store.find_unresolved_exact("tool", ARGUMENTS, None).unwrap().approval_id, "appr-c");

    store.resolve("appr-a", &a.scope_hash, ApprovalDecision::Approve, None, None, JsonValue::Null).unwrap();
    assert_eq!(store.find_unresolved_exact("tool", ARGUMENTS, Some(3)).unwrap().approval_id, "appr-b");
    store.resolve("appr-b", &b.scope_hash, ApprovalDecision::Deny, None, None, JsonValue::Null).unwrap();
    assert!(store.find_unresolved_exact("tool", ARGUMENTS, Some(3)).is_none());
    assert!(store.get("appr-a").unwrap().decision == Some(ApprovalDecision::Approve));
}

fn stored(store: &mut ApprovalStore, id: &str) -> ApprovalRecord {
    store.create(id.to_owned(), scope("tool", None, &["x"]))
}

#[test]
fn persisted_entries_reload_only_when_consistent() {
    let mut store = ApprovalStore::new();
    let a = stored(&mut store, "appr-a");
    let b = stored(&mut store, "appr-b");
    let entries = vec![("appr-a".to_owned(), a), ("appr-b".to_owned(), b)];
    let reloaded = ApprovalStore::from_entries(APPROVAL_FORMAT_VERSION, &entries).unwrap();
    assert_eq!(reloaded.records().len(), 2);
    assert!(reloaded.get("appr-b").is_some());

    assert!(matches!(ApprovalStore::from_entries(2, &entries), Err(ApprovalStoreError::Corrupt)));

    let mut store = ApprovalStore::new();
    let a = stored(&mut store, "appr-a");
    assert!(matches!(
        ApprovalStore::from_entries(APPROVAL_FORMAT_VERSION, &vec![("appr-z".to_owned(), a)]),
        Err(ApprovalStoreError::Corrupt)
    ));

    let mut store = ApprovalStore::new();
    let mut unsorted = stored(&mut store, "appr-a");
    unsorted.permission_actions = vec!["y".to_owned(), "x".to_owned()];
    assert!(matches!(
        ApprovalStore::from_entries(APPROVAL_FORMAT_VERSION, &vec![("appr-a".to_owned(), unsorted)]),
        Err(ApprovalStoreError::Corrupt)
    ));

    let mut store = ApprovalStore::new();
    let mut undated = stored(&mut store, "appr-a");
    undated.decision = Some(ApprovalDecision::Approve);
    assert!(matches!(
        ApprovalStore::from_entries(APPROVAL_FORMAT_VERSION, &vec![("appr-a".to_owned(), undated)]),
        Err(ApprovalStoreError::Corrupt)
    ));

    let mut store = ApprovalStore::new();
    let first = stored(&mut store, "appr-a");
    let mut other = ApprovalStore::new();
    let second = stored(&mut other, "appr-a");
    assert!(matches!(
        ApprovalStore::from_entries(
            APPROVAL_FORMAT_VERSION,
            &vec![("appr-a".to_owned(), first), ("appr-a".to_owned(), second)]
        ),
        Err(ApprovalStoreError::Corrupt)
    ));
}

#[test]
fn persisted_entries_with_a_wrong_scope_hash_are_corrupt() {
    let mut store = ApprovalStore::new();
    let mut forged = stored(&mut store, "appr-a");
    assert!(ApprovalStore::from_entries(APPROVAL_FORMAT_VERSION, &vec![("appr-a".to_owned(), stored(&mut ApprovalStore::new(), "appr-a"))]).is_ok());
    forged.scope_hash = format!("sha256:{STALE}");
    assert!(matches!(
        ApprovalStore::from_entries(APPROVAL_FORMAT_VERSION, &vec![("appr-a".to_owned(), forged)]),
        Err(ApprovalStoreError::Corrupt)
    ));
    let mut store = ApprovalStore::new();
    let mut widened = stored(&mut store, "appr-a");
    widened.target_refs = vec![kind("project_root")];
    assert!(matches!(
        ApprovalStore::from_entries(APPROVAL_FORMAT_VERSION, &vec![("appr-a".to_owned(), widened)]),
        Err(ApprovalStoreError::Corrupt)
    ));
}

#[test]
fn scope_document_and_hash_have_exact_values() {
    let s = scope("user.fake.paid.run", Some(7), &["paid_action"]);
    let document = approval_scope_document("appr-1", &s);
    assert_eq!(
        document,
        format!(
            "{{\"approval_id\":\"appr-1\",\"arguments_hash\":\"{ARGUMENTS}\",\"descriptor_hash\":\"{DESCRIPTOR}\",\"expected_revision\":7,\"paid_limit\":null,\"permission_actions\":[\"paid_action\"],\"target_refs\":[],\"tool_id\":\"user.fake.paid.run\"}}"
        )
    );
    let expected = format!("sha256:{:x}", sha2::Sha256::digest(document.as_bytes()));
    assert_eq!(approval_scope_hash("appr-1", &s), expected);
    let mut store = ApprovalStore::new();
    let record = store.create("appr-1".to_owned(), s);
    assert_eq!(record.scope_hash, expected);
}

#[test]
fn scope_hash_uses_only_the_frozen_public_scope_fields() {
    let approval_id = "appr-frozen";
    let mut s = scope("user.fake.paid.run", Some(7), &["paid_action"]);
    s.target_refs = vec![JsonValue::Object(vec![
        JsonMember { key: "kind".to_owned(), value: JsonValue::Str("project_root".to_owned()) },
        JsonMember { key: "path_hash".to_owned(), value: JsonValue::Str(format!("sha256:{:x}", sha2::Sha256::digest(b"project"))) },
    ])];
    let expected = approval_scope_hash(approval_id, &s);
    s.operation_id = "op-other".to_owned();
    s.arguments = JsonValue::Object(vec![JsonMember { key: "changed".to_owned(), value: JsonValue::Bool(true) }]);
    s.actor = JsonValue::Object(vec![JsonMember { key: "changed".to_owned(), value: JsonValue::Bool(true) }]);
    s.runtime_scope = JsonValue::Object(vec![JsonMember { key: "changed".to_owned(), value: JsonValue::Bool(true) }]);
    assert_eq!(approval_scope_hash(approval_id, &s), expected);
    s.target_refs = vec![JsonValue::Object(vec![
        JsonMember { key: "kind".to_owned(), value: JsonValue::Str("project_root".to_owned()) },
        JsonMember { key: "path_hash".to_owned(), value: JsonValue::Str(format!("sha256:{:x}", sha2::Sha256::digest(b"other"))) },
    ])];
    assert_ne!(approval_scope_hash(approval_id, &s), expected);
}

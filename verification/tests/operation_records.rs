use star_control::json::{json_get_member, JsonMember, JsonValue};
use star_control::operation_store::{
    clone_snapshot, parse_status, terminal, valid_transition, IdempotencyRecord, OperationCreate, OperationEvent,
    OperationSnapshot, OperationStatus, OperationStore, OperationStoreError, EVENT_PAGE_SIZE,
};

fn request(invocation_hash: &str, idempotency_key: Option<&str>) -> OperationCreate {
    OperationCreate {
        command: "tool.invoke".to_owned(),
        correlation_id: "req_01K0QBFCY78G2GB5H9VBK9Q1G8".to_owned(),
        tool_id: "user.fake.echo.run".to_owned(),
        descriptor_hash: "sha256:aaaaaaaaaaaaaaaaaaaaaaaaaaaaaaaaaaaaaaaaaaaaaaaaaaaaaaaaaaaaaaaa".to_owned(),
        arguments_hash: "sha256:bbbbbbbbbbbbbbbbbbbbbbbbbbbbbbbbbbbbbbbbbbbbbbbbbbbbbbbbbbbbbbbb".to_owned(),
        cancellable: true,
        idempotency_key: idempotency_key.map(str::to_owned),
        invocation_hash: invocation_hash.to_owned(),
    }
}

fn create(store: &mut OperationStore) -> OperationSnapshot {
    store.create(request("invocation", Some("key")), "op_first".to_owned()).unwrap()
}

fn create_without_idempotency(store: &mut OperationStore, suffix: &str) -> OperationSnapshot {
    let mut request = request(&format!("invocation-{suffix}"), None);
    request.correlation_id = format!("correlation-{suffix}");
    store.create(request, format!("op_{suffix}")).unwrap()
}

fn object(members: &[(&str, JsonValue)]) -> JsonValue {
    JsonValue::Object(
        members
            .iter()
            .map(|(k, v)| JsonMember { key: (*k).to_owned(), value: clone_value(v) })
            .collect(),
    )
}

fn clone_value(v: &JsonValue) -> JsonValue {
    star_control::json::clone_json(v)
}

fn text(s: &str) -> JsonValue {
    JsonValue::Str(s.to_owned())
}

/// What a Controller restart sees: the same records, then recovery.
fn restart(store: &OperationStore) -> OperationStore {
    let operations: Vec<OperationSnapshot> = store.operations_in_order().iter().map(clone_snapshot).collect();
    let idempotency: Vec<IdempotencyRecord> = store
        .idempotency_records()
        .iter()
        .map(|r| IdempotencyRecord {
            idempotency_key: r.idempotency_key.clone(),
            operation_id: r.operation_id.clone(),
            invocation_hash: r.invocation_hash.clone(),
        })
        .collect();
    let mut reloaded = OperationStore::from_records(operations, idempotency).unwrap();
    reloaded.recover();
    reloaded
}

#[test]
fn repeated_cancel_keeps_one_intent_and_terminal_state_is_immutable() {
    let mut store = OperationStore::new();
    let operation = create(&mut store);
    store.transition(operation.operation_id.as_str(), "queued", "ready").unwrap();
    let first = store.request_cancel(operation.operation_id.as_str(), "user").unwrap();
    let second = store.request_cancel(operation.operation_id.as_str(), "again").unwrap();
    assert!(first.cancel_requested && second.cancel_requested);
    assert_eq!(first.latest_event_sequence, second.latest_event_sequence);
    store
        .complete(operation.operation_id.as_str(), Err(object(&[("code", text("TOOL_CANCELLED"))])))
        .unwrap();
    let terminal = store.get(operation.operation_id.as_str()).unwrap();
    assert_eq!(terminal.status.as_str(), "cancelled");
    assert!(terminal.cancel_effective);
    assert!(matches!(
        store.transition(operation.operation_id.as_str(), "running", "late"),
        Err(OperationStoreError::Transition)
    ));
    let late = store
        .complete(operation.operation_id.as_str(), Ok(object(&[("late", text("result"))])))
        .unwrap();
    assert_eq!(late.status.as_str(), "cancelled");
    assert!(late.result.is_none());
}

#[test]
fn idempotency_key_reuses_only_the_exact_invocation_identity() {
    let mut store = OperationStore::new();
    let first = create(&mut store);
    let repeated = store.create(request("invocation", Some("key")), "op_second".to_owned()).unwrap();
    assert_eq!(repeated.operation_id, first.operation_id);
    assert!(matches!(
        store.create(request("different-invocation", Some("key")), "op_third".to_owned()),
        Err(OperationStoreError::IdempotencyConflict)
    ));
}

#[test]
fn operation_events_are_paged_in_order_at_256_items() {
    let mut store = OperationStore::new();
    let operation = create(&mut store);
    let mut record = clone_snapshot(&store.get(operation.operation_id.as_str()).unwrap());
    for index in 0..300u64 {
        record.latest_event_sequence += 1;
        record.events.push(OperationEvent {
            sequence: record.latest_event_sequence,
            timestamp: "2026-07-18T00:00:00.000Z".to_owned(),
            phase: "progress".to_owned(),
            detail: format!("event-{index}"),
        });
    }
    let store = OperationStore::from_records(vec![record], vec![]).unwrap();
    let first = store.events_after(operation.operation_id.as_str(), 0).unwrap();
    assert_eq!(first.len(), 256);
    assert_eq!(EVENT_PAGE_SIZE, 256);
    assert!(first.windows(2).all(|events| events[0].sequence < events[1].sequence));
    let second = store
        .events_after(operation.operation_id.as_str(), first.last().unwrap().sequence)
        .unwrap();
    assert_eq!(second.len(), 45);
    assert!(second.windows(2).all(|events| events[0].sequence < events[1].sequence));
}

#[test]
fn restart_marks_a_nonterminal_operation_outcome_unknown_without_retrying() {
    let mut store = OperationStore::new();
    let operation = create(&mut store);
    store.transition(operation.operation_id.as_str(), "queued", "ready").unwrap();
    store.transition(operation.operation_id.as_str(), "starting", "spawn").unwrap();
    store.transition(operation.operation_id.as_str(), "running", "started").unwrap();
    let store = restart(&store);
    assert_eq!(store.get(operation.operation_id.as_str()).unwrap().status.as_str(), "outcome_unknown");
}

#[test]
fn durable_operation_survives_client_and_gateway_lifetime() {
    let mut controller_store = OperationStore::new();
    let operation = create_without_idempotency(&mut controller_store, "gateway");
    controller_store.transition(operation.operation_id.as_str(), "queued", "accepted").unwrap();
    controller_store.transition(operation.operation_id.as_str(), "starting", "starting").unwrap();
    controller_store
        .transition(operation.operation_id.as_str(), "running", "process_started")
        .unwrap();
    controller_store
        .complete(operation.operation_id.as_str(), Ok(object(&[("ok", JsonValue::Bool(true))])))
        .unwrap();
    let reconnected_gateway_view = restart(&controller_store);
    let operation = reconnected_gateway_view.get(operation.operation_id.as_str()).unwrap();
    assert_eq!(operation.status.as_str(), "succeeded");
    let result = operation.result.as_ref().unwrap();
    assert!(matches!(json_get_member(result, "ok"), Some(JsonValue::Bool(true))));
}

#[test]
fn crash_before_process_start_recovers_failed_without_replay() {
    let mut store = OperationStore::new();
    let operation = create_without_idempotency(&mut store, "queued");
    store.transition(operation.operation_id.as_str(), "queued", "waiting").unwrap();
    let recovered = restart(&store);
    let operation = recovered.get(operation.operation_id.as_str()).unwrap();
    assert_eq!(operation.status.as_str(), "failed");
    let code = operation.error.as_ref().and_then(|error| json_get_member(error, "code"));
    assert!(matches!(code, Some(JsonValue::Str(c)) if c == "CONTROLLER_RECOVERED_BEFORE_PROCESS_START"));
    assert!(!operation.events.iter().any(|event| event.phase == "running"));
}

#[test]
fn approval_approve_deny_and_expire_follow_the_frozen_state_machine() {
    let mut store = OperationStore::new();
    let approved = create_without_idempotency(&mut store, "approved");
    store.transition(approved.operation_id.as_str(), "approval_wait", "policy").unwrap();
    assert_eq!(
        store.transition(approved.operation_id.as_str(), "queued", "approved").unwrap().status.as_str(),
        "queued"
    );

    for (suffix, terminal_state) in [("denied", "denied"), ("expired", "expired")] {
        let operation = create_without_idempotency(&mut store, suffix);
        store.transition(operation.operation_id.as_str(), "approval_wait", "policy").unwrap();
        assert_eq!(
            store.transition(operation.operation_id.as_str(), terminal_state, suffix).unwrap().status.as_str(),
            terminal_state
        );
    }
}

#[test]
fn statuses_round_trip_and_terminal_states_have_no_successor() {
    for name in [
        "received", "resolving", "approval_wait", "queued", "starting", "running", "cancelling", "succeeded",
        "failed", "cancelled", "denied", "expired", "outcome_unknown",
    ] {
        let status = parse_status(name).unwrap();
        assert_eq!(status.as_str(), name);
    }
    assert!(parse_status("done").is_none());
    for status in [
        OperationStatus::Succeeded,
        OperationStatus::Failed,
        OperationStatus::Cancelled,
        OperationStatus::Denied,
        OperationStatus::Expired,
        OperationStatus::OutcomeUnknown,
    ] {
        assert!(terminal(status));
        assert!(!valid_transition(status, OperationStatus::Running));
    }
    assert!(valid_transition(OperationStatus::Received, OperationStatus::Queued));
    assert!(!valid_transition(OperationStatus::Received, OperationStatus::Running));
}

#[test]
fn unknown_operations_and_invalid_statuses_are_errors() {
    let mut store = OperationStore::new();
    let operation = create(&mut store);
    assert!(store.get("op_missing").is_none());
    assert!(store.events_after("op_missing", 0).is_none());
    assert!(matches!(store.transition("op_missing", "queued", "x"), Err(OperationStoreError::Corrupt)));
    assert!(matches!(
        store.transition(operation.operation_id.as_str(), "bogus", "x"),
        Err(OperationStoreError::Transition)
    ));
    let found = store.find_by_correlation("req_01K0QBFCY78G2GB5H9VBK9Q1G8").unwrap();
    assert_eq!(found.operation_id, operation.operation_id);
    assert!(store.find_by_correlation("req_missing").is_none());
}

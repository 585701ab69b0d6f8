use star_control::concurrency_gate::{ConcurrencyGate, GateRequest, OperationLockKey, QueueTimeout};

fn lock(name: &str) -> OperationLockKey {
    OperationLockKey {
        scope_kind: "custom".to_owned(),
        project_id: Some("project".to_owned()),
        tool_id: "user.fake.echo.run".to_owned(),
        lock_hash: name.to_owned(),
    }
}

fn request(tool: &str, max_parallel: u16, locks: Vec<OperationLockKey>) -> GateRequest {
    GateRequest { tool_id: tool.to_owned(), max_parallel, locks }
}

#[test]
fn opposite_lock_request_order_cannot_deadlock() {
    let mut gate = ConcurrencyGate::new();
    let first = gate.try_acquire(request("first", 1, vec![lock("a"), lock("b")])).unwrap();
    assert!(gate.try_acquire(request("second", 1, vec![lock("b"), lock("a")])).is_none());
    gate.release(first);
    assert!(gate.try_acquire(request("second", 1, vec![lock("b"), lock("a")])).is_some());
}

#[test]
fn queue_timeout_occurs_before_any_process_start() {
    let mut gate = ConcurrencyGate::new();
    let held = gate.try_acquire(request("held", 1, vec![lock("exclusive")])).unwrap();
    let mut process_starts = 0;
    let result = match gate.try_acquire(request("waiting", 1, vec![lock("exclusive")])) {
        Some(lease) => {
            process_starts += 1;
            Ok(lease)
        }
        None => Err(QueueTimeout),
    };
    assert_eq!(result.err(), Some(QueueTimeout));
    assert_eq!(process_starts, 0);
    assert_eq!(QueueTimeout.code(), "TOOL_QUEUE_TIMEOUT");
    gate.release(held);
}

#[test]
fn parallel_slots_are_bounded_and_zero_means_one() {
    let mut gate = ConcurrencyGate::new();
    let a = gate.try_acquire(request("tool", 2, vec![])).unwrap();
    let b = gate.try_acquire(request("tool", 2, vec![])).unwrap();
    assert_eq!(gate.active_count("tool"), 2);
    assert!(gate.try_acquire(request("tool", 2, vec![])).is_none());
    gate.release(a);
    assert_eq!(gate.active_count("tool"), 1);
    gate.release(b);
    assert_eq!(gate.active_count("tool"), 0);
    assert!(gate.is_idle());

    let only = gate.try_acquire(request("solo", 0, vec![])).unwrap();
    assert!(gate.try_acquire(request("solo", 0, vec![])).is_none());
    gate.release(only);
}

#[test]
fn repeated_locks_are_held_once_and_released_together() {
    let mut gate = ConcurrencyGate::new();
    let lease = gate.try_acquire(request("tool", 1, vec![lock("a"), lock("a"), lock("b")])).unwrap();
    assert_eq!(lease.locks.len(), 2);
    assert!(!gate.is_idle());
    assert!(gate.try_acquire(request("other", 1, vec![lock("a")])).is_none());
    assert!(gate.try_acquire(request("other", 1, vec![lock("b")])).is_none());
    gate.release(lease);
    assert!(gate.is_idle());
    let again = gate.try_acquire(request("other", 1, vec![lock("a"), lock("b")])).unwrap();
    gate.release(again);
    assert!(gate.is_idle());
}

use chrono::TimeZone;
use star_control::lifecycle::{CodexLifecycle, ControllerLifecycleDecision, InstanceState, CONTROLLER_IDLE_GRACE_MILLIS};

fn now() -> i64 {
    chrono::Utc.with_ymd_and_hms(2026, 7, 18, 0, 0, 0).unwrap().timestamp_millis()
}

fn seconds(n: i64) -> i64 {
    n * 1000
}

#[test]
fn root_stop_starts_a_cancellable_thirty_second_lease() {
    let mut lifecycle = CodexLifecycle::default();
    let start = now();
    lifecycle.user_prompt_submitted("app-1", "task-1", start);
    lifecycle.root_stop("task-1", start + seconds(1));

    assert_eq!(
        lifecycle.decision(start + seconds(1)),
        ControllerLifecycleDecision::IdleUntil(start + seconds(31))
    );
    lifecycle.user_prompt_submitted("app-1", "task-1", start + seconds(10));
    assert_eq!(lifecycle.decision(start + seconds(10)), ControllerLifecycleDecision::KeepAlive);
}

#[test]
fn stop_does_not_finish_a_turn_while_a_tool_or_subagent_is_active() {
    let mut lifecycle = CodexLifecycle::default();
    let start = now();
    lifecycle.user_prompt_submitted("app-1", "task-1", start);
    assert!(lifecycle.tool_started("task-1", start));
    assert!(lifecycle.subagent_started("task-1", start));
    assert!(lifecycle.root_stop("task-1", start));
    assert_eq!(lifecycle.decision(start), ControllerLifecycleDecision::KeepAlive);

    assert!(lifecycle.tool_finished("task-1", start));
    assert_eq!(lifecycle.decision(start), ControllerLifecycleDecision::KeepAlive);
    assert!(lifecycle.subagent_finished("task-1", start));
    assert!(matches!(lifecycle.decision(start), ControllerLifecycleDecision::IdleUntil(_)));
}

#[test]
fn a_connected_mcp_does_not_keep_the_controller_alive() {
    let mut lifecycle = CodexLifecycle::default();
    let start = now();
    lifecycle.session_started("app-1", "task-1", start);
    lifecycle.mcp_initialized("mcp-1", "app-1", Some("task-1"), None, start);
    assert!(matches!(lifecycle.decision(start), ControllerLifecycleDecision::IdleUntil(_)));
}

#[test]
fn terminal_instance_requests_immediate_shutdown_even_if_mcp_eof_is_late() {
    let mut lifecycle = CodexLifecycle::default();
    let start = now();
    lifecycle.user_prompt_submitted("app-1", "task-1", start);
    lifecycle.mcp_initialized("mcp-1", "app-1", Some("task-1"), None, start);
    assert!(lifecycle.instance_exited("app-1", start + seconds(1)));
    assert_eq!(lifecycle.decision(start + seconds(1)), ControllerLifecycleDecision::ShutdownNow);
}

#[test]
fn unknown_instance_fails_closed_instead_of_becoming_idle() {
    let mut lifecycle = CodexLifecycle::default();
    let start = now();
    lifecycle.session_started("app-1", "task-1", start);
    assert!(lifecycle.instance_became_unknown("app-1", start));
    assert_eq!(
        lifecycle.decision(start + seconds(600)),
        ControllerLifecycleDecision::BlockedByUnknownInstance
    );
}

#[test]
fn missing_owned_desktop_exits_all_of_its_tasks_immediately() {
    let mut lifecycle = CodexLifecycle::default();
    let start = now();
    lifecycle.user_prompt_submitted_with_owner("desktop-41", "task-a", Some(41), start);
    lifecycle.user_prompt_submitted_with_owner("desktop-41", "task-b", Some(41), start);
    assert!(lifecycle.reconcile_owner_processes(&std::collections::BTreeSet::new(), start));
    assert_eq!(lifecycle.decision(start), ControllerLifecycleDecision::ShutdownNow);
    assert!(lifecycle.tasks().iter().all(|task| !task.work_active));
}

#[test]
fn idle_lease_keeps_its_start_across_repeated_decisions() {
    let mut lifecycle = CodexLifecycle::default();
    let start = now();
    lifecycle.user_prompt_submitted("app-1", "task-1", start);
    assert!(lifecycle.root_stop("task-1", start));
    assert_eq!(
        lifecycle.decision(start + seconds(5)),
        ControllerLifecycleDecision::IdleUntil(start + seconds(5) + CONTROLLER_IDLE_GRACE_MILLIS)
    );
    assert_eq!(
        lifecycle.decision(start + seconds(20)),
        ControllerLifecycleDecision::IdleUntil(start + seconds(35))
    );
}

#[test]
fn an_empty_projection_shuts_down_and_observations_are_recorded() {
    let mut lifecycle = CodexLifecycle::new();
    assert!(!lifecycle.has_observations());
    assert_eq!(lifecycle.decision(now()), ControllerLifecycleDecision::ShutdownNow);
    lifecycle.session_started("app-1", "task-1", now());
    assert!(lifecycle.has_observations());
    assert_eq!(lifecycle.instances().len(), 1);
    assert_eq!(lifecycle.instances()[0].state, InstanceState::Active);
    assert_eq!(lifecycle.tasks().len(), 1);
    assert!(!lifecycle.tool_finished("task-unknown", now()));
}

#[test]
fn reconciling_live_owners_keeps_their_tasks() {
    let mut lifecycle = CodexLifecycle::default();
    let start = now();
    lifecycle.user_prompt_submitted_with_owner("desktop-41", "task-a", Some(41), start);
    let live: std::collections::BTreeSet<u32> = [41].into_iter().collect();
    assert!(!lifecycle.reconcile_owner_processes(&live, start));
    assert_eq!(lifecycle.decision(start), ControllerLifecycleDecision::KeepAlive);
}

#[test]
fn mcp_eof_is_recorded_without_ending_work() {
    let mut lifecycle = CodexLifecycle::default();
    let start = now();
    lifecycle.user_prompt_submitted("app-1", "task-1", start);
    lifecycle.mcp_initialized("mcp-1", "app-1", Some("task-1"), None, start);
    assert!(lifecycle.mcp_eof("mcp-1", start));
    assert!(!lifecycle.mcp_eof("mcp-unknown", start));
    assert_eq!(lifecycle.connections().len(), 1);
    assert_eq!(lifecycle.decision(start), ControllerLifecycleDecision::KeepAlive);
}

//! Controller-owned projection of observable Codex task lifetime.
//!
//! An open stdio MCP connection is kept apart from a running work session:
//! a gateway may stay connected while its Codex task is open, but it never
//! keeps the Controller alive by itself.  Timestamps are milliseconds since
//! the Unix epoch.
use std::collections::BTreeSet;

use vstd::prelude::*;

use crate::keyed::{Keyed, keys_unique, has_key, keyed_map, lemma_key_index, lemma_keyed_update, lemma_keyed_push};

verus! {

/// Idle grace after the last work ends, in milliseconds (thirty seconds).
pub const CONTROLLER_IDLE_GRACE_MILLIS: i64 = 30_000;

#[derive(Clone, Copy, Debug, PartialEq, Eq, Structural)]
pub enum InstanceState {
    Active,
    Unknown,
    Exited,
}

#[derive(Clone, Copy, Debug, PartialEq, Eq, Structural)]
pub enum ConnectionState {
    Connected,
    Eof,
}

#[derive(Debug)]
pub struct InstanceSnapshot {
    pub instance_id: String,
    /// Best-effort PID of the owning Codex Desktop process.
    pub owner_pid: Option<u32>,
    pub state: InstanceState,
    pub observed_at: i64,
    pub exited_at: Option<i64>,
}

#[derive(Debug)]
pub struct TaskSnapshot {
    pub task_id: String,
    pub instance_id: String,
    pub observed_at: i64,
    pub root_stop_observed: bool,
    pub tool_activity: u32,
    pub subagent_activity: u32,
    pub operation_activity: u32,
    pub work_active: bool,
}

#[derive(Debug)]
pub struct McpConnectionSnapshot {
    pub connection_id: String,
    pub task_id: Option<String>,
    pub instance_id: String,
    pub state: ConnectionState,
    pub observed_at: i64,
}

#[derive(Clone, Copy, Debug, PartialEq, Eq, Structural)]
pub enum ControllerLifecycleDecision {
    KeepAlive,
    IdleUntil(i64),
    ShutdownNow,
    BlockedByUnknownInstance,
}

#[derive(Clone, Copy, Debug, PartialEq, Eq)]
pub enum Activity {
    Tool,
    Subagent,
    Operation,
}

/// What is known of one Codex instance.
pub struct InstanceView {
    pub owner_pid: Option<u32>,
    pub state: InstanceState,
    pub observed_at: i64,
    pub exited_at: Option<i64>,
}

/// What is known of one Codex task.
pub struct TaskView {
    pub instance_id: Seq<char>,
    pub observed_at: i64,
    pub root_stop_observed: bool,
    pub tool_activity: u32,
    pub subagent_activity: u32,
    pub operation_activity: u32,
    pub work_active: bool,
}

/// What is known of one MCP connection.
pub struct ConnectionView {
    pub task_id: Option<Seq<char>>,
    pub instance_id: Seq<char>,
    pub state: ConnectionState,
    pub observed_at: i64,
}

/// The whole lifecycle projection: instances, tasks and connections by id,
/// and the start of the current idle lease.
pub struct LifecycleView {
    pub instances: Map<Seq<char>, InstanceView>,
    pub tasks: Map<Seq<char>, TaskView>,
    pub connections: Map<Seq<char>, ConnectionView>,
    pub idle_since: Option<i64>,
}

impl Keyed for InstanceSnapshot {
    open spec fn key(&self) -> Seq<char> {
        self.instance_id@
    }
}

impl Keyed for TaskSnapshot {
    open spec fn key(&self) -> Seq<char> {
        self.task_id@
    }
}

impl Keyed for McpConnectionSnapshot {
    open spec fn key(&self) -> Seq<char> {
        self.connection_id@
    }
}

impl View for InstanceSnapshot {
    type V = InstanceView;

    open spec fn view(&self) -> InstanceView {
        InstanceView {
            owner_pid: self.owner_pid,
            state: self.state,
            observed_at: self.observed_at,
            exited_at: self.exited_at,
        }
    }
}

impl View for TaskSnapshot {
    type V = TaskView;

    open spec fn view(&self) -> TaskView {
        TaskView {
            instance_id: self.instance_id@,
            observed_at: self.observed_at,
            root_stop_observed: self.root_stop_observed,
            tool_activity: self.tool_activity,
            subagent_activity: self.subagent_activity,
            operation_activity: self.operation_activity,
            work_active: self.work_active,
        }
    }
}

pub open spec fn opt_string_view(value: Option<String>) -> Option<Seq<char>> {
    match value {
        Some(s) => Some(s@),
        None => None,
    }
}

pub open spec fn opt_str_view(value: Option<&str>) -> Option<Seq<char>> {
    match value {
        Some(s) => Some(s@),
        None => None,
    }
}

impl View for McpConnectionSnapshot {
    type V = ConnectionView;

    open spec fn view(&self) -> ConnectionView {
        ConnectionView {
            task_id: opt_string_view(self.task_id),
            instance_id: self.instance_id@,
            state: self.state,
            observed_at: self.observed_at,
        }
    }
}

pub open spec fn instance_map(s: Seq<InstanceSnapshot>) -> Map<Seq<char>, InstanceView> {
    keyed_map(s).map_values(|x: InstanceSnapshot| x@)
}

pub open spec fn task_map(s: Seq<TaskSnapshot>) -> Map<Seq<char>, TaskView> {
    keyed_map(s).map_values(|x: TaskSnapshot| x@)
}

pub open spec fn connection_map(s: Seq<McpConnectionSnapshot>) -> Map<Seq<char>, ConnectionView> {
    keyed_map(s).map_values(|x: McpConnectionSnapshot| x@)
}

// ----------------------------------------------------------------------
// The abstract transitions.
// ----------------------------------------------------------------------

/// A task cleared because its instance ended: no work, no activity, stop seen.
pub open spec fn cleared_task(t: TaskView, now: i64) -> TaskView {
    TaskView {
        work_active: false,
        root_stop_observed: true,
        tool_activity: 0,
        subagent_activity: 0,
        operation_activity: 0,
        observed_at: now,
        ..t
    }
}

/// A task becomes inactive once a root stop was seen and no tool, subagent
/// or Operation remains active.
pub open spec fn finish_if_quiet_task(t: TaskView, now: i64) -> TaskView {
    if t.root_stop_observed && t.tool_activity == 0 && t.subagent_activity == 0
        && t.operation_activity == 0 {
        TaskView { work_active: false, observed_at: now, ..t }
    } else {
        t
    }
}

pub open spec fn observe_instance_spec(
    m: Map<Seq<char>, InstanceView>,
    id: Seq<char>,
    pid: Option<u32>,
    now: i64,
) -> Map<Seq<char>, InstanceView> {
    if m.contains_key(id) {
        let inst = m[id];
        if inst.state == InstanceState::Exited {
            m
        } else {
            m.insert(
                id,
                InstanceView {
                    owner_pid: if pid is Some { pid } else { inst.owner_pid },
                    state: InstanceState::Active,
                    observed_at: now,
                    exited_at: inst.exited_at,
                },
            )
        }
    } else {
        m.insert(
            id,
            InstanceView { owner_pid: pid, state: InstanceState::Active, observed_at: now, exited_at: None },
        )
    }
}

pub open spec fn session_started_spec(
    v: LifecycleView,
    instance_id: Seq<char>,
    task_id: Seq<char>,
    pid: Option<u32>,
    now: i64,
) -> LifecycleView {
    LifecycleView {
        instances: observe_instance_spec(v.instances, instance_id, pid, now),
        tasks: if v.tasks.contains_key(task_id) {
            v.tasks.insert(task_id, TaskView { instance_id, observed_at: now, ..v.tasks[task_id] })
        } else {
            v.tasks.insert(
                task_id,
                TaskView {
                    instance_id,
                    observed_at: now,
                    root_stop_observed: false,
                    tool_activity: 0,
                    subagent_activity: 0,
                    operation_activity: 0,
                    work_active: false,
                },
            )
        },
        ..v
    }
}

pub open spec fn user_prompt_spec(
    v: LifecycleView,
    instance_id: Seq<char>,
    task_id: Seq<char>,
    pid: Option<u32>,
    now: i64,
) -> LifecycleView {
    let s = session_started_spec(v, instance_id, task_id, pid, now);
    LifecycleView {
        tasks: s.tasks.insert(
            task_id,
            TaskView { root_stop_observed: false, work_active: true, observed_at: now, ..s.tasks[task_id] },
        ),
        idle_since: None,
        ..s
    }
}

pub open spec fn increment_task(t: TaskView, activity: Activity, now: i64) -> TaskView {
    let t2 = match activity {
        Activity::Tool => TaskView { tool_activity: sat_inc(t.tool_activity), ..t },
        Activity::Subagent => TaskView { subagent_activity: sat_inc(t.subagent_activity), ..t },
        Activity::Operation => TaskView { operation_activity: sat_inc(t.operation_activity), ..t },
    };
    TaskView { work_active: true, observed_at: now, ..t2 }
}

pub open spec fn sat_inc(x: u32) -> u32 {
    if x == u32::MAX { x } else { (x + 1) as u32 }
}

pub open spec fn activity_count(t: TaskView, activity: Activity) -> u32 {
    match activity {
        Activity::Tool => t.tool_activity,
        Activity::Subagent => t.subagent_activity,
        Activity::Operation => t.operation_activity,
    }
}

pub open spec fn decrement_task(t: TaskView, activity: Activity, now: i64) -> TaskView {
    let t2 = match activity {
        Activity::Tool => TaskView { tool_activity: (t.tool_activity - 1) as u32, ..t },
        Activity::Subagent => TaskView { subagent_activity: (t.subagent_activity - 1) as u32, ..t },
        Activity::Operation => TaskView { operation_activity: (t.operation_activity - 1) as u32, ..t },
    };
    finish_if_quiet_task(TaskView { observed_at: now, ..t2 }, now)
}

/// `increment` on the projection: `None` when the task is unknown.
pub open spec fn increment_spec(v: LifecycleView, task_id: Seq<char>, activity: Activity, now: i64) -> Option<LifecycleView> {
    if v.tasks.contains_key(task_id) {
        Some(LifecycleView {
            tasks: v.tasks.insert(task_id, increment_task(v.tasks[task_id], activity, now)),
            idle_since: None,
            ..v
        })
    } else {
        None
    }
}

/// `decrement` on the projection: `None` when the task is unknown or the
/// counter is already zero.
pub open spec fn decrement_spec(v: LifecycleView, task_id: Seq<char>, activity: Activity, now: i64) -> Option<LifecycleView> {
    if v.tasks.contains_key(task_id) && activity_count(v.tasks[task_id], activity) > 0 {
        Some(LifecycleView {
            tasks: v.tasks.insert(task_id, decrement_task(v.tasks[task_id], activity, now)),
            ..v
        })
    } else {
        None
    }
}

pub open spec fn root_stop_spec(v: LifecycleView, task_id: Seq<char>, now: i64) -> Option<LifecycleView> {
    if v.tasks.contains_key(task_id) {
        Some(LifecycleView {
            tasks: v.tasks.insert(
                task_id,
                finish_if_quiet_task(
                    TaskView { root_stop_observed: true, observed_at: now, ..v.tasks[task_id] },
                    now,
                ),
            ),
            ..v
        })
    } else {
        None
    }
}

pub open spec fn mcp_initialized_spec(
    v: LifecycleView,
    connection_id: Seq<char>,
    instance_id: Seq<char>,
    task_id: Option<Seq<char>>,
    pid: Option<u32>,
    now: i64,
) -> LifecycleView {
    LifecycleView {
        instances: observe_instance_spec(v.instances, instance_id, pid, now),
        connections: v.connections.insert(
            connection_id,
            ConnectionView { task_id, instance_id, state: ConnectionState::Connected, observed_at: now },
        ),
        ..v
    }
}

pub open spec fn mcp_eof_spec(v: LifecycleView, connection_id: Seq<char>, now: i64) -> Option<LifecycleView> {
    if v.connections.contains_key(connection_id) {
        Some(LifecycleView {
            connections: v.connections.insert(
                connection_id,
                ConnectionView { state: ConnectionState::Eof, observed_at: now, ..v.connections[connection_id] },
            ),
            ..v
        })
    } else {
        None
    }
}

pub open spec fn exited_instance(inst: InstanceView, now: i64) -> InstanceView {
    InstanceView { state: InstanceState::Exited, observed_at: now, exited_at: Some(now), ..inst }
}

/// Every instance in `ended` (that is known) has exited, and every task of
/// such an instance is cleared.
pub open spec fn exit_instances_spec(v: LifecycleView, ended: Set<Seq<char>>, now: i64) -> LifecycleView {
    LifecycleView {
        instances: Map::new(
            |k: Seq<char>| v.instances.contains_key(k),
            |k: Seq<char>| if ended.contains(k) { exited_instance(v.instances[k], now) } else { v.instances[k] },
        ),
        tasks: Map::new(
            |k: Seq<char>| v.tasks.contains_key(k),
            |k: Seq<char>|
                if ended.contains(v.tasks[k].instance_id) && v.instances.contains_key(v.tasks[k].instance_id) {
                    cleared_task(v.tasks[k], now)
                } else {
                    v.tasks[k]
                },
        ),
        ..v
    }
}

pub open spec fn instance_exited_spec(v: LifecycleView, instance_id: Seq<char>, now: i64) -> Option<LifecycleView> {
    if v.instances.contains_key(instance_id) {
        Some(exit_instances_spec(v, set![instance_id], now))
    } else {
        None
    }
}

pub open spec fn instance_unknown_spec(v: LifecycleView, instance_id: Seq<char>, now: i64) -> Option<LifecycleView> {
    if v.instances.contains_key(instance_id) {
        let inst = v.instances[instance_id];
        if inst.state != InstanceState::Exited {
            Some(LifecycleView {
                instances: v.instances.insert(
                    instance_id,
                    InstanceView { state: InstanceState::Unknown, observed_at: now, ..inst },
                ),
                ..v
            })
        } else {
            Some(v)
        }
    } else {
        None
    }
}

/// Instances still believed alive whose attributed owner process is not live.
pub open spec fn missing_owners(v: LifecycleView, live: Set<u32>) -> Set<Seq<char>> {
    Set::new(
        |k: Seq<char>|
            v.instances.contains_key(k) && v.instances[k].state != InstanceState::Exited
                && v.instances[k].owner_pid is Some && !live.contains(v.instances[k].owner_pid->0),
    )
}

pub open spec fn any_instance_unknown(v: LifecycleView) -> bool {
    exists|k: Seq<char>| v.instances.contains_key(k) && #[trigger] v.instances[k].state == InstanceState::Unknown
}

pub open spec fn any_work_active(v: LifecycleView) -> bool {
    exists|k: Seq<char>| v.tasks.contains_key(k) && #[trigger] v.tasks[k].work_active
}

pub open spec fn all_instances_exited(v: LifecycleView) -> bool {
    forall|k: Seq<char>| v.instances.contains_key(k) ==> #[trigger] v.instances[k].state == InstanceState::Exited
}

/// The Controller's lifetime decision at `now`, with the projection it leaves.
pub open spec fn decision_spec(v: LifecycleView, now: i64) -> (LifecycleView, ControllerLifecycleDecision) {
    if any_instance_unknown(v) {
        (LifecycleView { idle_since: None, ..v }, ControllerLifecycleDecision::BlockedByUnknownInstance)
    } else if any_work_active(v) {
        (LifecycleView { idle_since: None, ..v }, ControllerLifecycleDecision::KeepAlive)
    } else if all_instances_exited(v) {
        (LifecycleView { idle_since: None, ..v }, ControllerLifecycleDecision::ShutdownNow)
    } else {
        let since = match v.idle_since {
            Some(t) => t,
            None => now,
        };
        let deadline = (since + CONTROLLER_IDLE_GRACE_MILLIS) as i64;
        (
            LifecycleView { idle_since: Some(since), ..v },
            if now >= deadline {
                ControllerLifecycleDecision::ShutdownNow
            } else {
                ControllerLifecycleDecision::IdleUntil(deadline)
            },
        )
    }
}

// ----------------------------------------------------------------------
// The executable projection.
// ----------------------------------------------------------------------

#[derive(Debug)]
pub struct CodexLifecycle {
    instances: Vec<InstanceSnapshot>,
    tasks: Vec<TaskSnapshot>,
    connections: Vec<McpConnectionSnapshot>,
    idle_since: Option<i64>,
}

impl View for CodexLifecycle {
    type V = LifecycleView;

    closed spec fn view(&self) -> LifecycleView {
        LifecycleView {
            instances: instance_map(self.instances@),
            tasks: task_map(self.tasks@),
            connections: connection_map(self.connections@),
            idle_since: self.idle_since,
        }
    }
}

proof fn lemma_view_update<T: Keyed + View>(s: Seq<T>, i: int, x: T)
    requires
        keys_unique(s),
        0 <= i < s.len(),
        x.key() == s[i].key(),
    ensures
        keys_unique(s.update(i, x)),
        keyed_map(s.update(i, x)).map_values(|y: T| y@) == keyed_map(s).map_values(|y: T| y@).insert(s[i].key(), x@),
        keyed_map(s).map_values(|y: T| y@).contains_key(s[i].key()),
        keyed_map(s).map_values(|y: T| y@)[s[i].key()] == s[i]@,
{
    lemma_keyed_update(s, i, x);
    lemma_key_index(s, i);
    assert(keyed_map(s.update(i, x)).map_values(|y: T| y@) =~= keyed_map(s).map_values(|y: T| y@).insert(s[i].key(), x@));
}

proof fn lemma_view_push<T: Keyed + View>(s: Seq<T>, x: T)
    requires
        keys_unique(s),
        !has_key(s, x.key()),
    ensures
        keys_unique(s.push(x)),
        keyed_map(s.push(x)).map_values(|y: T| y@) == keyed_map(s).map_values(|y: T| y@).insert(x.key(), x@),
        !keyed_map(s).map_values(|y: T| y@).contains_key(x.key()),
{
    lemma_keyed_push(s, x);
    assert(keyed_map(s.push(x)).map_values(|y: T| y@) =~= keyed_map(s).map_values(|y: T| y@).insert(x.key(), x@));
}

proof fn lemma_view_lookup<T: Keyed + View>(s: Seq<T>, i: int)
    requires
        keys_unique(s),
        0 <= i < s.len(),
    ensures
        keyed_map(s).map_values(|y: T| y@).contains_key(s[i].key()),
        keyed_map(s).map_values(|y: T| y@)[s[i].key()] == s[i]@,
{
    lemma_key_index(s, i);
}

proof fn lemma_view_absent<T: Keyed + View>(s: Seq<T>, k: Seq<char>)
    requires
        !has_key(s, k),
    ensures
        !keyed_map(s).map_values(|y: T| y@).contains_key(k),
{
}

proof fn lemma_same_keys<T: Keyed>(s: Seq<T>, t: Seq<T>)
    requires
        keys_unique(s),
        s.len() == t.len(),
        forall|i: int| 0 <= i < s.len() ==> #[trigger] t[i].key() == s[i].key(),
    ensures
        keys_unique(t),
        forall|k: Seq<char>| #[trigger] has_key(t, k) == has_key(s, k),
{
    assert forall|a: int, b: int| 0 <= a < t.len() && 0 <= b < t.len() && a != b implies #[trigger] t[a].key() != #[trigger] t[b].key() by {
        assert(t[a].key() == s[a].key());
        assert(t[b].key() == s[b].key());
    }
    assert forall|k: Seq<char>| #[trigger] has_key(t, k) == has_key(s, k) by {
        if has_key(t, k) {
            let j = choose|j: int| 0 <= j < t.len() && #[trigger] t[j].key() == k;
            assert(s[j].key() == k);
        }
        if has_key(s, k) {
            let j = choose|j: int| 0 <= j < s.len() && #[trigger] s[j].key() == k;
            assert(t[j].key() == k);
        }
    }
}

proof fn lemma_exit_empty(v: LifecycleView, now: i64)
    ensures
        exit_instances_spec(v, Set::empty(), now) == v,
{
    assert(exit_instances_spec(v, Set::empty(), now).instances =~= v.instances);
    assert(exit_instances_spec(v, Set::empty(), now).tasks =~= v.tasks);
}

proof fn lemma_exit_step(v: LifecycleView, ended: Set<Seq<char>>, k: Seq<char>, now: i64)
    requires
        v.instances.contains_key(k),
    ensures
        instance_exited_spec(exit_instances_spec(v, ended, now), k, now) == Some(exit_instances_spec(v, ended.insert(k), now)),
{
    let a = exit_instances_spec(v, ended, now);
    let b = exit_instances_spec(a, set![k], now);
    let c = exit_instances_spec(v, ended.insert(k), now);
    assert(b.instances =~= c.instances);
    assert(b.tasks =~= c.tasks);
}

proof fn lemma_unknown_index(v: LifecycleView, s: Seq<InstanceSnapshot>)
    requires
        keys_unique(s),
        v.instances == instance_map(s),
    ensures
        any_instance_unknown(v) <==> exists|i: int| 0 <= i < s.len() && #[trigger] s[i].state == InstanceState::Unknown,
        all_instances_exited(v) <==> forall|i: int| 0 <= i < s.len() ==> #[trigger] s[i].state == InstanceState::Exited,
{
    let m = instance_map(s);
    if exists|i: int| 0 <= i < s.len() && #[trigger] s[i].state == InstanceState::Unknown {
        let i = choose|i: int| 0 <= i < s.len() && #[trigger] s[i].state == InstanceState::Unknown;
        lemma_view_lookup(s, i);
        assert(m.contains_key(s[i].key()) && m[s[i].key()].state == InstanceState::Unknown);
    }
    if exists|k: Seq<char>| m.contains_key(k) && #[trigger] m[k].state == InstanceState::Unknown {
        let k = choose|k: Seq<char>| m.contains_key(k) && #[trigger] m[k].state == InstanceState::Unknown;
        let i = choose|i: int| 0 <= i < s.len() && #[trigger] s[i].key() == k;
        lemma_view_lookup(s, i);
        assert(s[i].state == InstanceState::Unknown);
    }
    if forall|i: int| 0 <= i < s.len() ==> #[trigger] s[i].state == InstanceState::Exited {
        assert forall|k: Seq<char>| m.contains_key(k) implies #[trigger] m[k].state == InstanceState::Exited by {
            let i = choose|i: int| 0 <= i < s.len() && #[trigger] s[i].key() == k;
            lemma_view_lookup(s, i);
        }
    }
    if forall|k: Seq<char>| m.contains_key(k) ==> #[trigger] m[k].state == InstanceState::Exited {
        assert forall|i: int| 0 <= i < s.len() implies #[trigger] s[i].state == InstanceState::Exited by {
            lemma_view_lookup(s, i);
            assert(m[s[i].key()].state == InstanceState::Exited);
        }
    }
}

proof fn lemma_work_index(v: LifecycleView, s: Seq<TaskSnapshot>)
    requires
        keys_unique(s),
        v.tasks == task_map(s),
    ensures
        any_work_active(v) <==> exists|i: int| 0 <= i < s.len() && #[trigger] s[i].work_active,
{
    let m = task_map(s);
    if exists|i: int| 0 <= i < s.len() && #[trigger] s[i].work_active {
        let i = choose|i: int| 0 <= i < s.len() && #[trigger] s[i].work_active;
        lemma_view_lookup(s, i);
        assert(m.contains_key(s[i].key()) && m[s[i].key()].work_active);
    }
    if exists|k: Seq<char>| m.contains_key(k) && #[trigger] m[k].work_active {
        let k = choose|k: Seq<char>| m.contains_key(k) && #[trigger] m[k].work_active;
        let i = choose|i: int| 0 <= i < s.len() && #[trigger] s[i].key() == k;
        lemma_view_lookup(s, i);
        assert(s[i].work_active);
    }
}

fn find_instance(s: &Vec<InstanceSnapshot>, id: &String) -> (result: Option<usize>)
    ensures
        match result {
            Some(i) => i < s@.len() && s@[i as int].key() == id@,
            None => !has_key(s@, id@),
        },
{
    let mut i: usize = 0;
    while i < s.len()
        invariant
            i <= s@.len(),
            forall|j: int| 0 <= j < i ==> #[trigger] s@[j].key() != id@,
        decreases s@.len() - i,
    {
        if s[i].instance_id == *id {
            return Some(i);
        }
        i = i + 1;
    }
    None
}

fn find_task(s: &Vec<TaskSnapshot>, id: &String) -> (result: Option<usize>)
    ensures
        match result {
            Some(i) => i < s@.len() && s@[i as int].key() == id@,
            None => !has_key(s@, id@),
        },
{
    let mut i: usize = 0;
    while i < s.len()
        invariant
            i <= s@.len(),
            forall|j: int| 0 <= j < i ==> #[trigger] s@[j].key() != id@,
        decreases s@.len() - i,
    {
        if s[i].task_id == *id {
            return Some(i);
        }
        i = i + 1;
    }
    None
}

fn find_connection(s: &Vec<McpConnectionSnapshot>, id: &String) -> (result: Option<usize>)
    ensures
        match result {
            Some(i) => i < s@.len() && s@[i as int].key() == id@,
            None => !has_key(s@, id@),
        },
{
    let mut i: usize = 0;
    while i < s.len()
        invariant
            i <= s@.len(),
            forall|j: int| 0 <= j < i ==> #[trigger] s@[j].key() != id@,
        decreases s@.len() - i,
    {
        if s[i].connection_id == *id {
            return Some(i);
        }
        i = i + 1;
    }
    None
}

fn clone_opt_string(value: &Option<String>) -> (result: Option<String>)
    ensures
        opt_string_view(result) == opt_string_view(*value),
{
    match value {
        Some(s) => Some(s.clone()),
        None => None,
    }
}

fn task_with(
    t: &TaskSnapshot,
    instance_id: String,
    observed_at: i64,
    root_stop_observed: bool,
    tool_activity: u32,
    subagent_activity: u32,
    operation_activity: u32,
    work_active: bool,
) -> (result: TaskSnapshot)
    ensures
        result.task_id@ == t.task_id@,
        result@ == (TaskView {
            instance_id: instance_id@,
            observed_at,
            root_stop_observed,
            tool_activity,
            subagent_activity,
            operation_activity,
            work_active,
        }),
{
    TaskSnapshot {
        task_id: t.task_id.clone(),
        instance_id,
        observed_at,
        root_stop_observed,
        tool_activity,
        subagent_activity,
        operation_activity,
        work_active,
    }
}

impl Default for CodexLifecycle {
    /// An empty projection, as `new` gives.
    fn default() -> (result: Self)
        ensures
            result.wf(),
            result@.instances == Map::<Seq<char>, InstanceView>::empty(),
            result@.tasks == Map::<Seq<char>, TaskView>::empty(),
            result@.connections == Map::<Seq<char>, ConnectionView>::empty(),
            result@.idle_since is None,
    {
        CodexLifecycle::new()
    }
}

impl CodexLifecycle {
    /// Every instance, task and connection id occurs once.
    pub closed spec fn wf(&self) -> bool {
        &&& keys_unique(self.instances@)
        &&& keys_unique(self.tasks@)
        &&& keys_unique(self.connections@)
    }

    /// An empty projection: nothing observed, no idle lease.
    pub fn new() -> (result: Self)
        ensures
            result.wf(),
            result@.instances == Map::<Seq<char>, InstanceView>::empty(),
            result@.tasks == Map::<Seq<char>, TaskView>::empty(),
            result@.connections == Map::<Seq<char>, ConnectionView>::empty(),
            result@.idle_since is None,
    {
        let result = CodexLifecycle {
            instances: Vec::new(),
            tasks: Vec::new(),
            connections: Vec::new(),
            idle_since: None,
        };
        assert(instance_map(result.instances@) =~= Map::empty());
        assert(task_map(result.tasks@) =~= Map::empty());
        assert(connection_map(result.connections@) =~= Map::empty());
        result
    }

    fn observe_instance(&mut self, instance_id: &str, owner_pid: Option<u32>, now: i64)
        requires
            old(self).wf(),
        ensures
            final(self).wf(),
            final(self)@ == (LifecycleView {
                instances: observe_instance_spec(old(self)@.instances, instance_id@, owner_pid, now),
                ..old(self)@
            }),
    {
        let id: String = instance_id.to_owned();
        match find_instance(&self.instances, &id) {
            Some(i) => {
                if self.instances[i].state != InstanceState::Exited {
                    let pid = if owner_pid.is_some() { owner_pid } else { self.instances[i].owner_pid };
                    let updated = InstanceSnapshot {
                        instance_id: id,
                        owner_pid: pid,
                        state: InstanceState::Active,
                        observed_at: now,
                        exited_at: self.instances[i].exited_at,
                    };
                    proof {
                        lemma_view_update(self.instances@, i as int, updated);
                    }
                    self.instances.set(i, updated);
                } else {
                    proof {
                        lemma_view_lookup(self.instances@, i as int);
                    }
                }
            },
            None => {
                let fresh = InstanceSnapshot {
                    instance_id: id,
                    owner_pid,
                    state: InstanceState::Active,
                    observed_at: now,
                    exited_at: None,
                };
                proof {
                    lemma_view_push(self.instances@, fresh);
                }
                self.instances.push(fresh);
            },
        }
    }

    pub fn session_started(&mut self, instance_id: &str, task_id: &str, now: i64)
        requires
            old(self).wf(),
        ensures
            final(self).wf(),
            final(self)@ == session_started_spec(old(self)@, instance_id@, task_id@, None, now),
    {
        self.session_started_with_owner(instance_id, task_id, None, now);
    }

    /// Records that `task_id` runs in `instance_id`; the instance becomes
    /// active unless it has already exited.
    pub fn session_started_with_owner(
        &mut self,
        instance_id: &str,
        task_id: &str,
        owner_pid: Option<u32>,
        now: i64,
    )
        requires
            old(self).wf(),
        ensures
            final(self).wf(),
            final(self)@ == session_started_spec(old(self)@, instance_id@, task_id@, owner_pid, now),
    {
        self.observe_instance(instance_id, owner_pid, now);
        let tid: String = task_id.to_owned();
        let iid: String = instance_id.to_owned();
        match find_task(&self.tasks, &tid) {
            Some(i) => {
                let t = &self.tasks[i];
                let updated = task_with(
                    t,
                    iid,
                    now,
                    t.root_stop_observed,
                    t.tool_activity,
                    t.subagent_activity,
                    t.operation_activity,
                    t.work_active,
                );
                proof {
                    lemma_view_update(self.tasks@, i as int, updated);
                }
                self.tasks.set(i, updated);
            },
            None => {
                let fresh = TaskSnapshot {
                    task_id: tid,
                    instance_id: iid,
                    observed_at: now,
                    root_stop_observed: false,
                    tool_activity: 0,
                    subagent_activity: 0,
                    operation_activity: 0,
                    work_active: false,
                };
                proof {
                    lemma_view_push(self.tasks@, fresh);
                }
                self.tasks.push(fresh);
            },
        }
    }

    pub fn user_prompt_submitted(&mut self, instance_id: &str, task_id: &str, now: i64)
        requires
            old(self).wf(),
        ensures
            final(self).wf(),
            final(self)@ == user_prompt_spec(old(self)@, instance_id@, task_id@, None, now),
    {
        self.user_prompt_submitted_with_owner(instance_id, task_id, None, now);
    }

    /// A new user turn: the task is working again and any idle lease is
    /// cancelled.
    pub fn user_prompt_submitted_with_owner(
        &mut self,
        instance_id: &str,
        task_id: &str,
        owner_pid: Option<u32>,
        now: i64,
    )
        requires
            old(self).wf(),
        ensures
            final(self).wf(),
            final(self)@ == user_prompt_spec(old(self)@, instance_id@, task_id@, owner_pid, now),
    {
        self.session_started_with_owner(instance_id, task_id, owner_pid, now);
        let tid: String = task_id.to_owned();
        let found = find_task(&self.tasks, &tid);
        proof {
            if found is None {
                lemma_view_absent(self.tasks@, tid@);
            }
        }
        let i = found.unwrap();
        let t = &self.tasks[i];
        let iid = t.instance_id.clone();
        let updated = task_with(
            t,
            iid,
            now,
            false,
            t.tool_activity,
            t.subagent_activity,
            t.operation_activity,
            true,
        );
        proof {
            lemma_view_update(self.tasks@, i as int, updated);
        }
        self.tasks.set(i, updated);
        self.idle_since = None;
    }

    pub fn tool_started(&mut self, task_id: &str, now: i64) -> (result: bool)
        requires
            old(self).wf(),
        ensures
            final(self).wf(),
            match increment_spec(old(self)@, task_id@, Activity::Tool, now) {
                Some(v) => result && final(self)@ == v,
                None => !result && final(self)@ == old(self)@,
            },
    {
        self.increment(task_id, now, Activity::Tool)
    }

    pub fn tool_finished(&mut self, task_id: &str, now: i64) -> (result: bool)
        requires
            old(self).wf(),
        ensures
            final(self).wf(),
            match decrement_spec(old(self)@, task_id@, Activity::Tool, now) {
                Some(v) => result && final(self)@ == v,
                None => !result && final(self)@ == old(self)@,
            },
    {
        self.decrement(task_id, now, Activity::Tool)
    }

    pub fn subagent_started(&mut self, task_id: &str, now: i64) -> (result: bool)
        requires
            old(self).wf(),
        ensures
            final(self).wf(),
            match increment_spec(old(self)@, task_id@, Activity::Subagent, now) {
                Some(v) => result && final(self)@ == v,
                None => !result && final(self)@ == old(self)@,
            },
    {
        self.increment(task_id, now, Activity::Subagent)
    }

    pub fn subagent_finished(&mut self, task_id: &str, now: i64) -> (result: bool)
        requires
            old(self).wf(),
        ensures
            final(self).wf(),
            match decrement_spec(old(self)@, task_id@, Activity::Subagent, now) {
                Some(v) => result && final(self)@ == v,
                None => !result && final(self)@ == old(self)@,
            },
    {
        self.decrement(task_id, now, Activity::Subagent)
    }

    pub fn operation_started(&mut self, task_id: &str, now: i64) -> (result: bool)
        requires
            old(self).wf(),
        ensures
            final(self).wf(),
            match increment_spec(old(self)@, task_id@, Activity::Operation, now) {
                Some(v) => result && final(self)@ == v,
                None => !result && final(self)@ == old(self)@,
            },
    {
        self.increment(task_id, now, Activity::Operation)
    }

    pub fn operation_finished(&mut self, task_id: &str, now: i64) -> (result: bool)
        requires
            old(self).wf(),
        ensures
            final(self).wf(),
            match decrement_spec(old(self)@, task_id@, Activity::Operation, now) {
                Some(v) => result && final(self)@ == v,
                None => !result && final(self)@ == old(self)@,
            },
    {
        self.decrement(task_id, now, Activity::Operation)
    }

    /// The root turn of `task_id` stopped; the task ends only when no tool,
    /// subagent or Operation is still active.
    pub fn root_stop(&mut self, task_id: &str, now: i64) -> (result: bool)
        requires
            old(self).wf(),
        ensures
            final(self).wf(),
            match root_stop_spec(old(self)@, task_id@, now) {
                Some(v) => result && final(self)@ == v,
                None => !result && final(self)@ == old(self)@,
            },
    {
        let tid: String = task_id.to_owned();
        match find_task(&self.tasks, &tid) {
            None => {
                proof {
                    lemma_view_absent(self.tasks@, tid@);
                }
                false
            },
            Some(i) => {
                let t = &self.tasks[i];
                let quiet = t.tool_activity == 0 && t.subagent_activity == 0 && t.operation_activity == 0;
                let iid = t.instance_id.clone();
                let updated = task_with(
                    t,
                    iid,
                    now,
                    true,
                    t.tool_activity,
                    t.subagent_activity,
                    t.operation_activity,
                    if quiet { false } else { t.work_active },
                );
                proof {
                    lemma_view_update(self.tasks@, i as int, updated);
                }
                self.tasks.set(i, updated);
                true
            },
        }
    }

    /// A gateway connected.  Its owning instance is observed, but the
    /// connection alone never marks any task as working.
    pub fn mcp_initialized(
        &mut self,
        connection_id: &str,
        instance_id: &str,
        task_id: Option<&str>,
        owner_pid: Option<u32>,
        now: i64,
    )
        requires
            old(self).wf(),
        ensures
            final(self).wf(),
            final(self)@ == mcp_initialized_spec(
                old(self)@,
                connection_id@,
                instance_id@,
                opt_str_view(task_id),
                owner_pid,
                now,
            ),
    {
        self.observe_instance(instance_id, owner_pid, now);
        let cid: String = connection_id.to_owned();
        let tid: Option<String> = match task_id {
            Some(t) => Some(t.to_owned()),
            None => None,
        };
        let fresh = McpConnectionSnapshot {
            connection_id: connection_id.to_owned(),
            task_id: tid,
            instance_id: instance_id.to_owned(),
            state: ConnectionState::Connected,
            observed_at: now,
        };
        match find_connection(&self.connections, &cid) {
            Some(i) => {
                proof {
                    lemma_view_update(self.connections@, i as int, fresh);
                }
                self.connections.set(i, fresh);
            },
            None => {
                proof {
                    lemma_view_push(self.connections@, fresh);
                }
                self.connections.push(fresh);
            },
        }
    }

    pub fn mcp_eof(&mut self, connection_id: &str, now: i64) -> (result: bool)
        requires
            old(self).wf(),
        ensures
            final(self).wf(),
            match mcp_eof_spec(old(self)@, connection_id@, now) {
                Some(v) => result && final(self)@ == v,
                None => !result && final(self)@ == old(self)@,
            },
    {
        let cid: String = connection_id.to_owned();
        match find_connection(&self.connections, &cid) {
            None => {
                proof {
                    lemma_view_absent(self.connections@, cid@);
                }
                false
            },
            Some(i) => {
                let c = &self.connections[i];
                let updated = McpConnectionSnapshot {
                    connection_id: c.connection_id.clone(),
                    task_id: clone_opt_string(&c.task_id),
                    instance_id: c.instance_id.clone(),
                    state: ConnectionState::Eof,
                    observed_at: now,
                };
                proof {
                    lemma_view_update(self.connections@, i as int, updated);
                }
                self.connections.set(i, updated);
                true
            },
        }
    }

    /// A missing exit observation is not proof of exit: the instance
    /// becomes unknown (unless it already exited), which blocks shutdown.
    pub fn instance_became_unknown(&mut self, instance_id: &str, now: i64) -> (result: bool)
        requires
            old(self).wf(),
        ensures
            final(self).wf(),
            match instance_unknown_spec(old(self)@, instance_id@, now) {
                Some(v) => result && final(self)@ == v,
                None => !result && final(self)@ == old(self)@,
            },
    {
        let id: String = instance_id.to_owned();
        match find_instance(&self.instances, &id) {
            None => {
                proof {
                    lemma_view_absent(self.instances@, id@);
                }
                false
            },
            Some(i) => {
                proof {
                    lemma_view_lookup(self.instances@, i as int);
                }
                if self.instances[i].state != InstanceState::Exited {
                    let inst = &self.instances[i];
                    let updated = InstanceSnapshot {
                        instance_id: inst.instance_id.clone(),
                        owner_pid: inst.owner_pid,
                        state: InstanceState::Unknown,
                        observed_at: now,
                        exited_at: inst.exited_at,
                    };
                    proof {
                        lemma_view_update(self.instances@, i as int, updated);
                    }
                    self.instances.set(i, updated);
                }
                true
            },
        }
    }

    fn increment(&mut self, task_id: &str, now: i64, activity: Activity) -> (result: bool)
        requires
            old(self).wf(),
        ensures
            final(self).wf(),
            match increment_spec(old(self)@, task_id@, activity, now) {
                Some(v) => result && final(self)@ == v,
                None => !result && final(self)@ == old(self)@,
            },
    {
        let tid: String = task_id.to_owned();
        match find_task(&self.tasks, &tid) {
            None => {
                proof {
                    lemma_view_absent(self.tasks@, tid@);
                }
                false
            },
            Some(i) => {
                let t = &self.tasks[i];
                let mut tool = t.tool_activity;
                let mut subagent = t.subagent_activity;
                let mut operation = t.operation_activity;
                match activity {
                    Activity::Tool => { tool = tool.saturating_add(1); },
                    Activity::Subagent => { subagent = subagent.saturating_add(1); },
                    Activity::Operation => { operation = operation.saturating_add(1); },
                }
                let iid = t.instance_id.clone();
                let updated = task_with(t, iid, now, t.root_stop_observed, tool, subagent, operation, true);
                proof {
                    lemma_view_update(self.tasks@, i as int, updated);
                }
                self.tasks.set(i, updated);
                self.idle_since = None;
                true
            },
        }
    }

    fn decrement(&mut self, task_id: &str, now: i64, activity: Activity) -> (result: bool)
        requires
            old(self).wf(),
        ensures
            final(self).wf(),
            match decrement_spec(old(self)@, task_id@, activity, now) {
                Some(v) => result && final(self)@ == v,
                None => !result && final(self)@ == old(self)@,
            },
    {
        let tid: String = task_id.to_owned();
        match find_task(&self.tasks, &tid) {
            None => {
                proof {
                    lemma_view_absent(self.tasks@, tid@);
                }
                false
            },
            Some(i) => {
                proof {
                    lemma_view_lookup(self.tasks@, i as int);
                }
                let t = &self.tasks[i];
                let mut tool = t.tool_activity;
                let mut subagent = t.subagent_activity;
                let mut operation = t.operation_activity;
                match activity {
                    Activity::Tool => {
                        if tool == 0 {
                            return false;
                        }
                        tool = tool - 1;
                    },
                    Activity::Subagent => {
                        if subagent == 0 {
                            return false;
                        }
                        subagent = subagent - 1;
                    },
                    Activity::Operation => {
                        if operation == 0 {
                            return false;
                        }
                        operation = operation - 1;
                    },
                }
                let quiet = t.root_stop_observed && tool == 0 && subagent == 0 && operation == 0;
                let iid = t.instance_id.clone();
                let updated = task_with(
                    t,
                    iid,
                    now,
                    t.root_stop_observed,
                    tool,
                    subagent,
                    operation,
                    if quiet { false } else { t.work_active },
                );
                proof {
                    lemma_view_update(self.tasks@, i as int, updated);
                }
                self.tasks.set(i, updated);
                true
            },
        }
    }

    /// The instance exited: every task it owned stops working and loses its
    /// activity counters, whatever a late MCP EOF says.
    pub fn instance_exited(&mut self, instance_id: &str, now: i64) -> (result: bool)
        requires
            old(self).wf(),
        ensures
            final(self).wf(),
            match instance_exited_spec(old(self)@, instance_id@, now) {
                Some(v) => result && final(self)@ == v,
                None => !result && final(self)@ == old(self)@,
            },
    {
        let id: String = instance_id.to_owned();
        let found = find_instance(&self.instances, &id);
        if found.is_none() {
            proof {
                lemma_view_absent(self.instances@, id@);
            }
            return false;
        }
        let i = found.unwrap();
        let ghost v0 = self@;
        let ghost tasks0 = self.tasks@;
        proof {
            lemma_view_lookup(self.instances@, i as int);
        }
        let inst = &self.instances[i];
        let updated = InstanceSnapshot {
            instance_id: inst.instance_id.clone(),
            owner_pid: inst.owner_pid,
            state: InstanceState::Exited,
            observed_at: now,
            exited_at: Some(now),
        };
        proof {
            lemma_view_update(self.instances@, i as int, updated);
        }
        self.instances.set(i, updated);
        let ghost inst1 = self.instances@;
        let ghost conns0 = self.connections@;
        let ghost idle0 = self.idle_since;
        let mut j: usize = 0;
        while j < self.tasks.len()
            invariant
                self.instances@ == inst1,
                self.connections@ == conns0,
                self.idle_since == idle0,
                old(self)@ == v0,
                keys_unique(inst1),
                keys_unique(conns0),
                self.tasks@.len() == tasks0.len(),
                keys_unique(tasks0),
                j <= tasks0.len(),
                forall|k: int| 0 <= k < tasks0.len() ==> #[trigger] self.tasks@[k].key() == tasks0[k].key(),
                forall|k: int| 0 <= k < j ==> #[trigger] self.tasks@[k]@ == (if tasks0[k]@.instance_id == id@ {
                    cleared_task(tasks0[k]@, now)
                } else {
                    tasks0[k]@
                }),
                forall|k: int| j <= k < tasks0.len() ==> #[trigger] self.tasks@[k] == tasks0[k],
            decreases tasks0.len() - j,
        {
            if self.tasks[j].instance_id == id {
                let t = &self.tasks[j];
                let iid = t.instance_id.clone();
                let cleared = task_with(t, iid, now, true, 0, 0, 0, false);
                self.tasks.set(j, cleared);
            }
            j = j + 1;
        }
        proof {
            lemma_same_keys(tasks0, self.tasks@);
            let target = exit_instances_spec(v0, set![id@], now);
            let m = task_map(self.tasks@);
            assert forall|k: Seq<char>| #[trigger] m.contains_key(k) implies m[k] == target.tasks[k] by {
                let x = choose|x: int| 0 <= x < self.tasks@.len() && #[trigger] self.tasks@[x].key() == k;
                lemma_view_lookup(self.tasks@, x);
                lemma_view_lookup(tasks0, x);
            }
            assert(m =~= target.tasks);
            assert(exited_instance(v0.instances[id@], now) == updated@);
            assert(self@.instances =~= target.instances);
        }
        true
    }

    /// Reconciles owner PIDs that an installed Hook or MCP process
    /// attributed earlier: an instance whose owner process is no longer live
    /// has exited.  Returns whether any instance changed.
    pub fn reconcile_owner_processes(&mut self, live_pids: &BTreeSet<u32>, now: i64) -> (result: bool)
        requires
            old(self).wf(),
        ensures
            final(self).wf(),
            final(self)@ == exit_instances_spec(old(self)@, missing_owners(old(self)@, live_pids@), now),
            result == !missing_owners(old(self)@, live_pids@).is_empty(),
    {
        let ghost v0 = self@;
        let ghost missing_set = missing_owners(v0, live_pids@);
        let mut missing: Vec<String> = Vec::new();
        let mut i: usize = 0;
        while i < self.instances.len()
            invariant
                self@ == v0,
                self.wf(),
                missing_set == missing_owners(v0, live_pids@),
                i <= self.instances@.len(),
                forall|x: int| 0 <= x < missing@.len() ==> #[trigger] missing@[x]@ == missing@[x]@,
                forall|x: int| 0 <= x < missing@.len() ==> #[trigger] missing_set.contains(missing@[x]@),
                forall|x: int| 0 <= x < i && missing_set.contains(#[trigger] self.instances@[x].key()) ==>
                    exists|y: int| 0 <= y < missing@.len() && #[trigger] missing@[y]@ == self.instances@[x].key(),
            decreases self.instances@.len() - i,
        {
            let inst = &self.instances[i];
            proof {
                lemma_view_lookup(self.instances@, i as int);
            }
            if inst.state != InstanceState::Exited {
                match inst.owner_pid {
                    Some(pid) => {
                        let alive = live_pids.contains(&pid);
                        assert(alive == live_pids@.contains(pid));
                        if !alive {
                            let ghost before = missing@;
                            missing.push(inst.instance_id.clone());
                            assert(missing_set.contains(self.instances@[i as int].key()));
                            assert(missing@[missing@.len() - 1]@ == self.instances@[i as int].key());
                            assert forall|x: int| 0 <= x < i && missing_set.contains(#[trigger] self.instances@[x].key()) implies
                                exists|y: int| 0 <= y < missing@.len() && #[trigger] missing@[y]@ == self.instances@[x].key() by {
                                let y = choose|y: int| 0 <= y < before.len() && #[trigger] before[y]@ == self.instances@[x].key();
                                assert(missing@[y] == before[y]);
                            }
                        }
                    },
                    None => {},
                }
            }
            i = i + 1;
        }
        let ghost listed = Set::new(|k: Seq<char>| exists|y: int| 0 <= y < missing@.len() && #[trigger] missing@[y]@ == k);
        proof {
            assert forall|k: Seq<char>| #[trigger] listed.contains(k) == missing_set.contains(k) by {
                if missing_set.contains(k) {
                    let x = choose|x: int| 0 <= x < self.instances@.len() && #[trigger] self.instances@[x].key() == k;
                    lemma_view_lookup(self.instances@, x);
                }
            }
            assert(listed =~= missing_set);
            lemma_exit_empty(v0, now);
        }
        let mut changed = false;
        let mut j: usize = 0;
        assert(Set::new(|k: Seq<char>| exists|y: int| 0 <= y < 0 && #[trigger] missing@[y]@ == k) =~= Set::<Seq<char>>::empty());
        while j < missing.len()
            invariant
                self.wf(),
                j <= missing@.len(),
                forall|x: int| 0 <= x < missing@.len() ==> #[trigger] missing_set.contains(missing@[x]@),
                missing_set <= v0.instances.dom(),
                self@ == exit_instances_spec(v0, Set::new(|k: Seq<char>| exists|y: int| 0 <= y < j && #[trigger] missing@[y]@ == k), now),
                changed == (j > 0),
            decreases missing@.len() - j,
        {
            let ghost before = Set::new(|k: Seq<char>| exists|y: int| 0 <= y < j && #[trigger] missing@[y]@ == k);
            proof {
                assert(missing_set.contains(missing@[j as int]@));
                lemma_exit_step(v0, before, missing@[j as int]@, now);
                let after = Set::new(|k: Seq<char>| exists|y: int| 0 <= y < j + 1 && #[trigger] missing@[y]@ == k);
                assert forall|k: Seq<char>| #[trigger] after.contains(k) == before.insert(missing@[j as int]@).contains(k) by {
                    if after.contains(k) {
                        let y = choose|y: int| 0 <= y < j + 1 && #[trigger] missing@[y]@ == k;
                        if y < j {
                            assert(before.contains(k));
                        }
                    }
                }
                assert(after =~= before.insert(missing@[j as int]@));
            }
            let r = self.instance_exited(missing[j].as_str(), now);
            changed = changed || r;
            j = j + 1;
        }
        proof {
            let all = Set::new(|k: Seq<char>| exists|y: int| 0 <= y < missing@.len() && #[trigger] missing@[y]@ == k);
            assert(all =~= listed);
            if missing@.len() > 0 {
                assert(listed.contains(missing@[0]@));
            } else {
                assert(listed =~= Set::empty());
            }
        }
        changed
    }

    /// Whether the Controller may exit at `now`: an unknown instance blocks,
    /// active work keeps it alive, no live instance shuts it down, and
    /// otherwise an idle lease of thirty seconds runs from the first idle
    /// decision.
    pub fn decision(&mut self, now: i64) -> (result: ControllerLifecycleDecision)
        requires
            old(self).wf(),
            now <= i64::MAX - CONTROLLER_IDLE_GRACE_MILLIS,
            old(self)@.idle_since matches Some(t) ==> t <= i64::MAX - CONTROLLER_IDLE_GRACE_MILLIS,
        ensures
            final(self).wf(),
            (final(self)@, result) == decision_spec(old(self)@, now),
    {
        proof {
            lemma_unknown_index(self@, self.instances@);
            lemma_work_index(self@, self.tasks@);
        }
        let ghost v0 = self@;
        let ghost i0 = self.instances@;
        let ghost t0 = self.tasks@;
        let ghost c0 = self.connections@;
        let ghost idle0 = self.idle_since;
        let mut i: usize = 0;
        while i < self.instances.len()
            invariant
                self.wf(),
                self@ == v0,
                self.instances@ == i0,
                self.tasks@ == t0,
                self.connections@ == c0,
                self.idle_since == idle0,
                old(self)@ == v0,
                i <= self.instances@.len(),
                forall|x: int| 0 <= x < i ==> #[trigger] self.instances@[x].state != InstanceState::Unknown,
            decreases self.instances@.len() - i,
        {
            if self.instances[i].state == InstanceState::Unknown {
                proof {
                    lemma_unknown_index(old(self)@, self.instances@);
                }
                self.idle_since = None;

                return ControllerLifecycleDecision::BlockedByUnknownInstance;
            }
            i = i + 1;
        }
        let mut j: usize = 0;
        while j < self.tasks.len()
            invariant
                self.wf(),
                self@ == v0,
                self.instances@ == i0,
                self.tasks@ == t0,
                self.connections@ == c0,
                self.idle_since == idle0,
                old(self)@ == v0,
                j <= self.tasks@.len(),
                forall|x: int| 0 <= x < i0.len() ==> #[trigger] i0[x].state != InstanceState::Unknown,
                forall|x: int| 0 <= x < j ==> !#[trigger] self.tasks@[x].work_active,
            decreases self.tasks@.len() - j,
        {
            if self.tasks[j].work_active {
                proof {
                    lemma_unknown_index(old(self)@, self.instances@);
                    lemma_work_index(old(self)@, self.tasks@);
                }
                self.idle_since = None;
                return ControllerLifecycleDecision::KeepAlive;
            }
            j = j + 1;
        }
        let mut all_exited = true;
        let mut k: usize = 0;
        while k < self.instances.len()
            invariant
                self.wf(),
                self@ == v0,
                self.instances@ == i0,
                self.tasks@ == t0,
                self.connections@ == c0,
                self.idle_since == idle0,
                old(self)@ == v0,
                k <= self.instances@.len(),
                forall|x: int| 0 <= x < i0.len() ==> #[trigger] i0[x].state != InstanceState::Unknown,
                forall|x: int| 0 <= x < t0.len() ==> !#[trigger] t0[x].work_active,
                all_exited == forall|x: int| 0 <= x < k ==> #[trigger] self.instances@[x].state == InstanceState::Exited,
            decreases self.instances@.len() - k,
        {
            if self.instances[k].state != InstanceState::Exited {
                all_exited = false;
            }
            k = k + 1;
        }
        proof {
            lemma_unknown_index(old(self)@, self.instances@);
            lemma_work_index(old(self)@, self.tasks@);
        }
        if all_exited {
            self.idle_since = None;
            return ControllerLifecycleDecision::ShutdownNow;
        }
        let since = match self.idle_since {
            Some(t) => t,
            None => now,
        };
        self.idle_since = Some(since);
        let deadline = since + CONTROLLER_IDLE_GRACE_MILLIS;
        if now >= deadline {
            ControllerLifecycleDecision::ShutdownNow
        } else {
            ControllerLifecycleDecision::IdleUntil(deadline)
        }
    }

    /// The observed instances.
    pub fn instances(&self) -> (result: &[InstanceSnapshot])
        requires
            self.wf(),
        ensures
            keys_unique(result@),
            instance_map(result@) == self@.instances,
    {
        self.instances.as_slice()
    }

    pub fn has_observations(&self) -> (result: bool)
        requires
            self.wf(),
        ensures
            result == !self@.instances.is_empty(),
    {
        proof {
            if self.instances@.len() > 0 {
                lemma_view_lookup(self.instances@, 0);
            } else {
                assert(self@.instances =~= Map::empty());
            }
        }
        self.instances.len() > 0
    }

    /// The observed tasks.
    pub fn tasks(&self) -> (result: &[TaskSnapshot])
        requires
            self.wf(),
        ensures
            keys_unique(result@),
            task_map(result@) == self@.tasks,
    {
        self.tasks.as_slice()
    }

    /// The observed MCP connections.
    pub fn connections(&self) -> (result: &[McpConnectionSnapshot])
        requires
            self.wf(),
        ensures
            keys_unique(result@),
            connection_map(result@) == self@.connections,
    {
        self.connections.as_slice()
    }
}

} // verus!

verus! {

/// An instance whose exit was not observed blocks shutdown at any later
/// time: it never becomes idle on its own.
pub proof fn law_unknown_instance_fails_closed(v: LifecycleView, instance_id: Seq<char>, now: i64, later: i64)
    requires
        v.instances.contains_key(instance_id),
        v.instances[instance_id].state != InstanceState::Exited,
    ensures
        instance_unknown_spec(v, instance_id, now) is Some,
        decision_spec(instance_unknown_spec(v, instance_id, now)->0, later).1
            == ControllerLifecycleDecision::BlockedByUnknownInstance,
{
    let w = instance_unknown_spec(v, instance_id, now)->0;
    assert(w.instances.contains_key(instance_id) && w.instances[instance_id].state == InstanceState::Unknown);
}

/// A connected MCP gateway does not keep the Controller alive: when no task
/// is working, initializing a connection never yields `KeepAlive`.
pub proof fn law_mcp_connection_does_not_keep_alive(
    v: LifecycleView,
    connection_id: Seq<char>,
    instance_id: Seq<char>,
    task_id: Option<Seq<char>>,
    pid: Option<u32>,
    now: i64,
    later: i64,
)
    requires
        !any_work_active(v),
    ensures
        decision_spec(mcp_initialized_spec(v, connection_id, instance_id, task_id, pid, now), later).1
            != ControllerLifecycleDecision::KeepAlive,
{
    let w = mcp_initialized_spec(v, connection_id, instance_id, task_id, pid, now);
    assert(w.tasks == v.tasks);
}

/// When an instance exits, every task it owned stops working and keeps no
/// tool, subagent or Operation activity.
pub proof fn law_exited_instance_ends_its_tasks(v: LifecycleView, instance_id: Seq<char>, now: i64, task_id: Seq<char>)
    requires
        v.instances.contains_key(instance_id),
        v.tasks.contains_key(task_id),
        v.tasks[task_id].instance_id == instance_id,
    ensures
        instance_exited_spec(v, instance_id, now) is Some,
        ({
            let t = instance_exited_spec(v, instance_id, now)->0.tasks[task_id];
            &&& !t.work_active
            &&& t.tool_activity == 0
            &&& t.subagent_activity == 0
            &&& t.operation_activity == 0
        }),
        instance_exited_spec(v, instance_id, now)->0.instances[instance_id].state == InstanceState::Exited,
{
}

/// When every live-believed instance was attributed to an owner process and
/// none of those processes is running any more, reconciliation exits them all and
/// the Controller shuts down at once.
pub proof fn law_missing_owners_shut_down_immediately(v: LifecycleView, live: Set<u32>, now: i64, later: i64)
    requires
        forall|k: Seq<char>| #[trigger] v.instances.contains_key(k) ==> v.instances[k].owner_pid is Some
            && !live.contains(v.instances[k].owner_pid->0) && v.instances[k].state != InstanceState::Exited,
        forall|k: Seq<char>| #[trigger] v.tasks.contains_key(k) ==> v.instances.contains_key(v.tasks[k].instance_id),
    ensures
        decision_spec(exit_instances_spec(v, missing_owners(v, live), now), later).1
            == ControllerLifecycleDecision::ShutdownNow,
{
    let m = missing_owners(v, live);
    let w = exit_instances_spec(v, m, now);
    assert forall|k: Seq<char>| w.instances.contains_key(k) implies #[trigger] w.instances[k].state == InstanceState::Exited by {
        if v.instances[k].state != InstanceState::Exited {
            assert(m.contains(k));
        }
    }
    assert forall|k: Seq<char>| w.tasks.contains_key(k) implies !#[trigger] w.tasks[k].work_active by {
        let i = v.tasks[k].instance_id;
        assert(m.contains(i));
    }
}

/// A root stop ends the task's work when nothing else is active, and leaves
/// it working while a tool, subagent or Operation is still active.
pub proof fn law_root_stop_waits_for_activity(v: LifecycleView, task_id: Seq<char>, now: i64)
    requires
        v.tasks.contains_key(task_id),
    ensures
        root_stop_spec(v, task_id, now) is Some,
        ({
            let t = v.tasks[task_id];
            let after = root_stop_spec(v, task_id, now)->0.tasks[task_id];
            &&& after.root_stop_observed
            &&& (t.tool_activity == 0 && t.subagent_activity == 0 && t.operation_activity == 0 ==> !after.work_active)
            &&& (t.tool_activity > 0 || t.subagent_activity > 0 || t.operation_activity > 0 ==> after.work_active == t.work_active)
        }),
{
}

/// An idle decision starts (or continues) one lease that ends thirty seconds
/// after the first idle decision; a new prompt cancels it and keeps the
/// Controller alive.
pub proof fn law_idle_lease_is_thirty_seconds_and_cancellable(
    v: LifecycleView,
    now: i64,
    instance_id: Seq<char>,
    task_id: Seq<char>,
    pid: Option<u32>,
    later: i64,
)
    requires
        !any_instance_unknown(v),
        !any_work_active(v),
        !all_instances_exited(v),
        v.idle_since matches Some(t) ==> t <= now,
        now <= i64::MAX - CONTROLLER_IDLE_GRACE_MILLIS,
    ensures
        ({
            let (w, d) = decision_spec(v, now);
            let since = match v.idle_since { Some(t) => t, None => now };
            &&& w.idle_since == Some(since)
            &&& (now < since + CONTROLLER_IDLE_GRACE_MILLIS ==> d == ControllerLifecycleDecision::IdleUntil((since + CONTROLLER_IDLE_GRACE_MILLIS) as i64))
            &&& (now >= since + CONTROLLER_IDLE_GRACE_MILLIS ==> d == ControllerLifecycleDecision::ShutdownNow)
        }),
        user_prompt_spec(decision_spec(v, now).0, instance_id, task_id, pid, later).idle_since is None,
        !any_instance_unknown(user_prompt_spec(decision_spec(v, now).0, instance_id, task_id, pid, later)) ==>
            decision_spec(user_prompt_spec(decision_spec(v, now).0, instance_id, task_id, pid, later), later).1
                == ControllerLifecycleDecision::KeepAlive,
{
    let u = user_prompt_spec(decision_spec(v, now).0, instance_id, task_id, pid, later);
    assert(u.tasks.contains_key(task_id) && u.tasks[task_id].work_active);
}

} // verus!

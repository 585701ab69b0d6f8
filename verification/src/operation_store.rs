//! Durable, event-backed Operation state for MCP control tools.
//!
//! The store never retries external work.  A record that is not terminal
//! when the Controller restarts becomes `failed` (before any process could
//! start) or `outcome_unknown` (after one may have started), preserving the
//! fact that a side effect may already have happened.
use vstd::prelude::*;

use crate::json::{JsonValue, JsonView, JsonMember, clone_json, json_get, json_get_member};
use crate::keyed::{Keyed, keys_unique, has_key, keyed_map, lemma_key_index, lemma_keyed_update, lemma_keyed_push, lemma_map_lookup};
use crate::text::{str_eq, seq_lt, string_lt, lemma_seq_lt_total, lemma_seq_lt_transitive};

verus! {

/// Events returned by one `events_after` page at most.
pub const EVENT_PAGE_SIZE: usize = 256;

#[derive(Clone, Copy, Debug, PartialEq, Eq, Structural)]
pub enum OperationStatus {
    Received,
    Resolving,
    ApprovalWait,
    Queued,
    Starting,
    Running,
    Cancelling,
    Succeeded,
    Failed,
    Cancelled,
    Denied,
    Expired,
    OutcomeUnknown,
}

#[derive(Clone, Copy, Debug, PartialEq, Eq, Structural)]
pub enum OperationStoreError {
    LocalAppDataUnavailable,
    Io,
    Corrupt,
    Dacl,
    Transition,
    IdempotencyConflict,
}

/// The wire name of a status.
pub open spec fn status_name(s: OperationStatus) -> Seq<char> {
    match s {
        OperationStatus::Received => "received"@,
        OperationStatus::Resolving => "resolving"@,
        OperationStatus::ApprovalWait => "approval_wait"@,
        OperationStatus::Queued => "queued"@,
        OperationStatus::Starting => "starting"@,
        OperationStatus::Running => "running"@,
        OperationStatus::Cancelling => "cancelling"@,
        OperationStatus::Succeeded => "succeeded"@,
        OperationStatus::Failed => "failed"@,
        OperationStatus::Cancelled => "cancelled"@,
        OperationStatus::Denied => "denied"@,
        OperationStatus::Expired => "expired"@,
        OperationStatus::OutcomeUnknown => "outcome_unknown"@,
    }
}

/// The status that a wire name denotes, if any.
pub open spec fn parse_status_spec(t: Seq<char>) -> Option<OperationStatus> {
    if t == "received"@ {
        Some(OperationStatus::Received)
    } else if t == "resolving"@ {
        Some(OperationStatus::Resolving)
    } else if t == "approval_wait"@ {
        Some(OperationStatus::ApprovalWait)
    } else if t == "queued"@ {
        Some(OperationStatus::Queued)
    } else if t == "starting"@ {
        Some(OperationStatus::Starting)
    } else if t == "running"@ {
        Some(OperationStatus::Running)
    } else if t == "cancelling"@ {
        Some(OperationStatus::Cancelling)
    } else if t == "succeeded"@ {
        Some(OperationStatus::Succeeded)
    } else if t == "failed"@ {
        Some(OperationStatus::Failed)
    } else if t == "cancelled"@ {
        Some(OperationStatus::Cancelled)
    } else if t == "denied"@ {
        Some(OperationStatus::Denied)
    } else if t == "expired"@ {
        Some(OperationStatus::Expired)
    } else if t == "outcome_unknown"@ {
        Some(OperationStatus::OutcomeUnknown)
    } else {
        None
    }
}

pub open spec fn is_terminal(s: OperationStatus) -> bool {
    match s {
        OperationStatus::Succeeded | OperationStatus::Failed | OperationStatus::Cancelled
        | OperationStatus::Denied | OperationStatus::Expired | OperationStatus::OutcomeUnknown => true,
        _ => false,
    }
}

/// The frozen Operation state machine.
pub open spec fn is_valid_transition(from: OperationStatus, to: OperationStatus) -> bool {
    match (from, to) {
        (OperationStatus::Received, OperationStatus::Resolving)
        | (OperationStatus::Received, OperationStatus::ApprovalWait)
        | (OperationStatus::Received, OperationStatus::Queued)
        | (OperationStatus::Resolving, OperationStatus::ApprovalWait)
        | (OperationStatus::Resolving, OperationStatus::Queued)
        | (OperationStatus::Resolving, OperationStatus::Failed)
        | (OperationStatus::ApprovalWait, OperationStatus::Queued)
        | (OperationStatus::ApprovalWait, OperationStatus::Denied)
        | (OperationStatus::ApprovalWait, OperationStatus::Expired)
        | (OperationStatus::Queued, OperationStatus::Starting)
        | (OperationStatus::Starting, OperationStatus::Running)
        | (OperationStatus::Running, OperationStatus::Succeeded)
        | (OperationStatus::Running, OperationStatus::Failed)
        | (OperationStatus::Running, OperationStatus::Cancelling)
        | (OperationStatus::Running, OperationStatus::OutcomeUnknown)
        | (OperationStatus::Cancelling, OperationStatus::Cancelled)
        | (OperationStatus::Cancelling, OperationStatus::Succeeded)
        | (OperationStatus::Cancelling, OperationStatus::Failed)
        | (OperationStatus::Cancelling, OperationStatus::OutcomeUnknown) => true,
        _ => false,
    }
}

/// Statuses in which no external process can have been started yet.
pub open spec fn before_process_start(s: OperationStatus) -> bool {
    match s {
        OperationStatus::Received | OperationStatus::Resolving | OperationStatus::ApprovalWait
        | OperationStatus::Queued | OperationStatus::Starting => true,
        _ => false,
    }
}

impl OperationStatus {
    /// The wire name of this status.
    pub fn as_str(&self) -> (result: &'static str)
        ensures
            result@ == status_name(*self),
    {
        match self {
            OperationStatus::Received => "received",
            OperationStatus::Resolving => "resolving",
            OperationStatus::ApprovalWait => "approval_wait",
            OperationStatus::Queued => "queued",
            OperationStatus::Starting => "starting",
            OperationStatus::Running => "running",
            OperationStatus::Cancelling => "cancelling",
            OperationStatus::Succeeded => "succeeded",
            OperationStatus::Failed => "failed",
            OperationStatus::Cancelled => "cancelled",
            OperationStatus::Denied => "denied",
            OperationStatus::Expired => "expired",
            OperationStatus::OutcomeUnknown => "outcome_unknown",
        }
    }
}

/// The status named by `text`, if it names one.
pub fn parse_status(text: &str) -> (result: Option<OperationStatus>)
    ensures
        result == parse_status_spec(text@),
{
    if str_eq(text, "received") {
        Some(OperationStatus::Received)
    } else if str_eq(text, "resolving") {
        Some(OperationStatus::Resolving)
    } else if str_eq(text, "approval_wait") {
        Some(OperationStatus::ApprovalWait)
    } else if str_eq(text, "queued") {
        Some(OperationStatus::Queued)
    } else if str_eq(text, "starting") {
        Some(OperationStatus::Starting)
    } else if str_eq(text, "running") {
        Some(OperationStatus::Running)
    } else if str_eq(text, "cancelling") {
        Some(OperationStatus::Cancelling)
    } else if str_eq(text, "succeeded") {
        Some(OperationStatus::Succeeded)
    } else if str_eq(text, "failed") {
        Some(OperationStatus::Failed)
    } else if str_eq(text, "cancelled") {
        Some(OperationStatus::Cancelled)
    } else if str_eq(text, "denied") {
        Some(OperationStatus::Denied)
    } else if str_eq(text, "expired") {
        Some(OperationStatus::Expired)
    } else if str_eq(text, "outcome_unknown") {
        Some(OperationStatus::OutcomeUnknown)
    } else {
        None
    }
}

/// Whether no further transition may leave `status`.
pub fn terminal(status: OperationStatus) -> (result: bool)
    ensures
        result == is_terminal(status),
{
    match status {
        OperationStatus::Succeeded | OperationStatus::Failed | OperationStatus::Cancelled
        | OperationStatus::Denied | OperationStatus::Expired | OperationStatus::OutcomeUnknown => true,
        _ => false,
    }
}

/// Whether the state machine allows `from -> to`.
pub fn valid_transition(from: OperationStatus, to: OperationStatus) -> (result: bool)
    ensures
        result == is_valid_transition(from, to),
{
    match (from, to) {
        (OperationStatus::Received, OperationStatus::Resolving)
        | (OperationStatus::Received, OperationStatus::ApprovalWait)
        | (OperationStatus::Received, OperationStatus::Queued)
        | (OperationStatus::Resolving, OperationStatus::ApprovalWait)
        | (OperationStatus::Resolving, OperationStatus::Queued)
        | (OperationStatus::Resolving, OperationStatus::Failed)
        | (OperationStatus::ApprovalWait, OperationStatus::Queued)
        | (OperationStatus::ApprovalWait, OperationStatus::Denied)
        | (OperationStatus::ApprovalWait, OperationStatus::Expired)
        | (OperationStatus::Queued, OperationStatus::Starting)
        | (OperationStatus::Starting, OperationStatus::Running)
        | (OperationStatus::Running, OperationStatus::Succeeded)
        | (OperationStatus::Running, OperationStatus::Failed)
        | (OperationStatus::Running, OperationStatus::Cancelling)
        | (OperationStatus::Running, OperationStatus::OutcomeUnknown)
        | (OperationStatus::Cancelling, OperationStatus::Cancelled)
        | (OperationStatus::Cancelling, OperationStatus::Succeeded)
        | (OperationStatus::Cancelling, OperationStatus::Failed)
        | (OperationStatus::Cancelling, OperationStatus::OutcomeUnknown) => true,
        _ => false,
    }
}

/// An RFC 3339 UTC time with milliseconds: a year of at least four
/// characters, then `-MM-DDTHH:MM:SS.mmmZ` with two-digit fields and three
/// millisecond digits.
pub open spec fn is_utc_millis_text(t: Seq<char>) -> bool {
    let n = t.len();
    let d = |i: int| crate::cli::is_digit(t[n - 20 + i]);
    &&& n >= 24
    &&& t[n - 20] == '-' && d(1) && d(2)
    &&& t[n - 17] == '-' && d(4) && d(5)
    &&& t[n - 14] == 'T' && d(7) && d(8)
    &&& t[n - 11] == ':' && d(10) && d(11)
    &&& t[n - 8] == ':' && d(13) && d(14)
    &&& t[n - 5] == '.' && d(16) && d(17) && d(18)
    &&& t[n - 1] == 'Z'
}

/// Current UTC time as an RFC 3339 string with millisecond precision
/// (`chrono::Utc::now().to_rfc3339_opts(SecondsFormat::Millis, true)`).
/// Claimed of every outcome: the shape that chrono's RFC 3339 writer gives
/// (`format/formatting.rs`, `write_rfc3339`); which time it names depends
/// on the clock and is not stated.
#[verifier::external_body]
pub(crate) fn now() -> (result: String)
    ensures
        is_utc_millis_text(result@),
{
    chrono::Utc::now().to_rfc3339_opts(chrono::SecondsFormat::Millis, true)
}

pub struct OperationEvent {
    pub sequence: u64,
    pub timestamp: String,
    pub phase: String,
    pub detail: String,
}

pub struct OperationSnapshot {
    pub operation_id: String,
    pub command: String,
    pub correlation_id: String,
    pub tool_id: String,
    pub descriptor_hash: String,
    pub arguments_hash: String,
    pub status: OperationStatus,
    pub accepted_at: String,
    pub started_at: Option<String>,
    pub finished_at: Option<String>,
    pub cancellable: bool,
    pub cancel_requested: bool,
    pub cancel_effective: bool,
    pub result: Option<JsonValue>,
    pub error: Option<JsonValue>,
    pub latest_event_sequence: u64,
    pub events: Vec<OperationEvent>,
}

pub struct IdempotencyRecord {
    pub idempotency_key: String,
    pub operation_id: String,
    pub invocation_hash: String,
}

pub struct OperationCreate {
    pub command: String,
    pub correlation_id: String,
    pub tool_id: String,
    pub descriptor_hash: String,
    pub arguments_hash: String,
    pub cancellable: bool,
    pub idempotency_key: Option<String>,
    pub invocation_hash: String,
}

/// One event, without its wall-clock timestamp.
pub struct EventView {
    pub sequence: u64,
    pub phase: Seq<char>,
    pub detail: Seq<char>,
}

/// One Operation, without its wall-clock timestamps: `started` and
/// `finished` say whether a start and a finish time were recorded.
pub struct OperationView {
    pub operation_id: Seq<char>,
    pub command: Seq<char>,
    pub correlation_id: Seq<char>,
    pub tool_id: Seq<char>,
    pub descriptor_hash: Seq<char>,
    pub arguments_hash: Seq<char>,
    pub status: OperationStatus,
    pub started: bool,
    pub finished: bool,
    pub cancellable: bool,
    pub cancel_requested: bool,
    pub cancel_effective: bool,
    pub result: Option<JsonView>,
    pub error: Option<JsonView>,
    pub latest_event_sequence: u64,
    pub events: Seq<EventView>,
}

pub struct IdempotencyView {
    pub operation_id: Seq<char>,
    pub invocation_hash: Seq<char>,
}

pub struct StoreView {
    pub operations: Map<Seq<char>, OperationView>,
    pub idempotency: Map<Seq<char>, IdempotencyView>,
}

pub struct CreateView {
    pub command: Seq<char>,
    pub correlation_id: Seq<char>,
    pub tool_id: Seq<char>,
    pub descriptor_hash: Seq<char>,
    pub arguments_hash: Seq<char>,
    pub cancellable: bool,
    pub idempotency_key: Option<Seq<char>>,
    pub invocation_hash: Seq<char>,
}

pub open spec fn opt_json_view(v: Option<JsonValue>) -> Option<JsonView> {
    match v {
        Some(j) => Some(j@),
        None => None,
    }
}

impl View for OperationEvent {
    type V = EventView;

    open spec fn view(&self) -> EventView {
        EventView { sequence: self.sequence, phase: self.phase@, detail: self.detail@ }
    }
}

pub open spec fn events_view(events: Seq<OperationEvent>) -> Seq<EventView> {
    events.map_values(|e: OperationEvent| e@)
}

impl View for OperationSnapshot {
    type V = OperationView;

    open spec fn view(&self) -> OperationView {
        OperationView {
            operation_id: self.operation_id@,
            command: self.command@,
            correlation_id: self.correlation_id@,
            tool_id: self.tool_id@,
            descriptor_hash: self.descriptor_hash@,
            arguments_hash: self.arguments_hash@,
            status: self.status,
            started: self.started_at is Some,
            finished: self.finished_at is Some,
            cancellable: self.cancellable,
            cancel_requested: self.cancel_requested,
            cancel_effective: self.cancel_effective,
            result: opt_json_view(self.result),
            error: opt_json_view(self.error),
            latest_event_sequence: self.latest_event_sequence,
            events: events_view(self.events@),
        }
    }
}

impl View for IdempotencyRecord {
    type V = IdempotencyView;

    open spec fn view(&self) -> IdempotencyView {
        IdempotencyView { operation_id: self.operation_id@, invocation_hash: self.invocation_hash@ }
    }
}

impl Keyed for OperationSnapshot {
    open spec fn key(&self) -> Seq<char> {
        self.operation_id@
    }
}

impl Keyed for IdempotencyRecord {
    open spec fn key(&self) -> Seq<char> {
        self.idempotency_key@
    }
}

impl View for OperationCreate {
    type V = CreateView;

    open spec fn view(&self) -> CreateView {
        CreateView {
            command: self.command@,
            correlation_id: self.correlation_id@,
            tool_id: self.tool_id@,
            descriptor_hash: self.descriptor_hash@,
            arguments_hash: self.arguments_hash@,
            cancellable: self.cancellable,
            idempotency_key: match self.idempotency_key { Some(k) => Some(k@), None => None },
            invocation_hash: self.invocation_hash@,
        }
    }
}

// ----------------------------------------------------------------------
// The abstract store.
// ----------------------------------------------------------------------

/// Event sequence numbers strictly increase and never exceed the latest one.
pub open spec fn events_ordered(events: Seq<EventView>, latest: u64) -> bool {
    &&& forall|i: int, j: int| 0 <= i < j < events.len() ==> #[trigger] events[i].sequence < #[trigger] events[j].sequence
    &&& forall|i: int| 0 <= i < events.len() ==> #[trigger] events[i].sequence <= latest
}

pub open spec fn append_event(op: OperationView, phase: Seq<char>, detail: Seq<char>) -> OperationView {
    OperationView {
        latest_event_sequence: (op.latest_event_sequence + 1) as u64,
        events: op.events.push(EventView { sequence: (op.latest_event_sequence + 1) as u64, phase, detail }),
        ..op
    }
}

/// A freshly accepted Operation.
pub open spec fn fresh_operation(req: CreateView, operation_id: Seq<char>) -> OperationView {
    OperationView {
        operation_id,
        command: req.command,
        correlation_id: req.correlation_id,
        tool_id: req.tool_id,
        descriptor_hash: req.descriptor_hash,
        arguments_hash: req.arguments_hash,
        status: OperationStatus::Received,
        started: false,
        finished: false,
        cancellable: req.cancellable,
        cancel_requested: false,
        cancel_effective: false,
        result: None,
        error: None,
        latest_event_sequence: 1,
        events: seq![EventView { sequence: 1, phase: "received"@, detail: "invocation_accepted"@ }],
    }
}

/// `create`: an idempotency key that is already bound replays its Operation
/// only for the same invocation identity.
pub open spec fn create_spec(v: StoreView, req: CreateView, operation_id: Seq<char>) -> Result<(StoreView, OperationView), OperationStoreError> {
    if req.idempotency_key is Some && v.idempotency.contains_key(req.idempotency_key->0) {
        let record = v.idempotency[req.idempotency_key->0];
        if record.invocation_hash != req.invocation_hash {
            Err(OperationStoreError::IdempotencyConflict)
        } else if v.operations.contains_key(record.operation_id) {
            Ok((v, v.operations[record.operation_id]))
        } else {
            Err(OperationStoreError::Corrupt)
        }
    } else {
        let op = fresh_operation(req, operation_id);
        Ok((
            StoreView {
                operations: v.operations.insert(operation_id, op),
                idempotency: match req.idempotency_key {
                    Some(k) => v.idempotency.insert(k, IdempotencyView { operation_id, invocation_hash: req.invocation_hash }),
                    None => v.idempotency,
                },
            },
            op,
        ))
    }
}

pub open spec fn with_operation(v: StoreView, id: Seq<char>, op: OperationView) -> StoreView {
    StoreView { operations: v.operations.insert(id, op), ..v }
}

/// `transition`: a non-terminal Operation moves along the state machine.
pub open spec fn transition_spec(v: StoreView, id: Seq<char>, next: Seq<char>, detail: Seq<char>) -> Result<(StoreView, OperationView), OperationStoreError> {
    if !v.operations.contains_key(id) {
        Err(OperationStoreError::Corrupt)
    } else {
        let op = v.operations[id];
        match parse_status_spec(next) {
            Some(to) if !is_terminal(op.status) && is_valid_transition(op.status, to) => {
                let moved = OperationView {
                    status: to,
                    started: op.started || to == OperationStatus::Running,
                    finished: op.finished || is_terminal(to),
                    ..op
                };
                let updated = append_event(moved, next, detail);
                Ok((with_operation(v, id, updated), updated))
            },
            _ => Err(OperationStoreError::Transition),
        }
    }
}

/// Whether a backend error reports an effective cancellation.
pub open spec fn cancellation_effective(outcome: Result<JsonView, JsonView>) -> bool {
    match outcome {
        Err(e) => json_get(e, "code"@) == Some(JsonView::Str("TOOL_CANCELLED"@)),
        Ok(_) => false,
    }
}

pub open spec fn outcome_view(r: Result<JsonValue, JsonValue>) -> Result<JsonView, JsonView> {
    match r {
        Ok(v) => Ok(v@),
        Err(e) => Err(e@),
    }
}

pub open spec fn completion_status(outcome: Result<JsonView, JsonView>) -> OperationStatus {
    if cancellation_effective(outcome) {
        OperationStatus::Cancelled
    } else if outcome is Ok {
        OperationStatus::Succeeded
    } else {
        OperationStatus::Failed
    }
}

/// `complete`: the backend finished; a terminal Operation is never changed.
pub open spec fn complete_spec(v: StoreView, id: Seq<char>, outcome: Result<JsonView, JsonView>) -> Result<(StoreView, OperationView), OperationStoreError> {
    if !v.operations.contains_key(id) {
        Err(OperationStoreError::Corrupt)
    } else {
        let op = v.operations[id];
        if is_terminal(op.status) {
            Ok((v, op))
        } else {
            let status = completion_status(outcome);
            let done = OperationView {
                status,
                finished: true,
                cancel_effective: cancellation_effective(outcome),
                result: match outcome { Ok(r) => Some(r), Err(_) => op.result },
                error: match outcome { Err(e) => Some(e), Ok(_) => op.error },
                ..op
            };
            let updated = append_event(done, status_name(status), "backend_finished"@);
            Ok((with_operation(v, id, updated), updated))
        }
    }
}

/// `request_cancel`: records one cancellation intent; repeating it, or
/// asking on a terminal Operation, changes nothing.
pub open spec fn cancel_spec(v: StoreView, id: Seq<char>, reason: Seq<char>) -> Result<(StoreView, OperationView), OperationStoreError> {
    if !v.operations.contains_key(id) {
        Err(OperationStoreError::Corrupt)
    } else {
        let op = v.operations[id];
        if is_terminal(op.status) || op.cancel_requested {
            Ok((v, op))
        } else {
            let marked = OperationView {
                cancel_requested: true,
                status: if op.cancellable { OperationStatus::Cancelling } else { op.status },
                ..op
            };
            let updated = append_event(marked, "cancel_requested"@, reason);
            Ok((with_operation(v, id, updated), updated))
        }
    }
}

pub open spec fn recovery_error() -> JsonView {
    JsonView::Object(seq![
        ("code"@, JsonView::Str("CONTROLLER_RECOVERED_BEFORE_PROCESS_START"@)),
        ("retryable"@, JsonView::Bool(false)),
    ])
}

/// What a restart makes of one Operation.
pub open spec fn recovered_operation(op: OperationView) -> OperationView {
    if is_terminal(op.status) {
        op
    } else if before_process_start(op.status) {
        append_event(
            OperationView { status: OperationStatus::Failed, error: Some(recovery_error()), finished: true, ..op },
            "failed"@,
            "controller_recovered_before_process_start"@,
        )
    } else {
        append_event(
            OperationView { status: OperationStatus::OutcomeUnknown, finished: true, ..op },
            "outcome_unknown"@,
            "controller_recovered_after_process_start"@,
        )
    }
}

pub open spec fn recover_spec(v: StoreView) -> StoreView {
    StoreView {
        operations: Map::new(
            |k: Seq<char>| v.operations.contains_key(k),
            |k: Seq<char>| recovered_operation(v.operations[k]),
        ),
        ..v
    }
}

/// The events of `events` with a sequence number above `after`, in order.
pub open spec fn events_after_spec(events: Seq<EventView>, after: u64) -> Seq<EventView>
    decreases events.len(),
{
    if events.len() == 0 {
        Seq::empty()
    } else {
        let rest = events_after_spec(events.drop_last(), after);
        if events.last().sequence > after { rest.push(events.last()) } else { rest }
    }
}

/// One page of events: the first `EVENT_PAGE_SIZE` of those after `after`.
pub open spec fn event_page(events: Seq<EventView>, after: u64) -> Seq<EventView> {
    let all = events_after_spec(events, after);
    if all.len() <= EVENT_PAGE_SIZE { all } else { all.take(EVENT_PAGE_SIZE as int) }
}

/// Whether `k` is the smallest Operation id whose correlation id is `c`.
pub open spec fn first_by_correlation(v: StoreView, c: Seq<char>, k: Seq<char>) -> bool {
    &&& v.operations.contains_key(k)
    &&& v.operations[k].correlation_id == c
    &&& forall|j: Seq<char>| #[trigger] v.operations.contains_key(j) && v.operations[j].correlation_id == c && j != k ==> seq_lt(k, j)
}

// ----------------------------------------------------------------------
// Lemmas.
// ----------------------------------------------------------------------

proof fn lemma_map_update<T: Keyed + View>(s: Seq<T>, i: int, x: T)
    requires
        keys_unique(s),
        0 <= i < s.len(),
        x.key() == s[i].key(),
    ensures
        keys_unique(s.update(i, x)),
        keyed_map(s.update(i, x)).map_values(|y: T| y@) == keyed_map(s).map_values(|y: T| y@).insert(s[i].key(), x@),
        keyed_map(s).map_values(|y: T| y@).contains_key(s[i].key()),
        keyed_map(s).map_values(|y: T| y@)[s[i].key()] == s[i]@,
{
    lemma_keyed_update(s, i, x);
    lemma_key_index(s, i);
    assert(keyed_map(s.update(i, x)).map_values(|y: T| y@) =~= keyed_map(s).map_values(|y: T| y@).insert(s[i].key(), x@));
}

proof fn lemma_map_push<T: Keyed + View>(s: Seq<T>, x: T)
    requires
        keys_unique(s),
        !has_key(s, x.key()),
    ensures
        keys_unique(s.push(x)),
        keyed_map(s.push(x)).map_values(|y: T| y@) == keyed_map(s).map_values(|y: T| y@).insert(x.key(), x@),
        !keyed_map(s).map_values(|y: T| y@).contains_key(x.key()),
{
    lemma_keyed_push(s, x);
    assert(keyed_map(s.push(x)).map_values(|y: T| y@) =~= keyed_map(s).map_values(|y: T| y@).insert(x.key(), x@));
}


proof fn lemma_append_ordered(op: OperationView, phase: Seq<char>, detail: Seq<char>)
    requires
        events_ordered(op.events, op.latest_event_sequence),
        op.latest_event_sequence < u64::MAX,
    ensures
        events_ordered(append_event(op, phase, detail).events, append_event(op, phase, detail).latest_event_sequence),
{
    let e = append_event(op, phase, detail).events;
    assert forall|i: int, j: int| 0 <= i < j < e.len() implies #[trigger] e[i].sequence < #[trigger] e[j].sequence by {
        if j == e.len() - 1 {
            assert(e[i] == op.events[i]);
        } else {
            assert(e[i] == op.events[i]);
            assert(e[j] == op.events[j]);
        }
    }
    assert forall|i: int| 0 <= i < e.len() implies #[trigger] e[i].sequence <= op.latest_event_sequence + 1 by {
        if i < e.len() - 1 {
            assert(e[i] == op.events[i]);
        }
    }
}

pub proof fn lemma_events_after_step(events: Seq<EventView>, i: int, after: u64)
    requires
        0 <= i < events.len(),
    ensures
        events_after_spec(events.take(i + 1), after) == if events[i].sequence > after {
            events_after_spec(events.take(i), after).push(events[i])
        } else {
            events_after_spec(events.take(i), after)
        },
{
    assert(events.take(i + 1).drop_last() =~= events.take(i));
}

/// The events after `after` of a prefix are a prefix of those of the whole.
pub proof fn lemma_events_after_prefix(events: Seq<EventView>, i: int, after: u64)
    requires
        0 <= i <= events.len(),
    ensures
        events_after_spec(events.take(i), after).len() <= events_after_spec(events, after).len(),
        events_after_spec(events.take(i), after) == events_after_spec(events, after).take(events_after_spec(events.take(i), after).len() as int),
    decreases events.len() - i,
{
    if i == events.len() {
        assert(events.take(i) =~= events);
        assert(events_after_spec(events, after).take(events_after_spec(events, after).len() as int) =~= events_after_spec(events, after));
    } else {
        lemma_events_after_prefix(events, i + 1, after);
        lemma_events_after_step(events, i, after);
        let a = events_after_spec(events.take(i), after);
        let b = events_after_spec(events.take(i + 1), after);
        let whole = events_after_spec(events, after);
        if events[i].sequence > after {
            assert(a =~= b.take(a.len() as int));
            assert(a =~= whole.take(a.len() as int));
        }
    }
}

/// Every event after `after` comes from `events`, in the same order.
pub proof fn lemma_events_after_ordered(events: Seq<EventView>, after: u64, latest: u64)
    requires
        events_ordered(events, latest),
    ensures
        events_ordered(events_after_spec(events, after), latest),
        forall|i: int| 0 <= i < events_after_spec(events, after).len() ==> #[trigger] events_after_spec(events, after)[i].sequence > after,
        forall|i: int| 0 <= i < events_after_spec(events, after).len() ==>
            exists|j: int| 0 <= j < events.len() && events[j] == #[trigger] events_after_spec(events, after)[i],
    decreases events.len(),
{
    if events.len() > 0 {
        let prefix = events.drop_last();
        assert(events_ordered(prefix, latest)) by {
            assert forall|i: int, j: int| 0 <= i < j < prefix.len() implies #[trigger] prefix[i].sequence < #[trigger] prefix[j].sequence by {
                assert(prefix[i] == events[i]);
                assert(prefix[j] == events[j]);
            }
            assert forall|i: int| 0 <= i < prefix.len() implies #[trigger] prefix[i].sequence <= latest by {
                assert(prefix[i] == events[i]);
            }
        }
        lemma_events_after_ordered(prefix, after, latest);
        let rest = events_after_spec(prefix, after);
        let r = events_after_spec(events, after);
        assert forall|i: int| 0 <= i < rest.len() implies
            exists|j: int| 0 <= j < events.len() && events[j] == #[trigger] rest[i] by {
            let j = choose|j: int| 0 <= j < prefix.len() && prefix[j] == rest[i];
            assert(events[j] == prefix[j]);
        }
        if events.last().sequence > after {
            assert forall|i: int, j: int| 0 <= i < j < r.len() implies #[trigger] r[i].sequence < #[trigger] r[j].sequence by {
                if j == r.len() - 1 {
                    let k = choose|k: int| 0 <= k < prefix.len() && prefix[k] == rest[i];
                    assert(events[k] == prefix[k]);
                    assert(r[i] == rest[i]);
                } else {
                    assert(r[i] == rest[i]);
                    assert(r[j] == rest[j]);
                }
            }
            assert forall|i: int| 0 <= i < r.len() implies
                exists|j: int| 0 <= j < events.len() && events[j] == #[trigger] r[i] by {
                if i < r.len() - 1 {
                    assert(r[i] == rest[i]);
                } else {
                    assert(events[events.len() - 1] == r[i]);
                }
            }
            assert forall|i: int| 0 <= i < r.len() implies #[trigger] r[i].sequence <= latest by {
                if i < r.len() - 1 {
                    assert(r[i] == rest[i]);
                }
            }
            assert forall|i: int| 0 <= i < r.len() implies #[trigger] r[i].sequence > after by {
                if i < r.len() - 1 {
                    assert(r[i] == rest[i]);
                }
            }
        }
    }
}

// ----------------------------------------------------------------------
// The executable store.
// ----------------------------------------------------------------------

fn clone_opt_string(value: &Option<String>) -> (result: Option<String>)
    ensures
        result is Some == value is Some,
        result matches Some(r) ==> r@ == value->0@,
{
    match value {
        Some(s) => Some(s.clone()),
        None => None,
    }
}

fn clone_opt_json(value: &Option<JsonValue>) -> (result: Option<JsonValue>)
    ensures
        opt_json_view(result) == opt_json_view(*value),
{
    match value {
        Some(j) => Some(clone_json(j)),
        None => None,
    }
}

fn clone_event(e: &OperationEvent) -> (result: OperationEvent)
    ensures
        result@ == e@,
{
    OperationEvent {
        sequence: e.sequence,
        timestamp: e.timestamp.clone(),
        phase: e.phase.clone(),
        detail: e.detail.clone(),
    }
}

/// A deep copy of an Operation snapshot.
pub fn clone_snapshot(op: &OperationSnapshot) -> (result: OperationSnapshot)
    ensures
        result@ == op@,
        result.key() == op.key(),
{
    let mut events: Vec<OperationEvent> = Vec::new();
    let mut i: usize = 0;
    while i < op.events.len()
        invariant
            i <= op.events@.len(),
            events@.len() == i,
            forall|j: int| 0 <= j < i ==> #[trigger] events@[j]@ == op.events@[j]@,
        decreases op.events@.len() - i,
    {
        events.push(clone_event(&op.events[i]));
        i = i + 1;
    }
    assert(events_view(events@) =~= events_view(op.events@));
    OperationSnapshot {
        operation_id: op.operation_id.clone(),
        command: op.command.clone(),
        correlation_id: op.correlation_id.clone(),
        tool_id: op.tool_id.clone(),
        descriptor_hash: op.descriptor_hash.clone(),
        arguments_hash: op.arguments_hash.clone(),
        status: op.status,
        accepted_at: op.accepted_at.clone(),
        started_at: clone_opt_string(&op.started_at),
        finished_at: clone_opt_string(&op.finished_at),
        cancellable: op.cancellable,
        cancel_requested: op.cancel_requested,
        cancel_effective: op.cancel_effective,
        result: clone_opt_json(&op.result),
        error: clone_opt_json(&op.error),
        latest_event_sequence: op.latest_event_sequence,
        events,
    }
}

fn push_event(op: &mut OperationSnapshot, phase: String, detail: String)
    requires
        old(op).latest_event_sequence < u64::MAX,
    ensures
        final(op)@ == append_event(old(op)@, phase@, detail@),
        final(op).key() == old(op).key(),
{
    op.latest_event_sequence = op.latest_event_sequence + 1;
    let ghost before = op.events@;
    op.events.push(OperationEvent {
        sequence: op.latest_event_sequence,
        timestamp: now(),
        phase,
        detail,
    });
    assert(events_view(op.events@) =~= events_view(before).push(EventView {
        sequence: op.latest_event_sequence,
        phase: phase@,
        detail: detail@,
    }));
}

/// Durable Operation records and idempotency bindings, by id and by key.
pub struct OperationStore {
    operations: Vec<OperationSnapshot>,
    idempotency: Vec<IdempotencyRecord>,
}

impl View for OperationStore {
    type V = StoreView;

    closed spec fn view(&self) -> StoreView {
        StoreView {
            operations: keyed_map(self.operations@).map_values(|o: OperationSnapshot| o@),
            idempotency: keyed_map(self.idempotency@).map_values(|r: IdempotencyRecord| r@),
        }
    }
}

/// Every Operation's events are ordered.
pub open spec fn store_events_ordered(v: StoreView) -> bool {
    forall|k: Seq<char>| #[trigger] v.operations.contains_key(k) ==>
        events_ordered(v.operations[k].events, v.operations[k].latest_event_sequence)
}

/// The Operation `id` can take one more event.
pub open spec fn has_event_room(v: StoreView, id: Seq<char>) -> bool {
    v.operations.contains_key(id) ==> v.operations[id].latest_event_sequence < u64::MAX
}

impl OperationStore {
    pub closed spec fn wf(&self) -> bool {
        &&& keys_unique(self.operations@)
        &&& keys_unique(self.idempotency@)
        &&& store_events_ordered(self@)
    }

    /// An empty store.
    pub fn new() -> (result: Self)
        ensures
            result.wf(),
            result@.operations == Map::<Seq<char>, OperationView>::empty(),
            result@.idempotency == Map::<Seq<char>, IdempotencyView>::empty(),
    {
        let s = OperationStore { operations: Vec::new(), idempotency: Vec::new() };
        assert(s@.operations =~= Map::empty());
        assert(s@.idempotency =~= Map::empty());
        s
    }

    /// Rebuilds a store from persisted records; `None` when an Operation id
    /// or an idempotency key occurs twice or an event history is out of order.
    pub fn from_records(operations: Vec<OperationSnapshot>, idempotency: Vec<IdempotencyRecord>) -> (result: Option<Self>)
        ensures
            match result {
                Some(s) => s.wf()
                    && s@.operations == keyed_map(operations@).map_values(|o: OperationSnapshot| o@)
                    && s@.idempotency == keyed_map(idempotency@).map_values(|r: IdempotencyRecord| r@),
                None => !(keys_unique(operations@) && keys_unique(idempotency@)
                    && forall|i: int| 0 <= i < operations@.len() ==> events_ordered(#[trigger] operations@[i]@.events, operations@[i].latest_event_sequence)),
            },
    {
        let mut i: usize = 0;
        while i < operations.len()
            invariant
                i <= operations@.len(),
                forall|x: int, y: int| 0 <= x < i && 0 <= y < operations@.len() && x != y ==> #[trigger] operations@[x].key() != #[trigger] operations@[y].key(),
                forall|x: int| 0 <= x < i ==> events_ordered(#[trigger] operations@[x]@.events, operations@[x].latest_event_sequence),
            decreases operations@.len() - i,
        {
            let mut j: usize = 0;
            while j < operations.len()
                invariant
                    i < operations@.len(),
                    j <= operations@.len(),
                    forall|y: int| 0 <= y < j && y != i ==> #[trigger] operations@[y].key() != operations@[i as int].key(),
                decreases operations@.len() - j,
            {
                if j != i && operations[j].operation_id == operations[i].operation_id {
                    assert(operations@[j as int].key() == operations@[i as int].key());
                    return None;
                }
                j = j + 1;
            }
            let op = &operations[i];
            let ghost ev = op@.events;
            let mut e: usize = 0;
            let mut prev: u64 = 0;
            while e < op.events.len()
                invariant
                    i < operations@.len(),
                    ev == operations@[i as int]@.events,
                    op.latest_event_sequence == operations@[i as int].latest_event_sequence,
                    e <= op.events@.len(),
                    ev == events_view(op.events@),
                    forall|x: int, y: int| 0 <= x < y < e ==> #[trigger] ev[x].sequence < #[trigger] ev[y].sequence,
                    forall|x: int| 0 <= x < e ==> #[trigger] ev[x].sequence <= op.latest_event_sequence,
                    e > 0 ==> prev == ev[e - 1].sequence,
                decreases op.events@.len() - e,
            {
                let s = op.events[e].sequence;
                if (e > 0 && s <= prev) || s > op.latest_event_sequence {
                    proof {
                        if e > 0 && s <= prev {
                            assert(ev[e - 1].sequence >= ev[e as int].sequence);
                        } else {
                            assert(ev[e as int].sequence > op.latest_event_sequence);
                        }
                    }
                    return None;
                }
                prev = s;
                e = e + 1;
            }
            i = i + 1;
        }
        let mut a: usize = 0;
        while a < idempotency.len()
            invariant
                a <= idempotency@.len(),
                forall|x: int, y: int| 0 <= x < a && 0 <= y < idempotency@.len() && x != y ==> #[trigger] idempotency@[x].key() != #[trigger] idempotency@[y].key(),
            decreases idempotency@.len() - a,
        {
            let mut b: usize = 0;
            while b < idempotency.len()
                invariant
                    a < idempotency@.len(),
                    b <= idempotency@.len(),
                    forall|y: int| 0 <= y < b && y != a ==> #[trigger] idempotency@[y].key() != idempotency@[a as int].key(),
                decreases idempotency@.len() - b,
            {
                if b != a && idempotency[b].idempotency_key == idempotency[a].idempotency_key {
                    assert(idempotency@[b as int].key() == idempotency@[a as int].key());
                    return None;
                }
                b = b + 1;
            }
            a = a + 1;
        }
        let s = OperationStore { operations, idempotency };
        proof {
            assert forall|k: Seq<char>| #[trigger] s@.operations.contains_key(k) implies
                events_ordered(s@.operations[k].events, s@.operations[k].latest_event_sequence) by {
                let x = choose|x: int| 0 <= x < s.operations@.len() && #[trigger] s.operations@[x].key() == k;
                lemma_map_lookup(s.operations@, x);
            }
        }
        Some(s)
    }

    /// The Operation records, in storage order.
    pub fn operations_in_order(&self) -> (result: &Vec<OperationSnapshot>)
        ensures
            self.wf() ==> keys_unique(result@),
            keyed_map(result@).map_values(|o: OperationSnapshot| o@) == self@.operations,
    {
        &self.operations
    }

    /// The idempotency bindings, in storage order.
    pub fn idempotency_records(&self) -> (result: &Vec<IdempotencyRecord>)
        ensures
            self.wf() ==> keys_unique(result@),
            keyed_map(result@).map_values(|r: IdempotencyRecord| r@) == self@.idempotency,
    {
        &self.idempotency
    }

    fn find_operation(&self, id: &String) -> (result: Option<usize>)
        requires
            self.wf(),
        ensures
            match result {
                Some(i) => i < self.operations@.len() && self.operations@[i as int].key() == id@
                    && self@.operations.contains_key(id@) && self@.operations[id@] == self.operations@[i as int]@,
                None => !self@.operations.contains_key(id@),
            },
    {
        let mut i: usize = 0;
        while i < self.operations.len()
            invariant
                self.wf(),
                i <= self.operations@.len(),
                forall|j: int| 0 <= j < i ==> #[trigger] self.operations@[j].key() != id@,
            decreases self.operations@.len() - i,
        {
            if self.operations[i].operation_id == *id {
                proof {
                    lemma_map_lookup(self.operations@, i as int);
                }
                return Some(i);
            }
            i = i + 1;
        }
        None
    }

    fn find_idempotency(&self, key: &String) -> (result: Option<usize>)
        requires
            self.wf(),
        ensures
            match result {
                Some(i) => i < self.idempotency@.len() && self.idempotency@[i as int].key() == key@
                    && self@.idempotency.contains_key(key@) && self@.idempotency[key@] == self.idempotency@[i as int]@,
                None => !self@.idempotency.contains_key(key@),
            },
    {
        let mut i: usize = 0;
        while i < self.idempotency.len()
            invariant
                self.wf(),
                i <= self.idempotency@.len(),
                forall|j: int| 0 <= j < i ==> #[trigger] self.idempotency@[j].key() != key@,
            decreases self.idempotency@.len() - i,
        {
            if self.idempotency[i].idempotency_key == *key {
                proof {
                    lemma_map_lookup(self.idempotency@, i as int);
                }
                return Some(i);
            }
            i = i + 1;
        }
        None
    }

    /// Replaces the Operation at `i` by `op`, which has the same id.
    fn replace_operation(&mut self, i: usize, op: OperationSnapshot)
        requires
            old(self).wf(),
            i < old(self).operations@.len(),
            op.key() == old(self).operations@[i as int].key(),
            events_ordered(op@.events, op@.latest_event_sequence),
        ensures
            final(self).wf(),
            final(self)@ == with_operation(old(self)@, op.key(), op@),
    {
        proof {
            lemma_map_update(self.operations@, i as int, op);
        }
        self.operations.set(i, op);
        proof {
            assert(self@.operations =~= old(self)@.operations.insert(op.key(), op@));
            assert forall|k: Seq<char>| #[trigger] self@.operations.contains_key(k) implies
                events_ordered(self@.operations[k].events, self@.operations[k].latest_event_sequence) by {
                if k != op.key() {
                    assert(old(self)@.operations.contains_key(k));
                }
            }
        }
    }

    /// Accepts an invocation under `operation_id`, or replays the Operation
    /// already bound to the same idempotency key and invocation identity.
    pub fn create(&mut self, request: OperationCreate, operation_id: String) -> (result: Result<OperationSnapshot, OperationStoreError>)
        requires
            old(self).wf(),
            !old(self)@.operations.contains_key(operation_id@),
        ensures
            final(self).wf(),
            match create_spec(old(self)@, request@, operation_id@) {
                Ok((w, op)) => result matches Ok(snapshot) && final(self)@ == w && snapshot@ == op,
                Err(e) => result == Err::<OperationSnapshot, OperationStoreError>(e) && final(self)@ == old(self)@,
            },
    {
        let ghost req = request@;
        let OperationCreate {
            command,
            correlation_id,
            tool_id,
            descriptor_hash,
            arguments_hash,
            cancellable,
            idempotency_key,
            invocation_hash,
        } = request;
        match &idempotency_key {
            Some(key) => {
                match self.find_idempotency(key) {
                    Some(r) => {
                        if self.idempotency[r].invocation_hash != invocation_hash {
                            return Err(OperationStoreError::IdempotencyConflict);
                        }
                        let existing = self.idempotency[r].operation_id.clone();
                        return match self.find_operation(&existing) {
                            Some(i) => Ok(clone_snapshot(&self.operations[i])),
                            None => Err(OperationStoreError::Corrupt),
                        };
                    },
                    None => {},
                }
            },
            None => {},
        }
        let mut events: Vec<OperationEvent> = Vec::new();
        events.push(OperationEvent {
            sequence: 1,
            timestamp: now(),
            phase: "received".to_owned(),
            detail: "invocation_accepted".to_owned(),
        });
        let op = OperationSnapshot {
            operation_id: operation_id.clone(),
            command,
            correlation_id,
            tool_id,
            descriptor_hash,
            arguments_hash,
            status: OperationStatus::Received,
            accepted_at: now(),
            started_at: None,
            finished_at: None,
            cancellable,
            cancel_requested: false,
            cancel_effective: false,
            result: None,
            error: None,
            latest_event_sequence: 1,
            events,
        };
        proof {
            reveal_strlit("received");
            reveal_strlit("invocation_accepted");
            assert(events_view(op.events@) =~= fresh_operation(req, operation_id@).events);
        }
        let snapshot = clone_snapshot(&op);
        match self.find_operation(&operation_id) {
            Some(i) => {
                self.replace_operation(i, op);
            },
            None => {
                proof {
                    lemma_map_push(self.operations@, op);
                }
                self.operations.push(op);
                proof {
                    assert forall|k: Seq<char>| #[trigger] self@.operations.contains_key(k) implies
                        events_ordered(self@.operations[k].events, self@.operations[k].latest_event_sequence) by {
                        if k != operation_id@ {
                            assert(old(self)@.operations.contains_key(k));
                        }
                    }
                }
            },
        }
        match idempotency_key {
            Some(key) => {
                let record = IdempotencyRecord {
                    idempotency_key: key,
                    operation_id,
                    invocation_hash,
                };
                proof {
                    lemma_map_push(self.idempotency@, record);
                }
                self.idempotency.push(record);
            },
            None => {},
        }
        Ok(snapshot)
    }

    /// Moves Operation `operation_id` to the status named `next`.
    pub fn transition(&mut self, operation_id: &str, next: &str, detail: &str) -> (result: Result<OperationSnapshot, OperationStoreError>)
        requires
            old(self).wf(),
            has_event_room(old(self)@, operation_id@),
        ensures
            final(self).wf(),
            match transition_spec(old(self)@, operation_id@, next@, detail@) {
                Ok((w, op)) => result matches Ok(snapshot) && final(self)@ == w && snapshot@ == op,
                Err(e) => result == Err::<OperationSnapshot, OperationStoreError>(e) && final(self)@ == old(self)@,
            },
    {
        let id: String = operation_id.to_owned();
        let i = match self.find_operation(&id) {
            Some(i) => i,
            None => return Err(OperationStoreError::Corrupt),
        };
        let to = match parse_status(next) {
            Some(to) => to,
            None => return Err(OperationStoreError::Transition),
        };
        let current = self.operations[i].status;
        if terminal(current) || !valid_transition(current, to) {
            return Err(OperationStoreError::Transition);
        }
        let mut op = clone_snapshot(&self.operations[i]);
        op.status = to;
        if to == OperationStatus::Running && op.started_at.is_none() {
            op.started_at = Some(now());
        }
        if terminal(to) {
            op.finished_at = Some(now());
        }
        let ghost moved = op@;
        proof {
            lemma_append_ordered(moved, next@, detail@);
        }
        push_event(&mut op, next.to_owned(), detail.to_owned());
        let snapshot = clone_snapshot(&op);
        self.replace_operation(i, op);
        Ok(snapshot)
    }

    /// Records the backend's final result; a terminal Operation is returned
    /// unchanged.
    pub fn complete(&mut self, operation_id: &str, result: Result<JsonValue, JsonValue>) -> (outcome: Result<OperationSnapshot, OperationStoreError>)
        requires
            old(self).wf(),
            has_event_room(old(self)@, operation_id@),
        ensures
            final(self).wf(),
            match complete_spec(old(self)@, operation_id@, outcome_view(result)) {
                Ok((w, op)) => outcome matches Ok(snapshot) && final(self)@ == w && snapshot@ == op,
                Err(e) => outcome == Err::<OperationSnapshot, OperationStoreError>(e) && final(self)@ == old(self)@,
            },
    {
        let ghost outcome_view = outcome_view(result);
        let cancelled = match &result {
            Err(error) => match json_get_member(error, "code") {
                Some(JsonValue::Str(code)) => str_eq(code.as_str(), "TOOL_CANCELLED"),
                _ => false,
            },
            Ok(_) => false,
        };
        proof {
            if result is Err {
                let e = result->Err_0;
                match json_get(e@, "code"@) {
                    Some(JsonView::Str(c)) => {},
                    _ => {},
                }
            }
        }
        assert(cancelled == cancellation_effective(outcome_view));
        let status = if cancelled {
            OperationStatus::Cancelled
        } else if result.is_ok() {
            OperationStatus::Succeeded
        } else {
            OperationStatus::Failed
        };
        let id: String = operation_id.to_owned();
        let i = match self.find_operation(&id) {
            Some(i) => i,
            None => return Err(OperationStoreError::Corrupt),
        };
        if terminal(self.operations[i].status) {
            return Ok(clone_snapshot(&self.operations[i]));
        }
        let mut op = clone_snapshot(&self.operations[i]);
        op.status = status;
        op.finished_at = Some(now());
        op.cancel_effective = cancelled;
        match result {
            Ok(value) => { op.result = Some(value); },
            Err(error) => { op.error = Some(error); },
        }
        let ghost done = op@;
        proof {
            lemma_append_ordered(done, status_name(status), "backend_finished"@);
        }
        push_event(&mut op, status.as_str().to_owned(), "backend_finished".to_owned());
        let snapshot = clone_snapshot(&op);
        self.replace_operation(i, op);
        Ok(snapshot)
    }

    /// Records one cancellation intent.
    pub fn request_cancel(&mut self, operation_id: &str, reason: &str) -> (result: Result<OperationSnapshot, OperationStoreError>)
        requires
            old(self).wf(),
            has_event_room(old(self)@, operation_id@),
        ensures
            final(self).wf(),
            match cancel_spec(old(self)@, operation_id@, reason@) {
                Ok((w, op)) => result matches Ok(snapshot) && final(self)@ == w && snapshot@ == op,
                Err(e) => result == Err::<OperationSnapshot, OperationStoreError>(e) && final(self)@ == old(self)@,
            },
    {
        let id: String = operation_id.to_owned();
        let i = match self.find_operation(&id) {
            Some(i) => i,
            None => return Err(OperationStoreError::Corrupt),
        };
        if terminal(self.operations[i].status) || self.operations[i].cancel_requested {
            return Ok(clone_snapshot(&self.operations[i]));
        }
        let mut op = clone_snapshot(&self.operations[i]);
        op.cancel_requested = true;
        if op.cancellable {
            op.status = OperationStatus::Cancelling;
        }
        let ghost marked = op@;
        proof {
            lemma_append_ordered(marked, "cancel_requested"@, reason@);
        }
        push_event(&mut op, "cancel_requested".to_owned(), reason.to_owned());
        let snapshot = clone_snapshot(&op);
        self.replace_operation(i, op);
        Ok(snapshot)
    }

    /// A copy of Operation `operation_id`.
    pub fn get(&self, operation_id: &str) -> (result: Option<OperationSnapshot>)
        requires
            self.wf(),
        ensures
            match result {
                Some(snapshot) => self@.operations.contains_key(operation_id@) && snapshot@ == self@.operations[operation_id@],
                None => !self@.operations.contains_key(operation_id@),
            },
    {
        let id: String = operation_id.to_owned();
        match self.find_operation(&id) {
            Some(i) => Some(clone_snapshot(&self.operations[i])),
            None => None,
        }
    }

    /// The Operation with correlation id `correlation_id` whose Operation id
    /// sorts first.
    pub fn find_by_correlation(&self, correlation_id: &str) -> (result: Option<OperationSnapshot>)
        requires
            self.wf(),
        ensures
            match result {
                Some(snapshot) => first_by_correlation(self@, correlation_id@, snapshot@.operation_id)
                    && snapshot@ == self@.operations[snapshot@.operation_id],
                None => forall|k: Seq<char>| #[trigger] self@.operations.contains_key(k) ==> self@.operations[k].correlation_id != correlation_id@,
            },
    {
        let c: String = correlation_id.to_owned();
        let mut best: Option<usize> = None;
        let mut i: usize = 0;
        while i < self.operations.len()
            invariant
                self.wf(),
                i <= self.operations@.len(),
                match best {
                    Some(b) => b < i && self.operations@[b as int]@.correlation_id == c@
                        && forall|j: int| 0 <= j < i && #[trigger] self.operations@[j]@.correlation_id == c@ && j != b
                            ==> seq_lt(self.operations@[b as int].key(), self.operations@[j].key()),
                    None => forall|j: int| 0 <= j < i ==> #[trigger] self.operations@[j]@.correlation_id != c@,
                },
            decreases self.operations@.len() - i,
        {
            if self.operations[i].correlation_id == c {
                match best {
                    None => { best = Some(i); },
                    Some(b) => {
                        let smaller = string_lt(&self.operations[i].operation_id, &self.operations[b].operation_id);
                        proof {
                            let kb = self.operations@[b as int].key();
                            let ki = self.operations@[i as int].key();
                            lemma_seq_lt_total(kb, ki);
                            if smaller {
                                assert forall|j: int| 0 <= j < i + 1 && #[trigger] self.operations@[j]@.correlation_id == c@ && j != i
                                    implies seq_lt(ki, self.operations@[j].key()) by {
                                    if j != b {
                                        lemma_seq_lt_transitive(ki, kb, self.operations@[j].key());
                                    }
                                }
                            } else {
                                assert(kb != ki);
                            }
                        }
                        if smaller {
                            best = Some(i);
                        }
                    },
                }
            }
            i = i + 1;
        }
        match best {
            None => {
                proof {
                    assert forall|k: Seq<char>| #[trigger] self@.operations.contains_key(k) implies self@.operations[k].correlation_id != c@ by {
                        let x = choose|x: int| 0 <= x < self.operations@.len() && #[trigger] self.operations@[x].key() == k;
                        lemma_map_lookup(self.operations@, x);
                    }
                }
                None
            },
            Some(b) => {
                proof {
                    lemma_map_lookup(self.operations@, b as int);
                    let kb = self.operations@[b as int].key();
                    assert forall|k: Seq<char>| #[trigger] self@.operations.contains_key(k) && self@.operations[k].correlation_id == c@ && k != kb implies seq_lt(kb, k) by {
                        let x = choose|x: int| 0 <= x < self.operations@.len() && #[trigger] self.operations@[x].key() == k;
                        lemma_map_lookup(self.operations@, x);
                    }
                }
                Some(clone_snapshot(&self.operations[b]))
            },
        }
    }

    /// Up to `EVENT_PAGE_SIZE` events of Operation `operation_id` with a
    /// sequence number above `after_sequence`, in order.
    pub fn events_after(&self, operation_id: &str, after_sequence: u64) -> (result: Option<Vec<OperationEvent>>)
        requires
            self.wf(),
        ensures
            match result {
                Some(events) => self@.operations.contains_key(operation_id@)
                    && events_view(events@) == event_page(self@.operations[operation_id@].events, after_sequence),
                None => !self@.operations.contains_key(operation_id@),
            },
    {
        let id: String = operation_id.to_owned();
        let i = match self.find_operation(&id) {
            Some(i) => i,
            None => return None,
        };
        let op = &self.operations[i];
        let ghost all = events_view(op.events@);
        let mut out: Vec<OperationEvent> = Vec::new();
        let mut e: usize = 0;
        while e < op.events.len() && out.len() < EVENT_PAGE_SIZE
            invariant
                e <= op.events@.len(),
                all == events_view(op.events@),
                out@.len() <= EVENT_PAGE_SIZE,
                events_view(out@) == events_after_spec(all.take(e as int), after_sequence),
            decreases op.events@.len() - e,
        {
            proof {
                lemma_events_after_step(all, e as int, after_sequence);
            }
            if op.events[e].sequence > after_sequence {
                let ghost before = out@;
                out.push(clone_event(&op.events[e]));
                assert(events_view(out@) =~= events_view(before).push(all[e as int]));
            }
            e = e + 1;
        }
        proof {
            lemma_events_after_prefix(all, e as int, after_sequence);
            let whole = events_after_spec(all, after_sequence);
            if e == op.events@.len() {
                assert(all.take(e as int) =~= all);
            } else {
                assert(out@.len() == EVENT_PAGE_SIZE);
            }
        }
        Some(out)
    }

    /// What a Controller restart does: every non-terminal Operation becomes
    /// `failed` (before any process start) or `outcome_unknown`.  Returns
    /// whether any Operation changed.
    pub fn recover(&mut self) -> (result: bool)
        requires
            old(self).wf(),
            forall|k: Seq<char>| #[trigger] old(self)@.operations.contains_key(k) ==> has_event_room(old(self)@, k),
        ensures
            final(self).wf(),
            final(self)@ == recover_spec(old(self)@),
            result == exists|k: Seq<char>| #[trigger] old(self)@.operations.contains_key(k)
                && !is_terminal(old(self)@.operations[k].status),
    {
        let ghost ops0 = self.operations@;
        let ghost v0 = self@;
        let mut recovered = false;
        let mut i: usize = 0;
        while i < self.operations.len()
            invariant
                keys_unique(ops0),
                keys_unique(self.idempotency@),
                self@.idempotency == v0.idempotency,
                v0.operations == keyed_map(ops0).map_values(|o: OperationSnapshot| o@),
                store_events_ordered(v0),
                forall|k: Seq<char>| #[trigger] v0.operations.contains_key(k) ==> has_event_room(v0, k),
                self.operations@.len() == ops0.len(),
                i <= ops0.len(),
                forall|x: int| 0 <= x < ops0.len() ==> #[trigger] self.operations@[x].key() == ops0[x].key(),
                forall|x: int| 0 <= x < i ==> #[trigger] self.operations@[x]@ == recovered_operation(ops0[x]@),
                forall|x: int| i <= x < ops0.len() ==> #[trigger] self.operations@[x] == ops0[x],
                recovered == exists|x: int| 0 <= x < i && !is_terminal(#[trigger] ops0[x]@.status),
            decreases ops0.len() - i,
        {
            proof {
                lemma_map_lookup(ops0, i as int);
            }
            if !terminal(self.operations[i].status) {
                let before = matches!(
                    self.operations[i].status,
                    OperationStatus::Received | OperationStatus::Resolving | OperationStatus::ApprovalWait
                        | OperationStatus::Queued | OperationStatus::Starting
                );
                let mut op = clone_snapshot(&self.operations[i]);
                if before {
                    op.status = OperationStatus::Failed;
                    let mut members: Vec<JsonMember> = Vec::new();
                    members.push(JsonMember {
                        key: "code".to_owned(),
                        value: JsonValue::Str("CONTROLLER_RECOVERED_BEFORE_PROCESS_START".to_owned()),
                    });
                    members.push(JsonMember { key: "retryable".to_owned(), value: JsonValue::Bool(false) });
                    proof {
                        crate::json::lemma_members_view(members@);
                        assert(crate::json::json_members_view(members@) =~= seq![
                            ("code"@, JsonView::Str("CONTROLLER_RECOVERED_BEFORE_PROCESS_START"@)),
                            ("retryable"@, JsonView::Bool(false)),
                        ]);
                    }
                    op.error = Some(JsonValue::Object(members));
                } else {
                    op.status = OperationStatus::OutcomeUnknown;
                }
                op.finished_at = Some(now());
                let ghost marked = op@;
                proof {
                    lemma_append_ordered(marked, if before { "failed"@ } else { "outcome_unknown"@ },
                        if before { "controller_recovered_before_process_start"@ } else { "controller_recovered_after_process_start"@ });
                }
                if before {
                    push_event(&mut op, "failed".to_owned(), "controller_recovered_before_process_start".to_owned());
                } else {
                    push_event(&mut op, "outcome_unknown".to_owned(), "controller_recovered_after_process_start".to_owned());
                }
                self.operations.set(i, op);
                recovered = true;
            }
            i = i + 1;
        }
        proof {
            let t = self.operations@;
            assert forall|a: int, b: int| 0 <= a < t.len() && 0 <= b < t.len() && a != b implies #[trigger] t[a].key() != #[trigger] t[b].key() by {
                assert(t[a].key() == ops0[a].key());
                assert(t[b].key() == ops0[b].key());
            }
            let target = recover_spec(v0);
            let m = self@.operations;
            assert forall|k: Seq<char>| #[trigger] m.contains_key(k) == target.operations.contains_key(k) by {
                if m.contains_key(k) {
                    let x = choose|x: int| 0 <= x < t.len() && #[trigger] t[x].key() == k;
                    assert(ops0[x].key() == k);
                }
                if target.operations.contains_key(k) {
                    let x = choose|x: int| 0 <= x < ops0.len() && #[trigger] ops0[x].key() == k;
                    assert(t[x].key() == k);
                }
            }
            assert forall|k: Seq<char>| #[trigger] m.contains_key(k) implies m[k] == target.operations[k] by {
                let x = choose|x: int| 0 <= x < t.len() && #[trigger] t[x].key() == k;
                lemma_map_lookup(t, x);
                lemma_map_lookup(ops0, x);
            }
            assert(m =~= target.operations);
            assert forall|k: Seq<char>| #[trigger] m.contains_key(k) implies
                events_ordered(m[k].events, m[k].latest_event_sequence) by {
                let op = v0.operations[k];
                if !is_terminal(op.status) {
                    if before_process_start(op.status) {
                        lemma_append_ordered(OperationView { status: OperationStatus::Failed, error: Some(recovery_error()), finished: true, ..op },
                            "failed"@, "controller_recovered_before_process_start"@);
                    } else {
                        lemma_append_ordered(OperationView { status: OperationStatus::OutcomeUnknown, finished: true, ..op },
                            "outcome_unknown"@, "controller_recovered_after_process_start"@);
                    }
                }
            }
            if recovered {
                let x = choose|x: int| 0 <= x < i && !is_terminal(#[trigger] ops0[x]@.status);
                lemma_map_lookup(ops0, x);
                assert(v0.operations.contains_key(ops0[x].key()));
            }
            if exists|k: Seq<char>| #[trigger] v0.operations.contains_key(k) && !is_terminal(v0.operations[k].status) {
                let k = choose|k: Seq<char>| #[trigger] v0.operations.contains_key(k) && !is_terminal(v0.operations[k].status);
                let x = choose|x: int| 0 <= x < ops0.len() && #[trigger] ops0[x].key() == k;
                lemma_map_lookup(ops0, x);
            }
        }
        recovered
    }
}

} // verus!

verus! {

/// No transition leaves a terminal status, and an Operation can only start
/// running from `starting`.
pub proof fn law_terminal_statuses_have_no_successor(from: OperationStatus, to: OperationStatus)
    ensures
        is_terminal(from) ==> !is_valid_transition(from, to),
        is_valid_transition(from, to) && to == OperationStatus::Running ==> from == OperationStatus::Starting,
{
}

/// A terminal Operation is immutable: transitions are refused, and a late
/// completion or cancellation returns it unchanged.
pub proof fn law_terminal_operations_are_immutable(
    v: StoreView,
    id: Seq<char>,
    next: Seq<char>,
    detail: Seq<char>,
    outcome: Result<JsonView, JsonView>,
    reason: Seq<char>,
)
    requires
        v.operations.contains_key(id),
        is_terminal(v.operations[id].status),
    ensures
        transition_spec(v, id, next, detail) == Err::<(StoreView, OperationView), OperationStoreError>(OperationStoreError::Transition),
        complete_spec(v, id, outcome) == Ok::<(StoreView, OperationView), OperationStoreError>((v, v.operations[id])),
        cancel_spec(v, id, reason) == Ok::<(StoreView, OperationView), OperationStoreError>((v, v.operations[id])),
{
}

/// Repeating a cancellation request keeps the single recorded intent: the
/// second request changes nothing, not even the event sequence.
pub proof fn law_repeated_cancel_keeps_one_intent(v: StoreView, id: Seq<char>, first: Seq<char>, second: Seq<char>)
    requires
        v.operations.contains_key(id),
    ensures
        cancel_spec(v, id, first) matches Ok((w, op)) ==> {
            &&& op.cancel_requested || is_terminal(op.status)
            &&& cancel_spec(w, id, second) == Ok::<(StoreView, OperationView), OperationStoreError>((w, op))
        },
{
}

/// An idempotency key replays the same Operation for the same invocation
/// identity and is refused for a different one.
pub proof fn law_idempotency_key_binds_one_invocation(
    v: StoreView,
    req: CreateView,
    first_id: Seq<char>,
    second_id: Seq<char>,
    other_hash: Seq<char>,
)
    requires
        req.idempotency_key is Some,
        other_hash != req.invocation_hash,
    ensures
        create_spec(v, req, first_id) matches Ok((w, op)) ==> {
            &&& create_spec(w, req, second_id) == Ok::<(StoreView, OperationView), OperationStoreError>((w, op))
            &&& create_spec(w, CreateView { invocation_hash: other_hash, ..req }, second_id)
                == Err::<(StoreView, OperationView), OperationStoreError>(OperationStoreError::IdempotencyConflict)
        },
{
    if create_spec(v, req, first_id) is Ok {
        let (w, op) = create_spec(v, req, first_id)->Ok_0;
        let k = req.idempotency_key->0;
        if !v.idempotency.contains_key(k) {
            assert(w.idempotency[k].operation_id == first_id);
            assert(w.operations.contains_key(first_id));
        }
    }
}

/// A page of events holds at most `EVENT_PAGE_SIZE` events, all after the
/// requested sequence number and in strictly increasing order.
pub proof fn law_event_pages_are_bounded_and_ordered(events: Seq<EventView>, latest: u64, after: u64)
    requires
        events_ordered(events, latest),
    ensures
        event_page(events, after).len() <= EVENT_PAGE_SIZE,
        forall|i: int, j: int| 0 <= i < j < event_page(events, after).len() ==>
            #[trigger] event_page(events, after)[i].sequence < #[trigger] event_page(events, after)[j].sequence,
        forall|i: int| 0 <= i < event_page(events, after).len() ==> #[trigger] event_page(events, after)[i].sequence > after,
{
    lemma_events_after_ordered(events, after, latest);
    let all = events_after_spec(events, after);
    let page = event_page(events, after);
    assert forall|i: int, j: int| 0 <= i < j < page.len() implies #[trigger] page[i].sequence < #[trigger] page[j].sequence by {
        assert(page[i] == all[i]);
        assert(page[j] == all[j]);
    }
    assert forall|i: int| 0 <= i < page.len() implies #[trigger] page[i].sequence > after by {
        assert(page[i] == all[i]);
    }
}

/// After a restart no Operation is left in flight: one that could not have
/// started a process has failed with a non-retryable recovery error, one
/// that may have started is `outcome_unknown`, and terminal ones are kept.
pub proof fn law_restart_never_replays_work(v: StoreView, id: Seq<char>)
    requires
        v.operations.contains_key(id),
    ensures
        recover_spec(v).operations.contains_key(id),
        is_terminal(recover_spec(v).operations[id].status),
        is_terminal(v.operations[id].status) ==> recover_spec(v).operations[id] == v.operations[id],
        !is_terminal(v.operations[id].status) && before_process_start(v.operations[id].status) ==> {
            &&& recover_spec(v).operations[id].status == OperationStatus::Failed
            &&& recover_spec(v).operations[id].error == Some(recovery_error())
        },
        !is_terminal(v.operations[id].status) && !before_process_start(v.operations[id].status) ==>
            recover_spec(v).operations[id].status == OperationStatus::OutcomeUnknown,
        recover_spec(v).operations[id].status != OperationStatus::Running,
{
}


/// A transition succeeds exactly along the edges of the frozen Operation
/// state machine: received to resolving, approval_wait or queued;
/// resolving to approval_wait, queued or failed; approval_wait to queued,
/// denied or expired; queued to starting; starting to running; running to
/// succeeded, failed, cancelling or outcome_unknown; cancelling to
/// cancelled, succeeded, failed or outcome_unknown.  Along such an edge
/// the Operation takes the new status and one event; every other move is
/// refused and leaves the store as it was.
pub proof fn law_transitions_follow_exactly_the_frozen_edges(
    v: StoreView,
    id: Seq<char>,
    next: Seq<char>,
    detail: Seq<char>,
    to: OperationStatus,
)
    requires
        v.operations.contains_key(id),
        parse_status_spec(next) == Some(to),
        has_event_room(v, id),
    ensures
        ({
            let from = v.operations[id].status;
            let edge = {
                ||| from == OperationStatus::Received && (to == OperationStatus::Resolving
                    || to == OperationStatus::ApprovalWait || to == OperationStatus::Queued)
                ||| from == OperationStatus::Resolving && (to == OperationStatus::ApprovalWait
                    || to == OperationStatus::Queued || to == OperationStatus::Failed)
                ||| from == OperationStatus::ApprovalWait && (to == OperationStatus::Queued
                    || to == OperationStatus::Denied || to == OperationStatus::Expired)
                ||| from == OperationStatus::Queued && to == OperationStatus::Starting
                ||| from == OperationStatus::Starting && to == OperationStatus::Running
                ||| from == OperationStatus::Running && (to == OperationStatus::Succeeded
                    || to == OperationStatus::Failed || to == OperationStatus::Cancelling
                    || to == OperationStatus::OutcomeUnknown)
                ||| from == OperationStatus::Cancelling && (to == OperationStatus::Cancelled
                    || to == OperationStatus::Succeeded || to == OperationStatus::Failed
                    || to == OperationStatus::OutcomeUnknown)
            };
            &&& (transition_spec(v, id, next, detail) is Ok <==> edge)
            &&& transition_spec(v, id, next, detail) matches Ok((w, op)) ==> {
                &&& op.status == to
                &&& w.operations[id] == op
                &&& op.latest_event_sequence == v.operations[id].latest_event_sequence + 1
            }
            &&& !edge ==> transition_spec(v, id, next, detail) == Err::<(StoreView, OperationView), OperationStoreError>(
                OperationStoreError::Transition)
        }),
{
}


/// Each of the thirteen status names reads as its own status, and the
/// terminal statuses are exactly succeeded, failed, cancelled, denied,
/// expired and outcome_unknown.
pub proof fn law_status_names_read_as_their_statuses(s: OperationStatus)
    ensures
        parse_status_spec("received"@) == Some(OperationStatus::Received),
        parse_status_spec("resolving"@) == Some(OperationStatus::Resolving),
        parse_status_spec("approval_wait"@) == Some(OperationStatus::ApprovalWait),
        parse_status_spec("queued"@) == Some(OperationStatus::Queued),
        parse_status_spec("starting"@) == Some(OperationStatus::Starting),
        parse_status_spec("running"@) == Some(OperationStatus::Running),
        parse_status_spec("cancelling"@) == Some(OperationStatus::Cancelling),
        parse_status_spec("succeeded"@) == Some(OperationStatus::Succeeded),
        parse_status_spec("failed"@) == Some(OperationStatus::Failed),
        parse_status_spec("cancelled"@) == Some(OperationStatus::Cancelled),
        parse_status_spec("denied"@) == Some(OperationStatus::Denied),
        parse_status_spec("expired"@) == Some(OperationStatus::Expired),
        parse_status_spec("outcome_unknown"@) == Some(OperationStatus::OutcomeUnknown),
        is_terminal(s) <==> (s == OperationStatus::Succeeded || s == OperationStatus::Failed
            || s == OperationStatus::Cancelled || s == OperationStatus::Denied || s == OperationStatus::Expired
            || s == OperationStatus::OutcomeUnknown),
{
    reveal_strlit("received");
    reveal_strlit("resolving");
    reveal_strlit("approval_wait");
    reveal_strlit("queued");
    reveal_strlit("starting");
    reveal_strlit("running");
    reveal_strlit("cancelling");
    reveal_strlit("succeeded");
    reveal_strlit("failed");
    reveal_strlit("cancelled");
    reveal_strlit("denied");
    reveal_strlit("expired");
    reveal_strlit("outcome_unknown");
    assert("resolving"@.len() != "received"@.len());
    assert("approval_wait"@.len() != "received"@.len());
    assert("approval_wait"@.len() != "resolving"@.len());
    assert("queued"@.len() != "received"@.len());
    assert("queued"@.len() != "resolving"@.len());
    assert("queued"@.len() != "approval_wait"@.len());
    assert("starting"@[0] != "received"@[0]);
    assert("starting"@.len() != "resolving"@.len());
    assert("starting"@.len() != "approval_wait"@.len());
    assert("starting"@.len() != "queued"@.len());
    assert("running"@.len() != "received"@.len());
    assert("running"@.len() != "resolving"@.len());
    assert("running"@.len() != "approval_wait"@.len());
    assert("running"@.len() != "queued"@.len());
    assert("running"@.len() != "starting"@.len());
    assert("cancelling"@.len() != "received"@.len());
    assert("cancelling"@.len() != "resolving"@.len());
    assert("cancelling"@.len() != "approval_wait"@.len());
    assert("cancelling"@.len() != "queued"@.len());
    assert("cancelling"@.len() != "starting"@.len());
    assert("cancelling"@.len() != "running"@.len());
    assert("succeeded"@.len() != "received"@.len());
    assert("succeeded"@[0] != "resolving"@[0]);
    assert("succeeded"@.len() != "approval_wait"@.len());
    assert("succeeded"@.len() != "queued"@.len());
    assert("succeeded"@.len() != "starting"@.len());
    assert("succeeded"@.len() != "running"@.len());
    assert("succeeded"@.len() != "cancelling"@.len());
    assert("failed"@.len() != "received"@.len());
    assert("failed"@.len() != "resolving"@.len());
    assert("failed"@.len() != "approval_wait"@.len());
    assert("failed"@[0] != "queued"@[0]);
    assert("failed"@.len() != "starting"@.len());
    assert("failed"@.len() != "running"@.len());
    assert("failed"@.len() != "cancelling"@.len());
    assert("failed"@.len() != "succeeded"@.len());
    assert("cancelled"@.len() != "received"@.len());
    assert("cancelled"@[0] != "resolving"@[0]);
    assert("cancelled"@.len() != "approval_wait"@.len());
    assert("cancelled"@.len() != "queued"@.len());
    assert("cancelled"@.len() != "starting"@.len());
    assert("cancelled"@.len() != "running"@.len());
    assert("cancelled"@.len() != "cancelling"@.len());
    assert("cancelled"@[0] != "succeeded"@[0]);
    assert("cancelled"@.len() != "failed"@.len());
    assert("denied"@.len() != "received"@.len());
    assert("denied"@.len() != "resolving"@.len());
    assert("denied"@.len() != "approval_wait"@.len());
    assert("denied"@[0] != "queued"@[0]);
    assert("denied"@.len() != "starting"@.len());
    assert("denied"@.len() != "running"@.len());
    assert("denied"@.len() != "cancelling"@.len());
    assert("denied"@.len() != "succeeded"@.len());
    assert("denied"@[0] != "failed"@[0]);
    assert("denied"@.len() != "cancelled"@.len());
    assert("expired"@.len() != "received"@.len());
    assert("expired"@.len() != "resolving"@.len());
    assert("expired"@.len() != "approval_wait"@.len());
    assert("expired"@.len() != "queued"@.len());
    assert("expired"@.len() != "starting"@.len());
    assert("expired"@[0] != "running"@[0]);
    assert("expired"@.len() != "cancelling"@.len());
    assert("expired"@.len() != "succeeded"@.len());
    assert("expired"@.len() != "failed"@.len());
    assert("expired"@.len() != "cancelled"@.len());
    assert("expired"@.len() != "denied"@.len());
    assert("outcome_unknown"@.len() != "received"@.len());
    assert("outcome_unknown"@.len() != "resolving"@.len());
    assert("outcome_unknown"@.len() != "approval_wait"@.len());
    assert("outcome_unknown"@.len() != "queued"@.len());
    assert("outcome_unknown"@.len() != "starting"@.len());
    assert("outcome_unknown"@.len() != "running"@.len());
    assert("outcome_unknown"@.len() != "cancelling"@.len());
    assert("outcome_unknown"@.len() != "succeeded"@.len());
    assert("outcome_unknown"@.len() != "failed"@.len());
    assert("outcome_unknown"@.len() != "cancelled"@.len());
    assert("outcome_unknown"@.len() != "denied"@.len());
    assert("outcome_unknown"@.len() != "expired"@.len());
}

} // verus!

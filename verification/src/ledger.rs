//! A ledger of tasks: idempotent submission, leases, cancellation, tasks of unknown outcome
//! and acknowledged delivery.

use vstd::prelude::*;
use vstd::string::*;

use crate::datum::{
    done_view, lemma_views_push, opt_view, res_view, same_opt, snapshot_opt, views, Datum,
};
use crate::json::{Json, JsonView};
use crate::keyed::{ascending, keyed_view, Keyed};
use crate::store::WriteOutcome;
use crate::text::{
    blank, decimal_of, decimal_usize, is_blank, lemma_precedes_irreflexive,
    lemma_precedes_transitive, precedes, same_text,
};

verus! {

/// A task of the ledger.
#[derive(Debug, PartialEq, Eq, PartialOrd, Ord)]
pub struct TaskId {
    text: String,
}

impl View for TaskId {
    type V = Seq<char>;

    closed spec fn view(&self) -> Seq<char> {
        self.text@
    }
}

impl TaskId {
    /// The identifier that a text spells.
    pub fn from_string(text: String) -> (id: Self)
        ensures
            id@ == text@,
    {
        TaskId { text }
    }

    /// The text of the identifier.
    pub fn as_str(&self) -> (text: &str)
        ensures
            text@ == self@,
    {
        self.text.as_str()
    }
}

impl Datum for TaskId {
    fn snapshot(&self) -> (copy: Self) {
        TaskId { text: self.text.clone() }
    }

    fn same(&self, other: &Self) -> (equal: bool) {
        self.text.same(&other.text)
    }
}

impl Clone for TaskId {
    fn clone(&self) -> (copy: Self)
        ensures
            copy@ == self@,
    {
        self.snapshot()
    }
}

/// Where a task stands.
#[derive(Clone, Copy, Debug, PartialEq, Eq, Structural)]
pub enum TaskStatus {
    Pending,
    Running,
    Succeeded,
    Failed,
    Cancelled,
    Unknown,
}

/// Whether a task has come to an end.
pub open spec fn terminal_status(status: TaskStatus) -> bool {
    match status {
        TaskStatus::Pending | TaskStatus::Running => false,
        TaskStatus::Succeeded | TaskStatus::Failed | TaskStatus::Cancelled
        | TaskStatus::Unknown => true,
    }
}

/// The name of a status in messages.
pub open spec fn status_name(status: TaskStatus) -> Seq<char> {
    match status {
        TaskStatus::Pending => "Pending"@,
        TaskStatus::Running => "Running"@,
        TaskStatus::Succeeded => "Succeeded"@,
        TaskStatus::Failed => "Failed"@,
        TaskStatus::Cancelled => "Cancelled"@,
        TaskStatus::Unknown => "Unknown"@,
    }
}

impl TaskStatus {
    pub fn is_terminal(self) -> (yes: bool)
        ensures
            yes == terminal_status(self),
    {
        match self {
            TaskStatus::Pending | TaskStatus::Running => false,
            TaskStatus::Succeeded | TaskStatus::Failed | TaskStatus::Cancelled
            | TaskStatus::Unknown => true,
        }
    }

    fn name(self) -> (name: &'static str)
        ensures
            name@ == status_name(self),
    {
        match self {
            TaskStatus::Pending => "Pending",
            TaskStatus::Running => "Running",
            TaskStatus::Succeeded => "Succeeded",
            TaskStatus::Failed => "Failed",
            TaskStatus::Cancelled => "Cancelled",
            TaskStatus::Unknown => "Unknown",
        }
    }
}

/// Whether the end of a task has been delivered.
#[derive(Clone, Copy, Debug, PartialEq, Eq, Structural)]
pub enum DeliveryState {
    NotReady,
    Pending,
    Acknowledged,
}

/// A worker's claim on a task.
#[derive(Debug, PartialEq, Eq)]
pub struct TaskLease {
    pub worker_id: String,
    pub expires_at_unix_ms: u64,
}

/// The model of [`TaskLease`].
#[verifier::ext_equal]
pub ghost struct TaskLeaseView {
    pub worker_id: Seq<char>,
    pub expires_at_unix_ms: u64,
}

impl View for TaskLease {
    type V = TaskLeaseView;

    open spec fn view(&self) -> TaskLeaseView {
        TaskLeaseView {
            worker_id: self.worker_id@,
            expires_at_unix_ms: self.expires_at_unix_ms,
        }
    }
}

impl Datum for TaskLease {
    fn snapshot(&self) -> (copy: Self) {
        TaskLease {
            worker_id: self.worker_id.snapshot(),
            expires_at_unix_ms: self.expires_at_unix_ms,
        }
    }

    fn same(&self, other: &Self) -> (equal: bool) {
        self.worker_id.same(&other.worker_id) && self.expires_at_unix_ms == other.expires_at_unix_ms
    }
}

impl Clone for TaskLease {
    fn clone(&self) -> (copy: Self)
        ensures
            copy@ == self@,
    {
        self.snapshot()
    }
}

/// A task.
#[derive(Debug, PartialEq, Eq)]
pub struct TaskRecord {
    pub id: TaskId,
    pub idempotency_key: String,
    pub payload: Json,
    pub status: TaskStatus,
    pub attempt: u32,
    pub lease: Option<TaskLease>,
    pub result: Option<Json>,
    pub error: Option<String>,
    pub delivery: DeliveryState,
    pub created_at_unix_ms: u64,
    pub updated_at_unix_ms: u64,
}

/// The model of [`TaskRecord`].
#[verifier::ext_equal]
pub ghost struct TaskRecordView {
    pub id: Seq<char>,
    pub idempotency_key: Seq<char>,
    pub payload: JsonView,
    pub status: TaskStatus,
    pub attempt: u32,
    pub lease: Option<TaskLeaseView>,
    pub result: Option<JsonView>,
    pub error: Option<Seq<char>>,
    pub delivery: DeliveryState,
    pub created_at_unix_ms: u64,
    pub updated_at_unix_ms: u64,
}

impl View for TaskRecord {
    type V = TaskRecordView;

    open spec fn view(&self) -> TaskRecordView {
        TaskRecordView {
            id: self.id@,
            idempotency_key: self.idempotency_key@,
            payload: self.payload@,
            status: self.status,
            attempt: self.attempt,
            lease: opt_view(self.lease),
            result: opt_view(self.result),
            error: opt_view(self.error),
            delivery: self.delivery,
            created_at_unix_ms: self.created_at_unix_ms,
            updated_at_unix_ms: self.updated_at_unix_ms,
        }
    }
}

impl Datum for TaskRecord {
    fn snapshot(&self) -> (copy: Self) {
        TaskRecord {
            id: self.id.snapshot(),
            idempotency_key: self.idempotency_key.snapshot(),
            payload: self.payload.snapshot(),
            status: self.status,
            attempt: self.attempt,
            lease: snapshot_opt(&self.lease),
            result: snapshot_opt(&self.result),
            error: snapshot_opt(&self.error),
            delivery: self.delivery,
            created_at_unix_ms: self.created_at_unix_ms,
            updated_at_unix_ms: self.updated_at_unix_ms,
        }
    }

    fn same(&self, other: &Self) -> (equal: bool) {
        self.id.same(&other.id) && self.idempotency_key.same(&other.idempotency_key)
            && self.payload.same(&other.payload) && self.status == other.status
            && self.attempt == other.attempt && same_opt(&self.lease, &other.lease)
            && same_opt(&self.result, &other.result) && same_opt(&self.error, &other.error)
            && self.delivery == other.delivery
            && self.created_at_unix_ms == other.created_at_unix_ms
            && self.updated_at_unix_ms == other.updated_at_unix_ms
    }
}

impl Clone for TaskRecord {
    fn clone(&self) -> (copy: Self)
        ensures
            copy@ == self@,
    {
        self.snapshot()
    }
}

/// What became of a submission.
#[derive(Debug, PartialEq, Eq)]
pub struct Submission {
    pub task: TaskRecord,
    pub created: bool,
}

/// The model of [`Submission`].
#[verifier::ext_equal]
pub ghost struct SubmissionView {
    pub task: TaskRecordView,
    pub created: bool,
}

impl View for Submission {
    type V = SubmissionView;

    open spec fn view(&self) -> SubmissionView {
        SubmissionView {
            task: self.task@,
            created: self.created,
        }
    }
}

impl Datum for Submission {
    fn snapshot(&self) -> (copy: Self) {
        Submission {
            task: self.task.snapshot(),
            created: self.created,
        }
    }

    fn same(&self, other: &Self) -> (equal: bool) {
        self.task.same(&other.task) && self.created == other.created
    }
}

impl Clone for Submission {
    fn clone(&self) -> (copy: Self)
        ensures
            copy@ == self@,
    {
        self.snapshot()
    }
}

/// A change of the ledger.
#[derive(Debug, PartialEq, Eq)]
pub enum LedgerEvent {
    Submitted { task: TaskRecord },
    Claimed { task_id: TaskId, lease: TaskLease },
    Heartbeat { task_id: TaskId, expires_at_unix_ms: u64 },
    Succeeded { task_id: TaskId, result: Json },
    Failed { task_id: TaskId, error: String },
    Cancelled { task_id: TaskId, reason: String },
    MarkedUnknown { task_id: TaskId, reason: String },
    DeliveryAcknowledged { task_id: TaskId },
}

/// The model of [`LedgerEvent`].
#[verifier::ext_equal]
pub ghost enum LedgerEventView {
    Submitted { task: TaskRecordView },
    Claimed { task_id: Seq<char>, lease: TaskLeaseView },
    Heartbeat { task_id: Seq<char>, expires_at_unix_ms: u64 },
    Succeeded { task_id: Seq<char>, result: JsonView },
    Failed { task_id: Seq<char>, error: Seq<char> },
    Cancelled { task_id: Seq<char>, reason: Seq<char> },
    MarkedUnknown { task_id: Seq<char>, reason: Seq<char> },
    DeliveryAcknowledged { task_id: Seq<char> },
}

impl View for LedgerEvent {
    type V = LedgerEventView;

    open spec fn view(&self) -> LedgerEventView {
        match *self {
            LedgerEvent::Submitted { task } => LedgerEventView::Submitted { task: task@ },
            LedgerEvent::Claimed { task_id, lease } => LedgerEventView::Claimed {
                task_id: task_id@,
                lease: lease@,
            },
            LedgerEvent::Heartbeat { task_id, expires_at_unix_ms } => LedgerEventView::Heartbeat {
                task_id: task_id@,
                expires_at_unix_ms,
            },
            LedgerEvent::Succeeded { task_id, result } => LedgerEventView::Succeeded {
                task_id: task_id@,
                result: result@,
            },
            LedgerEvent::Failed { task_id, error } => LedgerEventView::Failed {
                task_id: task_id@,
                error: error@,
            },
            LedgerEvent::Cancelled { task_id, reason } => LedgerEventView::Cancelled {
                task_id: task_id@,
                reason: reason@,
            },
            LedgerEvent::MarkedUnknown { task_id, reason } => LedgerEventView::MarkedUnknown {
                task_id: task_id@,
                reason: reason@,
            },
            LedgerEvent::DeliveryAcknowledged { task_id } => LedgerEventView::DeliveryAcknowledged {
                task_id: task_id@,
            },
        }
    }
}

impl Datum for LedgerEvent {
    fn snapshot(&self) -> (copy: Self) {
        match self {
            LedgerEvent::Submitted { task } => LedgerEvent::Submitted { task: task.snapshot() },
            LedgerEvent::Claimed { task_id, lease } => LedgerEvent::Claimed {
                task_id: task_id.snapshot(),
                lease: lease.snapshot(),
            },
            LedgerEvent::Heartbeat { task_id, expires_at_unix_ms } => LedgerEvent::Heartbeat {
                task_id: task_id.snapshot(),
                expires_at_unix_ms: *expires_at_unix_ms,
            },
            LedgerEvent::Succeeded { task_id, result } => LedgerEvent::Succeeded {
                task_id: task_id.snapshot(),
                result: result.snapshot(),
            },
            LedgerEvent::Failed { task_id, error } => LedgerEvent::Failed {
                task_id: task_id.snapshot(),
                error: error.snapshot(),
            },
            LedgerEvent::Cancelled { task_id, reason } => LedgerEvent::Cancelled {
                task_id: task_id.snapshot(),
                reason: reason.snapshot(),
            },
            LedgerEvent::MarkedUnknown { task_id, reason } => LedgerEvent::MarkedUnknown {
                task_id: task_id.snapshot(),
                reason: reason.snapshot(),
            },
            LedgerEvent::DeliveryAcknowledged { task_id } => LedgerEvent::DeliveryAcknowledged {
                task_id: task_id.snapshot(),
            },
        }
    }

    fn same(&self, other: &Self) -> (equal: bool) {
        match (self, other) {
            (
                LedgerEvent::Submitted { task: task_a },
                LedgerEvent::Submitted { task: task_b },
            ) => task_a.same(task_b),
            (
                LedgerEvent::Claimed { task_id: task_id_a, lease: lease_a },
                LedgerEvent::Claimed { task_id: task_id_b, lease: lease_b },
            ) => task_id_a.same(task_id_b) && lease_a.same(lease_b),
            (
                LedgerEvent::Heartbeat {
                    task_id: task_id_a,
                    expires_at_unix_ms: expires_at_unix_ms_a,
                },
                LedgerEvent::Heartbeat {
                    task_id: task_id_b,
                    expires_at_unix_ms: expires_at_unix_ms_b,
                },
            ) => task_id_a.same(task_id_b) && *expires_at_unix_ms_a == *expires_at_unix_ms_b,
            (
                LedgerEvent::Succeeded { task_id: task_id_a, result: result_a },
                LedgerEvent::Succeeded { task_id: task_id_b, result: result_b },
            ) => task_id_a.same(task_id_b) && result_a.same(result_b),
            (
                LedgerEvent::Failed { task_id: task_id_a, error: error_a },
                LedgerEvent::Failed { task_id: task_id_b, error: error_b },
            ) => task_id_a.same(task_id_b) && error_a.same(error_b),
            (
                LedgerEvent::Cancelled { task_id: task_id_a, reason: reason_a },
                LedgerEvent::Cancelled { task_id: task_id_b, reason: reason_b },
            ) => task_id_a.same(task_id_b) && reason_a.same(reason_b),
            (
                LedgerEvent::MarkedUnknown { task_id: task_id_a, reason: reason_a },
                LedgerEvent::MarkedUnknown { task_id: task_id_b, reason: reason_b },
            ) => task_id_a.same(task_id_b) && reason_a.same(reason_b),
            (
                LedgerEvent::DeliveryAcknowledged { task_id: task_id_a },
                LedgerEvent::DeliveryAcknowledged { task_id: task_id_b },
            ) => task_id_a.same(task_id_b),
            _ => false,
        }
    }
}

impl Clone for LedgerEvent {
    fn clone(&self) -> (copy: Self)
        ensures
            copy@ == self@,
    {
        self.snapshot()
    }
}

/// A change as it is recorded.
#[derive(Debug, PartialEq, Eq)]
pub struct LedgerEnvelope {
    pub sequence: u64,
    pub at_unix_ms: u64,
    pub event: LedgerEvent,
}

/// The model of [`LedgerEnvelope`].
#[verifier::ext_equal]
pub ghost struct LedgerEnvelopeView {
    pub sequence: u64,
    pub at_unix_ms: u64,
    pub event: LedgerEventView,
}

impl View for LedgerEnvelope {
    type V = LedgerEnvelopeView;

    open spec fn view(&self) -> LedgerEnvelopeView {
        LedgerEnvelopeView {
            sequence: self.sequence,
            at_unix_ms: self.at_unix_ms,
            event: self.event@,
        }
    }
}

impl Datum for LedgerEnvelope {
    fn snapshot(&self) -> (copy: Self) {
        LedgerEnvelope {
            sequence: self.sequence,
            at_unix_ms: self.at_unix_ms,
            event: self.event.snapshot(),
        }
    }

    fn same(&self, other: &Self) -> (equal: bool) {
        self.sequence == other.sequence && self.at_unix_ms == other.at_unix_ms
            && self.event.same(&other.event)
    }
}

impl Clone for LedgerEnvelope {
    fn clone(&self) -> (copy: Self)
        ensures
            copy@ == self@,
    {
        self.snapshot()
    }
}

/// Why the ledger refused an operation.
#[derive(Debug, PartialEq, Eq)]
pub enum LedgerError {
    Io(String),
    Serialization(String),
    Corrupt { line: usize, message: String },
    Poisoned,
    UnknownTask(TaskId),
    InvalidTransition { task_id: TaskId, status: TaskStatus, operation: String },
}

/// The model of [`LedgerError`].
#[verifier::ext_equal]
pub ghost enum LedgerErrorView {
    Io(Seq<char>),
    Serialization(Seq<char>),
    Corrupt { line: usize, message: Seq<char> },
    Poisoned,
    UnknownTask(Seq<char>),
    InvalidTransition { task_id: Seq<char>, status: TaskStatus, operation: Seq<char> },
}

impl View for LedgerError {
    type V = LedgerErrorView;

    open spec fn view(&self) -> LedgerErrorView {
        match *self {
            LedgerError::Io(x0) => LedgerErrorView::Io(x0@),
            LedgerError::Serialization(x0) => LedgerErrorView::Serialization(x0@),
            LedgerError::Corrupt { line, message } => LedgerErrorView::Corrupt {
                line,
                message: message@,
            },
            LedgerError::Poisoned => LedgerErrorView::Poisoned,
            LedgerError::UnknownTask(x0) => LedgerErrorView::UnknownTask(x0@),
            LedgerError::InvalidTransition { task_id, status, operation } => {
                LedgerErrorView::InvalidTransition {
                    task_id: task_id@,
                    status,
                    operation: operation@,
                }
            },
        }
    }
}

impl Datum for LedgerError {
    fn snapshot(&self) -> (copy: Self) {
        match self {
            LedgerError::Io(x0) => LedgerError::Io(x0.snapshot()),
            LedgerError::Serialization(x0) => LedgerError::Serialization(x0.snapshot()),
            LedgerError::Corrupt { line, message } => LedgerError::Corrupt {
                line: *line,
                message: message.snapshot(),
            },
            LedgerError::Poisoned => LedgerError::Poisoned,
            LedgerError::UnknownTask(x0) => LedgerError::UnknownTask(x0.snapshot()),
            LedgerError::InvalidTransition { task_id, status, operation } => {
                LedgerError::InvalidTransition {
                    task_id: task_id.snapshot(),
                    status: *status,
                    operation: operation.snapshot(),
                }
            },
        }
    }

    fn same(&self, other: &Self) -> (equal: bool) {
        match (self, other) {
            (LedgerError::Io(x0), LedgerError::Io(y0)) => x0.same(y0),
            (LedgerError::Serialization(x0), LedgerError::Serialization(y0)) => x0.same(y0),
            (
                LedgerError::Corrupt { line: line_a, message: message_a },
                LedgerError::Corrupt { line: line_b, message: message_b },
            ) => *line_a == *line_b && message_a.same(message_b),
            (LedgerError::Poisoned, LedgerError::Poisoned) => true,
            (LedgerError::UnknownTask(x0), LedgerError::UnknownTask(y0)) => x0.same(y0),
            (
                LedgerError::InvalidTransition {
                    task_id: task_id_a,
                    status: status_a,
                    operation: operation_a,
                },
                LedgerError::InvalidTransition {
                    task_id: task_id_b,
                    status: status_b,
                    operation: operation_b,
                },
            ) => {
                task_id_a.same(task_id_b) && *status_a == *status_b
                    && operation_a.same(operation_b)
            },
            _ => false,
        }
    }
}

impl Clone for LedgerError {
    fn clone(&self) -> (copy: Self)
        ensures
            copy@ == self@,
    {
        self.snapshot()
    }
}

/// The message of a failure.
pub open spec fn ledger_error_text(error: LedgerErrorView) -> Seq<char> {
    match error {
        LedgerErrorView::Io(detail) => "task ledger I/O error: "@ + detail,
        LedgerErrorView::Serialization(detail) => "task ledger serialization error: "@ + detail,
        LedgerErrorView::Corrupt { line, message } => {
            "corrupt task ledger at line "@ + decimal_of(line as nat) + ": "@ + message
        },
        LedgerErrorView::Poisoned => "task ledger lock was poisoned"@,
        LedgerErrorView::UnknownTask(id) => "task `"@ + id + "` does not exist"@,
        LedgerErrorView::InvalidTransition { task_id, status, operation } => {
            "invalid transition for task `"@ + task_id + "` from "@ + status_name(status) + ": "@
                + operation
        },
    }
}

impl LedgerError {
    pub fn to_text(&self) -> (text: String)
        ensures
            text@ == ledger_error_text(self@),
    {
        match self {
            LedgerError::Io(detail) => "task ledger I/O error: ".to_owned().concat(detail.as_str()),
            LedgerError::Serialization(detail) => {
                "task ledger serialization error: ".to_owned().concat(detail.as_str())
            },
            LedgerError::Corrupt { line, message } => {
                "corrupt task ledger at line ".to_owned().concat(
                    decimal_usize(*line).as_str(),
                ).concat(": ").concat(message.as_str())
            },
            LedgerError::Poisoned => "task ledger lock was poisoned".to_owned(),
            LedgerError::UnknownTask(id) => {
                "task `".to_owned().concat(id.as_str()).concat("` does not exist")
            },
            LedgerError::InvalidTransition { task_id, status, operation } => {
                "invalid transition for task `".to_owned().concat(task_id.as_str()).concat(
                    "` from ",
                ).concat(status.name()).concat(": ").concat(operation.as_str())
            },
        }
    }
}

// ---------------------------------------------------------------------------
// Changes
// ---------------------------------------------------------------------------

/// The task that a change is about.
pub open spec fn event_task(event: LedgerEventView) -> Seq<char> {
    match event {
        LedgerEventView::Submitted { task } => task.id,
        LedgerEventView::Claimed { task_id, .. } => task_id,
        LedgerEventView::Heartbeat { task_id, .. } => task_id,
        LedgerEventView::Succeeded { task_id, .. } => task_id,
        LedgerEventView::Failed { task_id, .. } => task_id,
        LedgerEventView::Cancelled { task_id, .. } => task_id,
        LedgerEventView::MarkedUnknown { task_id, .. } => task_id,
        LedgerEventView::DeliveryAcknowledged { task_id } => task_id,
    }
}

/// A task that came to an end: its lease is gone, and its end waits for delivery.
pub open spec fn ended(
    task: TaskRecordView,
    status: TaskStatus,
    error: Option<Seq<char>>,
    at: u64,
) -> TaskRecordView {
    TaskRecordView {
        status,
        lease: None,
        error,
        delivery: DeliveryState::Pending,
        updated_at_unix_ms: at,
        ..task
    }
}

/// A task after a change.
pub open spec fn changed(task: TaskRecordView, event: LedgerEventView, at: u64) -> TaskRecordView {
    match event {
        LedgerEventView::Submitted { task: submitted } => submitted,
        LedgerEventView::Claimed { lease, .. } => TaskRecordView {
            status: TaskStatus::Running,
            attempt: (task.attempt + 1) as u32,
            lease: Some(lease),
            updated_at_unix_ms: at,
            ..task
        },
        LedgerEventView::Heartbeat { expires_at_unix_ms, .. } => TaskRecordView {
            lease: match task.lease {
                Some(lease) => Some(TaskLeaseView { expires_at_unix_ms, ..lease }),
                None => None,
            },
            updated_at_unix_ms: at,
            ..task
        },
        LedgerEventView::Succeeded { result, .. } => TaskRecordView {
            result: Some(result),
            ..ended(task, TaskStatus::Succeeded, None, at)
        },
        LedgerEventView::Failed { error, .. } => ended(task, TaskStatus::Failed, Some(error), at),
        LedgerEventView::Cancelled { reason, .. } => ended(
            task,
            TaskStatus::Cancelled,
            Some(reason),
            at,
        ),
        LedgerEventView::MarkedUnknown { reason, .. } => ended(
            task,
            TaskStatus::Unknown,
            Some(reason),
            at,
        ),
        LedgerEventView::DeliveryAcknowledged { .. } => TaskRecordView {
            delivery: DeliveryState::Acknowledged,
            updated_at_unix_ms: at,
            ..task
        },
    }
}

/// The tasks after a change.
pub open spec fn ledger_applied(
    tasks: Map<Seq<char>, TaskRecordView>,
    event: LedgerEventView,
    at: u64,
) -> Result<Map<Seq<char>, TaskRecordView>, LedgerErrorView> {
    let id = event_task(event);
    if event is Submitted || tasks.contains_key(id) {
        Ok(tasks.insert(id, changed(tasks[id], event, at)))
    } else {
        Err(LedgerErrorView::UnknownTask(id))
    }
}

/// Whether the attempts of a task can still be counted after a change.
pub open spec fn event_fits(
    tasks: Map<Seq<char>, TaskRecordView>,
    event: LedgerEventView,
) -> bool {
    event is Claimed && tasks.contains_key(event_task(event)) ==> tasks[event_task(event)].attempt
        < u32::MAX
}

impl LedgerEvent {
    fn task(&self) -> (id: &TaskId)
        ensures
            id@ == event_task(self@),
    {
        match self {
            LedgerEvent::Submitted { task } => &task.id,
            LedgerEvent::Claimed { task_id, .. } => task_id,
            LedgerEvent::Heartbeat { task_id, .. } => task_id,
            LedgerEvent::Succeeded { task_id, .. } => task_id,
            LedgerEvent::Failed { task_id, .. } => task_id,
            LedgerEvent::Cancelled { task_id, .. } => task_id,
            LedgerEvent::MarkedUnknown { task_id, .. } => task_id,
            LedgerEvent::DeliveryAcknowledged { task_id } => task_id,
        }
    }
}

fn terminal(task: TaskRecord, status: TaskStatus, error: Option<String>, at: u64) -> (after:
    TaskRecord)
    ensures
        after@ == ended(task@, status, opt_view(error), at),
{
    TaskRecord {
        status,
        lease: None,
        error,
        delivery: DeliveryState::Pending,
        updated_at_unix_ms: at,
        ..task
    }
}

fn change(task: TaskRecord, event: &LedgerEvent, at: u64) -> (after: TaskRecord)
    requires
        event@ is Claimed ==> task@.attempt < u32::MAX,
    ensures
        after@ == changed(task@, event@, at),
{
    match event {
        LedgerEvent::Submitted { task: submitted } => submitted.clone(),
        LedgerEvent::Claimed { lease, .. } => TaskRecord {
            status: TaskStatus::Running,
            attempt: task.attempt + 1,
            lease: Some(lease.clone()),
            updated_at_unix_ms: at,
            ..task
        },
        LedgerEvent::Heartbeat { expires_at_unix_ms, .. } => {
            let lease = match &task.lease {
                Some(lease) => Some(
                    TaskLease {
                        worker_id: lease.worker_id.clone(),
                        expires_at_unix_ms: *expires_at_unix_ms,
                    },
                ),
                None => None,
            };
            TaskRecord { lease, updated_at_unix_ms: at, ..task }
        },
        LedgerEvent::Succeeded { result, .. } => {
            let after = terminal(task, TaskStatus::Succeeded, None, at);
            TaskRecord { result: Some(result.clone()), ..after }
        },
        LedgerEvent::Failed { error, .. } => terminal(
            task,
            TaskStatus::Failed,
            Some(error.clone()),
            at,
        ),
        LedgerEvent::Cancelled { reason, .. } => terminal(
            task,
            TaskStatus::Cancelled,
            Some(reason.clone()),
            at,
        ),
        LedgerEvent::MarkedUnknown { reason, .. } => terminal(
            task,
            TaskStatus::Unknown,
            Some(reason.clone()),
            at,
        ),
        LedgerEvent::DeliveryAcknowledged { .. } => TaskRecord {
            delivery: DeliveryState::Acknowledged,
            updated_at_unix_ms: at,
            ..task
        },
    }
}

/// Tasks of a map with the identifiers as keys.
spec fn keyed_by_id(tasks: Map<Seq<char>, TaskRecord>) -> bool {
    forall|id: Seq<char>| #[trigger] tasks.contains_key(id) ==> tasks[id]@.id == id
}

fn apply_event(tasks: &mut Keyed<TaskRecord>, event: &LedgerEvent, at: u64) -> (done: Result<
    (),
    LedgerError,
>)
    requires
        keyed_by_id(old(tasks)@),
        event_fits(keyed_view(old(tasks)@), event@),
    ensures
        keyed_by_id(final(tasks)@),
        match done {
            Ok(()) => ledger_applied(keyed_view(old(tasks)@), event@, at) == Ok::<
                Map<Seq<char>, TaskRecordView>,
                LedgerErrorView,
            >(keyed_view(final(tasks)@)),
            Err(error) => final(tasks)@ == old(tasks)@ && ledger_applied(
                keyed_view(old(tasks)@),
                event@,
                at,
            ) == Err::<Map<Seq<char>, TaskRecordView>, LedgerErrorView>(error@),
        },
{
    let ghost before = tasks@;
    let id = event.task().clone();
    let after = match event {
        LedgerEvent::Submitted { task } => task.clone(),
        _ => {
            let found = match tasks.get(id.as_str()) {
                Some(found) => found.clone(),
                None => {
                    return Err(LedgerError::UnknownTask(id));
                },
            };
            assert(keyed_view(before)[id@] == found@);
            change(found, event, at)
        },
    };
    let _ = tasks.insert(id.as_str().to_owned(), after);
    assert(keyed_view(tasks@) =~= keyed_view(before).insert(id@, after@));
    Ok(())
}

// ---------------------------------------------------------------------------
// The ledger
// ---------------------------------------------------------------------------

/// The state of a ledger.
#[verifier::ext_equal]
pub ghost struct LedgerView {
    pub tasks: Map<Seq<char>, TaskRecordView>,
    /// The task of each idempotency key.
    pub index: Map<Seq<char>, Seq<char>>,
    pub next: nat,
}

/// Whether an index leads from each idempotency key to the last task that has it, in the
/// order of the identifiers.
pub open spec fn indexes(
    index: Map<Seq<char>, Seq<char>>,
    tasks: Map<Seq<char>, TaskRecordView>,
) -> bool {
    &&& forall|key: Seq<char>| #[trigger]
        index.contains_key(key) ==> tasks.contains_key(index[key])
            && tasks[index[key]].idempotency_key == key
    &&& forall|id: Seq<char>| #[trigger]
        tasks.contains_key(id) ==> index.contains_key(tasks[id].idempotency_key) && !precedes(
            index[tasks[id].idempotency_key],
            id,
        )
}

/// A ledger after a change.
pub open spec fn ledger_changed(
    ledger: LedgerView,
    event: LedgerEventView,
    tasks: Map<Seq<char>, TaskRecordView>,
) -> LedgerView {
    LedgerView {
        tasks,
        index: match event {
            LedgerEventView::Submitted { task } => ledger.index.insert(
                task.idempotency_key,
                task.id,
            ),
            _ => ledger.index,
        },
        next: ledger.next + 1,
    }
}

/// A ledger after an append, and the answer: the change is taken once it is durable, and
/// only then.
pub open spec fn ledger_appended(
    ledger: LedgerView,
    event: LedgerEventView,
    at: u64,
    outcome: WriteOutcome,
) -> (LedgerView, Result<(), LedgerErrorView>) {
    match outcome {
        WriteOutcome::NotEncoded(message) => (
            ledger,
            Err(LedgerErrorView::Serialization(message@)),
        ),
        WriteOutcome::Failed(message) => (ledger, Err(LedgerErrorView::Io(message@))),
        WriteOutcome::Durable => match ledger_applied(ledger.tasks, event, at) {
            Ok(tasks) => (ledger_changed(ledger, event, tasks), Ok(())),
            Err(error) => (ledger, Err(error)),
        },
    }
}

/// Whether a writer may have answered so to a record.
pub open spec fn wrote<W: Fn(LedgerEnvelope) -> WriteOutcome>(
    write: W,
    envelope: LedgerEnvelopeView,
    outcome: WriteOutcome,
) -> bool {
    exists|record: LedgerEnvelope|
        record@ == envelope && #[trigger] call_ensures(write, (record,), outcome)
}

/// Whether an append went this way, for some answer of the writer.
pub open spec fn appends<W: Fn(LedgerEnvelope) -> WriteOutcome>(
    write: W,
    before: LedgerView,
    event: LedgerEventView,
    at: u64,
    after: LedgerView,
    done: Result<(), LedgerErrorView>,
) -> bool {
    exists|outcome: WriteOutcome| #[trigger]
        wrote(
            write,
            LedgerEnvelopeView { sequence: before.next as u64, at_unix_ms: at, event },
            outcome,
        ) && (after, done) == ledger_appended(before, event, at, outcome)
}

/// Whether a task operation went this way: it was refused without a write, or its change
/// was appended and the changed task is the answer.
pub open spec fn performs<W: Fn(LedgerEnvelope) -> WriteOutcome>(
    write: W,
    before: LedgerView,
    planned: Result<LedgerEventView, LedgerErrorView>,
    at: u64,
    after: LedgerView,
    answer: Result<TaskRecordView, LedgerErrorView>,
) -> bool {
    match planned {
        Err(error) => after == before && answer == Err::<TaskRecordView, LedgerErrorView>(error),
        Ok(event) => match answer {
            Ok(task) => appends(write, before, event, at, after, Ok(())) && task
                == after.tasks[event_task(event)],
            Err(error) => appends(write, before, event, at, after, Err(error)),
        },
    }
}

/// What a line of the ledger file holds.
#[derive(Debug, PartialEq, Eq)]
pub enum LedgerLine {
    Blank,
    Record(LedgerEnvelope),
    Broken { message: String },
}

/// The model of [`LedgerLine`].
#[verifier::ext_equal]
pub ghost enum LedgerLineView {
    Blank,
    Record(LedgerEnvelopeView),
    Broken { message: Seq<char> },
}

impl View for LedgerLine {
    type V = LedgerLineView;

    open spec fn view(&self) -> LedgerLineView {
        match *self {
            LedgerLine::Blank => LedgerLineView::Blank,
            LedgerLine::Record(x0) => LedgerLineView::Record(x0@),
            LedgerLine::Broken { message } => LedgerLineView::Broken { message: message@ },
        }
    }
}

impl Datum for LedgerLine {
    fn snapshot(&self) -> (copy: Self) {
        match self {
            LedgerLine::Blank => LedgerLine::Blank,
            LedgerLine::Record(x0) => LedgerLine::Record(x0.snapshot()),
            LedgerLine::Broken { message } => LedgerLine::Broken { message: message.snapshot() },
        }
    }

    fn same(&self, other: &Self) -> (equal: bool) {
        match (self, other) {
            (LedgerLine::Blank, LedgerLine::Blank) => true,
            (LedgerLine::Record(x0), LedgerLine::Record(y0)) => x0.same(y0),
            (
                LedgerLine::Broken { message: message_a },
                LedgerLine::Broken { message: message_b },
            ) => message_a.same(message_b),
            _ => false,
        }
    }
}

impl Clone for LedgerLine {
    fn clone(&self) -> (copy: Self)
        ensures
            copy@ == self@,
    {
        self.snapshot()
    }
}

/// What a line of the ledger file holds, with what its text decodes to. A blank line holds nothing,
/// whatever becomes of decoding it.
pub open spec fn ledger_line_of(
    text: Seq<char>,
    decoded: Result<LedgerEnvelopeView, Seq<char>>,
) -> LedgerLineView {
    if blank(text) {
        LedgerLineView::Blank
    } else {
        match decoded {
            Ok(record) => LedgerLineView::Record(record),
            Err(message) => LedgerLineView::Broken { message },
        }
    }
}

impl LedgerLine {
    /// Reads a line. The host decodes its text.
    pub fn read(text: &str, decoded: Result<LedgerEnvelope, String>) -> (line: Self)
        ensures
            line@ == ledger_line_of(text@, res_view(decoded)),
    {
        if is_blank(text) {
            return LedgerLine::Blank;
        }
        match decoded {
            Ok(record) => LedgerLine::Record(record),
            Err(message) => LedgerLine::Broken { message },
        }
    }
}

/// The tasks and the next number after the lines of a ledger file from `at` on. Blank lines
/// are skipped. A line that is no record, or a change of an unknown task, is an error.
pub open spec fn ledger_replayed(
    lines: Seq<LedgerLineView>,
    at: int,
    tasks: Map<Seq<char>, TaskRecordView>,
    next: nat,
) -> Result<(Map<Seq<char>, TaskRecordView>, nat), LedgerErrorView>
    decreases lines.len() - at,
{
    if at < 0 || at >= lines.len() {
        Ok((tasks, next))
    } else {
        match lines[at] {
            LedgerLineView::Blank => ledger_replayed(lines, at + 1, tasks, next),
            LedgerLineView::Broken { message } => Err(
                LedgerErrorView::Corrupt { line: (at + 1) as usize, message },
            ),
            LedgerLineView::Record(envelope) => match ledger_applied(
                tasks,
                envelope.event,
                envelope.at_unix_ms,
            ) {
                Err(error) => Err(error),
                Ok(after) => ledger_replayed(
                    lines,
                    at + 1,
                    after,
                    if envelope.sequence + 1 > next {
                        (envelope.sequence + 1) as nat
                    } else {
                        next
                    },
                ),
            },
        }
    }
}

/// Whether no counter overflows when the lines from `at` on are replayed.
pub open spec fn replay_fits(
    lines: Seq<LedgerLineView>,
    at: int,
    tasks: Map<Seq<char>, TaskRecordView>,
) -> bool
    decreases lines.len() - at,
{
    if at < 0 || at >= lines.len() {
        true
    } else {
        match lines[at] {
            LedgerLineView::Blank => replay_fits(lines, at + 1, tasks),
            LedgerLineView::Broken { .. } => true,
            LedgerLineView::Record(envelope) => {
                &&& envelope.sequence < u64::MAX
                &&& event_fits(tasks, envelope.event)
                &&& match ledger_applied(tasks, envelope.event, envelope.at_unix_ms) {
                    Err(_) => true,
                    Ok(after) => replay_fits(lines, at + 1, after),
                }
            },
        }
    }
}

/// Whether a task waits for a worker.
pub open spec fn waits(tasks: Map<Seq<char>, TaskRecordView>, id: Seq<char>) -> bool {
    tasks.contains_key(id) && tasks[id].status == TaskStatus::Pending
}

/// Whether a task is claimed before another one: the older one first, and of two equally
/// old ones the one with the smaller identifier.
pub open spec fn claimed_before(
    tasks: Map<Seq<char>, TaskRecordView>,
    left: Seq<char>,
    right: Seq<char>,
) -> bool {
    let a = tasks[left].created_at_unix_ms;
    let b = tasks[right].created_at_unix_ms;
    a < b || (a == b && precedes(left, right))
}

/// Whether a task is the one to be claimed next.
pub open spec fn next_in_line(tasks: Map<Seq<char>, TaskRecordView>, id: Seq<char>) -> bool {
    &&& waits(tasks, id)
    &&& forall|other: Seq<char>| #[trigger]
        waits(tasks, other) ==> !claimed_before(tasks, other, id)
}

/// Whether a worker's lease on a task has run out.
pub open spec fn lease_expired(task: TaskRecordView, now: u64) -> bool {
    task.status == TaskStatus::Running && (task.lease matches Some(lease)
        && lease.expires_at_unix_ms <= now)
}

/// The lease of a claim. It lasts for at least a millisecond.
pub open spec fn lease_of(worker_id: Seq<char>, now: u64, duration: u64) -> TaskLeaseView {
    let lasting = if duration == 0 {
        1
    } else {
        duration as int
    };
    TaskLeaseView {
        worker_id,
        expires_at_unix_ms: if now + lasting > u64::MAX {
            u64::MAX
        } else {
            (now + lasting) as u64
        },
    }
}

/// The refusal of an operation in the status of a task.
pub open spec fn refusal(task: TaskRecordView, operation: Seq<char>) -> LedgerErrorView {
    LedgerErrorView::InvalidTransition { task_id: task.id, status: task.status, operation }
}

/// Whether a worker holds a running task: the lease is the worker's own and has not run
/// out.
pub open spec fn holds(task: TaskRecordView, worker_id: Seq<char>, now: u64) -> bool {
    task.status == TaskStatus::Running && (task.lease matches Some(lease) && lease.worker_id
        == worker_id && now < lease.expires_at_unix_ms)
}

/// The change that a heartbeat makes: only the worker that holds a task may extend its
/// lease, and not once the lease has run out.
pub open spec fn planned_heartbeat(
    tasks: Map<Seq<char>, TaskRecordView>,
    id: Seq<char>,
    worker_id: Seq<char>,
    expires_at_unix_ms: u64,
    now: u64,
) -> Result<LedgerEventView, LedgerErrorView> {
    if !tasks.contains_key(id) {
        Err(LedgerErrorView::UnknownTask(id))
    } else if holds(tasks[id], worker_id, now) {
        Ok(LedgerEventView::Heartbeat { task_id: id, expires_at_unix_ms })
    } else {
        Err(refusal(tasks[id], "heartbeat"@))
    }
}

/// The change that ends a task: only the worker that holds it can make it succeed or fail,
/// in the attempt that it claimed and before its lease has run out.
pub open spec fn planned_finish(
    tasks: Map<Seq<char>, TaskRecordView>,
    id: Seq<char>,
    worker_id: Seq<char>,
    attempt: u32,
    now: u64,
    event: LedgerEventView,
) -> Result<LedgerEventView, LedgerErrorView> {
    if !tasks.contains_key(id) {
        Err(LedgerErrorView::UnknownTask(id))
    } else if holds(tasks[id], worker_id, now) && tasks[id].attempt == attempt {
        Ok(event)
    } else {
        Err(refusal(tasks[id], "finish"@))
    }
}

/// The change that cancels a task: an ended task cannot be cancelled.
pub open spec fn planned_cancel(
    tasks: Map<Seq<char>, TaskRecordView>,
    id: Seq<char>,
    reason: Seq<char>,
) -> Result<LedgerEventView, LedgerErrorView> {
    if !tasks.contains_key(id) {
        Err(LedgerErrorView::UnknownTask(id))
    } else if !terminal_status(tasks[id].status) {
        Ok(LedgerEventView::Cancelled { task_id: id, reason })
    } else {
        Err(refusal(tasks[id], "cancel"@))
    }
}

/// The change that acknowledges a delivery: there must be one that waits for it.
pub open spec fn planned_acknowledgement(
    tasks: Map<Seq<char>, TaskRecordView>,
    id: Seq<char>,
) -> Result<LedgerEventView, LedgerErrorView> {
    if !tasks.contains_key(id) {
        Err(LedgerErrorView::UnknownTask(id))
    } else if tasks[id].delivery == DeliveryState::Pending {
        Ok(LedgerEventView::DeliveryAcknowledged { task_id: id })
    } else {
        Err(refusal(tasks[id], "acknowledge_delivery"@))
    }
}

/// The task that a submission with this key leads to.
pub open spec fn submitted_before(ledger: LedgerView, key: Seq<char>) -> Option<TaskRecordView> {
    if ledger.index.contains_key(key) && ledger.tasks.contains_key(ledger.index[key]) {
        Some(ledger.tasks[ledger.index[key]])
    } else {
        None
    }
}

/// A task as it is submitted.
pub open spec fn fresh_task(
    id: Seq<char>,
    key: Seq<char>,
    payload: JsonView,
    now: u64,
) -> TaskRecordView {
    TaskRecordView {
        id,
        idempotency_key: key,
        payload,
        status: TaskStatus::Pending,
        attempt: 0,
        lease: None,
        result: None,
        error: None,
        delivery: DeliveryState::NotReady,
        created_at_unix_ms: now,
        updated_at_unix_ms: now,
    }
}

/// The change that gives up an expired task. It is not claimed again, because its effects
/// may already have happened.
pub open spec fn giving_up(id: Seq<char>) -> LedgerEventView {
    LedgerEventView::MarkedUnknown {
        task_id: id,
        reason: "worker lease expired; completion cannot be determined"@,
    }
}

/// The ledger after giving up tasks one by one.
pub open spec fn gave_up(ledger: LedgerView, ids: Seq<Seq<char>>, at: u64) -> LedgerView
    decreases ids.len(),
{
    if ids.len() == 0 {
        ledger
    } else {
        let earlier = gave_up(ledger, ids.drop_last(), at);
        let id = ids.last();
        ledger_changed(
            earlier,
            giving_up(id),
            earlier.tasks.insert(id, changed(earlier.tasks[id], giving_up(id), at)),
        )
    }
}

/// Whether these are the tasks whose lease has run out, in ascending order.
pub open spec fn lists_expired(
    ids: Seq<Seq<char>>,
    tasks: Map<Seq<char>, TaskRecordView>,
    now: u64,
) -> bool {
    &&& ascending(ids)
    &&& forall|id: Seq<char>| #[trigger]
        ids.contains(id) <==> tasks.contains_key(id) && lease_expired(tasks[id], now)
}

/// The records of tasks.
pub open spec fn records_of(ids: Seq<Seq<char>>, tasks: Map<Seq<char>, TaskRecordView>) -> Seq<
    TaskRecordView,
> {
    ids.map_values(|id: Seq<char>| tasks[id])
}

proof fn lemma_gave_up(ledger: LedgerView, ids: Seq<Seq<char>>, at: u64)
    requires
        ids.no_duplicates(),
        forall|i: int| 0 <= i < ids.len() ==> ledger.tasks.contains_key(#[trigger] ids[i]),
    ensures
        gave_up(ledger, ids, at).tasks.dom() == ledger.tasks.dom(),
        gave_up(ledger, ids, at).index == ledger.index,
        gave_up(ledger, ids, at).next == ledger.next + ids.len(),
        forall|id: Seq<char>| #[trigger]
            ledger.tasks.contains_key(id) ==> gave_up(ledger, ids, at).tasks[id] == (
            if ids.contains(id) {
                changed(ledger.tasks[id], giving_up(id), at)
            } else {
                ledger.tasks[id]
            }),
    decreases ids.len(),
{
    if ids.len() > 0 {
        let front = ids.drop_last();
        assert forall|i: int| 0 <= i < front.len() implies ledger.tasks.contains_key(
            #[trigger] front[i],
        ) by {
            assert(ledger.tasks.contains_key(ids[i]));
        }
        lemma_gave_up(ledger, front, at);
        let id = ids.last();
        assert(ledger.tasks.contains_key(ids[ids.len() - 1]));
        assert(!front.contains(id)) by {
            if front.contains(id) {
                let i = choose|i: int| 0 <= i < front.len() && front[i] == id;
                assert(ids[i] == ids[ids.len() - 1]);
            }
        }
        assert forall|other: Seq<char>| ids.contains(other) == (front.contains(other) || other
            == id) by {
            if front.contains(other) {
                let i = choose|i: int| 0 <= i < front.len() && front[i] == other;
                assert(ids[i] == other);
            }
            if other == id {
                assert(ids[ids.len() - 1] == other);
            }
            if ids.contains(other) && other != id {
                let i = choose|i: int| 0 <= i < ids.len() && ids[i] == other;
                assert(front[i] == other);
            }
        }
        assert(gave_up(ledger, ids, at).tasks.dom() =~= ledger.tasks.dom());
        assert forall|other: Seq<char>| #[trigger]
            ledger.tasks.contains_key(other) implies gave_up(ledger, ids, at).tasks[other] == (
        if ids.contains(other) {
            changed(ledger.tasks[other], giving_up(other), at)
        } else {
            ledger.tasks[other]
        }) by {
            assert(ids.contains(other) == (front.contains(other) || other == id));
        }
    }
}

/// A ledger of tasks with a journal file. The host reads the file and writes its records.
#[derive(Debug)]
pub struct JsonlTaskLedger {
    path: String,
    next_sequence: u64,
    tasks: Keyed<TaskRecord>,
    idempotency: Keyed<TaskId>,
}

impl View for JsonlTaskLedger {
    type V = LedgerView;

    closed spec fn view(&self) -> LedgerView {
        LedgerView {
            tasks: keyed_view(self.tasks@),
            index: keyed_view(self.idempotency@),
            next: self.next_sequence as nat,
        }
    }
}

/// The task of each idempotency key, where the last one of equal keys counts.
fn index_tasks(tasks: &Keyed<TaskRecord>) -> (index: Keyed<TaskId>)
    requires
        keyed_by_id(tasks@),
    ensures
        indexes(keyed_view(index@), keyed_view(tasks@)),
{
    let count: usize = tasks.len();
    let ghost keys = tasks.keys();
    let ghost map = keyed_view(tasks@);
    let mut index: Keyed<TaskId> = Keyed::new();
    let mut at: usize = 0;
    while at < count
        invariant
            at <= count,
            count == keys.len(),
            keys == tasks.keys(),
            ascending(keys),
            map == keyed_view(tasks@),
            keyed_by_id(tasks@),
            forall|key: Seq<char>| #[trigger]
                index@.contains_key(key) ==> map.contains_key(index@[key]@)
                    && map[index@[key]@].idempotency_key == key && keys.take(at as int).contains(
                    index@[key]@,
                ),
            forall|i: int|
                0 <= i < at ==> index@.contains_key(map[#[trigger] keys[i]].idempotency_key)
                    && !precedes(index@[map[keys[i]].idempotency_key]@, keys[i]),
        decreases count - at,
    {
        let ghost before = index@;
        let id = tasks.key_at(at);
        let task = tasks.value_at(at);
        assert(id@ == keys[at as int]);
        assert(map.contains_key(id@) && map[id@] == task@ && task@.id == id@);
        let key = task.idempotency_key.clone();
        let value = task.id.clone();
        let _ = index.insert(key, value);
        proof {
            let past = keys.take(at as int);
            let grown = keys.take(at as int + 1);
            assert forall|key: Seq<char>| #[trigger] index@.contains_key(key) implies map.contains_key(
                index@[key]@,
            ) && map[index@[key]@].idempotency_key == key && grown.contains(index@[key]@) by {
                if key == task@.idempotency_key {
                    assert(grown[at as int] == id@);
                } else {
                    assert(before.contains_key(key));
                    let i = choose|i: int| 0 <= i < past.len() && past[i] == before[key]@;
                    assert(grown[i] == before[key]@);
                }
            }
            assert forall|i: int| 0 <= i < at + 1 implies index@.contains_key(
                map[#[trigger] keys[i]].idempotency_key,
            ) && !precedes(index@[map[keys[i]].idempotency_key]@, keys[i]) by {
                if i == at {
                    lemma_precedes_irreflexive(keys[i]);
                } else if map[keys[i]].idempotency_key == task@.idempotency_key {
                    assert(precedes(keys[i], keys[at as int]));
                    if precedes(keys[at as int], keys[i]) {
                        lemma_precedes_transitive(keys[i], keys[at as int], keys[i]);
                        lemma_precedes_irreflexive(keys[i]);
                    }
                } else {
                    assert(before.contains_key(map[keys[i]].idempotency_key));
                }
            }
        }
        at = at + 1;
    }
    proof {
        let view = keyed_view(index@);
        assert(keys.take(at as int) =~= keys);
        assert forall|key: Seq<char>| #[trigger] view.contains_key(key) implies map.contains_key(
            view[key],
        ) && map[view[key]].idempotency_key == key by {
            assert(index@.contains_key(key));
        }
        assert forall|id: Seq<char>| #[trigger] map.contains_key(id) implies view.contains_key(
            map[id].idempotency_key,
        ) && !precedes(view[map[id].idempotency_key], id) by {
            assert(tasks@.dom().contains(id));
            assert(keys.to_set().contains(id));
            let i = choose|i: int| 0 <= i < keys.len() && keys[i] == id;
            assert(index@.contains_key(map[keys[i]].idempotency_key));
        }
    }
    index
}

impl JsonlTaskLedger {
    #[verifier::type_invariant]
    spec fn keyed(self) -> bool {
        keyed_by_id(self.tasks@)
    }

    /// The file of the ledger.
    pub closed spec fn file(&self) -> Seq<char> {
        self.path@
    }

    /// Opens a ledger over the lines of its file.
    pub fn open(path: String, lines: &Vec<LedgerLine>) -> (ledger: Result<Self, LedgerError>)
        requires
            lines@.len() < usize::MAX,
            replay_fits(views(lines@), 0, Map::empty()),
        ensures
            match ledger {
                Ok(found) => {
                    &&& ledger_replayed(views(lines@), 0, Map::empty(), 0) == Ok::<
                        (Map<Seq<char>, TaskRecordView>, nat),
                        LedgerErrorView,
                    >((found@.tasks, found@.next))
                    &&& indexes(found@.index, found@.tasks)
                    &&& found.file() == path@
                },
                Err(error) => ledger_replayed(views(lines@), 0, Map::empty(), 0) == Err::<
                    (Map<Seq<char>, TaskRecordView>, nat),
                    LedgerErrorView,
                >(error@),
            },
    {
        let ghost all = views(lines@);
        let mut tasks: Keyed<TaskRecord> = Keyed::new();
        let mut next_sequence: u64 = 0;
        let mut at: usize = 0;
        assert(all.len() == lines@.len());
        assert(keyed_view(tasks@) =~= Map::<Seq<char>, TaskRecordView>::empty());
        while at < lines.len()
            invariant
                at <= lines@.len(),
                lines@.len() < usize::MAX,
                all == views(lines@),
                all.len() == lines@.len(),
                keyed_by_id(tasks@),
                replay_fits(all, at as int, keyed_view(tasks@)),
                ledger_replayed(all, 0, Map::empty(), 0) == ledger_replayed(
                    all,
                    at as int,
                    keyed_view(tasks@),
                    next_sequence as nat,
                ),
            decreases lines@.len() - at,
        {
            assert(all[at as int] == lines@[at as int]@);
            match &lines[at] {
                LedgerLine::Blank => {},
                LedgerLine::Broken { message } => {
                    return Err(LedgerError::Corrupt { line: at + 1, message: message.clone() });
                },
                LedgerLine::Record(envelope) => {
                    if envelope.sequence + 1 > next_sequence {
                        next_sequence = envelope.sequence + 1;
                    }
                    match apply_event(&mut tasks, &envelope.event, envelope.at_unix_ms) {
                        Ok(()) => {},
                        Err(error) => {
                            return Err(error);
                        },
                    }
                },
            }
            at = at + 1;
        }
        let idempotency = index_tasks(&tasks);
        Ok(JsonlTaskLedger { path, next_sequence, tasks, idempotency })
    }

    pub fn path(&self) -> (path: &str)
        ensures
            path@ == self.file(),
    {
        self.path.as_str()
    }

    /// Takes a change whose record fared this way.
    pub fn settle(&mut self, event: &LedgerEvent, at: u64, outcome: WriteOutcome) -> (done: Result<
        (),
        LedgerError,
    >)
        requires
            old(self)@.next < u64::MAX,
            event_fits(old(self)@.tasks, event@),
        ensures
            final(self).file() == old(self).file(),
            (final(self)@, done_view(done)) == ledger_appended(old(self)@, event@, at, outcome),
    {
        match outcome {
            WriteOutcome::NotEncoded(message) => {
                return Err(LedgerError::Serialization(message));
            },
            WriteOutcome::Failed(message) => {
                return Err(LedgerError::Io(message));
            },
            WriteOutcome::Durable => {},
        }
        proof {
            use_type_invariant(&*self);
        }
        let ghost before = *self;
        let mut tasks: Keyed<TaskRecord> = Keyed::new();
        std::mem::swap(&mut tasks, &mut self.tasks);
        let mut idempotency: Keyed<TaskId> = Keyed::new();
        std::mem::swap(&mut idempotency, &mut self.idempotency);
        let applied = apply_event(&mut tasks, event, at);
        match applied {
            Err(error) => {
                self.tasks = tasks;
                self.idempotency = idempotency;
                return Err(error);
            },
            Ok(()) => {},
        }
        match event {
            LedgerEvent::Submitted { task } => {
                let ghost earlier = idempotency@;
                let key = task.idempotency_key.clone();
                let id = task.id.clone();
                let _ = idempotency.insert(key, id);
                assert(keyed_view(idempotency@) =~= keyed_view(earlier).insert(
                    task@.idempotency_key,
                    task@.id,
                ));
            },
            _ => {},
        }
        let next: u64 = self.next_sequence + 1;
        self.tasks = tasks;
        self.idempotency = idempotency;
        self.next_sequence = next;
        Ok(())
    }

    fn append<W: Fn(LedgerEnvelope) -> WriteOutcome>(
        &mut self,
        event: &LedgerEvent,
        at: u64,
        write: &W,
    ) -> (done: Result<(), LedgerError>)
        requires
            forall|record: LedgerEnvelope| call_requires(*write, (record,)),
            old(self)@.next < u64::MAX,
            event_fits(old(self)@.tasks, event@),
        ensures
            final(self).file() == old(self).file(),
            appends(*write, old(self)@, event@, at, final(self)@, done_view(done)),
    {
        let record = LedgerEnvelope {
            sequence: self.next_sequence,
            at_unix_ms: at,
            event: event.clone(),
        };
        let ghost envelope = record@;
        let outcome = write(record);
        assert(wrote(*write, envelope, outcome));
        assert(envelope == (LedgerEnvelopeView {
            sequence: old(self)@.next as u64,
            at_unix_ms: at,
            event: event@,
        }));
        let done = self.settle(event, at, outcome);
        assert((self@, done_view(done)) == ledger_appended(old(self)@, event@, at, outcome));
        done
    }

    /// Appends a planned change and answers with the changed task.
    fn perform<W: Fn(LedgerEnvelope) -> WriteOutcome>(
        &mut self,
        planned: Result<LedgerEvent, LedgerError>,
        at: u64,
        write: &W,
    ) -> (answer: Result<TaskRecord, LedgerError>)
        requires
            forall|record: LedgerEnvelope| call_requires(*write, (record,)),
            old(self)@.next < u64::MAX,
            planned matches Ok(event) ==> old(self)@.tasks.contains_key(event_task(event@))
                && event_fits(old(self)@.tasks, event@),
        ensures
            final(self).file() == old(self).file(),
            performs(
                *write,
                old(self)@,
                res_view(planned),
                at,
                final(self)@,
                res_view(answer),
            ),
    {
        let event = match planned {
            Ok(event) => event,
            Err(error) => {
                return Err(error);
            },
        };
        match self.append(&event, at, write) {
            Err(error) => Err(error),
            Ok(()) => {
                let id = event.task();
                match self.tasks.get(id.as_str()) {
                    Some(task) => {
                        let answer = task.clone();
                        assert(self@.tasks[id@] == answer@);
                        Ok(answer)
                    },
                    None => {
                        assert(self@.tasks.contains_key(id@));
                        Err(LedgerError::UnknownTask(id.clone()))
                    },
                }
            },
        }
    }

    /// Submits a task under an idempotency key. A key that was used before leads to its
    /// task, and nothing is recorded.
    pub fn submit<W: Fn(LedgerEnvelope) -> WriteOutcome>(
        &mut self,
        idempotency_key: String,
        payload: Json,
        id: TaskId,
        now: u64,
        write: &W,
    ) -> (submission: Result<Submission, LedgerError>)
        requires
            forall|record: LedgerEnvelope| call_requires(*write, (record,)),
            old(self)@.next < u64::MAX,
        ensures
            final(self).file() == old(self).file(),
            match submitted_before(old(self)@, idempotency_key@) {
                Some(task) => final(self)@ == old(self)@ && (submission matches Ok(found)
                    && found@ == (SubmissionView { task, created: false })),
                None => {
                    let task = fresh_task(id@, idempotency_key@, payload@, now);
                    let event = LedgerEventView::Submitted { task };
                    match submission {
                        Ok(found) => found@ == (SubmissionView { task, created: true })
                            && appends(*write, old(self)@, event, now, final(self)@, Ok(())),
                        Err(error) => appends(
                            *write,
                            old(self)@,
                            event,
                            now,
                            final(self)@,
                            Err(error@),
                        ),
                    }
                },
            },
    {
        match self.idempotency.get(idempotency_key.as_str()) {
            Some(task_id) => {
                assert(self@.index[idempotency_key@] == task_id@);
                match self.tasks.get(task_id.as_str()) {
                    Some(task) => {
                        let found = task.clone();
                        assert(self@.tasks[task_id@] == found@);
                        return Ok(Submission { task: found, created: false });
                    },
                    None => {},
                }
            },
            None => {},
        }
        let task = TaskRecord {
            id,
            idempotency_key,
            payload,
            status: TaskStatus::Pending,
            attempt: 0,
            lease: None,
            result: None,
            error: None,
            delivery: DeliveryState::NotReady,
            created_at_unix_ms: now,
            updated_at_unix_ms: now,
        };
        let event = LedgerEvent::Submitted { task: task.clone() };
        match self.append(&event, now, write) {
            Ok(()) => Ok(Submission { task, created: true }),
            Err(error) => Err(error),
        }
    }

    /// The task that is to be claimed next.
    pub fn next_pending(&self) -> (found: Option<TaskId>)
        ensures
            match found {
                Some(id) => next_in_line(self@.tasks, id@),
                None => forall|id: Seq<char>| !(#[trigger] waits(self@.tasks, id)),
            },
    {
        proof {
            use_type_invariant(self);
        }
        let count: usize = self.tasks.len();
        let ghost keys = self.tasks.keys();
        let ghost map = self@.tasks;
        let mut best: Option<usize> = None;
        let mut at: usize = 0;
        while at < count
            invariant
                at <= count,
                count == keys.len(),
                keys == self.tasks.keys(),
                ascending(keys),
                map == keyed_view(self.tasks@),
                keyed_by_id(self.tasks@),
                match best {
                    Some(index) => {
                        &&& index < at
                        &&& waits(map, keys[index as int])
                        &&& forall|i: int|
                            0 <= i < at && waits(map, #[trigger] keys[i]) ==> !claimed_before(
                                map,
                                keys[i],
                                keys[index as int],
                            )
                    },
                    None => forall|i: int| 0 <= i < at ==> !waits(map, #[trigger] keys[i]),
                },
            decreases count - at,
        {
            let task = self.tasks.value_at(at);
            assert(map.contains_key(keys[at as int]) && map[keys[at as int]] == task@);
            let ghost earlier = best;
            match task.status {
                TaskStatus::Pending => {
                    match best {
                        None => {
                            best = Some(at);
                            proof {
                                lemma_precedes_irreflexive(keys[at as int]);
                            }
                        },
                        Some(index) => {
                            let rival = self.tasks.value_at(index);
                            assert(map[keys[index as int]] == rival@);
                            assert(precedes(keys[index as int], keys[at as int]));
                            if task.created_at_unix_ms < rival.created_at_unix_ms {
                                best = Some(at);
                                proof {
                                    lemma_precedes_irreflexive(keys[at as int]);
                                }
                            } else {
                                proof {
                                    if precedes(keys[at as int], keys[index as int]) {
                                        lemma_precedes_transitive(
                                            keys[index as int],
                                            keys[at as int],
                                            keys[index as int],
                                        );
                                        lemma_precedes_irreflexive(keys[index as int]);
                                    }
                                }
                            }
                        },
                    }
                },
                _ => {},
            }
            at = at + 1;
        }
        proof {
            assert forall|id: Seq<char>| #[trigger] waits(map, id) implies exists|i: int|
                0 <= i < count && #[trigger] keys[i] == id by {
                assert(self.tasks@.dom().contains(id));
                assert(keys.to_set().contains(id));
            }
        }
        match best {
            Some(index) => {
                let task = self.tasks.value_at(index);
                assert(map[keys[index as int]] == task@);
                assert(task@.id == keys[index as int]) by {
                    assert(self.tasks@.contains_key(keys[index as int]));
                }
                Some(task.id.clone())
            },
            None => None,
        }
    }

    /// Claims the oldest waiting task for a worker.
    pub fn claim_next<W: Fn(LedgerEnvelope) -> WriteOutcome>(
        &mut self,
        worker_id: String,
        now_unix_ms: u64,
        lease_duration_ms: u64,
        at: u64,
        write: &W,
    ) -> (claimed: Result<Option<TaskRecord>, LedgerError>)
        requires
            forall|record: LedgerEnvelope| call_requires(*write, (record,)),
            old(self)@.next < u64::MAX,
            forall|id: Seq<char>| #[trigger]
                waits(old(self)@.tasks, id) ==> old(self)@.tasks[id].attempt < u32::MAX,
        ensures
            final(self).file() == old(self).file(),
            match claimed {
                Ok(None) => final(self)@ == old(self)@ && forall|id: Seq<char>|
                    !(#[trigger] waits(old(self)@.tasks, id)),
                Ok(Some(task)) => {
                    &&& next_in_line(old(self)@.tasks, task@.id)
                    &&& appends(
                        *write,
                        old(self)@,
                        LedgerEventView::Claimed {
                            task_id: task@.id,
                            lease: lease_of(worker_id@, now_unix_ms, lease_duration_ms),
                        },
                        at,
                        final(self)@,
                        Ok(()),
                    )
                    &&& task@ == final(self)@.tasks[task@.id]
                },
                Err(error) => exists|id: Seq<char>| #[trigger]
                    next_in_line(old(self)@.tasks, id) && appends(
                        *write,
                        old(self)@,
                        LedgerEventView::Claimed {
                            task_id: id,
                            lease: lease_of(worker_id@, now_unix_ms, lease_duration_ms),
                        },
                        at,
                        final(self)@,
                        Err(error@),
                    ),
            },
    {
        let task_id = match self.next_pending() {
            Some(task_id) => task_id,
            None => {
                return Ok(None);
            },
        };
        let mut duration: u64 = lease_duration_ms;
        if duration == 0 {
            duration = 1;
        }
        let lease = TaskLease {
            worker_id,
            expires_at_unix_ms: now_unix_ms.saturating_add(duration),
        };
        assert(lease@ == lease_of(worker_id@, now_unix_ms, lease_duration_ms));
        assert(waits(self@.tasks, task_id@));
        proof {
            use_type_invariant(&*self);
            assert(self.tasks@.contains_key(task_id@));
        }
        let event = LedgerEvent::Claimed { task_id: task_id.clone(), lease };
        match self.perform(Ok(event), at, write) {
            Ok(task) => Ok(Some(task)),
            Err(error) => {
                assert(next_in_line(old(self)@.tasks, task_id@));
                Err(error)
            },
        }
    }

    fn require_task(&self, task_id: &TaskId) -> (task: Result<&TaskRecord, LedgerError>)
        ensures
            match task {
                Ok(found) => self@.tasks.contains_key(task_id@) && self@.tasks[task_id@] == found@
                    && found@.id == task_id@,
                Err(error) => !self@.tasks.contains_key(task_id@) && error@
                    == LedgerErrorView::UnknownTask(task_id@),
            },
    {
        proof {
            use_type_invariant(self);
        }
        match self.tasks.get(task_id.as_str()) {
            Some(task) => {
                assert(self.tasks@.contains_key(task_id@));
                Ok(task)
            },
            None => Err(LedgerError::UnknownTask(task_id.clone())),
        }
    }

    /// Extends the lease of a worker on the task that it holds. A lease that has run out by
    /// `now_unix_ms`, the time of the trusted host, cannot be extended.
    pub fn heartbeat<W: Fn(LedgerEnvelope) -> WriteOutcome>(
        &mut self,
        task_id: &TaskId,
        worker_id: &str,
        expires_at_unix_ms: u64,
        now_unix_ms: u64,
        at: u64,
        write: &W,
    ) -> (answer: Result<TaskRecord, LedgerError>)
        requires
            forall|record: LedgerEnvelope| call_requires(*write, (record,)),
            old(self)@.next < u64::MAX,
        ensures
            final(self).file() == old(self).file(),
            performs(
                *write,
                old(self)@,
                planned_heartbeat(
                    old(self)@.tasks,
                    task_id@,
                    worker_id@,
                    expires_at_unix_ms,
                    now_unix_ms,
                ),
                at,
                final(self)@,
                res_view(answer),
            ),
    {
        let planned = match self.require_task(task_id) {
            Err(error) => Err(error),
            Ok(task) => {
                if held_by(task, worker_id, now_unix_ms) {
                    Ok(LedgerEvent::Heartbeat { task_id: task_id.clone(), expires_at_unix_ms })
                } else {
                    Err(invalid(task, "heartbeat"))
                }
            },
        };
        self.perform(planned, at, write)
    }

    /// Ends a task with a result, for the worker that holds it in this attempt. A result
    /// that comes after the lease has run out is refused.
    pub fn succeed<W: Fn(LedgerEnvelope) -> WriteOutcome>(
        &mut self,
        task_id: &TaskId,
        worker_id: &str,
        attempt: u32,
        result: Json,
        now_unix_ms: u64,
        at: u64,
        write: &W,
    ) -> (answer: Result<TaskRecord, LedgerError>)
        requires
            forall|record: LedgerEnvelope| call_requires(*write, (record,)),
            old(self)@.next < u64::MAX,
        ensures
            final(self).file() == old(self).file(),
            performs(
                *write,
                old(self)@,
                planned_finish(
                    old(self)@.tasks,
                    task_id@,
                    worker_id@,
                    attempt,
                    now_unix_ms,
                    LedgerEventView::Succeeded { task_id: task_id@, result: result@ },
                ),
                at,
                final(self)@,
                res_view(answer),
            ),
    {
        self.finish(
            task_id,
            worker_id,
            attempt,
            LedgerEvent::Succeeded { task_id: task_id.clone(), result },
            now_unix_ms,
            at,
            write,
        )
    }

    /// Ends a task with an error, for the worker that holds it in this attempt. An error
    /// that comes after the lease has run out is refused.
    pub fn fail<W: Fn(LedgerEnvelope) -> WriteOutcome>(
        &mut self,
        task_id: &TaskId,
        worker_id: &str,
        attempt: u32,
        error: String,
        now_unix_ms: u64,
        at: u64,
        write: &W,
    ) -> (answer: Result<TaskRecord, LedgerError>)
        requires
            forall|record: LedgerEnvelope| call_requires(*write, (record,)),
            old(self)@.next < u64::MAX,
        ensures
            final(self).file() == old(self).file(),
            performs(
                *write,
                old(self)@,
                planned_finish(
                    old(self)@.tasks,
                    task_id@,
                    worker_id@,
                    attempt,
                    now_unix_ms,
                    LedgerEventView::Failed { task_id: task_id@, error: error@ },
                ),
                at,
                final(self)@,
                res_view(answer),
            ),
    {
        self.finish(
            task_id,
            worker_id,
            attempt,
            LedgerEvent::Failed { task_id: task_id.clone(), error },
            now_unix_ms,
            at,
            write,
        )
    }

    fn finish<W: Fn(LedgerEnvelope) -> WriteOutcome>(
        &mut self,
        task_id: &TaskId,
        worker_id: &str,
        attempt: u32,
        event: LedgerEvent,
        now_unix_ms: u64,
        at: u64,
        write: &W,
    ) -> (answer: Result<TaskRecord, LedgerError>)
        requires
            forall|record: LedgerEnvelope| call_requires(*write, (record,)),
            old(self)@.next < u64::MAX,
            event_task(event@) == task_id@,
            !(event@ is Claimed),
        ensures
            final(self).file() == old(self).file(),
            performs(
                *write,
                old(self)@,
                planned_finish(
                    old(self)@.tasks,
                    task_id@,
                    worker_id@,
                    attempt,
                    now_unix_ms,
                    event@,
                ),
                at,
                final(self)@,
                res_view(answer),
            ),
    {
        let planned = match self.require_task(task_id) {
            Err(error) => Err(error),
            Ok(task) => if held_by(task, worker_id, now_unix_ms) && task.attempt == attempt {
                Ok(event)
            } else {
                Err(invalid(task, "finish"))
            },
        };
        self.perform(planned, at, write)
    }

    /// Cancels a task that has not ended.
    pub fn cancel<W: Fn(LedgerEnvelope) -> WriteOutcome>(
        &mut self,
        task_id: &TaskId,
        reason: String,
        at: u64,
        write: &W,
    ) -> (answer: Result<TaskRecord, LedgerError>)
        requires
            forall|record: LedgerEnvelope| call_requires(*write, (record,)),
            old(self)@.next < u64::MAX,
        ensures
            final(self).file() == old(self).file(),
            performs(
                *write,
                old(self)@,
                planned_cancel(old(self)@.tasks, task_id@, reason@),
                at,
                final(self)@,
                res_view(answer),
            ),
    {
        let planned = match self.require_task(task_id) {
            Err(error) => Err(error),
            Ok(task) => if task.status.is_terminal() {
                Err(invalid(task, "cancel"))
            } else {
                Ok(LedgerEvent::Cancelled { task_id: task_id.clone(), reason })
            },
        };
        self.perform(planned, at, write)
    }

    /// Acknowledges that the end of a task was delivered.
    pub fn acknowledge_delivery<W: Fn(LedgerEnvelope) -> WriteOutcome>(
        &mut self,
        task_id: &TaskId,
        at: u64,
        write: &W,
    ) -> (answer: Result<TaskRecord, LedgerError>)
        requires
            forall|record: LedgerEnvelope| call_requires(*write, (record,)),
            old(self)@.next < u64::MAX,
        ensures
            final(self).file() == old(self).file(),
            performs(
                *write,
                old(self)@,
                planned_acknowledgement(old(self)@.tasks, task_id@),
                at,
                final(self)@,
                res_view(answer),
            ),
    {
        let planned = match self.require_task(task_id) {
            Err(error) => Err(error),
            Ok(task) => match task.delivery {
                DeliveryState::Pending => Ok(
                    LedgerEvent::DeliveryAcknowledged { task_id: task_id.clone() },
                ),
                _ => Err(invalid(task, "acknowledge_delivery")),
            },
        };
        self.perform(planned, at, write)
    }

    /// The running tasks whose lease has run out.
    pub fn expired(&self, now_unix_ms: u64) -> (found: Vec<TaskId>)
        ensures
            lists_expired(views(found@), self@.tasks, now_unix_ms),
    {
        proof {
            use_type_invariant(self);
        }
        let count: usize = self.tasks.len();
        let ghost keys = self.tasks.keys();
        let ghost map = self@.tasks;
        let mut found: Vec<TaskId> = Vec::new();
        let mut at: usize = 0;
        while at < count
            invariant
                at <= count,
                count == keys.len(),
                keys == self.tasks.keys(),
                ascending(keys),
                map == keyed_view(self.tasks@),
                keyed_by_id(self.tasks@),
                ascending(views(found@)),
                forall|i: int|
                    0 <= i < found@.len() ==> keys.take(at as int).contains(
                        #[trigger] views(found@)[i],
                    ) && lease_expired(map[views(found@)[i]], now_unix_ms),
                forall|i: int|
                    0 <= i < at && lease_expired(map[#[trigger] keys[i]], now_unix_ms) ==> views(
                        found@,
                    ).contains(keys[i]),
            decreases count - at,
        {
            let task = self.tasks.value_at(at);
            assert(map.contains_key(keys[at as int]) && map[keys[at as int]] == task@);
            assert(self.tasks@.contains_key(keys[at as int]));
            let mut gone = false;
            match task.status {
                TaskStatus::Running => {
                    match &task.lease {
                        Some(lease) => {
                            gone = lease.expires_at_unix_ms <= now_unix_ms;
                        },
                        None => {},
                    }
                },
                _ => {},
            }
            let ghost past = keys.take(at as int);
            let ghost grown = keys.take(at as int + 1);
            let ghost before = views(found@);
            assert(grown =~= past.push(keys[at as int]));
            assert forall|key: Seq<char>| past.contains(key) implies grown.contains(key) by {
                let i = choose|i: int| 0 <= i < past.len() && past[i] == key;
                assert(grown[i] == key);
            }
            if gone {
                let id = task.id.clone();
                proof {
                    lemma_views_push(found@, id);
                    let after = before.push(id@);
                    assert(grown[at as int] == id@);
                    assert forall|i: int, j: int| 0 <= i < j < after.len() implies precedes(
                        #[trigger] after[i],
                        #[trigger] after[j],
                    ) by {
                        if j < before.len() {
                            assert(precedes(before[i], before[j]));
                        } else {
                            let k = choose|k: int| 0 <= k < past.len() && past[k] == before[i];
                            assert(precedes(keys[k], keys[at as int]));
                        }
                    }
                    assert forall|i: int|
                        0 <= i < at + 1 && lease_expired(
                            map[#[trigger] keys[i]],
                            now_unix_ms,
                        ) implies after.contains(keys[i]) by {
                        if i < at {
                            let k = choose|k: int| 0 <= k < before.len() && before[k] == keys[i];
                            assert(after[k] == keys[i]);
                        } else {
                            assert(after[before.len() as int] == keys[i]);
                        }
                    }
                    assert forall|i: int| 0 <= i < after.len() implies grown.contains(
                        #[trigger] after[i],
                    ) && lease_expired(map[after[i]], now_unix_ms) by {
                        if i < before.len() {
                            assert(past.contains(before[i]));
                        }
                    }
                }
                found.push(id);
            }
            at = at + 1;
        }
        proof {
            let ids = views(found@);
            assert(keys.take(at as int) =~= keys);
            assert forall|id: Seq<char>| #[trigger] ids.contains(id) <==> map.contains_key(id)
                && lease_expired(map[id], now_unix_ms) by {
                if ids.contains(id) {
                    let i = choose|i: int| 0 <= i < ids.len() && ids[i] == id;
                    assert(keys.contains(ids[i]));
                    assert(keys.to_set().contains(id));
                    assert(self.tasks@.dom().contains(id));
                }
                if map.contains_key(id) && lease_expired(map[id], now_unix_ms) {
                    assert(self.tasks@.dom().contains(id));
                    assert(keys.to_set().contains(id));
                    let i = choose|i: int| 0 <= i < keys.len() && keys[i] == id;
                    assert(lease_expired(map[keys[i]], now_unix_ms));
                }
            }
        }
        found
    }

    /// Marks the running tasks whose lease has run out as unknown. It intentionally does
    /// not put them back into `pending`, because their side effects may already have
    /// happened. A failed write ends it: the tasks before it stay marked.
    pub fn recover_expired<W: Fn(LedgerEnvelope) -> WriteOutcome>(
        &mut self,
        now_unix_ms: u64,
        at: u64,
        write: &W,
    ) -> (recovered: Result<Vec<TaskRecord>, LedgerError>)
        requires
            forall|record: LedgerEnvelope| call_requires(*write, (record,)),
            old(self)@.next + old(self)@.tasks.dom().len() <= u64::MAX,
        ensures
            final(self).file() == old(self).file(),
            exists|ids: Seq<Seq<char>>| #[trigger]
                lists_expired(ids, old(self)@.tasks, now_unix_ms) && match recovered {
                    Ok(records) => final(self)@ == gave_up(old(self)@, ids, at) && views(records@)
                        == records_of(ids, final(self)@.tasks),
                    Err(error) => exists|count: int|
                        0 <= count < ids.len() && appends(
                            *write,
                            #[trigger] gave_up(old(self)@, ids.take(count), at),
                            giving_up(ids[count]),
                            at,
                            final(self)@,
                            Err(error@),
                        ),
                },
    {
        let _ = self.tasks.len();
        let found = self.expired(now_unix_ms);
        let ghost ids = views(found@);
        let ghost start = self@;
        let mut recovered: Vec<TaskRecord> = Vec::new();
        let mut index: usize = 0;
        proof {
            assert(ids.no_duplicates()) by {
                assert forall|i: int, j: int|
                    0 <= i < ids.len() && 0 <= j < ids.len() && i != j implies ids[i] != ids[j] by {
                    if i < j {
                        lemma_precedes_irreflexive(ids[i]);
                        assert(precedes(ids[i], ids[j]));
                    } else {
                        lemma_precedes_irreflexive(ids[i]);
                        assert(precedes(ids[j], ids[i]));
                    }
                }
            }
            assert forall|i: int| 0 <= i < ids.len() implies start.tasks.contains_key(
                #[trigger] ids[i],
            ) by {
                assert(ids.contains(ids[i]));
            }
            ids.unique_seq_to_set();
            assert(ids.to_set().subset_of(start.tasks.dom())) by {
                assert forall|id: Seq<char>| #[trigger] ids.to_set().contains(id) implies start.tasks.dom().contains(
                    id,
                ) by {
                    assert(ids.contains(id));
                }
            }
            assert(keyed_view(self.tasks@).dom() =~= self.tasks@.dom());
            assert(self.tasks@.dom() =~= self.tasks.keys().to_set());
            vstd::seq_lib::seq_to_set_is_finite(self.tasks.keys());
            vstd::set_lib::lemma_len_subset(ids.to_set(), start.tasks.dom());
            assert(ids.take(0) =~= Seq::empty());
            assert(views(recovered@) =~= records_of(ids.take(0), start.tasks));
        }
        while index < found.len()
            invariant
                index <= found@.len(),
                ids == views(found@),
                ids.len() == found@.len(),
                ids.no_duplicates(),
                start == old(self)@,
                start.next + ids.len() <= u64::MAX,
                forall|i: int| 0 <= i < ids.len() ==> start.tasks.contains_key(#[trigger] ids[i]),
                lists_expired(ids, start.tasks, now_unix_ms),
                forall|record: LedgerEnvelope| call_requires(*write, (record,)),
                self.file() == old(self).file(),
                self@ == gave_up(start, ids.take(index as int), at),
                self@.next == start.next + index,
                views(recovered@) == records_of(ids.take(index as int), self@.tasks),
            decreases found@.len() - index,
        {
            let ghost past = ids.take(index as int);
            let ghost grown = ids.take(index as int + 1);
            let ghost before = self@;
            let event = LedgerEvent::MarkedUnknown {
                task_id: found[index].clone(),
                reason: "worker lease expired; completion cannot be determined".to_owned(),
            };
            proof {
                assert(found@[index as int]@ == ids[index as int]);
                assert(event@ == giving_up(ids[index as int]));
                assert(grown.drop_last() =~= past);
                assert(grown.last() == ids[index as int]);
                assert(past.no_duplicates());
                assert(grown.no_duplicates());
                lemma_gave_up(start, past, at);
                lemma_gave_up(start, grown, at);
                assert(before.tasks.contains_key(ids[index as int]));
            }
            match self.perform(Ok(event), at, write) {
                Ok(task) => {
                    proof {
                        let after = gave_up(start, grown, at);
                        assert(self@ == after);
                        lemma_views_push(recovered@, task);
                        assert forall|i: int| 0 <= i < index implies after.tasks[#[trigger] past[i]]
                            == before.tasks[past[i]] by {
                            assert(past[i] == ids[i]);
                            assert(ids[i] != ids[index as int]);
                        }
                        assert(records_of(grown, after.tasks) =~= records_of(
                            past,
                            before.tasks,
                        ).push(task@));
                    }
                    recovered.push(task);
                },
                Err(error) => {
                    assert(appends(
                        *write,
                        gave_up(start, ids.take(index as int), at),
                        giving_up(ids[index as int]),
                        at,
                        self@,
                        Err(error@),
                    ));
                    return Err(error);
                },
            }
            index = index + 1;
        }
        proof {
            assert(ids.take(index as int) =~= ids);
        }
        Ok(recovered)
    }

    pub fn get(&self, task_id: &TaskId) -> (task: Option<TaskRecord>)
        ensures
            opt_view(task) == (if self@.tasks.contains_key(task_id@) {
                Some(self@.tasks[task_id@])
            } else {
                None
            }),
    {
        match self.tasks.get(task_id.as_str()) {
            Some(task) => {
                let found = task.clone();
                assert(self@.tasks[task_id@] == found@);
                Some(found)
            },
            None => None,
        }
    }

    /// All tasks, in ascending order of their identifiers.
    pub fn list(&self) -> (list: Vec<TaskRecord>)
        ensures
            exists|ids: Seq<Seq<char>>| #[trigger]
                ascending(ids) && ids.to_set() == self@.tasks.dom() && views(list@) == records_of(
                    ids,
                    self@.tasks,
                ),
    {
        let count: usize = self.tasks.len();
        let ghost keys = self.tasks.keys();
        let ghost map = self@.tasks;
        let mut list: Vec<TaskRecord> = Vec::new();
        let mut at: usize = 0;
        assert(views(list@) =~= records_of(keys.take(0), map));
        while at < count
            invariant
                at <= count,
                count == keys.len(),
                keys == self.tasks.keys(),
                map == keyed_view(self.tasks@),
                views(list@) == records_of(keys.take(at as int), map),
            decreases count - at,
        {
            let task = self.tasks.value_at(at).clone();
            proof {
                assert(map[keys[at as int]] == task@);
                lemma_views_push(list@, task);
                assert(records_of(keys.take(at as int + 1), map) =~= records_of(
                    keys.take(at as int),
                    map,
                ).push(task@));
            }
            list.push(task);
            at = at + 1;
        }
        assert(keys.take(at as int) =~= keys);
        assert(keys.to_set() =~= map.dom());
        assert(ascending(keys));
        list
    }
}

fn held_by(task: &TaskRecord, worker_id: &str, now_unix_ms: u64) -> (held: bool)
    ensures
        held == holds(task@, worker_id@, now_unix_ms),
{
    match task.status {
        TaskStatus::Running => match &task.lease {
            Some(lease) => same_text(lease.worker_id.as_str(), worker_id) && now_unix_ms
                < lease.expires_at_unix_ms,
            None => false,
        },
        _ => false,
    }
}

fn invalid(task: &TaskRecord, operation: &str) -> (error: LedgerError)
    ensures
        error@ == refusal(task@, operation@),
{
    LedgerError::InvalidTransition {
        task_id: task.id.clone(),
        status: task.status,
        operation: operation.to_owned(),
    }
}

// ---------------------------------------------------------------------------
// Laws
// ---------------------------------------------------------------------------

/// A submitted task is found under its key.
pub proof fn law_submitted_task_is_found(ledger: LedgerView, task: TaskRecordView, at: u64)
    ensures
        ({
            let event = LedgerEventView::Submitted { task };
            let after = ledger_changed(
                ledger,
                event,
                ledger_applied(ledger.tasks, event, at)->Ok_0,
            );
            submitted_before(after, task.idempotency_key) == Some(task)
        }),
{
}

/// No change but a submission makes a task wait: what was claimed is never claimed again.
pub proof fn law_task_never_waits_again(
    tasks: Map<Seq<char>, TaskRecordView>,
    event: LedgerEventView,
    at: u64,
    id: Seq<char>,
)
    requires
        ledger_applied(tasks, event, at) is Ok,
        !(event is Submitted),
        waits(ledger_applied(tasks, event, at)->Ok_0, id),
    ensures
        waits(tasks, id),
{
}

/// A lease that has run out is out of its worker's hands: nobody can extend it, and nobody
/// can end its task with a result or an error. A lease is either held or has run out.
pub proof fn law_lapsed_lease_stays_lapsed(
    tasks: Map<Seq<char>, TaskRecordView>,
    id: Seq<char>,
    worker_id: Seq<char>,
    attempt: u32,
    expires_at_unix_ms: u64,
    now: u64,
    event: LedgerEventView,
)
    requires
        tasks.contains_key(id),
        lease_expired(tasks[id], now),
    ensures
        !holds(tasks[id], worker_id, now),
        planned_heartbeat(tasks, id, worker_id, expires_at_unix_ms, now) == Err::<
            LedgerEventView,
            LedgerErrorView,
        >(refusal(tasks[id], "heartbeat"@)),
        planned_finish(tasks, id, worker_id, attempt, now, event) == Err::<
            LedgerEventView,
            LedgerErrorView,
        >(refusal(tasks[id], "finish"@)),
{
}

/// A late result is refused: once a task was cancelled or given up, no worker can end it,
/// whatever the time.
pub proof fn law_late_results_are_refused(
    tasks: Map<Seq<char>, TaskRecordView>,
    ending: LedgerEventView,
    at: u64,
    worker_id: Seq<char>,
    attempt: u32,
    now: u64,
    late: LedgerEventView,
)
    requires
        tasks.contains_key(event_task(ending)),
        ending is Succeeded || ending is Failed || ending is Cancelled || ending is MarkedUnknown,
    ensures
        planned_finish(
            ledger_applied(tasks, ending, at)->Ok_0,
            event_task(ending),
            worker_id,
            attempt,
            now,
            late,
        ) is Err,
{
}

/// A task whose lease has run out becomes unknown, not pending, when expired tasks are
/// given up. Its end then waits for delivery, and no other task changes.
pub proof fn law_expired_tasks_become_unknown(
    ledger: LedgerView,
    ids: Seq<Seq<char>>,
    now: u64,
    at: u64,
    id: Seq<char>,
)
    requires
        lists_expired(ids, ledger.tasks, now),
        ledger.tasks.contains_key(id),
    ensures
        gave_up(ledger, ids, at).tasks.contains_key(id),
        ({
            let after = gave_up(ledger, ids, at).tasks[id];
            if lease_expired(ledger.tasks[id], now) {
                after.status == TaskStatus::Unknown && after.delivery == DeliveryState::Pending
                    && after.lease is None && !waits(gave_up(ledger, ids, at).tasks, id)
            } else {
                after == ledger.tasks[id]
            }
        }),
{
    assert forall|i: int, j: int|
        0 <= i < ids.len() && 0 <= j < ids.len() && i != j implies ids[i] != ids[j] by {
        lemma_precedes_irreflexive(ids[i]);
        if i < j {
            assert(precedes(ids[i], ids[j]));
        } else {
            assert(precedes(ids[j], ids[i]));
        }
    }
    assert forall|i: int| 0 <= i < ids.len() implies ledger.tasks.contains_key(
        #[trigger] ids[i],
    ) by {
        assert(ids.contains(ids[i]));
    }
    lemma_gave_up(ledger, ids, at);
}

/// The end of a task is delivered once: an ended task waits for delivery, an acknowledged
/// one does not, and a second acknowledgement is refused.
pub proof fn law_completion_is_acknowledged_once(
    tasks: Map<Seq<char>, TaskRecordView>,
    ending: LedgerEventView,
    at: u64,
    later: u64,
)
    requires
        tasks.contains_key(event_task(ending)),
        ending is Succeeded || ending is Failed || ending is Cancelled || ending is MarkedUnknown,
    ensures
        ({
            let id = event_task(ending);
            let after = ledger_applied(tasks, ending, at)->Ok_0;
            let acknowledged = LedgerEventView::DeliveryAcknowledged { task_id: id };
            let done = ledger_applied(after, acknowledged, later)->Ok_0;
            &&& terminal_status(after[id].status)
            &&& planned_acknowledgement(after, id) == Ok::<LedgerEventView, LedgerErrorView>(
                acknowledged,
            )
            &&& done[id].delivery == DeliveryState::Acknowledged
            &&& done[id].status == after[id].status
            &&& planned_acknowledgement(done, id) is Err
        }),
{
}

/// Replaying a ledger file gives the tasks that it was written for: a further record
/// changes them as the change did when it was made.
pub proof fn law_replay_follows_the_ledger(
    lines: Seq<LedgerLineView>,
    envelope: LedgerEnvelopeView,
    at: int,
    tasks: Map<Seq<char>, TaskRecordView>,
    next: nat,
)
    requires
        0 <= at <= lines.len(),
        ledger_replayed(lines, at, tasks, next) is Ok,
        envelope.sequence as nat == ledger_replayed(lines, at, tasks, next)->Ok_0.1,
    ensures
        ledger_replayed(lines.push(LedgerLineView::Record(envelope)), at, tasks, next) == (
        match ledger_applied(
            ledger_replayed(lines, at, tasks, next)->Ok_0.0,
            envelope.event,
            envelope.at_unix_ms,
        ) {
            Ok(after) => Ok((after, ledger_replayed(lines, at, tasks, next)->Ok_0.1 + 1)),
            Err(error) => Err(error),
        }),
    decreases lines.len() - at,
{
    let longer = lines.push(LedgerLineView::Record(envelope));
    if at == lines.len() {
        assert(longer[at] == LedgerLineView::Record(envelope));
        assert(ledger_replayed(lines, at, tasks, next) == Ok::<
            (Map<Seq<char>, TaskRecordView>, nat),
            LedgerErrorView,
        >((tasks, next)));
        match ledger_applied(tasks, envelope.event, envelope.at_unix_ms) {
            Ok(after) => {
                assert(ledger_replayed(longer, at + 1, after, next + 1) == Ok::<
                    (Map<Seq<char>, TaskRecordView>, nat),
                    LedgerErrorView,
                >((after, next + 1)));
            },
            Err(_) => {},
        }
    } else {
        assert(longer[at] == lines[at]);
        match lines[at] {
            LedgerLineView::Blank => {
                law_replay_follows_the_ledger(lines, envelope, at + 1, tasks, next);
            },
            LedgerLineView::Broken { .. } => {},
            LedgerLineView::Record(earlier) => {
                match ledger_applied(tasks, earlier.event, earlier.at_unix_ms) {
                    Err(_) => {},
                    Ok(after) => {
                        law_replay_follows_the_ledger(
                            lines,
                            envelope,
                            at + 1,
                            after,
                            if earlier.sequence + 1 > next {
                                (earlier.sequence + 1) as nat
                            } else {
                                next
                            },
                        );
                    },
                }
            },
        }
    }
}

/// The index that is kept while tasks change is the one that a replay would make: a new
/// task under a new key is indexed, and other changes leave keys alone.
pub proof fn law_index_is_kept(ledger: LedgerView, event: LedgerEventView, at: u64)
    requires
        indexes(ledger.index, ledger.tasks),
        forall|id: Seq<char>| #[trigger] ledger.tasks.contains_key(id) ==> ledger.tasks[id].id == id,
        ledger_applied(ledger.tasks, event, at) is Ok,
        event matches LedgerEventView::Submitted { task } ==> !ledger.index.contains_key(
            task.idempotency_key,
        ) && !ledger.tasks.contains_key(task.id),
    ensures
        ({
            let after = ledger_changed(
                ledger,
                event,
                ledger_applied(ledger.tasks, event, at)->Ok_0,
            );
            indexes(after.index, after.tasks)
        }),
{
    let tasks = ledger_applied(ledger.tasks, event, at)->Ok_0;
    let after = ledger_changed(ledger, event, tasks);
    let about = event_task(event);
    assert forall|key: Seq<char>| #[trigger] after.index.contains_key(key) implies tasks.contains_key(
        after.index[key],
    ) && tasks[after.index[key]].idempotency_key == key by {
        if ledger.index.contains_key(key) {
            assert(ledger.tasks.contains_key(ledger.index[key]));
        }
    }
    assert forall|id: Seq<char>| #[trigger] tasks.contains_key(id) implies after.index.contains_key(
        tasks[id].idempotency_key,
    ) && !precedes(after.index[tasks[id].idempotency_key], id) by {
        lemma_precedes_irreflexive(id);
        if ledger.tasks.contains_key(id) {
            assert(ledger.index.contains_key(ledger.tasks[id].idempotency_key));
        }
    }
}

} // verus!

//! Acceptance of tasks, independent of model turn completion and authority.
//! 
//! The trusted host fixes criteria, starts an attempt before generation, and
//! supplies artifact snapshots and complete receipts after a turn. This layer
//! never executes tools or retries actions.

use vstd::prelude::*;
use vstd::string::*;

use crate::datum::{
    done_view, holds, lemma_views_push, opt_view, res_view, same_all, same_opt, snapshot_all,
    snapshot_opt, views, Datum,
};
use crate::context::{
    CompiledContext, CompiledContextView, ContextCompiler, ContextError, ContextInput, PromptLayer,
    PromptSegment, PromptSegmentView,
};
use crate::protocol::{ReceiptStatus, ToolReceipt, ToolReceiptView};
use crate::store::{journal_lines, journal_lines_of, JournalLine, WriteOutcome};
use crate::text::{
    blank, decimal, decimal_of, decimal_usize, is_blank, same_text,
};
use crate::wire::{
    array_text, member_text, object_text, quote, quoted, write_array, write_member, write_object,
};

verus! {

/// An inspectable, retained UTF-8 snapshot. Identifiers are logical names, not paths to
/// read automatically. Hosts must capture artifacts from their trusted workspace.
#[derive(Debug, PartialEq, Eq)]
pub struct ArtifactRef {
    pub id: String,
    pub content: String,
}

/// The model of [`ArtifactRef`].
#[verifier::ext_equal]
pub ghost struct ArtifactRefView {
    pub id: Seq<char>,
    pub content: Seq<char>,
}

impl View for ArtifactRef {
    type V = ArtifactRefView;

    open spec fn view(&self) -> ArtifactRefView {
        ArtifactRefView {
            id: self.id@,
            content: self.content@,
        }
    }
}

impl Datum for ArtifactRef {
    fn snapshot(&self) -> (copy: Self) {
        ArtifactRef {
            id: self.id.snapshot(),
            content: self.content.snapshot(),
        }
    }

    fn same(&self, other: &Self) -> (equal: bool) {
        self.id.same(&other.id) && self.content.same(&other.content)
    }
}

impl Clone for ArtifactRef {
    fn clone(&self) -> (copy: Self)
        ensures
            copy@ == self@,
    {
        self.snapshot()
    }
}

/// A deliberately narrow deterministic oracle: exact UTF-8 artifact contents.
/// Every criterion is required; missing artifacts fail closed.
#[derive(Debug, PartialEq, Eq)]
pub struct Criterion {
    pub id: String,
    pub artifact_id: String,
    pub expected: String,
}

/// The model of [`Criterion`].
#[verifier::ext_equal]
pub ghost struct CriterionView {
    pub id: Seq<char>,
    pub artifact_id: Seq<char>,
    pub expected: Seq<char>,
}

impl View for Criterion {
    type V = CriterionView;

    open spec fn view(&self) -> CriterionView {
        CriterionView {
            id: self.id@,
            artifact_id: self.artifact_id@,
            expected: self.expected@,
        }
    }
}

impl Datum for Criterion {
    fn snapshot(&self) -> (copy: Self) {
        Criterion {
            id: self.id.snapshot(),
            artifact_id: self.artifact_id.snapshot(),
            expected: self.expected.snapshot(),
        }
    }

    fn same(&self, other: &Self) -> (equal: bool) {
        self.id.same(&other.id) && self.artifact_id.same(&other.artifact_id)
            && self.expected.same(&other.expected)
    }
}

impl Clone for Criterion {
    fn clone(&self) -> (copy: Self)
        ensures
            copy@ == self@,
    {
        self.snapshot()
    }
}

/// How often a task may be attempted. Each attempt is verified, even the last one.
#[derive(Debug, PartialEq, Eq)]
pub struct Budget {
    pub max_attempts: u32,
}

/// The model of [`Budget`].
#[verifier::ext_equal]
pub ghost struct BudgetView {
    pub max_attempts: u32,
}

impl View for Budget {
    type V = BudgetView;

    open spec fn view(&self) -> BudgetView {
        BudgetView {
            max_attempts: self.max_attempts,
        }
    }
}

impl Datum for Budget {
    fn snapshot(&self) -> (copy: Self) {
        Budget {
            max_attempts: self.max_attempts,
        }
    }

    fn same(&self, other: &Self) -> (equal: bool) {
        self.max_attempts == other.max_attempts
    }
}

impl Clone for Budget {
    fn clone(&self) -> (copy: Self)
        ensures
            copy@ == self@,
    {
        self.snapshot()
    }
}

/// What a task asks for.
#[derive(Debug, PartialEq, Eq)]
pub struct TaskSpec {
    pub objective: String,
    pub criteria: Vec<Criterion>,
    pub budget: Budget,
}

/// The model of [`TaskSpec`].
#[verifier::ext_equal]
pub ghost struct TaskSpecView {
    pub objective: Seq<char>,
    pub criteria: Seq<CriterionView>,
    pub budget: BudgetView,
}

impl View for TaskSpec {
    type V = TaskSpecView;

    open spec fn view(&self) -> TaskSpecView {
        TaskSpecView {
            objective: self.objective@,
            criteria: views(self.criteria@),
            budget: self.budget@,
        }
    }
}

impl Datum for TaskSpec {
    fn snapshot(&self) -> (copy: Self) {
        TaskSpec {
            objective: self.objective.snapshot(),
            criteria: snapshot_all(&self.criteria),
            budget: self.budget.snapshot(),
        }
    }

    fn same(&self, other: &Self) -> (equal: bool) {
        self.objective.same(&other.objective) && same_all(&self.criteria, &other.criteria)
            && self.budget.same(&other.budget)
    }
}

impl Clone for TaskSpec {
    fn clone(&self) -> (copy: Self)
        ensures
            copy@ == self@,
    {
        self.snapshot()
    }
}

/// How a criterion fared.
#[derive(Debug, PartialEq, Eq)]
pub struct CheckEvidence {
    pub criterion_id: String,
    pub artifact_id: String,
    pub passed: bool,
    pub feedback: String,
}

/// The model of [`CheckEvidence`].
#[verifier::ext_equal]
pub ghost struct CheckEvidenceView {
    pub criterion_id: Seq<char>,
    pub artifact_id: Seq<char>,
    pub passed: bool,
    pub feedback: Seq<char>,
}

impl View for CheckEvidence {
    type V = CheckEvidenceView;

    open spec fn view(&self) -> CheckEvidenceView {
        CheckEvidenceView {
            criterion_id: self.criterion_id@,
            artifact_id: self.artifact_id@,
            passed: self.passed,
            feedback: self.feedback@,
        }
    }
}

impl Datum for CheckEvidence {
    fn snapshot(&self) -> (copy: Self) {
        CheckEvidence {
            criterion_id: self.criterion_id.snapshot(),
            artifact_id: self.artifact_id.snapshot(),
            passed: self.passed,
            feedback: self.feedback.snapshot(),
        }
    }

    fn same(&self, other: &Self) -> (equal: bool) {
        self.criterion_id.same(&other.criterion_id) && self.artifact_id.same(&other.artifact_id)
            && self.passed == other.passed && self.feedback.same(&other.feedback)
    }
}

impl Clone for CheckEvidence {
    fn clone(&self) -> (copy: Self)
        ensures
            copy@ == self@,
    {
        self.snapshot()
    }
}

/// Where a task stands.
#[derive(Clone, Copy, Debug, PartialEq, Eq, Structural)]
pub enum TaskStatus {
    Ready,
    Running,
    NeedsRepair,
    Succeeded,
    BudgetExhausted,
    Blocked,
}

/// What an attempt left behind, with the turn that made it.
#[derive(Debug, PartialEq, Eq)]
pub struct AttemptEvidence {
    pub attempt: u32,
    pub turn_id: String,
    pub artifacts: Vec<ArtifactRef>,
    pub checks: Vec<CheckEvidence>,
    pub receipts: Vec<ToolReceipt>,
}

/// The model of [`AttemptEvidence`].
#[verifier::ext_equal]
pub ghost struct AttemptEvidenceView {
    pub attempt: u32,
    pub turn_id: Seq<char>,
    pub artifacts: Seq<ArtifactRefView>,
    pub checks: Seq<CheckEvidenceView>,
    pub receipts: Seq<ToolReceiptView>,
}

impl View for AttemptEvidence {
    type V = AttemptEvidenceView;

    open spec fn view(&self) -> AttemptEvidenceView {
        AttemptEvidenceView {
            attempt: self.attempt,
            turn_id: self.turn_id@,
            artifacts: views(self.artifacts@),
            checks: views(self.checks@),
            receipts: views(self.receipts@),
        }
    }
}

impl Datum for AttemptEvidence {
    fn snapshot(&self) -> (copy: Self) {
        AttemptEvidence {
            attempt: self.attempt,
            turn_id: self.turn_id.snapshot(),
            artifacts: snapshot_all(&self.artifacts),
            checks: snapshot_all(&self.checks),
            receipts: snapshot_all(&self.receipts),
        }
    }

    fn same(&self, other: &Self) -> (equal: bool) {
        self.attempt == other.attempt && self.turn_id.same(&other.turn_id)
            && same_all(&self.artifacts, &other.artifacts) && same_all(&self.checks, &other.checks)
            && same_all(&self.receipts, &other.receipts)
    }
}

impl Clone for AttemptEvidence {
    fn clone(&self) -> (copy: Self)
        ensures
            copy@ == self@,
    {
        self.snapshot()
    }
}

/// The state of a task.
#[derive(Debug, PartialEq, Eq)]
pub struct TaskState {
    pub spec: TaskSpec,
    pub status: TaskStatus,
    pub attempts: u32,
    pub evidence: Vec<AttemptEvidence>,
    pub remaining_work: Vec<String>,
    pub active_turn: Option<String>,
}

/// The model of [`TaskState`].
#[verifier::ext_equal]
pub ghost struct TaskStateView {
    pub spec: TaskSpecView,
    pub status: TaskStatus,
    pub attempts: u32,
    pub evidence: Seq<AttemptEvidenceView>,
    pub remaining_work: Seq<Seq<char>>,
    pub active_turn: Option<Seq<char>>,
}

impl View for TaskState {
    type V = TaskStateView;

    open spec fn view(&self) -> TaskStateView {
        TaskStateView {
            spec: self.spec@,
            status: self.status,
            attempts: self.attempts,
            evidence: views(self.evidence@),
            remaining_work: views(self.remaining_work@),
            active_turn: opt_view(self.active_turn),
        }
    }
}

impl Datum for TaskState {
    fn snapshot(&self) -> (copy: Self) {
        TaskState {
            spec: self.spec.snapshot(),
            status: self.status,
            attempts: self.attempts,
            evidence: snapshot_all(&self.evidence),
            remaining_work: snapshot_all(&self.remaining_work),
            active_turn: snapshot_opt(&self.active_turn),
        }
    }

    fn same(&self, other: &Self) -> (equal: bool) {
        self.spec.same(&other.spec) && self.status == other.status
            && self.attempts == other.attempts && same_all(&self.evidence, &other.evidence)
            && same_all(&self.remaining_work, &other.remaining_work)
            && same_opt(&self.active_turn, &other.active_turn)
    }
}

impl Clone for TaskState {
    fn clone(&self) -> (copy: Self)
        ensures
            copy@ == self@,
    {
        self.snapshot()
    }
}

/// A change of a task.
#[derive(Debug, PartialEq, Eq)]
pub enum TaskEvent {
    Created { spec: TaskSpec },
    AttemptStarted { turn_id: String },
    AttemptChecked { artifacts: Vec<ArtifactRef>, receipts: Vec<ToolReceipt> },
    Blocked { reason: String },
}

/// The model of [`TaskEvent`].
#[verifier::ext_equal]
pub ghost enum TaskEventView {
    Created { spec: TaskSpecView },
    AttemptStarted { turn_id: Seq<char> },
    AttemptChecked { artifacts: Seq<ArtifactRefView>, receipts: Seq<ToolReceiptView> },
    Blocked { reason: Seq<char> },
}

impl View for TaskEvent {
    type V = TaskEventView;

    open spec fn view(&self) -> TaskEventView {
        match *self {
            TaskEvent::Created { spec } => TaskEventView::Created { spec: spec@ },
            TaskEvent::AttemptStarted { turn_id } => TaskEventView::AttemptStarted {
                turn_id: turn_id@,
            },
            TaskEvent::AttemptChecked { artifacts, receipts } => TaskEventView::AttemptChecked {
                artifacts: views(artifacts@),
                receipts: views(receipts@),
            },
            TaskEvent::Blocked { reason } => TaskEventView::Blocked { reason: reason@ },
        }
    }
}

impl Datum for TaskEvent {
    fn snapshot(&self) -> (copy: Self) {
        match self {
            TaskEvent::Created { spec } => TaskEvent::Created { spec: spec.snapshot() },
            TaskEvent::AttemptStarted { turn_id } => TaskEvent::AttemptStarted {
                turn_id: turn_id.snapshot(),
            },
            TaskEvent::AttemptChecked { artifacts, receipts } => TaskEvent::AttemptChecked {
                artifacts: snapshot_all(artifacts),
                receipts: snapshot_all(receipts),
            },
            TaskEvent::Blocked { reason } => TaskEvent::Blocked { reason: reason.snapshot() },
        }
    }

    fn same(&self, other: &Self) -> (equal: bool) {
        match (self, other) {
            (
                TaskEvent::Created { spec: spec_a },
                TaskEvent::Created { spec: spec_b },
            ) => spec_a.same(spec_b),
            (
                TaskEvent::AttemptStarted { turn_id: turn_id_a },
                TaskEvent::AttemptStarted { turn_id: turn_id_b },
            ) => turn_id_a.same(turn_id_b),
            (
                TaskEvent::AttemptChecked { artifacts: artifacts_a, receipts: receipts_a },
                TaskEvent::AttemptChecked { artifacts: artifacts_b, receipts: receipts_b },
            ) => same_all(artifacts_a, artifacts_b) && same_all(receipts_a, receipts_b),
            (
                TaskEvent::Blocked { reason: reason_a },
                TaskEvent::Blocked { reason: reason_b },
            ) => reason_a.same(reason_b),
            _ => false,
        }
    }
}

impl Clone for TaskEvent {
    fn clone(&self) -> (copy: Self)
        ensures
            copy@ == self@,
    {
        self.snapshot()
    }
}

/// A change as it is recorded.
#[derive(Debug, PartialEq, Eq)]
pub struct Record {
    pub version: u32,
    pub sequence: usize,
    pub payload: TaskEvent,
}

/// The model of [`Record`].
#[verifier::ext_equal]
pub ghost struct RecordView {
    pub version: u32,
    pub sequence: usize,
    pub payload: TaskEventView,
}

impl View for Record {
    type V = RecordView;

    open spec fn view(&self) -> RecordView {
        RecordView {
            version: self.version,
            sequence: self.sequence,
            payload: self.payload@,
        }
    }
}

impl Datum for Record {
    fn snapshot(&self) -> (copy: Self) {
        Record {
            version: self.version,
            sequence: self.sequence,
            payload: self.payload.snapshot(),
        }
    }

    fn same(&self, other: &Self) -> (equal: bool) {
        self.version == other.version && self.sequence == other.sequence
            && self.payload.same(&other.payload)
    }
}

impl Clone for Record {
    fn clone(&self) -> (copy: Self)
        ensures
            copy@ == self@,
    {
        self.snapshot()
    }
}

/// Why a task refused an operation.
#[derive(Debug, PartialEq, Eq)]
pub enum TaskError {
    Io(String),
    Json(String),
    Invalid(String),
}

/// The model of [`TaskError`].
#[verifier::ext_equal]
pub ghost enum TaskErrorView {
    Io(Seq<char>),
    Json(Seq<char>),
    Invalid(Seq<char>),
}

impl View for TaskError {
    type V = TaskErrorView;

    open spec fn view(&self) -> TaskErrorView {
        match *self {
            TaskError::Io(x0) => TaskErrorView::Io(x0@),
            TaskError::Json(x0) => TaskErrorView::Json(x0@),
            TaskError::Invalid(x0) => TaskErrorView::Invalid(x0@),
        }
    }
}

impl Datum for TaskError {
    fn snapshot(&self) -> (copy: Self) {
        match self {
            TaskError::Io(x0) => TaskError::Io(x0.snapshot()),
            TaskError::Json(x0) => TaskError::Json(x0.snapshot()),
            TaskError::Invalid(x0) => TaskError::Invalid(x0.snapshot()),
        }
    }

    fn same(&self, other: &Self) -> (equal: bool) {
        match (self, other) {
            (TaskError::Io(x0), TaskError::Io(y0)) => x0.same(y0),
            (TaskError::Json(x0), TaskError::Json(y0)) => x0.same(y0),
            (TaskError::Invalid(x0), TaskError::Invalid(y0)) => x0.same(y0),
            _ => false,
        }
    }
}

impl Clone for TaskError {
    fn clone(&self) -> (copy: Self)
        ensures
            copy@ == self@,
    {
        self.snapshot()
    }
}

/// The message of a failure.
pub open spec fn task_error_text(error: TaskErrorView) -> Seq<char> {
    match error {
        TaskErrorView::Io(detail) => "task journal I/O: "@ + detail,
        TaskErrorView::Json(detail) => "task journal JSON: "@ + detail,
        TaskErrorView::Invalid(detail) => "invalid task transition or journal: "@ + detail,
    }
}

impl TaskError {
    pub fn to_text(&self) -> (text: String)
        ensures
            text@ == task_error_text(self@),
    {
        match self {
            TaskError::Io(detail) => "task journal I/O: ".to_owned().concat(detail.as_str()),
            TaskError::Json(detail) => "task journal JSON: ".to_owned().concat(detail.as_str()),
            TaskError::Invalid(detail) => {
                "invalid task transition or journal: ".to_owned().concat(detail.as_str())
            },
        }
    }
}

fn invalid(message: &str) -> (error: TaskError)
    ensures
        error@ == TaskErrorView::Invalid(message@),
{
    TaskError::Invalid(message.to_owned())
}

// ---------------------------------------------------------------------------
// Checking artifacts
// ---------------------------------------------------------------------------

/// What the `Debug` format of a text is: the text in quotes, with escapes.
pub uninterp spec fn debug_text(text: Seq<char>) -> Seq<char>;

/// `<str as Debug>::fmt` through `format!`: a function of the text alone.
#[verifier::external_body]
fn debug_format(text: &str) -> (formatted: String)
    ensures
        formatted@ == debug_text(text@),
{
    format!("{:?}", text)
}

/// The snapshots of an artifact.
pub open spec fn snapshots_of(artifacts: Seq<ArtifactRefView>, id: Seq<char>) -> Seq<
    ArtifactRefView,
> {
    artifacts.filter(|artifact: ArtifactRefView| artifact.id == id)
}

/// Whether a criterion holds: there is exactly one snapshot of its artifact, with exactly
/// the expected content.
pub open spec fn criterion_holds(
    criterion: CriterionView,
    artifacts: Seq<ArtifactRefView>,
) -> bool {
    let found = snapshots_of(artifacts, criterion.artifact_id);
    found.len() == 1 && found[0].content == criterion.expected
}

/// The evidence of a criterion.
pub open spec fn evidence_of(
    criterion: CriterionView,
    artifacts: Seq<ArtifactRefView>,
) -> CheckEvidenceView {
    CheckEvidenceView {
        criterion_id: criterion.id,
        artifact_id: criterion.artifact_id,
        passed: criterion_holds(criterion, artifacts),
        feedback: if criterion_holds(criterion, artifacts) {
            "exact content verified"@
        } else {
            "Repair artifact "@ + debug_text(criterion.artifact_id) + " to satisfy criterion "@
                + debug_text(criterion.id) + ": expected exact content "@ + debug_text(
                criterion.expected,
            ) + "; found "@ + decimal_of(snapshots_of(artifacts, criterion.artifact_id).len())
                + " snapshot(s)"@
        },
    }
}

/// The evidence of every criterion.
pub open spec fn checks_of(spec_: TaskSpecView, artifacts: Seq<ArtifactRefView>) -> Seq<
    CheckEvidenceView,
> {
    spec_.criteria.map_values(|criterion: CriterionView| evidence_of(criterion, artifacts))
}

/// Stateless checker; model prose cannot bypass it.
#[derive(Debug, Clone, Copy, Default)]
pub struct CompletionGate;

impl CompletionGate {
    /// Checks the artifacts against every criterion of a task.
    pub fn check(spec_: &TaskSpec, artifacts: &Vec<ArtifactRef>) -> (checks: Vec<CheckEvidence>)
        ensures
            views(checks@) == checks_of(spec_@, views(artifacts@)),
    {
        let ghost wanted = checks_of(spec_@, views(artifacts@));
        let mut checks: Vec<CheckEvidence> = Vec::new();
        let mut index: usize = 0;
        assert(views(checks@) =~= wanted.take(0));
        while index < spec_.criteria.len()
            invariant
                index <= spec_.criteria@.len(),
                wanted == checks_of(spec_@, views(artifacts@)),
                wanted.len() == spec_.criteria@.len(),
                views(checks@) == wanted.take(index as int),
            decreases spec_.criteria@.len() - index,
        {
            let check = check_criterion(&spec_.criteria[index], artifacts);
            proof {
                assert(wanted[index as int] == evidence_of(
                    spec_@.criteria[index as int],
                    views(artifacts@),
                ));
                assert(wanted.take(index as int + 1) =~= wanted.take(index as int).push(check@));
                lemma_views_push(checks@, check);
            }
            checks.push(check);
            index = index + 1;
        }
        assert(wanted.take(index as int) =~= wanted);
        checks
    }
}

fn check_criterion(criterion: &Criterion, artifacts: &Vec<ArtifactRef>) -> (check: CheckEvidence)
    ensures
        check@ == evidence_of(criterion@, views(artifacts@)),
{
    let ghost all = views(artifacts@);
    let ghost id = criterion@.artifact_id;
    let mut count: usize = 0;
    let mut first: Option<usize> = None;
    let mut index: usize = 0;
    proof {
        reveal(Seq::filter);
        assert(snapshots_of(all.take(0), id) =~= Seq::empty());
    }
    while index < artifacts.len()
        invariant
            index <= artifacts@.len(),
            all == views(artifacts@),
            id == criterion@.artifact_id,
            count <= index,
            count == snapshots_of(all.take(index as int), id).len(),
            match first {
                Some(at) => at < index && count > 0 && snapshots_of(all.take(index as int), id)[0]
                    == artifacts@[at as int]@,
                None => count == 0,
            },
        decreases artifacts@.len() - index,
    {
        proof {
            reveal(Seq::filter);
            let grown = all.take(index as int + 1);
            assert(grown.drop_last() =~= all.take(index as int));
            assert(grown.last() == artifacts@[index as int]@);
        }
        if same_text(artifacts[index].id.as_str(), criterion.artifact_id.as_str()) {
            if first.is_none() {
                first = Some(index);
            }
            count = count + 1;
        }
        index = index + 1;
    }
    assert(all.take(index as int) =~= all);
    let mut passed: bool = false;
    match first {
        Some(at) => {
            passed = count == 1 && same_text(
                artifacts[at].content.as_str(),
                criterion.expected.as_str(),
            );
        },
        None => {},
    }
    let feedback = if passed {
        "exact content verified".to_owned()
    } else {
        "Repair artifact ".to_owned().concat(
            debug_format(criterion.artifact_id.as_str()).as_str(),
        ).concat(" to satisfy criterion ").concat(
            debug_format(criterion.id.as_str()).as_str(),
        ).concat(": expected exact content ").concat(
            debug_format(criterion.expected.as_str()).as_str(),
        ).concat("; found ").concat(decimal_usize(count).as_str()).concat(" snapshot(s)")
    };
    CheckEvidence {
        criterion_id: criterion.id.clone(),
        artifact_id: criterion.artifact_id.clone(),
        passed,
        feedback,
    }
}

// ---------------------------------------------------------------------------
// The states of a task
// ---------------------------------------------------------------------------

/// The identifiers of criteria.
pub open spec fn criterion_ids(criteria: Seq<CriterionView>) -> Seq<Seq<char>> {
    criteria.map_values(|criterion: CriterionView| criterion.id)
}

/// Whether a task can be worked on and checked.
pub open spec fn spec_complaint(spec_: TaskSpecView) -> Option<Seq<char>> {
    if blank(spec_.objective) || spec_.criteria.len() == 0 || spec_.budget.max_attempts == 0 {
        Some("objective, required criteria and positive attempt budget are mandatory"@)
    } else if exists|i: int|
        0 <= i < spec_.criteria.len() && (blank((#[trigger] spec_.criteria[i]).id) || blank(
            spec_.criteria[i].artifact_id,
        )) || !criterion_ids(spec_.criteria).no_duplicates() {
        Some("criterion IDs must be nonempty and unique; artifact IDs must be nonempty"@)
    } else {
        None
    }
}

/// The state in which a task begins.
pub open spec fn initial_of(spec_: TaskSpecView) -> Result<TaskStateView, TaskErrorView> {
    match spec_complaint(spec_) {
        Some(message) => Err(TaskErrorView::Invalid(message)),
        None => Ok(
            TaskStateView {
                spec: spec_,
                status: TaskStatus::Ready,
                attempts: 0,
                evidence: Seq::empty(),
                remaining_work: criterion_ids(spec_.criteria),
                active_turn: None,
            },
        ),
    }
}

fn list_criteria(criteria: &Vec<Criterion>) -> (ids: Vec<String>)
    ensures
        views(ids@) == criterion_ids(views(criteria@)),
{
    let ghost wanted = criterion_ids(views(criteria@));
    let mut ids: Vec<String> = Vec::new();
    let mut index: usize = 0;
    assert(views(ids@) =~= wanted.take(0));
    while index < criteria.len()
        invariant
            index <= criteria@.len(),
            wanted == criterion_ids(views(criteria@)),
            wanted.len() == criteria@.len(),
            views(ids@) == wanted.take(index as int),
        decreases criteria@.len() - index,
    {
        let id = criteria[index].id.clone();
        proof {
            assert(wanted.take(index as int + 1) =~= wanted.take(index as int).push(id@));
            lemma_views_push(ids@, id);
        }
        ids.push(id);
        index = index + 1;
    }
    assert(wanted.take(index as int) =~= wanted);
    ids
}

fn check_criteria(criteria: &Vec<Criterion>) -> (sound: bool)
    ensures
        sound == !(exists|i: int|
            0 <= i < criteria@.len() && (blank((#[trigger] views(criteria@)[i]).id) || blank(
                views(criteria@)[i].artifact_id,
            )) || !criterion_ids(views(criteria@)).no_duplicates()),
{
    let ghost all = views(criteria@);
    let ghost names = criterion_ids(all);
    let mut ids: Vec<String> = Vec::new();
    let mut index: usize = 0;
    assert(views(ids@) =~= names.take(0));
    while index < criteria.len()
        invariant
            index <= criteria@.len(),
            all == views(criteria@),
            names == criterion_ids(all),
            names.len() == criteria@.len(),
            views(ids@) == names.take(index as int),
            names.take(index as int).no_duplicates(),
            forall|i: int|
                0 <= i < index ==> !blank((#[trigger] all[i]).id) && !blank(all[i].artifact_id),
        decreases criteria@.len() - index,
    {
        assert(all[index as int] == criteria@[index as int]@);
        assert(names[index as int] == all[index as int].id);
        if is_blank(criteria[index].id.as_str()) || is_blank(
            criteria[index].artifact_id.as_str(),
        ) {
            return false;
        }
        let id = criteria[index].id.clone();
        if holds(&ids, &id) {
            proof {
                let past = names.take(index as int);
                let i = choose|i: int| 0 <= i < past.len() && past[i] == id@;
                assert(names[i] == names[index as int]);
            }
            return false;
        }
        proof {
            let past = names.take(index as int);
            let grown = names.take(index as int + 1);
            assert(grown =~= past.push(id@));
            lemma_views_push(ids@, id);
            assert forall|i: int, j: int|
                0 <= i < grown.len() && 0 <= j < grown.len() && i != j implies grown[i]
                != grown[j] by {
                if i < past.len() && j < past.len() {
                    assert(past[i] != past[j]);
                } else if i < past.len() {
                    assert(past.contains(past[i]));
                } else {
                    assert(past.contains(past[j]));
                }
            }
        }
        ids.push(id);
        index = index + 1;
    }
    assert(names.take(index as int) =~= names);
    true
}

/// The state in which a task begins, or why it cannot begin.
pub fn initial_state(spec_: TaskSpec) -> (state: Result<TaskState, TaskError>)
    ensures
        res_view(state) == initial_of(spec_@),
{
    if is_blank(spec_.objective.as_str()) || spec_.criteria.len() == 0
        || spec_.budget.max_attempts == 0 {
        return Err(
            invalid("objective, required criteria and positive attempt budget are mandatory"),
        );
    }
    if !check_criteria(&spec_.criteria) {
        return Err(
            invalid("criterion IDs must be nonempty and unique; artifact IDs must be nonempty"),
        );
    }
    let remaining_work = list_criteria(&spec_.criteria);
    let state = TaskState {
        spec: spec_,
        status: TaskStatus::Ready,
        attempts: 0,
        evidence: Vec::new(),
        remaining_work,
        active_turn: None,
    };
    assert(state@.evidence =~= Seq::empty());
    Ok(state)
}

/// The feedback of the checks that did not pass.
pub open spec fn open_work(checks: Seq<CheckEvidenceView>) -> Seq<Seq<char>>
    decreases checks.len(),
{
    if checks.len() == 0 {
        Seq::empty()
    } else if checks.last().passed {
        open_work(checks.drop_last())
    } else {
        open_work(checks.drop_last()).push(checks.last().feedback)
    }
}

/// Whether every check passed.
pub open spec fn all_passed(checks: Seq<CheckEvidenceView>) -> bool {
    forall|i: int| 0 <= i < checks.len() ==> (#[trigger] checks[i]).passed
}

/// Whether the outcome of a tool call is unknown.
pub open spec fn any_unknown(receipts: Seq<ToolReceiptView>) -> bool {
    exists|i: int| 0 <= i < receipts.len() && (#[trigger] receipts[i]).status
        == ReceiptStatus::Unknown
}

/// Whether a turn was already attempted.
pub open spec fn turn_used(evidence: Seq<AttemptEvidenceView>, turn_id: Seq<char>) -> bool {
    exists|i: int| 0 <= i < evidence.len() && (#[trigger] evidence[i]).turn_id == turn_id
}

/// Whether a task can still change.
pub open spec fn unfinished(status: TaskStatus) -> bool {
    status == TaskStatus::Ready || status == TaskStatus::Running || status
        == TaskStatus::NeedsRepair
}

/// The status after a checked attempt. Unknown outcomes block the task even if every check
/// passed.
pub open spec fn checked_status(
    state: TaskStateView,
    checks: Seq<CheckEvidenceView>,
    receipts: Seq<ToolReceiptView>,
) -> TaskStatus {
    if any_unknown(receipts) {
        TaskStatus::Blocked
    } else if all_passed(checks) {
        TaskStatus::Succeeded
    } else if state.attempts == state.spec.budget.max_attempts {
        TaskStatus::BudgetExhausted
    } else {
        TaskStatus::NeedsRepair
    }
}

/// The state after a change, or why the change is refused.
pub open spec fn applied(state: TaskStateView, event: TaskEventView) -> Result<
    TaskStateView,
    TaskErrorView,
> {
    match event {
        TaskEventView::Created { .. } => Err(
            TaskErrorView::Invalid("task specification is immutable"@),
        ),
        TaskEventView::AttemptStarted { turn_id } => if (state.status == TaskStatus::Ready
            || state.status == TaskStatus::NeedsRepair) && state.attempts
            < state.spec.budget.max_attempts && !blank(turn_id) && !turn_used(
            state.evidence,
            turn_id,
        ) {
            Ok(
                TaskStateView {
                    attempts: (state.attempts + 1) as u32,
                    active_turn: Some(turn_id),
                    status: TaskStatus::Running,
                    ..state
                },
            )
        } else {
            Err(
                TaskErrorView::Invalid(
                    "attempt requires a ready task, fresh turn ID and remaining budget"@,
                ),
            )
        },
        TaskEventView::AttemptChecked { artifacts, receipts } => if state.status
            != TaskStatus::Running {
            Err(TaskErrorView::Invalid("verification requires a running attempt"@))
        } else {
            match state.active_turn {
                None => Err(TaskErrorView::Invalid("missing active turn"@)),
                Some(turn_id) => {
                    let checks = checks_of(state.spec, artifacts);
                    Ok(
                        TaskStateView {
                            remaining_work: if any_unknown(receipts) {
                                open_work(checks).push(
                                    "Reconcile unknown tool outcomes with the host; do not replay actions"@,
                                )
                            } else {
                                open_work(checks)
                            },
                            status: checked_status(state, checks, receipts),
                            evidence: state.evidence.push(
                                AttemptEvidenceView {
                                    attempt: state.attempts,
                                    turn_id,
                                    artifacts,
                                    checks,
                                    receipts,
                                },
                            ),
                            active_turn: None,
                            ..state
                        },
                    )
                },
            }
        },
        TaskEventView::Blocked { reason } => if unfinished(state.status) && !blank(reason) {
            Ok(
                TaskStateView {
                    status: TaskStatus::Blocked,
                    remaining_work: state.remaining_work.push(reason),
                    ..state
                },
            )
        } else {
            Err(
                TaskErrorView::Invalid("blocking requires a nonterminal task and a reason"@),
            )
        },
    }
}

fn list_open_work(checks: &Vec<CheckEvidence>) -> (work: Vec<String>)
    ensures
        views(work@) == open_work(views(checks@)),
{
    let ghost all = views(checks@);
    let mut work: Vec<String> = Vec::new();
    let mut index: usize = 0;
    assert(all.take(0) =~= Seq::empty());
    assert(views(work@) =~= open_work(all.take(0)));
    while index < checks.len()
        invariant
            index <= checks@.len(),
            all == views(checks@),
            views(work@) == open_work(all.take(index as int)),
        decreases checks@.len() - index,
    {
        proof {
            let grown = all.take(index as int + 1);
            assert(grown.drop_last() =~= all.take(index as int));
            assert(grown.last() == checks@[index as int]@);
        }
        if !checks[index].passed {
            let feedback = checks[index].feedback.clone();
            proof {
                lemma_views_push(work@, feedback);
            }
            work.push(feedback);
        }
        index = index + 1;
    }
    assert(all.take(index as int) =~= all);
    work
}

pub(crate) fn every_check_passed(checks: &Vec<CheckEvidence>) -> (yes: bool)
    ensures
        yes == all_passed(views(checks@)),
{
    let mut index: usize = 0;
    while index < checks.len()
        invariant
            index <= checks@.len(),
            forall|i: int| 0 <= i < index ==> (#[trigger] views(checks@)[i]).passed,
        decreases checks@.len() - index,
    {
        assert(views(checks@)[index as int] == checks@[index as int]@);
        if !checks[index].passed {
            return false;
        }
        index = index + 1;
    }
    true
}

pub(crate) fn has_unknown(receipts: &Vec<ToolReceipt>) -> (yes: bool)
    ensures
        yes == any_unknown(views(receipts@)),
{
    let mut index: usize = 0;
    while index < receipts.len()
        invariant
            index <= receipts@.len(),
            forall|i: int|
                0 <= i < index ==> (#[trigger] views(receipts@)[i]).status
                    != ReceiptStatus::Unknown,
        decreases receipts@.len() - index,
    {
        assert(views(receipts@)[index as int] == receipts@[index as int]@);
        match receipts[index].status {
            ReceiptStatus::Unknown => {
                return true;
            },
            _ => {},
        }
        index = index + 1;
    }
    false
}

fn uses_turn(evidence: &Vec<AttemptEvidence>, turn_id: &str) -> (yes: bool)
    ensures
        yes == turn_used(views(evidence@), turn_id@),
{
    let mut index: usize = 0;
    while index < evidence.len()
        invariant
            index <= evidence@.len(),
            forall|i: int|
                0 <= i < index ==> (#[trigger] views(evidence@)[i]).turn_id != turn_id@,
        decreases evidence@.len() - index,
    {
        assert(views(evidence@)[index as int] == evidence@[index as int]@);
        if same_text(evidence[index].turn_id.as_str(), turn_id) {
            return true;
        }
        index = index + 1;
    }
    false
}

fn start(state: &TaskState, turn_id: &String) -> (next: Result<TaskState, TaskError>)
    ensures
        res_view(next) == applied(state@, TaskEventView::AttemptStarted { turn_id: turn_id@ }),
{
    let waiting = match state.status {
        TaskStatus::Ready | TaskStatus::NeedsRepair => true,
        _ => false,
    };
    if !waiting || state.attempts >= state.spec.budget.max_attempts || is_blank(
        turn_id.as_str(),
    ) || uses_turn(&state.evidence, turn_id.as_str()) {
        return Err(invalid("attempt requires a ready task, fresh turn ID and remaining budget"));
    }
    let copy = state.clone();
    Ok(
        TaskState {
            attempts: state.attempts + 1,
            active_turn: Some(turn_id.clone()),
            status: TaskStatus::Running,
            ..copy
        },
    )
}

fn judge(
    state: &TaskState,
    artifacts: &Vec<ArtifactRef>,
    receipts: &Vec<ToolReceipt>,
) -> (next: Result<TaskState, TaskError>)
    ensures
        res_view(next) == applied(
            state@,
            TaskEventView::AttemptChecked {
                artifacts: views(artifacts@),
                receipts: views(receipts@),
            },
        ),
{
    match state.status {
        TaskStatus::Running => {},
        _ => {
            return Err(invalid("verification requires a running attempt"));
        },
    }
    let turn_id = match &state.active_turn {
        Some(turn_id) => turn_id.clone(),
        None => {
            return Err(invalid("missing active turn"));
        },
    };
    let checks = CompletionGate::check(&state.spec, artifacts);
    let mut remaining_work = list_open_work(&checks);
    let status = if has_unknown(receipts) {
        let note =
            "Reconcile unknown tool outcomes with the host; do not replay actions".to_owned();
        proof {
            lemma_views_push(remaining_work@, note);
        }
        remaining_work.push(note);
        TaskStatus::Blocked
    } else if every_check_passed(&checks) {
        TaskStatus::Succeeded
    } else if state.attempts == state.spec.budget.max_attempts {
        TaskStatus::BudgetExhausted
    } else {
        TaskStatus::NeedsRepair
    };
    let mut evidence = snapshot_all(&state.evidence);
    let entry = AttemptEvidence {
        attempt: state.attempts,
        turn_id,
        artifacts: snapshot_all(artifacts),
        checks,
        receipts: snapshot_all(receipts),
    };
    proof {
        lemma_views_push(evidence@, entry);
    }
    evidence.push(entry);
    Ok(
        TaskState {
            spec: state.spec.clone(),
            status,
            attempts: state.attempts,
            evidence,
            remaining_work,
            active_turn: None,
        },
    )
}

fn stop(state: &TaskState, reason: &String) -> (next: Result<TaskState, TaskError>)
    ensures
        res_view(next) == applied(state@, TaskEventView::Blocked { reason: reason@ }),
{
    let running = match state.status {
        TaskStatus::Ready | TaskStatus::Running | TaskStatus::NeedsRepair => true,
        _ => false,
    };
    if !running || is_blank(reason.as_str()) {
        return Err(invalid("blocking requires a nonterminal task and a reason"));
    }
    let mut remaining_work = snapshot_all(&state.remaining_work);
    let note = reason.clone();
    proof {
        lemma_views_push(remaining_work@, note);
    }
    remaining_work.push(note);
    let copy = state.clone();
    Ok(TaskState { status: TaskStatus::Blocked, remaining_work, ..copy })
}

/// The state after a change, or why the change is refused.
pub fn apply(state: &TaskState, event: &TaskEvent) -> (next: Result<TaskState, TaskError>)
    ensures
        res_view(next) == applied(state@, event@),
{
    match event {
        TaskEvent::Created { .. } => Err(invalid("task specification is immutable")),
        TaskEvent::AttemptStarted { turn_id } => start(state, turn_id),
        TaskEvent::AttemptChecked { artifacts, receipts } => judge(state, artifacts, receipts),
        TaskEvent::Blocked { reason } => stop(state, reason),
    }
}

// ---------------------------------------------------------------------------
// The journal of a task
// ---------------------------------------------------------------------------

/// The state of a task's journal.
#[verifier::ext_equal]
pub ghost struct TaskJournalView {
    pub state: TaskStateView,
    pub sequence: nat,
    pub write_failed: bool,
}

/// What a line of a task's journal holds.
#[derive(Debug, PartialEq, Eq)]
pub enum TaskLine {
    Record(Record),
    Broken { message: String },
}

/// The model of [`TaskLine`].
#[verifier::ext_equal]
pub ghost enum TaskLineView {
    Record(RecordView),
    Broken { message: Seq<char> },
}

impl View for TaskLine {
    type V = TaskLineView;

    open spec fn view(&self) -> TaskLineView {
        match *self {
            TaskLine::Record(x0) => TaskLineView::Record(x0@),
            TaskLine::Broken { message } => TaskLineView::Broken { message: message@ },
        }
    }
}

impl Datum for TaskLine {
    fn snapshot(&self) -> (copy: Self) {
        match self {
            TaskLine::Record(x0) => TaskLine::Record(x0.snapshot()),
            TaskLine::Broken { message } => TaskLine::Broken { message: message.snapshot() },
        }
    }

    fn same(&self, other: &Self) -> (equal: bool) {
        match (self, other) {
            (TaskLine::Record(x0), TaskLine::Record(y0)) => x0.same(y0),
            (
                TaskLine::Broken { message: message_a },
                TaskLine::Broken { message: message_b },
            ) => message_a.same(message_b),
            _ => false,
        }
    }
}

impl Clone for TaskLine {
    fn clone(&self) -> (copy: Self)
        ensures
            copy@ == self@,
    {
        self.snapshot()
    }
}

/// The version of the records.
pub open spec fn record_version() -> u32 {
    1
}

/// The state of a task after the lines of its journal from `at` on. The first record
/// creates the task.
pub open spec fn task_replayed(
    lines: Seq<TaskLineView>,
    at: int,
    state: Option<TaskStateView>,
) -> Result<Option<TaskStateView>, TaskErrorView>
    decreases lines.len() - at,
{
    if at < 0 || at >= lines.len() {
        Ok(state)
    } else {
        match lines[at] {
            TaskLineView::Broken { message } => Err(TaskErrorView::Json(message)),
            TaskLineView::Record(record) => if record.version != record_version()
                || record.sequence != at {
                Err(TaskErrorView::Invalid("unsupported version or out-of-order sequence"@))
            } else {
                match (state, record.payload) {
                    (None, TaskEventView::Created { spec }) => match initial_of(spec) {
                        Ok(first) => task_replayed(lines, at + 1, Some(first)),
                        Err(error) => Err(error),
                    },
                    (None, _) => Err(
                        TaskErrorView::Invalid("journal must begin with task creation"@),
                    ),
                    (Some(current), event) => match applied(current, event) {
                        Ok(next) => task_replayed(lines, at + 1, Some(next)),
                        Err(error) => Err(error),
                    },
                }
            },
        }
    }
}

/// The state of a task after its whole journal.
pub open spec fn task_restored(lines: Seq<TaskLineView>) -> Result<TaskStateView, TaskErrorView> {
    match task_replayed(lines, 0, None) {
        Ok(Some(state)) => Ok(state),
        Ok(None) => Err(TaskErrorView::Invalid("missing task creation"@)),
        Err(error) => Err(error),
    }
}

/// A journal after a record, and the answer. A failed write poisons the journal, because
/// part of the record may be in the file.
pub open spec fn task_appended(
    journal: TaskJournalView,
    next: TaskStateView,
    outcome: WriteOutcome,
) -> (TaskJournalView, Result<(), TaskErrorView>) {
    match outcome {
        WriteOutcome::NotEncoded(message) => (journal, Err(TaskErrorView::Json(message@))),
        WriteOutcome::Failed(message) => (
            TaskJournalView { write_failed: true, ..journal },
            Err(TaskErrorView::Io(message@)),
        ),
        WriteOutcome::Durable => (
            TaskJournalView { state: next, sequence: journal.sequence + 1, write_failed: false },
            Ok(()),
        ),
    }
}

/// Whether a writer may have answered so to a record.
pub open spec fn recorded<W: Fn(Record) -> WriteOutcome>(
    write: W,
    record: RecordView,
    outcome: WriteOutcome,
) -> bool {
    exists|line: Record| line@ == record && #[trigger] call_ensures(write, (line,), outcome)
}

/// The record of a change under a number.
pub open spec fn record_of(sequence: nat, event: TaskEventView) -> RecordView {
    RecordView { version: record_version(), sequence: sequence as usize, payload: event }
}

/// Whether a change of a task went this way: it is refused, or the journal is poisoned, or
/// its record was written and the writer answered.
pub open spec fn transitions<W: Fn(Record) -> WriteOutcome>(
    write: W,
    before: TaskJournalView,
    event: TaskEventView,
    after: TaskJournalView,
    done: Result<(), TaskErrorView>,
) -> bool {
    match applied(before.state, event) {
        Err(error) => after == before && done == Err::<(), TaskErrorView>(error),
        Ok(next) => if before.write_failed {
            after == before && done == Err::<(), TaskErrorView>(
                TaskErrorView::Invalid("previous write failed; reopen journal"@),
            )
        } else {
            exists|outcome: WriteOutcome| #[trigger]
                recorded(write, record_of(before.sequence, event), outcome) && (after, done)
                    == task_appended(before, next, outcome)
        },
    }
}

/// A new journal, given how its first record fared.
pub open spec fn created(state: TaskStateView, outcome: WriteOutcome) -> Result<
    TaskJournalView,
    TaskErrorView,
> {
    match outcome {
        WriteOutcome::Durable => Ok(
            TaskJournalView { state, sequence: 1, write_failed: false },
        ),
        WriteOutcome::NotEncoded(message) => Err(TaskErrorView::Json(message@)),
        WriteOutcome::Failed(message) => Err(TaskErrorView::Io(message@)),
    }
}

/// Whether the journal of a new task came about this way: the task cannot begin, or its
/// first record was written and the writer answered.
pub open spec fn creates<W: Fn(Record) -> WriteOutcome>(
    write: W,
    spec_: TaskSpecView,
    journal: Result<TaskJournalView, TaskErrorView>,
) -> bool {
    match initial_of(spec_) {
        Err(error) => journal == Err::<TaskJournalView, TaskErrorView>(error),
        Ok(state) => exists|outcome: WriteOutcome| #[trigger]
            recorded(write, record_of(0, TaskEventView::Created { spec: spec_ }), outcome)
                && journal == created(state, outcome),
    }
}

/// Splits the file of a journal into its lines. A file without a last line feed is
/// refused.
pub fn journal_parts(bytes: &Vec<u8>) -> (parts: Result<Vec<JournalLine>, TaskError>)
    ensures
        match parts {
            Ok(lines) => bytes@.len() > 0 && bytes@.last() == 0xa && lines@ == journal_lines_of(
                bytes@,
                0,
            ),
            Err(error) => !(bytes@.len() > 0 && bytes@.last() == 0xa) && error@
                == TaskErrorView::Invalid(
                "empty or unterminated journal; inspect before recovery"@,
            ),
        },
{
    if bytes.len() == 0 || bytes[bytes.len() - 1] != 0xa {
        return Err(invalid("empty or unterminated journal; inspect before recovery"));
    }
    Ok(journal_lines(bytes))
}

/// One task with an append-only journal. Successful changes are durable before
/// publication. A failed write poisons writes; reopen and inspect before recovery.
/// Incomplete tails are rejected, never silently repaired or executed again.
#[derive(Debug)]
pub struct TaskJournal {
    state: TaskState,
    sequence: usize,
    write_failed: bool,
}

impl View for TaskJournal {
    type V = TaskJournalView;

    closed spec fn view(&self) -> TaskJournalView {
        TaskJournalView {
            state: self.state@,
            sequence: self.sequence as nat,
            write_failed: self.write_failed,
        }
    }
}

impl TaskJournal {
    /// The number of the next record.
    pub fn sequence(&self) -> (next: usize)
        ensures
            next == self@.sequence,
    {
        self.sequence
    }

    /// Creates the journal of a new task. Nothing is written for a task that cannot begin.
    pub fn create<W: Fn(Record) -> WriteOutcome>(spec_: TaskSpec, write: &W) -> (journal: Result<
        Self,
        TaskError,
    >)
        requires
            forall|record: Record| call_requires(*write, (record,)),
        ensures
            creates(*write, spec_@, res_view(journal)),
    {
        let state = match initial_state(spec_.clone()) {
            Ok(state) => state,
            Err(error) => {
                return Err(error);
            },
        };
        let record = Record {
            version: 1,
            sequence: 0,
            payload: TaskEvent::Created { spec: spec_.clone() },
        };
        let ghost view = record@;
        let outcome = write(record);
        assert(recorded(*write, view, outcome));
        assert(view == record_of(0, TaskEventView::Created { spec: spec_@ }));
        let journal = match outcome {
            WriteOutcome::NotEncoded(message) => Err(TaskError::Json(message)),
            WriteOutcome::Failed(message) => Err(TaskError::Io(message)),
            WriteOutcome::Durable => Ok(TaskJournal { state, sequence: 1, write_failed: false }),
        };
        assert(res_view(journal) == created(state@, outcome));
        journal
    }

    /// Opens a journal over its lines.
    pub fn open(lines: &Vec<TaskLine>) -> (journal: Result<Self, TaskError>)
        ensures
            match journal {
                Ok(found) => task_restored(views(lines@)) == Ok::<TaskStateView, TaskErrorView>(
                    found@.state,
                ) && found@.sequence == lines@.len() && !found@.write_failed,
                Err(error) => task_restored(views(lines@)) == Err::<TaskStateView, TaskErrorView>(
                    error@,
                ),
            },
    {
        let ghost all = views(lines@);
        let mut state: Option<TaskState> = None;
        let mut sequence: usize = 0;
        assert(all.len() == lines@.len());
        while sequence < lines.len()
            invariant
                sequence <= lines@.len(),
                all == views(lines@),
                all.len() == lines@.len(),
                task_replayed(all, 0, None) == task_replayed(
                    all,
                    sequence as int,
                    opt_view(state),
                ),
            decreases lines@.len() - sequence,
        {
            assert(all[sequence as int] == lines@[sequence as int]@);
            let record = match &lines[sequence] {
                TaskLine::Record(record) => record,
                TaskLine::Broken { message } => {
                    return Err(TaskError::Json(message.clone()));
                },
            };
            if record.version != 1 || record.sequence != sequence {
                return Err(invalid("unsupported version or out-of-order sequence"));
            }
            let next = match &state {
                None => match &record.payload {
                    TaskEvent::Created { spec } => initial_state(spec.clone()),
                    _ => Err(invalid("journal must begin with task creation")),
                },
                Some(current) => apply(current, &record.payload),
            };
            match next {
                Ok(next) => {
                    state = Some(next);
                },
                Err(error) => {
                    return Err(error);
                },
            }
            sequence = sequence + 1;
        }
        match state {
            Some(state) => Ok(TaskJournal { state, sequence, write_failed: false }),
            None => Err(invalid("missing task creation")),
        }
    }

    pub fn state(&self) -> (state: &TaskState)
        ensures
            state@ == self@.state,
    {
        &self.state
    }

    /// Whether a write failed since the journal was opened.
    pub fn poisoned(&self) -> (yes: bool)
        ensures
            yes == self@.write_failed,
    {
        self.write_failed
    }

    /// Ends a change with how its record fared.
    pub fn settle(&mut self, next: TaskState, outcome: WriteOutcome) -> (done: Result<
        (),
        TaskError,
    >)
        requires
            old(self)@.sequence < usize::MAX,
            !old(self)@.write_failed,
        ensures
            (final(self)@, done_view(done)) == task_appended(old(self)@, next@, outcome),
    {
        match outcome {
            WriteOutcome::NotEncoded(message) => Err(TaskError::Json(message)),
            WriteOutcome::Failed(message) => {
                self.write_failed = true;
                Err(TaskError::Io(message))
            },
            WriteOutcome::Durable => {
                self.sequence = self.sequence + 1;
                self.state = next;
                Ok(())
            },
        }
    }

    fn transition<W: Fn(Record) -> WriteOutcome>(&mut self, event: TaskEvent, write: &W) -> (done:
        Result<(), TaskError>)
        requires
            forall|record: Record| call_requires(*write, (record,)),
            old(self)@.sequence < usize::MAX,
        ensures
            transitions(*write, old(self)@, event@, final(self)@, done_view(done)),
    {
        let next = match apply(&self.state, &event) {
            Ok(next) => next,
            Err(error) => {
                return Err(error);
            },
        };
        if self.write_failed {
            return Err(invalid("previous write failed; reopen journal"));
        }
        let record = Record { version: 1, sequence: self.sequence, payload: event };
        let ghost view = record@;
        let outcome = write(record);
        assert(recorded(*write, view, outcome));
        assert(view == record_of(old(self)@.sequence, event@));
        let done = self.settle(next, outcome);
        assert((self@, done_view(done)) == task_appended(old(self)@, next@, outcome));
        done
    }

    /// Starts an attempt. Call it before the turn. A replayed running attempt requires
    /// explicit host reconciliation, never an automatic retry.
    pub fn start_attempt<W: Fn(Record) -> WriteOutcome>(
        &mut self,
        turn_id: String,
        write: &W,
    ) -> (done: Result<(), TaskError>)
        requires
            forall|record: Record| call_requires(*write, (record,)),
            old(self)@.sequence < usize::MAX,
        ensures
            transitions(
                *write,
                old(self)@,
                TaskEventView::AttemptStarted { turn_id: turn_id@ },
                final(self)@,
                done_view(done),
            ),
    {
        self.transition(TaskEvent::AttemptStarted { turn_id }, write)
    }

    /// Checks the running attempt, given snapshots and all receipts of its turn. Unknown
    /// outcomes block the task even if artifact checks pass.
    pub fn verify<W: Fn(Record) -> WriteOutcome>(
        &mut self,
        artifacts: Vec<ArtifactRef>,
        receipts: Vec<ToolReceipt>,
        write: &W,
    ) -> (done: Result<(), TaskError>)
        requires
            forall|record: Record| call_requires(*write, (record,)),
            old(self)@.sequence < usize::MAX,
        ensures
            transitions(
                *write,
                old(self)@,
                TaskEventView::AttemptChecked {
                    artifacts: views(artifacts@),
                    receipts: views(receipts@),
                },
                final(self)@,
                done_view(done),
            ),
    {
        self.transition(TaskEvent::AttemptChecked { artifacts, receipts }, write)
    }

    /// Explicitly stops for host intervention (including interrupted attempts).
    pub fn block<W: Fn(Record) -> WriteOutcome>(&mut self, reason: String, write: &W) -> (done:
        Result<(), TaskError>)
        requires
            forall|record: Record| call_requires(*write, (record,)),
            old(self)@.sequence < usize::MAX,
        ensures
            transitions(
                *write,
                old(self)@,
                TaskEventView::Blocked { reason: reason@ },
                final(self)@,
                done_view(done),
            ),
    {
        self.transition(TaskEvent::Blocked { reason }, write)
    }
}

// ---------------------------------------------------------------------------
// The contract of a task in the context
// ---------------------------------------------------------------------------

/// The JSON text of a criterion.
pub open spec fn criterion_text(criterion: CriterionView) -> Seq<char> {
    object_text(
        seq![
            member_text("id"@, quoted(criterion.id)),
            member_text("artifact_id"@, quoted(criterion.artifact_id)),
            member_text("expected"@, quoted(criterion.expected)),
        ],
    )
}

/// The JSON text of a task.
pub open spec fn spec_text(spec_: TaskSpecView) -> Seq<char> {
    object_text(
        seq![
            member_text("objective"@, quoted(spec_.objective)),
            member_text(
                "criteria"@,
                array_text(
                    spec_.criteria.map_values(
                        |criterion: CriterionView| criterion_text(criterion),
                    ),
                ),
            ),
            member_text(
                "budget"@,
                object_text(
                    seq![
                        member_text(
                            "max_attempts"@,
                            decimal_of(spec_.budget.max_attempts as nat),
                        ),
                    ],
                ),
            ),
        ],
    )
}

/// The segment that tells the model what its task is.
pub open spec fn contract_of(spec_: TaskSpecView) -> PromptSegmentView {
    PromptSegmentView {
        layer: PromptLayer::Stable,
        name: "task-contract-v1"@,
        text: "Host task contract (context, not tool authority):\n"@ + spec_text(spec_),
    }
}

fn write_criterion(criterion: &Criterion) -> (text: String)
    ensures
        text@ == criterion_text(criterion@),
{
    let mut members: Vec<String> = Vec::new();
    members.push(write_member("id", quote(criterion.id.as_str()).as_str()));
    members.push(write_member("artifact_id", quote(criterion.artifact_id.as_str()).as_str()));
    members.push(write_member("expected", quote(criterion.expected.as_str()).as_str()));
    assert(views(members@) =~= seq![
        member_text("id"@, quoted(criterion@.id)),
        member_text("artifact_id"@, quoted(criterion@.artifact_id)),
        member_text("expected"@, quoted(criterion@.expected)),
    ]);
    write_object(&members)
}

fn write_criteria(criteria: &Vec<Criterion>) -> (texts: Vec<String>)
    ensures
        views(texts@) == views(criteria@).map_values(
            |criterion: CriterionView| criterion_text(criterion),
        ),
{
    let ghost wanted = views(criteria@).map_values(
        |criterion: CriterionView| criterion_text(criterion),
    );
    let mut texts: Vec<String> = Vec::new();
    let mut index: usize = 0;
    assert(views(texts@) =~= wanted.take(0));
    while index < criteria.len()
        invariant
            index <= criteria@.len(),
            wanted == views(criteria@).map_values(
                |criterion: CriterionView| criterion_text(criterion),
            ),
            wanted.len() == criteria@.len(),
            views(texts@) == wanted.take(index as int),
        decreases criteria@.len() - index,
    {
        let text = write_criterion(&criteria[index]);
        proof {
            assert(wanted.take(index as int + 1) =~= wanted.take(index as int).push(text@));
            lemma_views_push(texts@, text);
        }
        texts.push(text);
        index = index + 1;
    }
    assert(wanted.take(index as int) =~= wanted);
    texts
}

/// Writes a task as JSON.
pub fn write_spec(spec_: &TaskSpec) -> (text: String)
    ensures
        text@ == spec_text(spec_@),
{
    let mut limits: Vec<String> = Vec::new();
    limits.push(write_member("max_attempts", decimal(spec_.budget.max_attempts as u64).as_str()));
    assert(views(limits@) =~= seq![
        member_text("max_attempts"@, decimal_of(spec_@.budget.max_attempts as nat)),
    ]);
    let budget = write_object(&limits);
    let criteria = write_array(&write_criteria(&spec_.criteria));
    let mut members: Vec<String> = Vec::new();
    members.push(write_member("objective", quote(spec_.objective.as_str()).as_str()));
    members.push(write_member("criteria", criteria.as_str()));
    members.push(write_member("budget", budget.as_str()));
    assert(views(members@) =~= seq![
        member_text("objective"@, quoted(spec_@.objective)),
        member_text("criteria"@, criteria@),
        member_text("budget"@, budget@),
    ]);
    write_object(&members)
}

/// Pins the immutable task contract after an inner compiler has compacted chat
/// history. Scope one instance to one task; use the outermost compiler position
/// so another compactor cannot remove its segment. This is advisory context only.
pub struct TaskContextCompiler<C: ContextCompiler> {
    inner: C,
    contract: PromptSegment,
}

impl<C: ContextCompiler> TaskContextCompiler<C> {
    /// The segment that is pinned.
    pub closed spec fn contract(&self) -> PromptSegmentView {
        self.contract@
    }

    /// The compiler that makes the rest of the context.
    pub closed spec fn inner(&self) -> C {
        self.inner
    }

    pub fn new(inner: C, spec_: &TaskSpec) -> (compiler: Result<Self, TaskError>)
        ensures
            match compiler {
                Ok(found) => initial_of(spec_@) is Ok && found.contract() == contract_of(spec_@)
                    && found.inner() == inner,
                Err(error) => initial_of(spec_@) == Err::<TaskStateView, TaskErrorView>(error@),
            },
    {
        match initial_state(spec_.clone()) {
            Ok(_) => {},
            Err(error) => {
                return Err(error);
            },
        }
        let contract = PromptSegment::new(
            PromptLayer::Stable,
            "task-contract-v1".to_owned(),
            "Host task contract (context, not tool authority):\n".to_owned().concat(
                write_spec(spec_).as_str(),
            ),
        );
        Ok(TaskContextCompiler { inner, contract })
    }

    /// The context with the contract in front of the prompt.
    pub fn pin(&self, context: CompiledContext) -> (pinned: CompiledContext)
        ensures
            pinned@ == pinned_of(self.contract(), context@),
    {
        let ghost prompt = context@.prompt;
        let mut segments = context.prompt;
        segments.insert(0, self.contract.clone());
        assert(views(segments@) =~= seq![self.contract()] + prompt);
        CompiledContext { prompt: segments, messages: context.messages }
    }
}

impl<C: ContextCompiler> ContextCompiler for TaskContextCompiler<C> {
    /// Whatever the inner compiler makes of the input, the contract stands in front of it.
    fn compile(&self, input: ContextInput) -> (compiled: Result<CompiledContext, ContextError>)
        ensures
            pins(self.inner(), self.contract(), input, compiled),
    {
        let made = self.inner.compile(input);
        assert(call_ensures(C::compile, (&self.inner, input), made));
        match made {
            Ok(context) => Ok(self.pin(context)),
            Err(error) => Err(error),
        }
    }
}

/// A context with a segment in front of its prompt.
pub open spec fn pinned_of(
    contract: PromptSegmentView,
    context: CompiledContextView,
) -> CompiledContextView {
    CompiledContextView { prompt: seq![contract] + context.prompt, messages: context.messages }
}

/// Whether a context was compiled this way: the inner compiler made it, and the contract
/// stands in front of its prompt.
pub open spec fn pins<C: ContextCompiler>(
    inner: C,
    contract: PromptSegmentView,
    input: ContextInput,
    compiled: Result<CompiledContext, ContextError>,
) -> bool {
    exists|made: Result<CompiledContext, ContextError>| #[trigger]
        call_ensures(C::compile, (&inner, input), made) && match made {
            Ok(context) => compiled matches Ok(found) && found@ == pinned_of(contract, context@),
            Err(error) => compiled == Err::<CompiledContext, ContextError>(error),
        }
}

// ---------------------------------------------------------------------------
// Laws
// ---------------------------------------------------------------------------

/// What holds of a task in every state: no attempt is beyond the budget, each checked
/// attempt has evidence of its own turn, and exactly a running task has an open turn or was
/// stopped in one.
pub open spec fn sound(state: TaskStateView) -> bool {
    &&& spec_complaint(state.spec) is None
    &&& state.attempts <= state.spec.budget.max_attempts
    &&& state.evidence.len() + (if state.active_turn is Some {
        1nat
    } else {
        0nat
    }) == state.attempts
    &&& state.status == TaskStatus::Running ==> state.active_turn is Some
    &&& state.active_turn is Some ==> state.status == TaskStatus::Running || state.status
        == TaskStatus::Blocked
    &&& state.active_turn matches Some(turn_id) ==> !turn_used(state.evidence, turn_id)
    &&& forall|i: int, j: int|
        0 <= i < j < state.evidence.len() ==> (#[trigger] state.evidence[i]).turn_id != (
        #[trigger] state.evidence[j]).turn_id
}

/// A task begins in a sound state, and every change keeps it sound. In particular there
/// are never more attempts than the budget allows, and no turn counts twice.
pub proof fn law_tasks_stay_sound(spec_: TaskSpecView, state: TaskStateView, event: TaskEventView)
    ensures
        initial_of(spec_) matches Ok(first) ==> sound(first),
        sound(state) ==> (applied(state, event) matches Ok(next) ==> sound(next)),
{
    if sound(state) {
        match applied(state, event) {
            Ok(next) => {
                assert forall|i: int, j: int| 0 <= i < j < next.evidence.len() implies (
                #[trigger] next.evidence[i]).turn_id != (#[trigger] next.evidence[j]).turn_id by {
                    if j < state.evidence.len() {
                        assert(state.evidence[i].turn_id != state.evidence[j].turn_id);
                    } else {
                        assert(!turn_used(state.evidence, state.active_turn->Some_0));
                        assert(state.evidence[i].turn_id != state.active_turn->Some_0);
                    }
                }
            },
            Err(_) => {},
        }
    }
}

/// A task succeeds only through a check in which every criterion holds and no outcome is
/// unknown, and then it does succeed.
pub proof fn law_success_needs_every_criterion(
    state: TaskStateView,
    event: TaskEventView,
    next: TaskStateView,
)
    requires
        applied(state, event) == Ok::<TaskStateView, TaskErrorView>(next),
        state.status != TaskStatus::Succeeded,
    ensures
        next.status == TaskStatus::Succeeded <==> (event matches TaskEventView::AttemptChecked {
            artifacts,
            receipts,
        } && !any_unknown(receipts) && forall|i: int|
            0 <= i < state.spec.criteria.len() ==> criterion_holds(
                #[trigger] state.spec.criteria[i],
                artifacts,
            )),
{
    match event {
        TaskEventView::AttemptChecked { artifacts, receipts } => {
            let checks = checks_of(state.spec, artifacts);
            assert forall|i: int| 0 <= i < state.spec.criteria.len() implies (
            #[trigger] checks[i]).passed == criterion_holds(state.spec.criteria[i], artifacts) by {}
            if all_passed(checks) {
                assert forall|i: int| 0 <= i < state.spec.criteria.len() implies criterion_holds(
                    #[trigger] state.spec.criteria[i],
                    artifacts,
                ) by {
                    assert(checks[i].passed);
                }
            } else {
                let i = choose|i: int| 0 <= i < checks.len() && !(#[trigger] checks[i]).passed;
                assert(!criterion_holds(state.spec.criteria[i], artifacts));
            }
        },
        _ => {},
    }
}

/// An unknown outcome blocks the task, whatever the artifacts are.
pub proof fn law_unknown_outcomes_block(
    state: TaskStateView,
    artifacts: Seq<ArtifactRefView>,
    receipts: Seq<ToolReceiptView>,
)
    requires
        any_unknown(receipts),
    ensures
        applied(state, TaskEventView::AttemptChecked { artifacts, receipts }) matches Ok(next)
            ==> next.status == TaskStatus::Blocked && next.evidence.last().receipts == receipts,
{
}

/// A task that succeeded, ran out of attempts or was blocked never changes again.
pub proof fn law_finished_tasks_never_change(state: TaskStateView, event: TaskEventView)
    requires
        !unfinished(state.status),
    ensures
        applied(state, event) is Err,
{
}

/// The specification of a task is immutable, and evidence is only ever added.
pub proof fn law_evidence_is_kept(
    state: TaskStateView,
    event: TaskEventView,
    next: TaskStateView,
)
    requires
        applied(state, event) == Ok::<TaskStateView, TaskErrorView>(next),
    ensures
        next.spec == state.spec,
        next.evidence.len() >= state.evidence.len(),
        next.evidence.take(state.evidence.len() as int) == state.evidence,
        next.attempts >= state.attempts,
{
    assert(next.evidence.take(state.evidence.len() as int) =~= state.evidence);
}

/// A failed append keeps the state and poisons the journal, and a poisoned journal takes no
/// change.
pub proof fn law_failed_append_poisons<W: Fn(Record) -> WriteOutcome>(
    write: W,
    journal: TaskJournalView,
    next: TaskStateView,
    message: String,
    event: TaskEventView,
    after: TaskJournalView,
    done: Result<(), TaskErrorView>,
)
    requires
        transitions(
            write,
            task_appended(journal, next, WriteOutcome::Failed(message)).0,
            event,
            after,
            done,
        ),
    ensures
        task_appended(journal, next, WriteOutcome::Failed(message)).0.state == journal.state,
        after.state == journal.state,
        after.write_failed,
        done is Err,
{
}

/// Replaying a journal gives the state that it was written for: a further record changes
/// the state as the change did when it was made.
pub proof fn law_replay_follows_the_task(
    lines: Seq<TaskLineView>,
    event: TaskEventView,
    at: int,
    state: Option<TaskStateView>,
)
    requires
        0 <= at <= lines.len(),
        lines.len() <= usize::MAX,
        task_replayed(lines, at, state) matches Ok(Some(_)),
    ensures
        task_replayed(
            lines.push(TaskLineView::Record(record_of(lines.len(), event))),
            at,
            state,
        ) == (match applied(task_replayed(lines, at, state)->Ok_0->Some_0, event) {
            Ok(next) => Ok(Some(next)),
            Err(error) => Err(error),
        }),
    decreases lines.len() - at,
{
    let longer = lines.push(TaskLineView::Record(record_of(lines.len(), event)));
    if at == lines.len() {
        assert(longer[at] == TaskLineView::Record(record_of(lines.len(), event)));
        match applied(state->Some_0, event) {
            Ok(next) => {
                assert(task_replayed(longer, at + 1, Some(next)) == Ok::<
                    Option<TaskStateView>,
                    TaskErrorView,
                >(Some(next)));
            },
            Err(_) => {},
        }
    } else {
        assert(longer[at] == lines[at]);
        match lines[at] {
            TaskLineView::Broken { .. } => {},
            TaskLineView::Record(record) => {
                match (state, record.payload) {
                    (None, TaskEventView::Created { spec }) => match initial_of(spec) {
                        Ok(first) => law_replay_follows_the_task(
                            lines,
                            event,
                            at + 1,
                            Some(first),
                        ),
                        Err(_) => {},
                    },
                    (None, _) => {},
                    (Some(current), earlier) => match applied(current, earlier) {
                        Ok(next) => law_replay_follows_the_task(lines, event, at + 1, Some(next)),
                        Err(_) => {},
                    },
                }
            },
        }
    }
}

} // verus!

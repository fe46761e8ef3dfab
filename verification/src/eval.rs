//! Paired evaluation of identical isolated fixtures with core-only completion and
//! optional task acceptance. Scripted runs measure harness behavior, not model IQ.

use vstd::prelude::*;
use vstd::string::*;

use crate::datum::{
    done_view, lemma_views_push, opt_view, res_view, same_all, snapshot_all, views, Datum,
};
use crate::event::{EventEnvelope, EventEnvelopeView, RuntimeEvent, RuntimeEventView};
use crate::id::{CallId, TurnId};
use crate::json::{
    bare_object, lemma_object, member, no_members, object_view, text_json, with_member, Json,
    JsonView,
};
use crate::keyed::{key_list, Keyed};
use crate::model::{
    ModelError, ModelErrorView, ModelResponse, ModelResponseView, StopReason, TokenUsage,
};
use crate::policy::{Access, CapabilityPolicy, CapabilityPolicyView};
use crate::protocol::{ReceiptStatus, ToolCall, ToolCallView, ToolReceipt, ToolReceiptView};
use crate::provider::{
    get_text, make_pair, pair_object, text_member, unsigned_member, OpenAiConfig, OpenAiConfigView,
};
use crate::store::WriteOutcome;
use crate::task::{
    all_passed, any_unknown, checks_of, creates, every_check_passed, has_unknown, transitions,
    ArtifactRef, ArtifactRefView, Budget, BudgetView, CheckEvidence, CheckEvidenceView,
    CompletionGate, Criterion, CriterionView, Record, TaskError, TaskErrorView, TaskEventView,
    TaskJournal, TaskJournalView, TaskSpec, TaskSpecView, TaskStatus,
};
use crate::text::{blank, contains_char, is_blank, join, join_of, same_text};

verus! {

/// A pinned exercise. Its complete contents are retained with every result.
#[derive(Debug, PartialEq, Eq)]
pub struct Fixture {
    pub version: u32,
    pub id: String,
    pub split: String,
    pub objective: String,
    pub initial: String,
    pub expected: String,
    pub proposals: Vec<String>,
    pub max_attempts: u32,
    pub deny_write: bool,
    pub interrupt_execution: bool,
}

/// The model of [`Fixture`].
#[verifier::ext_equal]
pub ghost struct FixtureView {
    pub version: u32,
    pub id: Seq<char>,
    pub split: Seq<char>,
    pub objective: Seq<char>,
    pub initial: Seq<char>,
    pub expected: Seq<char>,
    pub proposals: Seq<Seq<char>>,
    pub max_attempts: u32,
    pub deny_write: bool,
    pub interrupt_execution: bool,
}

impl View for Fixture {
    type V = FixtureView;

    open spec fn view(&self) -> FixtureView {
        FixtureView {
            version: self.version,
            id: self.id@,
            split: self.split@,
            objective: self.objective@,
            initial: self.initial@,
            expected: self.expected@,
            proposals: views(self.proposals@),
            max_attempts: self.max_attempts,
            deny_write: self.deny_write,
            interrupt_execution: self.interrupt_execution,
        }
    }
}

impl Datum for Fixture {
    fn snapshot(&self) -> (copy: Self) {
        Fixture {
            version: self.version,
            id: self.id.snapshot(),
            split: self.split.snapshot(),
            objective: self.objective.snapshot(),
            initial: self.initial.snapshot(),
            expected: self.expected.snapshot(),
            proposals: snapshot_all(&self.proposals),
            max_attempts: self.max_attempts,
            deny_write: self.deny_write,
            interrupt_execution: self.interrupt_execution,
        }
    }

    fn same(&self, other: &Self) -> (equal: bool) {
        self.version == other.version && self.id.same(&other.id) && self.split.same(&other.split)
            && self.objective.same(&other.objective) && self.initial.same(&other.initial)
            && self.expected.same(&other.expected) && same_all(&self.proposals, &other.proposals)
            && self.max_attempts == other.max_attempts && self.deny_write == other.deny_write
            && self.interrupt_execution == other.interrupt_execution
    }
}

impl Clone for Fixture {
    fn clone(&self) -> (copy: Self)
        ensures
            copy@ == self@,
    {
        self.snapshot()
    }
}

/// Whether completion is taken from the turn or from the acceptance of a task.
#[derive(Clone, Copy, Debug, PartialEq, Eq, Structural)]
pub enum Mode {
    CoreOnly,
    Task,
}

/// What one run of a fixture showed. `model` is a snapshot identifier or the version of the
/// built-in script. `live_model` is true only for live adapter usage; scripted usage is
/// deliberately zero.
#[derive(Debug, PartialEq, Eq)]
pub struct RunReport {
    pub fixture: Fixture,
    pub mode: Mode,
    pub model: String,
    pub harness_version: String,
    pub max_model_iterations_per_turn: usize,
    pub artifact_directory: String,
    pub reported_success: bool,
    pub verified_success: bool,
    pub false_completion: bool,
    pub attempts: u32,
    pub model_iterations: usize,
    pub elapsed_ms: u128,
    pub tokens: TokenUsage,
    pub live_model: bool,
    pub interventions: u32,
    pub denied_receipts: usize,
    pub unknown_receipts: usize,
    pub task_status: Option<TaskStatus>,
    pub turn_errors: Vec<String>,
}

/// The model of [`RunReport`].
#[verifier::ext_equal]
pub ghost struct RunReportView {
    pub fixture: FixtureView,
    pub mode: Mode,
    pub model: Seq<char>,
    pub harness_version: Seq<char>,
    pub max_model_iterations_per_turn: usize,
    pub artifact_directory: Seq<char>,
    pub reported_success: bool,
    pub verified_success: bool,
    pub false_completion: bool,
    pub attempts: u32,
    pub model_iterations: usize,
    pub elapsed_ms: u128,
    pub tokens: TokenUsage,
    pub live_model: bool,
    pub interventions: u32,
    pub denied_receipts: usize,
    pub unknown_receipts: usize,
    pub task_status: Option<TaskStatus>,
    pub turn_errors: Seq<Seq<char>>,
}

impl View for RunReport {
    type V = RunReportView;

    open spec fn view(&self) -> RunReportView {
        RunReportView {
            fixture: self.fixture@,
            mode: self.mode,
            model: self.model@,
            harness_version: self.harness_version@,
            max_model_iterations_per_turn: self.max_model_iterations_per_turn,
            artifact_directory: self.artifact_directory@,
            reported_success: self.reported_success,
            verified_success: self.verified_success,
            false_completion: self.false_completion,
            attempts: self.attempts,
            model_iterations: self.model_iterations,
            elapsed_ms: self.elapsed_ms,
            tokens: self.tokens,
            live_model: self.live_model,
            interventions: self.interventions,
            denied_receipts: self.denied_receipts,
            unknown_receipts: self.unknown_receipts,
            task_status: self.task_status,
            turn_errors: views(self.turn_errors@),
        }
    }
}

impl Clone for RunReport {
    fn clone(&self) -> (copy: Self)
        ensures
            copy@ == self@,
    {
        RunReport {
            fixture: self.fixture.clone(),
            mode: self.mode,
            model: self.model.clone(),
            harness_version: self.harness_version.clone(),
            max_model_iterations_per_turn: self.max_model_iterations_per_turn,
            artifact_directory: self.artifact_directory.clone(),
            reported_success: self.reported_success,
            verified_success: self.verified_success,
            false_completion: self.false_completion,
            attempts: self.attempts,
            model_iterations: self.model_iterations,
            elapsed_ms: self.elapsed_ms,
            tokens: self.tokens,
            live_model: self.live_model,
            interventions: self.interventions,
            denied_receipts: self.denied_receipts,
            unknown_receipts: self.unknown_receipts,
            task_status: self.task_status,
            turn_errors: snapshot_all(&self.turn_errors),
        }
    }
}

/// What a run of a fixture may do: write files, unless the fixture denies it, and nothing
/// else.
pub open spec fn fixture_policy_of(fixture: FixtureView) -> CapabilityPolicyView {
    CapabilityPolicyView {
        default: Access::Deny,
        tools: Map::empty().insert(
            "write_file"@,
            if fixture.deny_write {
                Access::Deny
            } else {
                Access::Allow
            },
        ),
    }
}

/// What a run of a fixture may do.
pub fn fixture_policy(fixture: &Fixture) -> (policy: CapabilityPolicy)
    ensures
        policy@ == fixture_policy_of(fixture@),
{
    let access = if fixture.deny_write {
        Access::Deny
    } else {
        Access::Allow
    };
    CapabilityPolicy::deny_by_default().grant("write_file".to_owned(), access)
}

/// A pinned live model. `revision` is an immutable deployment or revision identifier that the
/// host provides.
#[derive(Debug, PartialEq, Eq)]
pub struct LiveConfig {
    pub endpoint: String,
    pub model_snapshot: String,
    pub revision: String,
    pub timeout_seconds: u64,
}

/// The model of [`LiveConfig`].
#[verifier::ext_equal]
pub ghost struct LiveConfigView {
    pub endpoint: Seq<char>,
    pub model_snapshot: Seq<char>,
    pub revision: Seq<char>,
    pub timeout_seconds: u64,
}

impl View for LiveConfig {
    type V = LiveConfigView;

    open spec fn view(&self) -> LiveConfigView {
        LiveConfigView {
            endpoint: self.endpoint@,
            model_snapshot: self.model_snapshot@,
            revision: self.revision@,
            timeout_seconds: self.timeout_seconds,
        }
    }
}

/// How many model requests a turn may make.
pub const MAX_ITERATIONS: usize = 4;

// ---------------------------------------------------------------------------
// Live models
// ---------------------------------------------------------------------------

/// How long a live request may take if nothing else is asked for, in seconds.
pub fn default_timeout_seconds() -> (seconds: u64)
    ensures
        seconds == 30,
{
    30
}

/// Why a live model is refused, if it is.
pub open spec fn live_complaint(config: LiveConfigView) -> Option<Seq<char>> {
    if blank(config.model_snapshot) || blank(config.revision) || config.endpoint.contains('@')
        || config.endpoint.contains('?') || config.endpoint.contains('#') {
        Some(
            "live config needs a pinned model/revision and an endpoint without embedded credentials or query parameters"@,
        )
    } else if !(1 <= config.timeout_seconds <= 300) {
        Some("live timeout_seconds must be between 1 and 300"@)
    } else {
        None
    }
}

/// Whether a key belongs to a live model's settings.
pub open spec fn live_key(key: Seq<char>) -> bool {
    key == "endpoint"@ || key == "model_snapshot"@ || key == "revision"@ || key
        == "timeout_seconds"@
}

/// The live model that an object describes, if it does: no other members are allowed, and
/// only the timeout may be left out.
pub open spec fn live_config_of(value: JsonView) -> Option<LiveConfigView> {
    match value {
        JsonView::Object(members) => match (
            text_member(value, "endpoint"@),
            text_member(value, "model_snapshot"@),
            text_member(value, "revision"@),
        ) {
            (Some(endpoint), Some(model_snapshot), Some(revision)) => if exists|key: Seq<char>|
                #[trigger] members.contains_key(key) && !live_key(key) {
                None
            } else if member(value, "timeout_seconds"@) is None {
                Some(LiveConfigView { endpoint, model_snapshot, revision, timeout_seconds: 30 })
            } else {
                match unsigned_member(value, "timeout_seconds"@) {
                    Some(timeout_seconds) => Some(
                        LiveConfigView { endpoint, model_snapshot, revision, timeout_seconds },
                    ),
                    None => None,
                }
            },
            _ => None,
        },
        _ => None,
    }
}

/// What a live model is asked with, besides the request itself.
pub open spec fn live_body() -> Map<Seq<char>, JsonView> {
    bare_object().insert("temperature"@, JsonView::Integer(0)).insert(
        "max_completion_tokens"@,
        JsonView::Integer(1024),
    )
}

fn live_members() -> (members: Keyed<Json>)
    ensures
        object_view(members) == live_body(),
{
    with_member(
        with_member(no_members(), "temperature", Json::Unsigned(0)),
        "max_completion_tokens",
        Json::Unsigned(1024),
    )
}

fn all_live_keys(members: &Keyed<Json>) -> (yes: bool)
    ensures
        yes == !(exists|key: Seq<char>| #[trigger]
            object_view(*members).contains_key(key) && !live_key(key)),
{
    let keys = key_list(members);
    proof {
        lemma_object(*members);
    }
    let mut at: usize = 0;
    while at < keys.len()
        invariant
            at <= keys@.len(),
            views(keys@) == members.keys(),
            members@.dom() == members.keys().to_set(),
            object_view(*members).dom() == members@.dom(),
            forall|i: int| 0 <= i < at ==> live_key(#[trigger] members.keys()[i]),
        decreases keys@.len() - at,
    {
        let key = keys[at].as_str();
        assert(views(keys@)[at as int] == key@);
        if !(same_text(key, "endpoint") || same_text(key, "model_snapshot") || same_text(
            key,
            "revision",
        ) || same_text(key, "timeout_seconds")) {
            assert(members.keys().to_set().contains(members.keys()[at as int]));
            assert(object_view(*members).contains_key(key@) && !live_key(key@));
            return false;
        }
        at = at + 1;
    }
    assert forall|key: Seq<char>| #[trigger]
        object_view(*members).contains_key(key) implies live_key(key) by {
        assert(members.keys().to_set().contains(key));
    }
    true
}

impl LiveConfig {
    /// Reads a live model from its file.
    pub fn read(value: &Json) -> (config: Option<Self>)
        ensures
            opt_view(config) == live_config_of(value@),
    {
        let members = match value.as_object() {
            Some(members) => members,
            None => {
                return None;
            },
        };
        let endpoint = match get_text(value, "endpoint") {
            Some(text) => text.clone(),
            None => {
                return None;
            },
        };
        let model_snapshot = match get_text(value, "model_snapshot") {
            Some(text) => text.clone(),
            None => {
                return None;
            },
        };
        let revision = match get_text(value, "revision") {
            Some(text) => text.clone(),
            None => {
                return None;
            },
        };
        if !all_live_keys(members) {
            return None;
        }
        let timeout_seconds: u64 = match value.get("timeout_seconds") {
            None => default_timeout_seconds(),
            Some(found) => match found.as_unsigned() {
                Some(seconds) => seconds,
                None => {
                    return None;
                },
            },
        };
        Some(LiveConfig { endpoint, model_snapshot, revision, timeout_seconds })
    }

    /// Whether the live model may be used.
    pub fn validate(&self) -> (verdict: Result<(), String>)
        ensures
            match verdict {
                Ok(()) => live_complaint(self@) is None,
                Err(message) => live_complaint(self@) == Some(message@),
            },
    {
        if is_blank(self.model_snapshot.as_str()) || is_blank(self.revision.as_str())
            || contains_char(self.endpoint.as_str(), '@') || contains_char(
            self.endpoint.as_str(),
            '?',
        ) || contains_char(self.endpoint.as_str(), '#') {
            return Err(
                "live config needs a pinned model/revision and an endpoint without embedded credentials or query parameters".to_owned(),
            );
        }
        if self.timeout_seconds < 1 || self.timeout_seconds > 300 {
            return Err("live timeout_seconds must be between 1 and 300".to_owned());
        }
        Ok(())
    }

    /// How the provider of the live model is asked.
    pub fn provider_config(&self, api_key: Option<String>) -> (config: OpenAiConfig)
        ensures
            config@ == (OpenAiConfigView {
                endpoint: self@.endpoint,
                model: self@.model_snapshot,
                api_key: opt_view(api_key),
                organization: None,
                timeout_seconds: self@.timeout_seconds,
                extra_body: live_body(),
            }),
    {
        let base = OpenAiConfig::new(self.endpoint.clone(), self.model_snapshot.clone());
        OpenAiConfig {
            api_key,
            timeout_seconds: self.timeout_seconds,
            extra_body: live_members(),
            ..base
        }
    }

    /// The settings as the summary shows them.
    pub fn provider_settings(&self) -> (settings: Json)
        ensures
            settings@ == JsonView::Object(
                live_body().insert(
                    "timeout_seconds"@,
                    JsonView::Integer(self@.timeout_seconds as int),
                ),
            ),
    {
        Json::Object(
            with_member(live_members(), "timeout_seconds", Json::Unsigned(self.timeout_seconds)),
        )
    }
}

// ---------------------------------------------------------------------------
// The command line
// ---------------------------------------------------------------------------

/// What the command line asks for.
#[derive(Debug, PartialEq, Eq)]
pub struct EvalArguments {
    pub output: String,
    pub live_config: Option<String>,
}

/// What the arguments from `at` on ask for.
pub open spec fn arguments_of(
    arguments: Seq<Seq<char>>,
    at: int,
    output: Option<Seq<char>>,
    live_config: Option<Seq<char>>,
) -> Result<(Seq<char>, Option<Seq<char>>), Seq<char>>
    decreases arguments.len() - at,
{
    if at < 0 || at >= arguments.len() {
        match output {
            Some(directory) => Ok((directory, live_config)),
            None => Err("--output NEW_DIRECTORY is required"@),
        }
    } else if arguments[at] == "--output"@ {
        if at + 1 < arguments.len() {
            arguments_of(arguments, at + 2, Some(arguments[at + 1]), live_config)
        } else {
            Err("missing output directory"@)
        }
    } else if arguments[at] == "--live-config"@ {
        if at + 1 < arguments.len() {
            arguments_of(arguments, at + 2, output, Some(arguments[at + 1]))
        } else {
            Err("missing live config"@)
        }
    } else {
        Err("usage: agent-harness-eval --output NEW_DIRECTORY [--live-config CONFIG.json]"@)
    }
}

impl EvalArguments {
    /// Reads the arguments that follow the name of the program.
    pub fn read(arguments: &Vec<String>) -> (read: Result<Self, String>)
        ensures
            match read {
                Ok(found) => arguments_of(views(arguments@), 0, None, None) == Ok::<
                    (Seq<char>, Option<Seq<char>>),
                    Seq<char>,
                >((found.output@, opt_view(found.live_config))),
                Err(message) => arguments_of(views(arguments@), 0, None, None) == Err::<
                    (Seq<char>, Option<Seq<char>>),
                    Seq<char>,
                >(message@),
            },
    {
        let ghost all = views(arguments@);
        let mut output: Option<String> = None;
        let mut live_config: Option<String> = None;
        let mut at: usize = 0;
        assert(all.len() == arguments@.len());
        while at < arguments.len()
            invariant
                at <= arguments@.len(),
                all == views(arguments@),
                all.len() == arguments@.len(),
                arguments_of(all, 0, None, None) == arguments_of(
                    all,
                    at as int,
                    opt_view(output),
                    opt_view(live_config),
                ),
            decreases arguments@.len() - at,
        {
            assert(all[at as int] == arguments@[at as int]@);
            if same_text(arguments[at].as_str(), "--output") {
                if at + 1 >= arguments.len() {
                    return Err("missing output directory".to_owned());
                }
                assert(all[at as int + 1] == arguments@[at as int + 1]@);
                output = Some(arguments[at + 1].clone());
            } else if same_text(arguments[at].as_str(), "--live-config") {
                if at + 1 >= arguments.len() {
                    return Err("missing live config".to_owned());
                }
                assert(all[at as int + 1] == arguments@[at as int + 1]@);
                live_config = Some(arguments[at + 1].clone());
            } else {
                return Err(
                    "usage: agent-harness-eval --output NEW_DIRECTORY [--live-config CONFIG.json]".to_owned(),
                );
            }
            at = at + 2;
        }
        match output {
            Some(output) => Ok(EvalArguments { output, live_config }),
            None => Err("--output NEW_DIRECTORY is required".to_owned()),
        }
    }
}

// ---------------------------------------------------------------------------
// Fixtures
// ---------------------------------------------------------------------------

/// Why a fixture is refused, if it is.
pub open spec fn fixture_complaint(fixture: FixtureView, live_model: bool) -> Option<Seq<char>> {
    if fixture.version != 1 || fixture.proposals.len() == 0 || fixture.max_attempts == 0 {
        Some("unsupported or invalid fixture"@)
    } else if live_model && fixture.interrupt_execution {
        Some("interruption injection requires the synchronous scripted model"@)
    } else {
        None
    }
}

/// Whether a fixture may be run. Faults are injected in scripted runs only.
pub fn check_fixture(fixture: &Fixture, live_model: bool) -> (verdict: Result<(), String>)
    ensures
        match verdict {
            Ok(()) => fixture_complaint(fixture@, live_model) is None,
            Err(message) => fixture_complaint(fixture@, live_model) == Some(message@),
        },
{
    assert(fixture@.proposals.len() == fixture.proposals@.len());
    if fixture.version != 1 || fixture.proposals.len() == 0 || fixture.max_attempts == 0 {
        return Err("unsupported or invalid fixture".to_owned());
    }
    if live_model && fixture.interrupt_execution {
        return Err(
            "interruption injection requires the synchronous scripted model".to_owned(),
        );
    }
    Ok(())
}

/// The task of a fixture: the file has exactly the expected contents.
pub open spec fn task_of(fixture: FixtureView) -> TaskSpecView {
    TaskSpecView {
        objective: fixture.objective,
        criteria: seq![
            CriterionView {
                id: "source-content-v1"@,
                artifact_id: "lib.rs"@,
                expected: fixture.expected,
            },
        ],
        budget: BudgetView { max_attempts: fixture.max_attempts },
    }
}

/// The task of a fixture.
pub fn task_spec(fixture: &Fixture) -> (task: TaskSpec)
    ensures
        task@ == task_of(fixture@),
{
    let mut criteria: Vec<Criterion> = Vec::new();
    criteria.push(
        Criterion {
            id: "source-content-v1".to_owned(),
            artifact_id: "lib.rs".to_owned(),
            expected: fixture.expected.clone(),
        },
    );
    let task = TaskSpec {
        objective: fixture.objective.clone(),
        criteria,
        budget: Budget { max_attempts: fixture.max_attempts },
    };
    assert(task@.criteria =~= task_of(fixture@).criteria);
    task
}

/// What the first turn is asked.
pub fn first_input(fixture: &Fixture) -> (input: String)
    ensures
        input@ == fixture@.objective
            + "\nEdit lib.rs. Required exact source contents:\n"@ + fixture@.expected,
{
    fixture.objective.clone().concat(
        "\nEdit lib.rs. Required exact source contents:\n",
    ).concat(fixture.expected.as_str())
}

/// What a turn after a failed check is asked.
pub open spec fn feedback_of(fixture: FixtureView, remaining: Seq<Seq<char>>) -> Seq<char> {
    fixture.objective + "\nVerification feedback:\n"@ + join_of(remaining, "\n"@)
}

/// What the scripted model answers to its request with this number. It proposes the next
/// contents of the file, or the last ones again, and then says that it is done.
pub open spec fn scripted_answer(fixture: FixtureView, number: nat, id: Seq<char>) -> Result<
    ModelResponseView,
    ModelErrorView,
> {
    let usage = TokenUsage { input_tokens: 0, output_tokens: 0 };
    let count = fixture.proposals.len();
    if number % 2 == 1 {
        Ok(
            ModelResponseView {
                content: "The requested change is complete."@,
                tool_calls: Seq::empty(),
                stop_reason: StopReason::EndTurn,
                usage,
            },
        )
    } else if count == 0 {
        Err(ModelErrorView { message: "empty fixture script"@, retryable: false })
    } else {
        let content = if number / 2 < count {
            fixture.proposals[number as int / 2]
        } else {
            fixture.proposals.last()
        };
        Ok(
            ModelResponseView {
                content: Seq::empty(),
                tool_calls: seq![
                    ToolCallView {
                        id,
                        name: "write_file"@,
                        arguments: pair_object(
                            "path"@,
                            JsonView::Text("lib.rs"@),
                            "content"@,
                            JsonView::Text(content),
                        ),
                    },
                ],
                stop_reason: StopReason::ToolUse,
                usage,
            },
        )
    }
}

/// What the scripted model answers to its request with this number.
pub fn scripted_response(fixture: &Fixture, number: usize, id: CallId) -> (response: Result<
    ModelResponse,
    ModelError,
>)
    ensures
        res_view(response) == scripted_answer(fixture@, number as nat, id@),
{
    assert(fixture@.proposals.len() == fixture.proposals@.len());
    if number % 2 == 1 {
        return Ok(ModelResponse::text("The requested change is complete.".to_owned()));
    }
    let count: usize = fixture.proposals.len();
    if count == 0 {
        return Err(ModelError::new("empty fixture script".to_owned(), false));
    }
    let place: usize = if number / 2 < count {
        number / 2
    } else {
        count - 1
    };
    assert(fixture@.proposals[place as int] == fixture.proposals@[place as int]@);
    let arguments = make_pair(
        "path",
        text_json("lib.rs"),
        "content",
        text_json(fixture.proposals[place].as_str()),
    );
    let mut calls: Vec<ToolCall> = Vec::new();
    calls.push(ToolCall::new(id, "write_file".to_owned(), arguments));
    let response = ModelResponse::tool_calls(calls);
    assert(response@.tool_calls =~= scripted_answer(fixture@, number as nat, id@)->Ok_0.tool_calls);
    Ok(response)
}

// ---------------------------------------------------------------------------
// Attempts
// ---------------------------------------------------------------------------

/// The receipts of a turn.
pub open spec fn receipts_of(events: Seq<EventEnvelopeView>, turn_id: Seq<char>) -> Seq<
    ToolReceiptView,
>
    decreases events.len(),
{
    if events.len() == 0 {
        Seq::empty()
    } else {
        let earlier = receipts_of(events.drop_last(), turn_id);
        match events.last().event {
            RuntimeEventView::ToolReceiptRecorded { receipt } => if events.last().turn_id == Some(
                turn_id,
            ) {
                earlier.push(receipt)
            } else {
                earlier
            },
            _ => earlier,
        }
    }
}

/// The receipts of a turn.
pub fn turn_receipts(events: &Vec<EventEnvelope>, turn_id: &TurnId) -> (receipts: Vec<ToolReceipt>)
    ensures
        views(receipts@) == receipts_of(views(events@), turn_id@),
{
    let ghost all = views(events@);
    let mut receipts: Vec<ToolReceipt> = Vec::new();
    let mut at: usize = 0;
    assert(all.take(0) =~= Seq::empty());
    assert(views(receipts@) =~= Seq::empty());
    while at < events.len()
        invariant
            at <= events@.len(),
            all == views(events@),
            views(receipts@) == receipts_of(all.take(at as int), turn_id@),
        decreases events@.len() - at,
    {
        let envelope = &events[at];
        proof {
            let grown = all.take(at as int + 1);
            assert(grown.drop_last() =~= all.take(at as int));
            assert(grown.last() == envelope@);
        }
        let ours = match &envelope.turn_id {
            Some(found) => found.same(turn_id),
            None => false,
        };
        match &envelope.event {
            RuntimeEvent::ToolReceiptRecorded { receipt } => {
                if ours {
                    let copy = receipt.clone();
                    proof {
                        lemma_views_push(receipts@, copy);
                    }
                    receipts.push(copy);
                }
            },
            _ => {},
        }
        at = at + 1;
    }
    assert(all.take(at as int) =~= all);
    receipts
}

/// What an attempt left behind. The host retains it.
#[derive(Debug, PartialEq, Eq)]
pub struct Attempt {
    pub turn_id: TurnId,
    pub artifacts: Vec<ArtifactRef>,
    pub checks: Vec<CheckEvidence>,
    pub receipts: Vec<ToolReceipt>,
}

/// The model of [`Attempt`].
#[verifier::ext_equal]
pub ghost struct AttemptView {
    pub turn_id: Seq<char>,
    pub artifacts: Seq<ArtifactRefView>,
    pub checks: Seq<CheckEvidenceView>,
    pub receipts: Seq<ToolReceiptView>,
}

impl View for Attempt {
    type V = AttemptView;

    open spec fn view(&self) -> AttemptView {
        AttemptView {
            turn_id: self.turn_id@,
            artifacts: views(self.artifacts@),
            checks: views(self.checks@),
            receipts: views(self.receipts@),
        }
    }
}

/// What an attempt left behind, given the events of its thread and the contents of the file.
pub open spec fn attempt_of(
    fixture: FixtureView,
    turn_id: Seq<char>,
    events: Seq<EventEnvelopeView>,
    content: Seq<char>,
) -> AttemptView {
    let artifacts = seq![ArtifactRefView { id: "lib.rs"@, content }];
    AttemptView {
        turn_id,
        artifacts,
        checks: checks_of(task_of(fixture), artifacts),
        receipts: receipts_of(events, turn_id),
    }
}

/// Whether an attempt met the task, whatever the turn says: every check passes, and no
/// outcome is unknown.
pub open spec fn attempt_passed(fixture: FixtureView, attempt: AttemptView) -> bool {
    all_passed(checks_of(task_of(fixture), attempt.artifacts)) && !any_unknown(attempt.receipts)
}

/// How the turn of an attempt ended.
#[derive(Debug, PartialEq, Eq)]
pub enum TurnEnding {
    Completed,
    Failed(String),
    /// It was interrupted on purpose, and the thread was recovered.
    Interrupted,
}

/// The state of an evaluation.
#[verifier::ext_equal]
pub ghost struct EvaluationView {
    pub fixture: FixtureView,
    pub mode: Mode,
    pub task: Option<TaskJournalView>,
    pub attempts: u32,
    pub normal_completion: bool,
    pub verified_success: bool,
    pub turn_errors: Seq<Seq<char>>,
}

/// An evaluation after a turn ended and its attempt was judged.
pub open spec fn closed_attempt(
    state: EvaluationView,
    attempt: AttemptView,
    ending: TurnEnding,
) -> EvaluationView {
    EvaluationView {
        normal_completion: match ending {
            TurnEnding::Completed => true,
            TurnEnding::Failed(_) => false,
            TurnEnding::Interrupted => state.normal_completion,
        },
        turn_errors: match ending {
            TurnEnding::Completed => state.turn_errors,
            TurnEnding::Failed(error) => state.turn_errors.push(error@),
            TurnEnding::Interrupted => state.turn_errors.push(
                "injected interruption at execution boundary; recovered without replay"@,
            ),
        },
        verified_success: attempt_passed(state.fixture, attempt),
        ..state
    }
}

/// Why a task is blocked after a turn failed.
pub open spec fn failed_turn_reason() -> Seq<char> {
    "Core turn failed; host inspection required before further generation"@
}

/// The evaluation with another journal of its task.
pub open spec fn with_task(state: EvaluationView, task: TaskJournalView) -> EvaluationView {
    EvaluationView { task: Some(task), ..state }
}

/// Whether a task whose turn failed was stopped this way.
pub open spec fn blocks<W: Fn(Record) -> WriteOutcome>(
    write: W,
    state: EvaluationView,
    task: TaskJournalView,
    after: EvaluationView,
    answer: Result<Option<Seq<char>>, TaskErrorView>,
) -> bool {
    exists|blocked: TaskJournalView, done: Result<(), TaskErrorView>| #[trigger]
        transitions(
            write,
            task,
            TaskEventView::Blocked { reason: failed_turn_reason() },
            blocked,
            done,
        ) && after == with_task(state, blocked) && answer == (match done {
            Ok(()) => Ok(None),
            Err(error) => Err::<Option<Seq<char>>, TaskErrorView>(error),
        })
}

/// Whether an evaluation went on this way once the check of its attempt was recorded: it
/// ends unless the task needs repair; a failed turn is never repeated.
pub open spec fn goes_on<W: Fn(Record) -> WriteOutcome>(
    write: W,
    state: EvaluationView,
    task: TaskJournalView,
    after: EvaluationView,
    answer: Result<Option<Seq<char>>, TaskErrorView>,
) -> bool {
    if task.state.status != TaskStatus::NeedsRepair {
        after == with_task(state, task) && answer == Ok::<Option<Seq<char>>, TaskErrorView>(None)
    } else if state.normal_completion {
        after == with_task(state, task) && answer == Ok::<Option<Seq<char>>, TaskErrorView>(
            Some(feedback_of(state.fixture, task.state.remaining_work)),
        )
    } else {
        blocks(write, state, task, after, answer)
    }
}

/// Whether the attempt of a task was decided this way. A check that could not be recorded
/// decides nothing.
pub open spec fn decides_task<W: Fn(Record) -> WriteOutcome>(
    write: W,
    before: EvaluationView,
    task: TaskJournalView,
    attempt: AttemptView,
    ending: TurnEnding,
    after: EvaluationView,
    answer: Result<Option<Seq<char>>, TaskErrorView>,
) -> bool {
    exists|checked: TaskJournalView, done: Result<(), TaskErrorView>| #[trigger]
        transitions(
            write,
            task,
            TaskEventView::AttemptChecked {
                artifacts: attempt.artifacts,
                receipts: attempt.receipts,
            },
            checked,
            done,
        ) && match done {
            Err(error) => after == with_task(before, checked) && answer == Err::<
                Option<Seq<char>>,
                TaskErrorView,
            >(error),
            Ok(()) => goes_on(
                write,
                closed_attempt(before, attempt, ending),
                checked,
                after,
                answer,
            ),
        }
}

/// Whether an attempt was decided this way. Without a task there is one attempt.
pub open spec fn decides<W: Fn(Record) -> WriteOutcome>(
    write: W,
    before: EvaluationView,
    attempt: AttemptView,
    ending: TurnEnding,
    after: EvaluationView,
    answer: Result<Option<Seq<char>>, TaskErrorView>,
) -> bool {
    match before.task {
        None => after == closed_attempt(before, attempt, ending) && answer == Ok::<
            Option<Seq<char>>,
            TaskErrorView,
        >(None),
        Some(task) => decides_task(write, before, task, attempt, ending, after, answer),
    }
}

/// Whether an attempt was started this way.
pub open spec fn starts<W: Fn(Record) -> WriteOutcome>(
    write: W,
    before: EvaluationView,
    turn_id: Seq<char>,
    after: EvaluationView,
    done: Result<(), TaskErrorView>,
) -> bool {
    let counted = EvaluationView { attempts: (before.attempts + 1) as u32, ..before };
    match before.task {
        None => after == counted && done == Ok::<(), TaskErrorView>(()),
        Some(task) => exists|running: TaskJournalView| #[trigger]
            transitions(
                write,
                task,
                TaskEventView::AttemptStarted { turn_id },
                running,
                done,
            ) && after == with_task(
                if done is Ok {
                    counted
                } else {
                    before
                },
                running,
            ),
    }
}

/// A new evaluation.
pub open spec fn new_evaluation(
    fixture: FixtureView,
    mode: Mode,
    task: Option<TaskJournalView>,
) -> EvaluationView {
    EvaluationView {
        fixture,
        mode,
        task,
        attempts: 0,
        normal_completion: false,
        verified_success: false,
        turn_errors: Seq::empty(),
    }
}

/// Whether an evaluation began this way.
pub open spec fn begins<W: Fn(Record) -> WriteOutcome>(
    write: W,
    fixture: FixtureView,
    mode: Mode,
    begun: Result<EvaluationView, TaskErrorView>,
) -> bool {
    match mode {
        Mode::CoreOnly => begun == Ok::<EvaluationView, TaskErrorView>(
            new_evaluation(fixture, mode, None),
        ),
        Mode::Task => exists|journal: Result<TaskJournalView, TaskErrorView>| #[trigger]
            creates(write, task_of(fixture), journal) && begun == (match journal {
                Ok(task) => Ok(new_evaluation(fixture, mode, Some(task))),
                Err(error) => Err::<EvaluationView, TaskErrorView>(error),
            }),
    }
}

/// What the events of a thread count up to.
#[verifier::ext_equal]
pub ghost struct Counts {
    pub iterations: nat,
    pub input_tokens: nat,
    pub output_tokens: nat,
    pub denied: nat,
    pub unknown: nat,
}

/// What the events of a thread count up to.
pub open spec fn counted(events: Seq<EventEnvelopeView>) -> Counts
    decreases events.len(),
{
    if events.len() == 0 {
        Counts { iterations: 0, input_tokens: 0, output_tokens: 0, denied: 0, unknown: 0 }
    } else {
        let earlier = counted(events.drop_last());
        match events.last().event {
            RuntimeEventView::ModelRequestStarted { .. } => Counts {
                iterations: earlier.iterations + 1,
                ..earlier
            },
            RuntimeEventView::AssistantMessage { usage, .. } => Counts {
                input_tokens: earlier.input_tokens + usage.input_tokens as nat,
                output_tokens: earlier.output_tokens + usage.output_tokens as nat,
                ..earlier
            },
            RuntimeEventView::ToolReceiptRecorded { receipt } => match receipt.status {
                ReceiptStatus::Denied => Counts { denied: earlier.denied + 1, ..earlier },
                ReceiptStatus::Unknown => Counts { unknown: earlier.unknown + 1, ..earlier },
                _ => earlier,
            },
            _ => earlier,
        }
    }
}

/// Whether the token counts of a thread can be held.
pub open spec fn tokens_fit(events: Seq<EventEnvelopeView>) -> bool {
    counted(events).input_tokens <= u64::MAX && counted(events).output_tokens <= u64::MAX
}

proof fn lemma_counts_grow(events: Seq<EventEnvelopeView>, at: int)
    requires
        0 <= at <= events.len(),
    ensures
        counted(events.take(at)).input_tokens <= counted(events).input_tokens,
        counted(events.take(at)).output_tokens <= counted(events).output_tokens,
    decreases events.len() - at,
{
    if at < events.len() {
        lemma_counts_grow(events, at + 1);
        assert(events.take(at + 1).drop_last() =~= events.take(at));
    } else {
        assert(events.take(at) =~= events);
    }
}

/// What the events of a thread count up to.
#[derive(Debug, Clone, Copy, PartialEq, Eq)]
pub struct Tally {
    pub iterations: usize,
    pub tokens: TokenUsage,
    pub denied: usize,
    pub unknown: usize,
}

impl View for Tally {
    type V = Counts;

    open spec fn view(&self) -> Counts {
        Counts {
            iterations: self.iterations as nat,
            input_tokens: self.tokens.input_tokens as nat,
            output_tokens: self.tokens.output_tokens as nat,
            denied: self.denied as nat,
            unknown: self.unknown as nat,
        }
    }
}

/// Counts the events of a thread.
pub fn tally(events: &Vec<EventEnvelope>) -> (tally: Tally)
    requires
        tokens_fit(views(events@)),
    ensures
        tally@ == counted(views(events@)),
{
    let ghost all = views(events@);
    let mut tally = Tally {
        iterations: 0,
        tokens: TokenUsage { input_tokens: 0, output_tokens: 0 },
        denied: 0,
        unknown: 0,
    };
    let mut at: usize = 0;
    assert(all.take(0) =~= Seq::empty());
    while at < events.len()
        invariant
            at <= events@.len(),
            all == views(events@),
            tokens_fit(all),
            tally@ == counted(all.take(at as int)),
            tally.iterations <= at,
            tally.denied <= at,
            tally.unknown <= at,
        decreases events@.len() - at,
    {
        proof {
            let grown = all.take(at as int + 1);
            assert(grown.drop_last() =~= all.take(at as int));
            assert(grown.last() == events@[at as int]@);
            lemma_counts_grow(all, at as int + 1);
        }
        match &events[at].event {
            RuntimeEvent::ModelRequestStarted { .. } => {
                tally.iterations = tally.iterations + 1;
            },
            RuntimeEvent::AssistantMessage { usage, .. } => {
                tally.tokens.input_tokens = tally.tokens.input_tokens + usage.input_tokens;
                tally.tokens.output_tokens = tally.tokens.output_tokens + usage.output_tokens;
            },
            RuntimeEvent::ToolReceiptRecorded { receipt } => match receipt.status {
                ReceiptStatus::Denied => {
                    tally.denied = tally.denied + 1;
                },
                ReceiptStatus::Unknown => {
                    tally.unknown = tally.unknown + 1;
                },
                _ => {},
            },
            _ => {},
        }
        at = at + 1;
    }
    assert(all.take(at as int) =~= all);
    tally
}

/// What a run is known by.
#[derive(Debug, PartialEq, Eq)]
pub struct RunLabel {
    pub model: String,
    pub harness_version: String,
    pub artifact_directory: String,
    pub live_model: bool,
}

/// Whether success is claimed: by the task where there is one, else by the turn.
pub open spec fn claims_success(state: EvaluationView) -> bool {
    match state.task {
        Some(task) => task.state.status == TaskStatus::Succeeded,
        None => state.normal_completion,
    }
}

/// The status of the task.
pub open spec fn status_of(state: EvaluationView) -> Option<TaskStatus> {
    match state.task {
        Some(task) => Some(task.state.status),
        None => None,
    }
}

/// What a run showed.
pub open spec fn report_of(
    state: EvaluationView,
    label: RunLabel,
    events: Seq<EventEnvelopeView>,
    elapsed_ms: u128,
) -> RunReportView {
    let counts = counted(events);
    RunReportView {
        fixture: state.fixture,
        mode: state.mode,
        model: label.model@,
        harness_version: label.harness_version@,
        max_model_iterations_per_turn: MAX_ITERATIONS,
        artifact_directory: label.artifact_directory@,
        reported_success: claims_success(state),
        verified_success: state.verified_success,
        false_completion: claims_success(state) && !state.verified_success,
        attempts: state.attempts,
        model_iterations: counts.iterations as usize,
        elapsed_ms,
        tokens: TokenUsage {
            input_tokens: counts.input_tokens as u64,
            output_tokens: counts.output_tokens as u64,
        },
        live_model: label.live_model,
        interventions: if counts.unknown > 0 || status_of(state) == Some(TaskStatus::Blocked) {
            1
        } else {
            0
        },
        denied_receipts: counts.denied as usize,
        unknown_receipts: counts.unknown as usize,
        task_status: status_of(state),
        turn_errors: state.turn_errors,
    }
}

/// The course of one run. The host runs the turns and does the writing.
#[derive(Debug)]
pub struct Evaluation {
    fixture: Fixture,
    mode: Mode,
    task: Option<TaskJournal>,
    attempts: u32,
    normal_completion: bool,
    verified_success: bool,
    turn_errors: Vec<String>,
}

impl View for Evaluation {
    type V = EvaluationView;

    closed spec fn view(&self) -> EvaluationView {
        EvaluationView {
            fixture: self.fixture@,
            mode: self.mode,
            task: opt_view(self.task),
            attempts: self.attempts,
            normal_completion: self.normal_completion,
            verified_success: self.verified_success,
            turn_errors: views(self.turn_errors@),
        }
    }
}

impl Evaluation {
    /// Begins a run. In task mode its task is recorded first.
    pub fn begin<W: Fn(Record) -> WriteOutcome>(fixture: Fixture, mode: Mode, write: &W) -> (begun:
        Result<Self, TaskError>)
        requires
            forall|record: Record| call_requires(*write, (record,)),
        ensures
            begins(*write, fixture@, mode, res_view(begun)),
    {
        let task = match mode {
            Mode::CoreOnly => None,
            Mode::Task => {
                let journal = TaskJournal::create(task_spec(&fixture), write);
                assert(creates(*write, task_of(fixture@), res_view(journal)));
                match journal {
                    Ok(journal) => Some(journal),
                    Err(error) => {
                        return Err(error);
                    },
                }
            },
        };
        let evaluation = Evaluation {
            fixture,
            mode,
            task,
            attempts: 0,
            normal_completion: false,
            verified_success: false,
            turn_errors: Vec::new(),
        };
        assert(views(evaluation.turn_errors@) =~= Seq::empty());
        assert(evaluation@ == new_evaluation(fixture@, mode, opt_view(task)));
        Ok(evaluation)
    }

    /// The task, if there is one.
    pub fn task(&self) -> (task: Option<&TaskJournal>)
        ensures
            match task {
                Some(found) => self@.task == Some(found@),
                None => self@.task is None,
            },
    {
        match &self.task {
            Some(task) => Some(task),
            None => None,
        }
    }

    pub fn attempts(&self) -> (attempts: u32)
        ensures
            attempts == self@.attempts,
    {
        self.attempts
    }

    /// How many more records of the task can be numbered.
    pub fn room(&self) -> (room: usize)
        ensures
            room == (match self@.task {
                Some(task) => usize::MAX - task.sequence,
                None => usize::MAX as int,
            }),
    {
        match &self.task {
            Some(task) => usize::MAX - task.sequence(),
            None => usize::MAX,
        }
    }

    /// Starts an attempt. Call it before the turn.
    pub fn start_attempt<W: Fn(Record) -> WriteOutcome>(&mut self, turn_id: &TurnId, write: &W) -> (
    done: Result<(), TaskError>)
        requires
            forall|record: Record| call_requires(*write, (record,)),
            old(self)@.attempts < u32::MAX,
            old(self)@.task matches Some(task) ==> task.sequence < usize::MAX,
        ensures
            starts(*write, old(self)@, turn_id@, final(self)@, done_view(done)),
    {
        let mut task: Option<TaskJournal> = None;
        std::mem::swap(&mut task, &mut self.task);
        match task {
            None => {},
            Some(mut journal) => {
                let done = journal.start_attempt(turn_id.as_str().to_owned(), write);
                assert(transitions(
                    *write,
                    old(self)@.task->Some_0,
                    TaskEventView::AttemptStarted { turn_id: turn_id@ },
                    journal@,
                    done_view(done),
                ));
                self.task = Some(journal);
                match done {
                    Ok(()) => {},
                    Err(error) => {
                        assert(self@ == with_task(old(self)@, journal@));
                        return Err(error);
                    },
                }
            },
        }
        self.attempts = self.attempts + 1;
        Ok(())
    }

    /// What the attempt left behind, given the events of the thread and the contents of the
    /// file.
    pub fn judge(&self, turn_id: &TurnId, events: &Vec<EventEnvelope>, content: String) -> (attempt:
        Attempt)
        ensures
            attempt@ == attempt_of(self@.fixture, turn_id@, views(events@), content@),
    {
        let mut artifacts: Vec<ArtifactRef> = Vec::new();
        artifacts.push(ArtifactRef { id: "lib.rs".to_owned(), content });
        assert(views(artifacts@) =~= seq![ArtifactRefView { id: "lib.rs"@, content: content@ }]);
        let checks = CompletionGate::check(&task_spec(&self.fixture), &artifacts);
        Attempt {
            turn_id: turn_id.clone(),
            artifacts,
            checks,
            receipts: turn_receipts(events, turn_id),
        }
    }

    fn close_attempt(&mut self, attempt: &Attempt, ending: TurnEnding)
        ensures
            final(self)@ == closed_attempt(old(self)@, attempt@, ending),
    {
        let checks = CompletionGate::check(&task_spec(&self.fixture), &attempt.artifacts);
        self.verified_success = every_check_passed(&checks) && !has_unknown(&attempt.receipts);
        match ending {
            TurnEnding::Completed => {
                self.normal_completion = true;
            },
            TurnEnding::Failed(error) => {
                self.normal_completion = false;
                proof {
                    lemma_views_push(self.turn_errors@, error);
                }
                self.turn_errors.push(error);
            },
            TurnEnding::Interrupted => {
                let error =
                    "injected interruption at execution boundary; recovered without replay".to_owned();
                proof {
                    lemma_views_push(self.turn_errors@, error);
                }
                self.turn_errors.push(error);
            },
        }
    }

    fn go_on<W: Fn(Record) -> WriteOutcome>(&mut self, journal: TaskJournal, write: &W) -> (answer:
        Result<Option<String>, TaskError>)
        requires
            forall|record: Record| call_requires(*write, (record,)),
            journal@.sequence < usize::MAX,
        ensures
            goes_on(*write, old(self)@, journal@, final(self)@, answer_view(answer)),
    {
        let ghost given = journal@;
        let mut journal = journal;
        if !(journal.state().status == TaskStatus::NeedsRepair) {
            self.task = Some(journal);
            return Ok(None);
        }
        if self.normal_completion {
            let input = self.fixture.objective.clone().concat("\nVerification feedback:\n").concat(
                join(&journal.state().remaining_work, "\n").as_str(),
            );
            self.task = Some(journal);
            return Ok(Some(input));
        }
        let done = journal.block(
            "Core turn failed; host inspection required before further generation".to_owned(),
            write,
        );
        let ghost blocked = journal@;
        let ghost how = done_view(done);
        self.task = Some(journal);
        let answer = match done {
            Ok(()) => Ok(None),
            Err(error) => Err(error),
        };
        assert(transitions(
            *write,
            given,
            TaskEventView::Blocked { reason: failed_turn_reason() },
            blocked,
            how,
        ));
        assert(self@ == with_task(old(self)@, blocked));
        assert(blocks(*write, old(self)@, given, self@, answer_view(answer)));
        answer
    }

    /// Decides an attempt, given how its turn ended. The answer is what the next turn is
    /// asked, if there is one. Runtime errors are not a blanket permission to retry unknown
    /// effects.
    pub fn decide<W: Fn(Record) -> WriteOutcome>(
        &mut self,
        attempt: Attempt,
        ending: TurnEnding,
        write: &W,
    ) -> (answer: Result<Option<String>, TaskError>)
        requires
            forall|record: Record| call_requires(*write, (record,)),
            old(self)@.task matches Some(task) ==> task.sequence < usize::MAX - 1,
        ensures
            decides(
                *write,
                old(self)@,
                attempt@,
                ending,
                final(self)@,
                answer_view(answer),
            ),
    {
        let mut task: Option<TaskJournal> = None;
        std::mem::swap(&mut task, &mut self.task);
        match task {
            None => {
                self.close_attempt(&attempt, ending);
                Ok(None)
            },
            Some(journal) => {
                let mut journal = journal;
                let ghost before = journal@;
                let ghost emptied = self@;
                let done = journal.verify(
                    snapshot_all(&attempt.artifacts),
                    snapshot_all(&attempt.receipts),
                    write,
                );
                let ghost checked = journal@;
                let ghost how = done_view(done);
                assert(transitions(
                    *write,
                    before,
                    TaskEventView::AttemptChecked {
                        artifacts: attempt@.artifacts,
                        receipts: attempt@.receipts,
                    },
                    checked,
                    how,
                ));
                match done {
                    Err(error) => {
                        self.task = Some(journal);
                        assert(self@ == with_task(old(self)@, checked));
                        Err(error)
                    },
                    Ok(()) => {
                        self.close_attempt(&attempt, ending);
                        let ghost closed = self@;
                        let answer = self.go_on(journal, write);
                        proof {
                            lemma_task_is_replaced(
                                *write,
                                closed,
                                closed_attempt(old(self)@, attempt@, ending),
                                checked,
                                self@,
                                answer_view(answer),
                            );
                        }
                        answer
                    },
                }
            },
        }
    }

    /// What the run showed, given the events of its thread.
    pub fn report(&self, label: RunLabel, events: &Vec<EventEnvelope>, elapsed_ms: u128) -> (report:
        RunReport)
        requires
            tokens_fit(views(events@)),
        ensures
            report@ == report_of(self@, label, views(events@), elapsed_ms),
    {
        let tally = tally(events);
        let task_status = match &self.task {
            Some(task) => Some(task.state().status),
            None => None,
        };
        let mut reported_success = self.normal_completion;
        let mut blocked = false;
        match task_status {
            Some(status) => {
                reported_success = status == TaskStatus::Succeeded;
                blocked = status == TaskStatus::Blocked;
            },
            None => {},
        }
        RunReport {
            fixture: self.fixture.clone(),
            mode: self.mode,
            model: label.model,
            harness_version: label.harness_version,
            max_model_iterations_per_turn: MAX_ITERATIONS,
            artifact_directory: label.artifact_directory,
            reported_success,
            verified_success: self.verified_success,
            false_completion: reported_success && !self.verified_success,
            attempts: self.attempts,
            model_iterations: tally.iterations,
            elapsed_ms,
            tokens: tally.tokens,
            live_model: label.live_model,
            interventions: if tally.unknown > 0 || blocked {
                1
            } else {
                0
            },
            denied_receipts: tally.denied,
            unknown_receipts: tally.unknown,
            task_status,
            turn_errors: snapshot_all(&self.turn_errors),
        }
    }
}

/// The model of an answer to an attempt.
pub open spec fn answer_view(answer: Result<Option<String>, TaskError>) -> Result<
    Option<Seq<char>>,
    TaskErrorView,
> {
    match answer {
        Ok(input) => Ok(opt_view(input)),
        Err(error) => Err(error@),
    }
}

proof fn lemma_task_is_replaced<W: Fn(Record) -> WriteOutcome>(
    write: W,
    emptied: EvaluationView,
    state: EvaluationView,
    task: TaskJournalView,
    after: EvaluationView,
    answer: Result<Option<Seq<char>>, TaskErrorView>,
)
    requires
        goes_on(write, emptied, task, after, answer),
        emptied == (EvaluationView { task: emptied.task, ..state }),
    ensures
        goes_on(write, state, task, after, answer),
{
    if task.state.status == TaskStatus::NeedsRepair && !state.normal_completion {
        assert forall|blocked: TaskJournalView| with_task(emptied, blocked) == #[trigger] with_task(
            state,
            blocked,
        ) by {}
        let (blocked, done) = choose|
            blocked: TaskJournalView,
            done: Result<(), TaskErrorView>,
        | #[trigger]
            transitions(
                write,
                task,
                TaskEventView::Blocked { reason: failed_turn_reason() },
                blocked,
                done,
            ) && after == with_task(emptied, blocked) && answer == (match done {
                Ok(()) => Ok(None),
                Err(error) => Err::<Option<Seq<char>>, TaskErrorView>(error),
            });
        assert(after == with_task(state, blocked));
    }
}

// ---------------------------------------------------------------------------
// Laws
// ---------------------------------------------------------------------------

/// Whether an evaluation is honest: it has its fixture's task exactly in task mode, and the
/// task has succeeded only if the last attempt met it.
pub open spec fn honest(state: EvaluationView) -> bool {
    &&& (state.mode == Mode::Task) == (state.task is Some)
    &&& state.task matches Some(task) ==> {
        &&& task.state.spec == task_of(state.fixture)
        &&& task.state.status == TaskStatus::Succeeded ==> state.verified_success
    }
}

/// A new evaluation is honest.
pub proof fn law_evaluations_begin_honest<W: Fn(Record) -> WriteOutcome>(
    write: W,
    fixture: FixtureView,
    mode: Mode,
    begun: EvaluationView,
)
    requires
        begins(write, fixture, mode, Ok(begun)),
    ensures
        honest(begun),
{
}

/// An evaluation stays honest, however its attempts end and whatever is written.
pub proof fn law_evaluations_stay_honest<W: Fn(Record) -> WriteOutcome>(
    write: W,
    before: EvaluationView,
    turn_id: Seq<char>,
    started: EvaluationView,
    done: Result<(), TaskErrorView>,
    attempt: AttemptView,
    ending: TurnEnding,
    after: EvaluationView,
    answer: Result<Option<Seq<char>>, TaskErrorView>,
)
    requires
        honest(before),
        starts(write, before, turn_id, started, done),
        decides(write, started, attempt, ending, after, answer),
    ensures
        honest(started),
        honest(after),
{
}

/// With the acceptance of a task no false completion is reported.
pub proof fn law_tasks_report_no_false_completion(
    state: EvaluationView,
    label: RunLabel,
    events: Seq<EventEnvelopeView>,
    elapsed_ms: u128,
)
    requires
        honest(state),
        state.mode == Mode::Task,
    ensures
        !report_of(state, label, events, elapsed_ms).false_completion,
{
}

/// A turn that failed is not followed by another one.
pub proof fn law_failed_turns_are_not_repeated<W: Fn(Record) -> WriteOutcome>(
    write: W,
    before: EvaluationView,
    attempt: AttemptView,
    error: String,
    after: EvaluationView,
    answer: Result<Option<Seq<char>>, TaskErrorView>,
)
    requires
        decides(write, before, attempt, TurnEnding::Failed(error), after, answer),
    ensures
        !(answer matches Ok(Some(_))),
{
}

/// Unknown outcomes are never taken for success, and never followed by another attempt.
pub proof fn law_unknown_outcomes_end_the_run<W: Fn(Record) -> WriteOutcome>(
    write: W,
    before: EvaluationView,
    attempt: AttemptView,
    ending: TurnEnding,
    after: EvaluationView,
    answer: Result<Option<Seq<char>>, TaskErrorView>,
)
    requires
        any_unknown(attempt.receipts),
        decides(write, before, attempt, ending, after, answer),
        answer is Ok,
    ensures
        !after.verified_success,
        answer->Ok_0 is None,
{
}

} // verus!

//! What an evaluation asks, counts and reports.

use vstd::prelude::*;

use crate::event::{EventEnvelopeView, RuntimeEventView};
use crate::eval::{
    arguments_of, attempt_of, attempt_passed, begins, closed_attempt, counted, decides,
    fixture_complaint, fixture_policy_of, goes_on, live_body, live_complaint, live_config_of,
    receipts_of, report_of, scripted_answer, task_of, AttemptView, EvaluationView, FixtureView,
    LiveConfigView, Mode, RunLabel, TurnEnding,
};
use crate::json::{member, JsonView};
use crate::model::StopReason;
use crate::policy::{Access, CapabilityPolicy, PolicyContextView, ToolPolicy};
use crate::protocol::ReceiptStatus;
use crate::store::WriteOutcome;
use crate::task::{
    checks_of, creates, criterion_holds, Record, TaskErrorView, TaskJournalView, TaskStatus,
};
use crate::task_laws::{law_criteria_hold_for_one_exact_snapshot, law_every_criterion_is_checked};
use crate::text::{blank, join_of};

verus! {

/// The task of a fixture has its objective and its attempts, and one criterion: that the file
/// `lib.rs` has exactly the expected contents.
pub proof fn law_fixture_tasks_ask_for_the_expected_file(fixture: FixtureView)
    ensures
        ({
            let task = task_of(fixture);
            &&& task.objective == fixture.objective
            &&& task.budget.max_attempts == fixture.max_attempts
            &&& task.criteria.len() == 1
            &&& task.criteria[0].artifact_id == "lib.rs"@
            &&& task.criteria[0].expected == fixture.expected
        }),
{
}

/// An attempt is judged by the file alone: it passes exactly where the file has the expected
/// contents and no outcome is unknown, whatever the turn said.
pub proof fn law_attempts_pass_by_their_file(
    fixture: FixtureView,
    turn_id: Seq<char>,
    events: Seq<EventEnvelopeView>,
    content: Seq<char>,
)
    ensures
        ({
            let attempt = attempt_of(fixture, turn_id, events, content);
            let lost = exists|i: int|
                0 <= i < attempt.receipts.len() && (#[trigger] attempt.receipts[i]).status
                    == ReceiptStatus::Unknown;
            &&& attempt.turn_id == turn_id
            &&& attempt.artifacts.len() == 1
            &&& attempt.artifacts[0].id == "lib.rs"@
            &&& attempt.artifacts[0].content == content
            &&& attempt_passed(fixture, attempt) <==> content == fixture.expected && !lost
        }),
{
    let attempt = attempt_of(fixture, turn_id, events, content);
    let task = task_of(fixture);
    let criterion = task.criteria[0];
    law_criteria_hold_for_one_exact_snapshot(criterion, attempt.artifacts);
    law_every_criterion_is_checked(task, attempt.artifacts);
    assert(attempt.artifacts[0].id == criterion.artifact_id);
    let checks = checks_of(task, attempt.artifacts);
    assert(checks[0].passed == criterion_holds(criterion, attempt.artifacts));
}

/// The receipts of a turn are those of its own events, in their order.
pub proof fn law_receipts_are_those_of_the_turn(
    events: Seq<EventEnvelopeView>,
    record: EventEnvelopeView,
    turn_id: Seq<char>,
)
    ensures
        receipts_of(Seq::empty(), turn_id).len() == 0,
        match record.event {
            RuntimeEventView::ToolReceiptRecorded { receipt } => receipts_of(
                events.push(record),
                turn_id,
            ) == (if record.turn_id == Some(turn_id) {
                receipts_of(events, turn_id).push(receipt)
            } else {
                receipts_of(events, turn_id)
            }),
            _ => receipts_of(events.push(record), turn_id) == receipts_of(events, turn_id),
        },
{
    assert(events.push(record).drop_last() =~= events);
}

/// Model requests, tokens and receipts are counted up, each event once: a request adds a round,
/// an answer its tokens, and a receipt that is denied or unknown adds to its kind.
pub proof fn law_events_are_counted_once(
    events: Seq<EventEnvelopeView>,
    record: EventEnvelopeView,
)
    ensures
        ({
            let before = counted(events);
            let after = counted(events.push(record));
            &&& after.iterations == before.iterations + if record.event is ModelRequestStarted {
                1nat
            } else {
                0
            }
            &&& (record.event matches RuntimeEventView::AssistantMessage { usage, .. }
                ==> after.input_tokens == before.input_tokens + usage.input_tokens
                && after.output_tokens == before.output_tokens + usage.output_tokens)
            &&& !(record.event is AssistantMessage) ==> after.input_tokens == before.input_tokens
                && after.output_tokens == before.output_tokens
            &&& (record.event matches RuntimeEventView::ToolReceiptRecorded { receipt }
                ==> after.denied == before.denied + (if receipt.status == ReceiptStatus::Denied {
                1nat
            } else {
                0
            }) && after.unknown == before.unknown + (if receipt.status == ReceiptStatus::Unknown {
                1nat
            } else {
                0
            }))
            &&& !(record.event is ToolReceiptRecorded) ==> after.denied == before.denied
                && after.unknown == before.unknown
        }),
        counted(Seq::empty()).iterations == 0 && counted(Seq::empty()).input_tokens == 0 && counted(
            Seq::empty(),
        ).output_tokens == 0 && counted(Seq::empty()).denied == 0 && counted(Seq::empty()).unknown
            == 0,
{
    assert(events.push(record).drop_last() =~= events);
}

/// A report tells the run as it was: its fixture, its mode and its model, whether success was
/// claimed and whether it was verified, and a false completion exactly where it was claimed and
/// not verified. Somebody has to intervene where an outcome is unknown or the task is blocked.
pub proof fn law_reports_tell_the_run(
    state: EvaluationView,
    label: RunLabel,
    events: Seq<EventEnvelopeView>,
    elapsed_ms: u128,
)
    ensures
        ({
            let report = report_of(state, label, events, elapsed_ms);
            let counts = counted(events);
            let claimed = match state.task {
                Some(task) => task.state.status == TaskStatus::Succeeded,
                None => state.normal_completion,
            };
            let blocked = state.task matches Some(task) && task.state.status
                == TaskStatus::Blocked;
            &&& report.fixture == state.fixture
            &&& report.mode == state.mode
            &&& report.model == label.model@
            &&& report.harness_version == label.harness_version@
            &&& report.artifact_directory == label.artifact_directory@
            &&& report.live_model == label.live_model
            &&& report.reported_success == claimed
            &&& report.verified_success == state.verified_success
            &&& report.false_completion == (claimed && !state.verified_success)
            &&& report.attempts == state.attempts
            &&& report.elapsed_ms == elapsed_ms
            &&& report.turn_errors == state.turn_errors
            &&& report.interventions == (if counts.unknown > 0 || blocked {
                1u32
            } else {
                0
            })
            &&& (counts.input_tokens <= u64::MAX ==> report.tokens.input_tokens
                == counts.input_tokens)
            &&& (counts.output_tokens <= u64::MAX ==> report.tokens.output_tokens
                == counts.output_tokens)
            &&& (counts.iterations <= usize::MAX ==> report.model_iterations == counts.iterations)
            &&& (counts.denied <= usize::MAX ==> report.denied_receipts == counts.denied)
            &&& (counts.unknown <= usize::MAX ==> report.unknown_receipts == counts.unknown)
            &&& report.task_status == (match state.task {
                Some(task) => Some(task.state.status),
                None => None,
            })
        }),
{
}

/// Success of a closed attempt is what its checks say, not how its turn ended. A turn that failed
/// leaves its message, word for word.
pub proof fn law_closed_attempts_are_judged_by_their_checks(
    state: EvaluationView,
    attempt: AttemptView,
    error: String,
)
    ensures
        ({
            let completed = closed_attempt(state, attempt, TurnEnding::Completed);
            let failed = closed_attempt(state, attempt, TurnEnding::Failed(error));
            let stopped = closed_attempt(state, attempt, TurnEnding::Interrupted);
            let passed = attempt_passed(state.fixture, attempt);
            &&& completed.verified_success == passed && failed.verified_success == passed
                && stopped.verified_success == passed
            &&& completed.normal_completion && !failed.normal_completion
            &&& completed.turn_errors == state.turn_errors
            &&& failed.turn_errors == state.turn_errors.push(error@)
            &&& stopped.turn_errors.len() == state.turn_errors.len() + 1
            &&& completed.attempts == state.attempts && failed.attempts == state.attempts
            &&& completed.task == state.task && failed.task == state.task
        }),
{
}

/// Another turn is asked for only where the task needs repair and the turn completed. It is asked
/// the objective, with everything that is left to do.
pub proof fn law_repairs_are_asked_with_what_is_left<W: Fn(Record) -> WriteOutcome>(
    write: W,
    state: EvaluationView,
    task: TaskJournalView,
    after: EvaluationView,
    input: Seq<char>,
)
    requires
        goes_on(write, state, task, after, Ok(Some(input))),
    ensures
        task.state.status == TaskStatus::NeedsRepair,
        state.normal_completion,
        input == state.fixture.objective + "\nVerification feedback:\n"@ + join_of(
            task.state.remaining_work,
            "\n"@,
        ),
        after.task == Some(task),
{
}

/// The scripted model writes, on every other request, the next proposal into `lib.rs`, or the last
/// one again once they are used up; in between it ends the turn.
pub proof fn law_scripts_propose_in_order(fixture: FixtureView, number: nat, id: Seq<char>)
    requires
        fixture.proposals.len() > 0,
    ensures
        ({
            let answer = scripted_answer(fixture, number, id);
            let turn = number / 2;
            &&& answer matches Ok(response)
            &&& number % 2 == 1 ==> response.stop_reason == StopReason::EndTurn
                && response.tool_calls.len() == 0
            &&& number % 2 == 0 ==> {
                let call = response.tool_calls[0];
                &&& response.stop_reason == StopReason::ToolUse
                &&& response.tool_calls.len() == 1
                &&& call.id == id
                &&& call.name == "write_file"@
                &&& member(call.arguments, "path"@) == Some(JsonView::Text("lib.rs"@))
                &&& turn < fixture.proposals.len() ==> member(call.arguments, "content"@) == Some(
                    JsonView::Text(fixture.proposals[turn as int]),
                )
                &&& turn >= fixture.proposals.len() ==> member(call.arguments, "content"@) == Some(
                    JsonView::Text(fixture.proposals.last()),
                )
            }
        }),
{
    reveal_strlit("path");
    reveal_strlit("content");
    assert("path"@.len() == 4 && "content"@.len() == 7);
}

/// A run may write files, unless its fixture denies it, and nothing else.
pub proof fn law_runs_may_write_files_alone(
    fixture: FixtureView,
    policy: CapabilityPolicy,
    name: Seq<char>,
    context: PolicyContextView,
)
    requires
        policy@ == fixture_policy_of(fixture),
    ensures
        policy.grants(name, context) == Access::Allow <==> name == "write_file"@
            && !fixture.deny_write,
        policy.grants(name, context) != Access::Ask,
{
}

/// A fixture is run exactly where its version is known, it has a proposal and an attempt, and an
/// interruption is asked of the scripted model alone.
pub proof fn law_fixtures_are_refused_for_a_reason(fixture: FixtureView, live_model: bool)
    ensures
        fixture_complaint(fixture, live_model) is None <==> fixture.version == 1
            && fixture.proposals.len() > 0 && fixture.max_attempts > 0 && !(live_model
            && fixture.interrupt_execution),
{
}

/// A live model is used exactly where it is pinned, its endpoint holds no credentials, query or
/// fragment, and its timeout is between one and three hundred seconds.
pub proof fn law_live_models_are_pinned(config: LiveConfigView)
    ensures
        live_complaint(config) is None <==> !blank(config.model_snapshot) && !blank(config.revision)
            && !config.endpoint.contains('@') && !config.endpoint.contains('?')
            && !config.endpoint.contains('#') && 1 <= config.timeout_seconds <= 300,
{
}

/// The settings of a live model are read from the members of their names. Only the timeout may be
/// left out, and no other member may be there.
pub proof fn law_live_settings_are_read_by_name(value: JsonView)
    ensures
        live_config_of(value) matches Some(config) ==> {
            &&& member(value, "endpoint"@) == Some(JsonView::Text(config.endpoint))
            &&& member(value, "model_snapshot"@) == Some(JsonView::Text(config.model_snapshot))
            &&& member(value, "revision"@) == Some(JsonView::Text(config.revision))
            &&& member(value, "timeout_seconds"@) is None ==> config.timeout_seconds == 30
            &&& member(value, "timeout_seconds"@) is Some ==> member(value, "timeout_seconds"@)
                == Some(JsonView::Integer(config.timeout_seconds as int))
            &&& forall|key: Seq<char>| #[trigger]
                value->Object_0.contains_key(key) ==> key == "endpoint"@ || key
                    == "model_snapshot"@ || key == "revision"@ || key == "timeout_seconds"@
        },
{
}

/// A live model is asked without chance, and for at most a thousand and twenty-four tokens.
pub proof fn law_live_models_are_asked_the_same_way()
    ensures
        live_body().contains_key("temperature"@) && live_body()["temperature"@]
            == JsonView::Integer(0),
        live_body().contains_key("max_completion_tokens"@) && live_body()["max_completion_tokens"@]
            == JsonView::Integer(1024),
{
    reveal_strlit("temperature");
    reveal_strlit("max_completion_tokens");
    assert("temperature"@.len() == 11 && "max_completion_tokens"@.len() == 21);
}

/// The output directory is what stands behind `--output`, and the settings of a live model what
/// stands behind `--live-config`, in any order; the directory must be given.
pub proof fn law_arguments_are_read_by_their_flags(directory: Seq<char>, config: Seq<char>)
    ensures
        arguments_of(seq!["--output"@, directory], 0, None, None) == Ok::<
            (Seq<char>, Option<Seq<char>>),
            Seq<char>,
        >((directory, None)),
        arguments_of(
            seq!["--output"@, directory, "--live-config"@, config],
            0,
            None,
            None,
        ) == Ok::<(Seq<char>, Option<Seq<char>>), Seq<char>>((directory, Some(config))),
        arguments_of(
            seq!["--live-config"@, config, "--output"@, directory],
            0,
            None,
            None,
        ) == Ok::<(Seq<char>, Option<Seq<char>>), Seq<char>>((directory, Some(config))),
        arguments_of(seq!["--live-config"@, config], 0, None, None) is Err,
        arguments_of(Seq::empty(), 0, None, None) is Err,
{
    reveal_strlit("--output");
    reveal_strlit("--live-config");
    assert("--output"@.len() == 8 && "--live-config"@.len() == 13);
    reveal_with_fuel(arguments_of, 4);
    let one = seq!["--output"@, directory];
    let two = seq!["--output"@, directory, "--live-config"@, config];
    let three = seq!["--live-config"@, config, "--output"@, directory];
    let four = seq!["--live-config"@, config];
    assert(one[0] == "--output"@ && one[1] == directory);
    assert(two[0] == "--output"@ && two[1] == directory && two[2] == "--live-config"@ && two[3]
        == config);
    assert(three[0] == "--live-config"@ && three[1] == config && three[2] == "--output"@ && three[3]
        == directory);
    assert(four[0] == "--live-config"@ && four[1] == config);
}

/// An evaluation begins with nothing done and nothing won. A control run has no task; a run with a
/// task begins once the journal of the task exists, and with that journal.
pub proof fn law_evaluations_begin_with_nothing_done<W: Fn(Record) -> WriteOutcome>(
    write: W,
    fixture: FixtureView,
    mode: Mode,
    begun: Result<EvaluationView, TaskErrorView>,
)
    requires
        begins(write, fixture, mode, begun),
    ensures
        mode == Mode::CoreOnly ==> begun is Ok,
        begun matches Ok(state) ==> {
            &&& state.fixture == fixture
            &&& state.mode == mode
            &&& state.attempts == 0
            &&& !state.normal_completion
            &&& !state.verified_success
            &&& state.turn_errors.len() == 0
            &&& state.task is None <==> mode == Mode::CoreOnly
            &&& state.task matches Some(task) ==> creates(write, task_of(fixture), Ok(task))
        },
        mode == Mode::Task ==> (begun matches Err(error) ==> creates(
            write,
            task_of(fixture),
            Err(error),
        )),
{
}

/// A control run is never repaired: it has no task to tell what is left.
pub proof fn law_control_runs_are_not_repaired<W: Fn(Record) -> WriteOutcome>(
    write: W,
    before: EvaluationView,
    attempt: AttemptView,
    ending: TurnEnding,
    after: EvaluationView,
    answer: Result<Option<Seq<char>>, TaskErrorView>,
)
    requires
        before.task is None,
        decides(write, before, attempt, ending, after, answer),
    ensures
        answer == Ok::<Option<Seq<char>>, TaskErrorView>(None),
        after.task is None,
        after.attempts == before.attempts,
        after.fixture == before.fixture,
{
}

/// A run with a task whose check cannot be recorded stops with that error, and nothing is won.
pub proof fn law_unrecorded_checks_stop_the_run<W: Fn(Record) -> WriteOutcome>(
    write: W,
    before: EvaluationView,
    attempt: AttemptView,
    ending: TurnEnding,
    after: EvaluationView,
    error: TaskErrorView,
)
    requires
        decides(write, before, attempt, ending, after, Err(error)),
    ensures
        before.task is Some,
        after.task is Some,
        after.attempts == before.attempts,
        after.fixture == before.fixture,
{
}

} // verus!

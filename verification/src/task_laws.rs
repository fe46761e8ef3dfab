//! What the acceptance of a task decides.

use vstd::prelude::*;

use crate::context::{
    CompiledContext, CompiledContextView, ContextCompiler, ContextError, ContextInput,
    PromptLayer, PromptSegmentView,
};
use crate::protocol::{ReceiptStatus, ToolReceiptView};
use crate::task::{
    applied, checks_of, contract_of, created, creates, criterion_holds, criterion_ids,
    criterion_text, initial_of, open_work, pinned_of, pins, record_of, recorded, snapshots_of,
    spec_text, task_appended, task_replayed, task_restored, transitions, turn_used,
    ArtifactRefView, AttemptEvidenceView, CheckEvidenceView, CriterionView, Record, TaskErrorView,
    TaskEventView, TaskJournalView, TaskLineView, TaskSpecView, TaskStateView, TaskStatus,
};
use crate::store::WriteOutcome;
use crate::text::{blank, decimal_of, join_of, occurs, stands_at};
use crate::text_laws::law_joined_texts_hold_each_part;
use crate::wire::{array_text, member_text, object_text, quoted};
use crate::json::{json_text, JsonView};

verus! {

proof fn lemma_snapshots(artifacts: Seq<ArtifactRefView>, id: Seq<char>)
    ensures
        snapshots_of(artifacts, id).len() == 0 <==> forall|i: int|
            0 <= i < artifacts.len() ==> (#[trigger] artifacts[i]).id != id,
        forall|i: int|
            0 <= i < artifacts.len() && (#[trigger] artifacts[i]).id == id ==> snapshots_of(
                artifacts,
                id,
            ).contains(artifacts[i]),
        snapshots_of(artifacts, id).len() == 1 ==> exists|i: int|
            0 <= i < artifacts.len() && (#[trigger] artifacts[i]).id == id && artifacts[i]
                == snapshots_of(artifacts, id)[0] && forall|j: int|
                0 <= j < artifacts.len() && j != i ==> (#[trigger] artifacts[j]).id != id,
        forall|i: int, j: int|
            0 <= i < j < artifacts.len() && (#[trigger] artifacts[i]).id == id && (
            #[trigger] artifacts[j]).id == id ==> snapshots_of(artifacts, id).len() >= 2,
    decreases artifacts.len(),
{
    reveal(Seq::filter);
    if artifacts.len() > 0 {
        let front = artifacts.drop_last();
        let last = artifacts.last();
        lemma_snapshots(front, id);
        let earlier = snapshots_of(front, id);
        let found = snapshots_of(artifacts, id);
        assert(artifacts[artifacts.len() - 1] == last);
        assert forall|i: int| 0 <= i < front.len() implies #[trigger] front[i] == artifacts[i] by {}
        assert(found == if last.id == id {
            earlier.push(last)
        } else {
            earlier
        });
        assert forall|i: int|
            0 <= i < artifacts.len() && (#[trigger] artifacts[i]).id == id implies found.contains(
            artifacts[i],
        ) by {
            if i < front.len() {
                assert(front[i] == artifacts[i]);
                assert(earlier.contains(front[i]));
                let k = choose|k: int| 0 <= k < earlier.len() && earlier[k] == front[i];
                assert(found[k] == front[i]);
            } else {
                assert(found[earlier.len() as int] == last);
            }
        }
        if found.len() == 0 {
            assert forall|i: int| 0 <= i < artifacts.len() implies (#[trigger] artifacts[i]).id
                != id by {
                if i < front.len() {
                    assert(front[i] == artifacts[i]);
                }
            }
        }
        if forall|i: int| 0 <= i < artifacts.len() ==> (#[trigger] artifacts[i]).id != id {
            assert forall|i: int| 0 <= i < front.len() implies (#[trigger] front[i]).id != id by {
                assert(front[i] == artifacts[i]);
            }
        }
        if found.len() == 1 {
            if last.id == id {
                assert(earlier.len() == 0);
                assert forall|j: int|
                    0 <= j < artifacts.len() && j != artifacts.len() - 1 implies (
                #[trigger] artifacts[j]).id != id by {
                    assert(front[j] == artifacts[j]);
                }
                assert(artifacts[artifacts.len() - 1] == found[0]);
            } else {
                let i = choose|i: int|
                    0 <= i < front.len() && (#[trigger] front[i]).id == id && front[i]
                        == earlier[0] && forall|j: int|
                        0 <= j < front.len() && j != i ==> (#[trigger] front[j]).id != id;
                assert(artifacts[i] == front[i]);
                assert forall|j: int| 0 <= j < artifacts.len() && j != i implies (
                #[trigger] artifacts[j]).id != id by {
                    if j < front.len() {
                        assert(front[j] == artifacts[j]);
                    }
                }
            }
        }
        assert forall|i: int, j: int|
            0 <= i < j < artifacts.len() && (#[trigger] artifacts[i]).id == id && (
            #[trigger] artifacts[j]).id == id implies found.len() >= 2 by {
            assert(front[i] == artifacts[i]);
            if j < front.len() {
                assert(front[j] == artifacts[j]);
            } else {
                assert(earlier.contains(front[i]));
                assert(earlier.len() >= 1);
            }
        }
    }
}

/// A criterion holds exactly where there is one snapshot of its artifact, no second one, and
/// that one has the expected content, character for character.
pub proof fn law_criteria_hold_for_one_exact_snapshot(
    criterion: CriterionView,
    artifacts: Seq<ArtifactRefView>,
)
    ensures
        criterion_holds(criterion, artifacts) <==> exists|i: int|
            0 <= i < artifacts.len() && (#[trigger] artifacts[i]).id == criterion.artifact_id
                && artifacts[i].content == criterion.expected && forall|j: int|
                0 <= j < artifacts.len() && j != i ==> (#[trigger] artifacts[j]).id
                    != criterion.artifact_id,
{
    let id = criterion.artifact_id;
    lemma_snapshots(artifacts, id);
    let found = snapshots_of(artifacts, id);
    if criterion_holds(criterion, artifacts) {
        let i = choose|i: int|
            0 <= i < artifacts.len() && (#[trigger] artifacts[i]).id == id && artifacts[i]
                == found[0] && forall|j: int|
                0 <= j < artifacts.len() && j != i ==> (#[trigger] artifacts[j]).id != id;
        assert(artifacts[i].content == criterion.expected);
    }
    if exists|i: int|
        0 <= i < artifacts.len() && (#[trigger] artifacts[i]).id == id && artifacts[i].content
            == criterion.expected && forall|j: int|
            0 <= j < artifacts.len() && j != i ==> (#[trigger] artifacts[j]).id != id {
        let i = choose|i: int|
            0 <= i < artifacts.len() && (#[trigger] artifacts[i]).id == id && artifacts[i].content
                == criterion.expected && forall|j: int|
                0 <= j < artifacts.len() && j != i ==> (#[trigger] artifacts[j]).id != id;
        assert(found.contains(artifacts[i]));
        lemma_only_snapshot(artifacts, id, i);
    }
}

proof fn lemma_only_snapshot(artifacts: Seq<ArtifactRefView>, id: Seq<char>, at: int)
    requires
        0 <= at < artifacts.len(),
        artifacts[at].id == id,
        forall|j: int| 0 <= j < artifacts.len() && j != at ==> (#[trigger] artifacts[j]).id != id,
    ensures
        snapshots_of(artifacts, id) == seq![artifacts[at]],
    decreases artifacts.len(),
{
    reveal(Seq::filter);
    let front = artifacts.drop_last();
    if at == artifacts.len() - 1 {
        assert forall|i: int| 0 <= i < front.len() implies (#[trigger] front[i]).id != id by {
            assert(front[i] == artifacts[i]);
        }
        lemma_snapshots(front, id);
        assert(snapshots_of(front, id) =~= Seq::empty());
        assert(snapshots_of(artifacts, id) =~= seq![artifacts[at]]);
    } else {
        assert forall|j: int| 0 <= j < front.len() && j != at implies (#[trigger] front[j]).id
            != id by {
            assert(front[j] == artifacts[j]);
        }
        assert(front[at] == artifacts[at]);
        lemma_only_snapshot(front, id, at);
        assert(artifacts[artifacts.len() - 1].id != id);
    }
}

/// A check has one piece of evidence for each criterion, in their order, under its id and its
/// artifact, and it passed exactly where the criterion holds.
pub proof fn law_every_criterion_is_checked(spec_: TaskSpecView, artifacts: Seq<ArtifactRefView>)
    ensures
        checks_of(spec_, artifacts).len() == spec_.criteria.len(),
        forall|i: int|
            0 <= i < spec_.criteria.len() ==> {
                let check = #[trigger] checks_of(spec_, artifacts)[i];
                &&& check.criterion_id == spec_.criteria[i].id
                &&& check.artifact_id == spec_.criteria[i].artifact_id
                &&& check.passed == criterion_holds(spec_.criteria[i], artifacts)
            },
{
}

/// A task can be begun exactly where it has an objective, criteria, each with an id of its own
/// and an artifact, and at least one attempt. It then is ready, was never attempted, has no
/// evidence, and everything is left to do.
pub proof fn law_tasks_begin_ready(spec_: TaskSpecView)
    ensures
        initial_of(spec_) is Ok <==> {
            &&& !blank(spec_.objective)
            &&& spec_.criteria.len() > 0
            &&& spec_.budget.max_attempts > 0
            &&& forall|i: int|
                0 <= i < spec_.criteria.len() ==> !blank((#[trigger] spec_.criteria[i]).id)
                    && !blank(spec_.criteria[i].artifact_id)
            &&& forall|i: int, j: int|
                0 <= i < j < spec_.criteria.len() ==> (#[trigger] spec_.criteria[i]).id != (
                #[trigger] spec_.criteria[j]).id
        },
        initial_of(spec_) matches Ok(state) ==> {
            &&& state.spec == spec_
            &&& state.status == TaskStatus::Ready
            &&& state.attempts == 0
            &&& state.evidence.len() == 0
            &&& state.active_turn is None
            &&& state.remaining_work.len() == spec_.criteria.len()
            &&& forall|i: int|
                0 <= i < spec_.criteria.len() ==> #[trigger] state.remaining_work[i]
                    == spec_.criteria[i].id
        },
{
    let ids = criterion_ids(spec_.criteria);
    assert forall|i: int| 0 <= i < ids.len() implies #[trigger] ids[i] == spec_.criteria[i].id by {}
    if ids.no_duplicates() {
        assert forall|i: int, j: int| 0 <= i < j < spec_.criteria.len() implies (
        #[trigger] spec_.criteria[i]).id != (#[trigger] spec_.criteria[j]).id by {
            assert(ids[i] != ids[j]);
        }
    } else {
        let (i, j) = choose|i: int, j: int|
            0 <= i < ids.len() && 0 <= j < ids.len() && i != j && ids[i] == ids[j];
        if i < j {
            assert(spec_.criteria[i].id == spec_.criteria[j].id);
        } else {
            assert(spec_.criteria[j].id == spec_.criteria[i].id);
        }
    }
}

/// Whether a turn was attempted before.
pub open spec fn attempted(evidence: Seq<AttemptEvidenceView>, turn_id: Seq<char>) -> bool {
    exists|i: int| 0 <= i < evidence.len() && (#[trigger] evidence[i]).turn_id == turn_id
}

/// An attempt is begun where the task is ready or needs repair, an attempt is left, and the
/// turn is named and new. It then runs in that turn, one attempt up.
pub proof fn law_attempts_are_begun_within_the_budget(state: TaskStateView, turn_id: Seq<char>)
    ensures
        ({
            let next = applied(state, TaskEventView::AttemptStarted { turn_id });
            &&& next is Ok <==> {
                &&& state.status == TaskStatus::Ready || state.status == TaskStatus::NeedsRepair
                &&& state.attempts < state.spec.budget.max_attempts
                &&& !blank(turn_id)
                &&& !attempted(state.evidence, turn_id)
            }
            &&& next matches Ok(running) ==> running == (TaskStateView {
                attempts: (state.attempts + 1) as u32,
                active_turn: Some(turn_id),
                status: TaskStatus::Running,
                ..state
            }) && running.attempts == state.attempts + 1
        }),
{
    assert(turn_used(state.evidence, turn_id) == attempted(state.evidence, turn_id));
}

/// A checked attempt leaves evidence of its turn, its number, its artifacts, its receipts and
/// one check for each criterion. The task is blocked where an outcome is unknown, else it
/// succeeded where every criterion holds, else its budget is exhausted where this was the last
/// attempt, and else it needs repair.
pub proof fn law_checked_attempts_decide_the_task(
    state: TaskStateView,
    artifacts: Seq<ArtifactRefView>,
    receipts: Seq<ToolReceiptView>,
)
    requires
        state.status == TaskStatus::Running,
        state.active_turn is Some,
    ensures
        ({
            let lost = exists|i: int|
                0 <= i < receipts.len() && (#[trigger] receipts[i]).status
                    == ReceiptStatus::Unknown;
            let done = forall|i: int|
                0 <= i < state.spec.criteria.len() ==> criterion_holds(
                    #[trigger] state.spec.criteria[i],
                    artifacts,
                );
            let last = state.attempts == state.spec.budget.max_attempts;
            &&& applied(
                state,
                TaskEventView::AttemptChecked { artifacts, receipts },
            ) matches Ok(next)
            &&& next.status == (if lost {
                TaskStatus::Blocked
            } else if done {
                TaskStatus::Succeeded
            } else if last {
                TaskStatus::BudgetExhausted
            } else {
                TaskStatus::NeedsRepair
            })
            &&& next.spec == state.spec
            &&& next.attempts == state.attempts
            &&& next.active_turn is None
            &&& next.evidence.len() == state.evidence.len() + 1
            &&& next.evidence.drop_last() == state.evidence
            &&& Some(next.evidence.last().turn_id) == state.active_turn
            &&& next.evidence.last().attempt == state.attempts
            &&& next.evidence.last().artifacts == artifacts
            &&& next.evidence.last().receipts == receipts
            &&& next.evidence.last().checks == checks_of(state.spec, artifacts)
            &&& done && !lost ==> next.remaining_work.len() == 0
            &&& !done ==> next.remaining_work.len() > 0
        }),
{
    let checks = checks_of(state.spec, artifacts);
    let criteria = state.spec.criteria;
    assert forall|i: int| 0 <= i < criteria.len() implies (#[trigger] checks[i]).passed
        == criterion_holds(criteria[i], artifacts) by {}
    let done = forall|i: int|
        0 <= i < criteria.len() ==> criterion_holds(#[trigger] criteria[i], artifacts);
    if done {
        assert forall|i: int| 0 <= i < checks.len() implies (#[trigger] checks[i]).passed by {
            assert(criterion_holds(criteria[i], artifacts));
        }
    } else {
        let i = choose|i: int|
            0 <= i < criteria.len() && !criterion_holds(#[trigger] criteria[i], artifacts);
        assert(!checks[i].passed);
    }
    lemma_open_work(checks);
    let next = applied(state, TaskEventView::AttemptChecked { artifacts, receipts })->Ok_0;
    assert(next.evidence.drop_last() =~= state.evidence);
}

proof fn lemma_open_work(checks: Seq<CheckEvidenceView>)
    ensures
        open_work(checks).len() == 0 <==> forall|i: int|
            0 <= i < checks.len() ==> (#[trigger] checks[i]).passed,
    decreases checks.len(),
{
    if checks.len() > 0 {
        let front = checks.drop_last();
        lemma_open_work(front);
        assert(checks[checks.len() - 1] == checks.last());
        if forall|i: int| 0 <= i < checks.len() ==> (#[trigger] checks[i]).passed {
            assert forall|i: int| 0 <= i < front.len() implies (#[trigger] front[i]).passed by {
                assert(front[i] == checks[i]);
            }
        }
        if open_work(checks).len() == 0 {
            assert forall|i: int| 0 <= i < checks.len() implies (#[trigger] checks[i]).passed by {
                if i < front.len() {
                    assert(front[i] == checks[i]);
                }
            }
        }
    }
}

/// What is left to do is the feedback of each check that did not pass, in their order.
pub proof fn law_open_work_is_the_feedback(
    checks: Seq<CheckEvidenceView>,
    check: CheckEvidenceView,
)
    ensures
        open_work(Seq::empty()).len() == 0,
        open_work(checks.push(check)) == (if check.passed {
            open_work(checks)
        } else {
            open_work(checks).push(check.feedback)
        }),
{
    assert(checks.push(check).drop_last() =~= checks);
}

/// A task is blocked for a reason, while it is not at its end, and the reason is what is left
/// to do.
pub proof fn law_tasks_are_blocked_for_a_reason(state: TaskStateView, reason: Seq<char>)
    ensures
        ({
            let next = applied(state, TaskEventView::Blocked { reason });
            let open = state.status == TaskStatus::Ready || state.status == TaskStatus::Running
                || state.status == TaskStatus::NeedsRepair;
            &&& next is Ok <==> open && !blank(reason)
            &&& next matches Ok(blocked) ==> blocked.status == TaskStatus::Blocked
                && blocked.remaining_work == state.remaining_work.push(reason) && blocked.spec
                == state.spec && blocked.attempts == state.attempts && blocked.evidence
                == state.evidence
        }),
{
}

/// A durable record moves the journal to the next state and number, any other leaves both. Only
/// a write that failed bars later ones.
pub proof fn law_only_durable_records_count(
    journal: TaskJournalView,
    next: TaskStateView,
    outcome: WriteOutcome,
)
    requires
        !journal.write_failed,
    ensures
        ({
            let (after, answer) = task_appended(journal, next, outcome);
            &&& answer is Ok <==> outcome is Durable
            &&& answer is Ok ==> after.state == next && after.sequence == journal.sequence + 1
            &&& answer is Err ==> after.state == journal.state && after.sequence == journal.sequence
            &&& after.write_failed <==> outcome is Failed
        }),
        created(next, outcome) is Ok <==> outcome is Durable,
        created(next, outcome) matches Ok(made) ==> made.state == next && made.sequence == 1
            && !made.write_failed,
{
}

/// A journal begins with the record that creates its task, under number nought, and restores to
/// the state in which the task begins.
pub proof fn law_journals_begin_with_their_task(spec_: TaskSpecView, first: TaskStateView)
    requires
        initial_of(spec_) == Ok::<TaskStateView, TaskErrorView>(first),
    ensures
        record_of(0, TaskEventView::Created { spec: spec_ }).sequence == 0,
        task_restored(
            seq![TaskLineView::Record(record_of(0, TaskEventView::Created { spec: spec_ }))],
        ) == Ok::<TaskStateView, TaskErrorView>(first),
        task_restored(Seq::empty()) is Err,
{
    let lines = seq![TaskLineView::Record(record_of(0, TaskEventView::Created { spec: spec_ }))];
    reveal_with_fuel(task_replayed, 3);
    assert(lines[0] == TaskLineView::Record(
        record_of(0, TaskEventView::Created { spec: spec_ }),
    ));
}

/// The contract of a task stands in front of the prompt, as a stable segment, and the rest of
/// the context is as it was.
pub proof fn law_contracts_stand_in_front(spec_: TaskSpecView, context: CompiledContextView)
    ensures
        ({
            let pinned = pinned_of(contract_of(spec_), context);
            &&& pinned.prompt.len() == context.prompt.len() + 1
            &&& pinned.prompt[0] == contract_of(spec_)
            &&& pinned.prompt.skip(1) == context.prompt
            &&& pinned.messages == context.messages
            &&& contract_of(spec_).layer == PromptLayer::Stable
            &&& contract_of(spec_).text == "Host task contract (context, not tool authority):\n"@
                + spec_text(spec_)
        }),
{
    assert(pinned_of(contract_of(spec_), context).prompt.skip(1) =~= context.prompt);
}

/// A change of a task is written under the next number before it counts, and counts as it was
/// planned. A refused change, and one of a poisoned journal, writes nothing.
pub proof fn law_changes_are_written_before_they_count<W: Fn(Record) -> WriteOutcome>(
    write: W,
    before: TaskJournalView,
    event: TaskEventView,
    after: TaskJournalView,
    done: Result<(), TaskErrorView>,
)
    requires
        transitions(write, before, event, after, done),
        before.sequence <= usize::MAX,
    ensures
        done is Ok ==> {
            &&& applied(before.state, event) == Ok::<TaskStateView, TaskErrorView>(after.state)
            &&& after.sequence == before.sequence + 1
            &&& !before.write_failed
            &&& exists|line: Record, outcome: WriteOutcome|
                line@.sequence == before.sequence && line@.payload == event && outcome is Durable
                    && #[trigger] call_ensures(write, (line,), outcome)
        },
        done is Err ==> after.state == before.state && after.sequence == before.sequence,
        applied(before.state, event) is Err ==> done is Err && after == before,
{
    if applied(before.state, event) is Ok && !before.write_failed {
        let next = applied(before.state, event)->Ok_0;
        let told = record_of(before.sequence, event);
        let outcome = choose|outcome: WriteOutcome| #[trigger]
            recorded(write, told, outcome) && (after, done) == task_appended(
                before,
                next,
                outcome,
            );
        let line = choose|line: Record|
            line@ == told && #[trigger] call_ensures(write, (line,), outcome);
        assert(call_ensures(write, (line,), outcome));
    }
}

/// A context with a contract is what the inner compiler made, with the contract in front.
pub proof fn law_contracts_are_pinned_to_the_context<C: ContextCompiler>(
    inner: C,
    contract: PromptSegmentView,
    input: ContextInput,
    compiled: Result<CompiledContext, ContextError>,
)
    requires
        pins(inner, contract, input, compiled),
    ensures
        exists|made: Result<CompiledContext, ContextError>| #[trigger]
            call_ensures(C::compile, (&inner, input), made) && (made is Ok <==> compiled is Ok) && (
            compiled is Ok ==> compiled->Ok_0@.prompt[0] == contract && compiled->Ok_0@.prompt.skip(
                1,
            ) == made->Ok_0@.prompt && compiled->Ok_0@.messages == made->Ok_0@.messages),
{
    let made = choose|made: Result<CompiledContext, ContextError>| #[trigger]
        call_ensures(C::compile, (&inner, input), made) && match made {
            Ok(context) => compiled matches Ok(found) && found@ == pinned_of(contract, context@),
            Err(error) => compiled == Err::<CompiledContext, ContextError>(error),
        };
    if made is Ok {
        assert((seq![contract] + made->Ok_0@.prompt).skip(1) =~= made->Ok_0@.prompt);
    }
}

// ---------------------------------------------------------------------------
// The text of a contract
// ---------------------------------------------------------------------------

proof fn lemma_stands_within(outer: Seq<char>, inner: Seq<char>, part: Seq<char>)
    requires
        occurs(outer, inner),
        occurs(inner, part),
    ensures
        occurs(outer, part),
{
    let a = choose|at: int| stands_at(outer, inner, at);
    let b = choose|at: int| stands_at(inner, part, at);
    assert(outer.subrange(a + b, a + b + part.len()) =~= inner.subrange(b, b + part.len()));
    assert(stands_at(outer, part, a + b));
}

proof fn lemma_wrapped(before: Seq<char>, part: Seq<char>, behind: Seq<char>)
    ensures
        occurs(before + part + behind, part),
        occurs(before + part, part),
{
    let at = before.len() as int;
    assert((before + part + behind).subrange(at, at + part.len()) =~= part);
    assert(stands_at(before + part + behind, part, at));
    assert((before + part).subrange(at, at + part.len()) =~= part);
    assert(stands_at(before + part, part, at));
}

proof fn lemma_member_stands(members: Seq<Seq<char>>, index: int)
    requires
        0 <= index < members.len(),
    ensures
        occurs(object_text(members), members[index]),
        occurs(array_text(members), members[index]),
{
    let inner = join_of(members, ","@);
    law_joined_texts_hold_each_part(members, ","@, index);
    lemma_wrapped("{"@, inner, "}"@);
    lemma_stands_within(object_text(members), inner, members[index]);
    lemma_wrapped("["@, inner, "]"@);
    lemma_stands_within(array_text(members), inner, members[index]);
}

/// The contract of a task tells its objective, every criterion with its ids and what is expected,
/// and how many attempts there may be.
pub proof fn law_contracts_tell_the_task(spec_: TaskSpecView, index: int)
    requires
        0 <= index < spec_.criteria.len(),
    ensures
        ({
            let text = contract_of(spec_).text;
            let criterion = spec_.criteria[index];
            &&& occurs(
                text,
                "\""@ + "objective"@ + "\":"@ + json_text(JsonView::Text(spec_.objective)),
            )
            &&& occurs(text, "\""@ + "id"@ + "\":"@ + json_text(JsonView::Text(criterion.id)))
            &&& occurs(
                text,
                "\""@ + "artifact_id"@ + "\":"@ + json_text(
                    JsonView::Text(criterion.artifact_id),
                ),
            )
            &&& occurs(
                text,
                "\""@ + "expected"@ + "\":"@ + json_text(JsonView::Text(criterion.expected)),
            )
            &&& occurs(
                text,
                "\""@ + "max_attempts"@ + "\":"@ + decimal_of(spec_.budget.max_attempts as nat),
            )
        }),
{
    let text = contract_of(spec_).text;
    let whole = spec_text(spec_);
    lemma_wrapped("Host task contract (context, not tool authority):\n"@, whole, Seq::empty());
    let criterion = spec_.criteria[index];
    let told = spec_.criteria.map_values(|criterion: CriterionView| criterion_text(criterion));
    let budget = seq![member_text("max_attempts"@, decimal_of(spec_.budget.max_attempts as nat))];
    let members = seq![
        member_text("objective"@, quoted(spec_.objective)),
        member_text("criteria"@, array_text(told)),
        member_text("budget"@, object_text(budget)),
    ];
    assert(whole == object_text(members));
    lemma_member_stands(members, 0);
    lemma_stands_within(text, whole, members[0]);
    lemma_member_stands(members, 1);
    lemma_stands_within(text, whole, members[1]);
    lemma_wrapped("\""@ + "criteria"@ + "\":"@, array_text(told), Seq::empty());
    lemma_stands_within(text, members[1], array_text(told));
    lemma_member_stands(told, index);
    lemma_stands_within(text, array_text(told), told[index]);
    let inner = seq![
        member_text("id"@, quoted(criterion.id)),
        member_text("artifact_id"@, quoted(criterion.artifact_id)),
        member_text("expected"@, quoted(criterion.expected)),
    ];
    assert(told[index] == object_text(inner));
    lemma_member_stands(inner, 0);
    lemma_stands_within(text, told[index], inner[0]);
    lemma_member_stands(inner, 1);
    lemma_stands_within(text, told[index], inner[1]);
    lemma_member_stands(inner, 2);
    lemma_stands_within(text, told[index], inner[2]);
    lemma_member_stands(members, 2);
    lemma_stands_within(text, whole, members[2]);
    lemma_wrapped("\""@ + "budget"@ + "\":"@, object_text(budget), Seq::empty());
    lemma_stands_within(text, members[2], object_text(budget));
    lemma_member_stands(budget, 0);
    lemma_stands_within(text, object_text(budget), budget[0]);
}

/// A journal exists once its first record is durable: that of its task, under the number zero. It
/// then holds the first state of the task and goes on with the number one.
pub proof fn law_journals_exist_once_their_task_is_durable<W: Fn(Record) -> WriteOutcome>(
    write: W,
    spec_: TaskSpecView,
    journal: Result<TaskJournalView, TaskErrorView>,
)
    requires
        creates(write, spec_, journal),
    ensures
        initial_of(spec_) matches Err(error) ==> journal == Err::<TaskJournalView, TaskErrorView>(
            error,
        ),
        journal matches Ok(found) ==> {
            &&& initial_of(spec_) == Ok::<TaskStateView, TaskErrorView>(found.state)
            &&& found.sequence == 1
            &&& !found.write_failed
            &&& exists|line: Record, outcome: WriteOutcome|
                line@.sequence == 0 && line@.payload == (TaskEventView::Created { spec: spec_ })
                    && outcome is Durable && #[trigger] call_ensures(write, (line,), outcome)
        },
{
    match initial_of(spec_) {
        Ok(state) => {
            let told = record_of(0, TaskEventView::Created { spec: spec_ });
            let outcome = choose|outcome: WriteOutcome| #[trigger]
                recorded(write, told, outcome) && journal == created(state, outcome);
            let line = choose|line: Record|
                line@ == told && #[trigger] call_ensures(write, (line,), outcome);
            assert(call_ensures(write, (line,), outcome));
        },
        Err(_) => {},
    }
}

/// The contract is a segment of its own name.
pub proof fn law_contracts_have_their_name(spec_: TaskSpecView)
    ensures
        contract_of(spec_).name == "task-contract-v1"@,
        contract_of(spec_).layer == PromptLayer::Stable,
{
}

} // verus!

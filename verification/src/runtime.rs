//! The control plane of a runtime: admission of turns, capabilities and frames.

use vstd::prelude::*;

use crate::datum::{opt_view, snapshot_opt, views, Datum};
use crate::event::{EventEnvelope, EventEnvelopeView, RuntimeEvent};
use crate::id::{ThreadId, TurnId};
use crate::keyed::{keyed_view, snapshot_keyed, Keyed};
use crate::policy::{
    effective, lists_visible, project_capabilities, projected_access, Access, CapabilityProjection,
    PolicyContext, PolicyContextView, ToolPolicy,
};
use crate::recovery::{
    closes_calls, lists_open_turns, plan_recovery, tagged, RecoveryPlan,
};
use crate::tool::{
    definitions_of, ToolDefinitionView, ToolExecutionContext, ToolExecutionContextView, ToolRegistry,
};
use crate::turn::{new_turn, RuntimeError, RuntimeErrorView, Turn, TurnFrame, TurnFrameView};

verus! {

/// Limits and surroundings of a runtime.
#[derive(Debug)]
pub struct RuntimeConfig {
    pub max_model_iterations: usize,
    pub workspace: Option<String>,
    pub tool_metadata: Keyed<String>,
}

/// The model of [`RuntimeConfig`].
#[verifier::ext_equal]
pub ghost struct RuntimeConfigView {
    pub max_model_iterations: usize,
    pub workspace: Option<Seq<char>>,
    pub tool_metadata: Map<Seq<char>, Seq<char>>,
}

impl View for RuntimeConfig {
    type V = RuntimeConfigView;

    open spec fn view(&self) -> RuntimeConfigView {
        RuntimeConfigView {
            max_model_iterations: self.max_model_iterations,
            workspace: opt_view(self.workspace),
            tool_metadata: keyed_view(self.tool_metadata@),
        }
    }
}

impl Clone for RuntimeConfig {
    fn clone(&self) -> (copy: Self)
        ensures
            copy@ == self@,
    {
        RuntimeConfig {
            max_model_iterations: self.max_model_iterations,
            workspace: snapshot_opt(&self.workspace),
            tool_metadata: snapshot_keyed(&self.tool_metadata),
        }
    }
}

impl Default for RuntimeConfig {
    fn default() -> (config: Self)
        ensures
            config@ == (RuntimeConfigView {
                max_model_iterations: 32,
                workspace: None,
                tool_metadata: Map::empty(),
            }),
    {
        let config = RuntimeConfig {
            max_model_iterations: 32,
            workspace: None,
            tool_metadata: Keyed::new(),
        };
        assert(keyed_view(config.tool_metadata@) =~= Map::<Seq<char>, Seq<char>>::empty());
        config
    }
}

/// Whether the events show that the thread was started.
pub open spec fn thread_started(events: Seq<EventEnvelopeView>) -> bool {
    exists|i: int| 0 <= i < events.len() && (#[trigger] events[i]).event is ThreadStarted
}

/// Whether an event of the thread belongs to the turn.
pub open spec fn turn_used(events: Seq<EventEnvelopeView>, turn_id: Seq<char>) -> bool {
    exists|i: int| 0 <= i < events.len() && (#[trigger] events[i]).turn_id == Some(turn_id)
}

fn has_started(events: &Vec<EventEnvelope>) -> (yes: bool)
    ensures
        yes == thread_started(views(events@)),
{
    let ghost log = views(events@);
    let mut index: usize = 0;
    while index < events.len()
        invariant
            index <= events@.len(),
            log == views(events@),
            forall|i: int| 0 <= i < index ==> !((#[trigger] log[i]).event is ThreadStarted),
        decreases events@.len() - index,
    {
        assert(log[index as int] == events@[index as int]@);
        if matches!(events[index].event, RuntimeEvent::ThreadStarted) {
            return true;
        }
        index = index + 1;
    }
    false
}

fn uses_turn(events: &Vec<EventEnvelope>, turn_id: &TurnId) -> (yes: bool)
    ensures
        yes == turn_used(views(events@), turn_id@),
{
    let ghost log = views(events@);
    let mut index: usize = 0;
    while index < events.len()
        invariant
            index <= events@.len(),
            log == views(events@),
            forall|i: int| 0 <= i < index ==> (#[trigger] log[i]).turn_id != Some(turn_id@),
        decreases events@.len() - index,
    {
        assert(log[index as int] == events@[index as int]@);
        match &events[index].turn_id {
            Some(used) => {
                if used.same(turn_id) {
                    return true;
                }
            },
            None => {},
        }
        index = index + 1;
    }
    false
}

/// The number behind that of the last event of a thread.
pub open spec fn next_number(events: Seq<EventEnvelopeView>) -> u64 {
    if events.len() == 0 {
        0
    } else if events.last().sequence < u64::MAX {
        (events.last().sequence + 1) as u64
    } else {
        u64::MAX
    }
}

/// The events from a number on.
pub open spec fn numbered_from(events: Seq<EventEnvelopeView>, first: u64) -> Seq<EventEnvelopeView>
    decreases events.len(),
{
    if events.len() == 0 {
        Seq::empty()
    } else {
        let rest = numbered_from(events.drop_last(), first);
        if events.last().sequence >= first {
            rest.push(events.last())
        } else {
            rest
        }
    }
}

/// The events of a thread that were recorded since it was loaded as `before`. These
/// are the ones that observers have not been told of.
pub fn recorded_since(before: &Vec<EventEnvelope>, after: &Vec<EventEnvelope>) -> (news: Vec<
    EventEnvelope,
>)
    ensures
        views(news@) == numbered_from(views(after@), next_number(views(before@))),
{
    let first: u64 = if before.len() == 0 {
        0
    } else {
        assert(views(before@).last() == before@.last()@);
        before[before.len() - 1].sequence.saturating_add(1)
    };
    let ghost log = views(after@);
    let mut news: Vec<EventEnvelope> = Vec::new();
    let mut index: usize = 0;
    assert(log.take(0) =~= Seq::empty());
    assert(views(news@) =~= Seq::empty());
    while index < after.len()
        invariant
            index <= after@.len(),
            log == views(after@),
            views(news@) == numbered_from(log.take(index as int), first),
        decreases after@.len() - index,
    {
        proof {
            let grown = log.take(index as int + 1);
            assert(grown.drop_last() =~= log.take(index as int));
            assert(grown.last() == after@[index as int]@);
        }
        if after[index].sequence >= first {
            let copy = after[index].clone();
            proof {
                crate::datum::lemma_views_push(news@, copy);
            }
            news.push(copy);
        }
        index = index + 1;
    }
    assert(log.take(index as int) =~= log);
    news
}

/// The grants of a runtime: what its policy grants each registered tool, within what a
/// parent was granted.
pub open spec fn runtime_grants<P: ToolPolicy, T>(
    tools: Map<Seq<char>, (ToolDefinitionView, T)>,
    policy: &P,
    context: PolicyContextView,
    parent: Option<Map<Seq<char>, Access>>,
) -> Map<Seq<char>, Access> {
    Map::new(
        |name: Seq<char>| tools.contains_key(name),
        |name: Seq<char>| effective(policy, context, parent, name),
    )
}

/// Whether a frame is the one of a runtime's turn: the model sees exactly the tools
/// that are registered and not denied, and calls are held against the runtime's
/// grants.
pub open spec fn frames<T>(
    frame: TurnFrameView,
    tools: Map<Seq<char>, (ToolDefinitionView, T)>,
    grants: Map<Seq<char>, Access>,
) -> bool {
    &&& frame.capabilities == grants
    &&& lists_visible(frame.visible_names, grants)
    &&& frame.visible_tools == definitions_of(tools, frame.visible_names)
    &&& frame.registered.to_set() == tools.dom()
    &&& forall|i: int|
        0 <= i < frame.visible_tools.len() ==> projected_access(
            grants,
            (#[trigger] frame.visible_tools[i]).name,
        ) != Access::Deny
}

/// The deciding part of an agent runtime. The host owns the model, the store, the
/// tools' implementations `T` and everything else that has effects.
#[derive(Debug)]
pub struct AgentRuntime<P: ToolPolicy, T> {
    tools: ToolRegistry<T>,
    policy: P,
    policy_context: PolicyContext,
    parent_capabilities: Option<CapabilityProjection>,
    config: RuntimeConfig,
    active_threads: Keyed<bool>,
}

impl<P: ToolPolicy, T> AgentRuntime<P, T> {
    /// The registered tools.
    pub closed spec fn tools(&self) -> Map<Seq<char>, (ToolDefinitionView, T)> {
        self.tools@
    }

    pub closed spec fn policy(&self) -> P {
        self.policy
    }

    pub closed spec fn context(&self) -> PolicyContextView {
        self.policy_context@
    }

    /// What the parent was granted, if there is a parent.
    pub closed spec fn parent(&self) -> Option<Map<Seq<char>, Access>> {
        opt_view(self.parent_capabilities)
    }

    pub closed spec fn limits(&self) -> RuntimeConfigView {
        self.config@
    }

    /// The threads with an active turn.
    pub closed spec fn active(&self) -> Set<Seq<char>> {
        self.active_threads@.dom()
    }

    /// What the runtime grants.
    pub open spec fn grants(&self) -> Map<Seq<char>, Access> {
        runtime_grants(self.tools(), &self.policy(), self.context(), self.parent())
    }

    /// Whether two runtimes differ in their active threads at most.
    pub open spec fn configured_as(&self, other: &Self) -> bool {
        &&& self.tools() == other.tools()
        &&& self.policy() == other.policy()
        &&& self.context() == other.context()
        &&& self.parent() == other.parent()
        &&& self.limits() == other.limits()
    }

    pub fn new(tools: ToolRegistry<T>, policy: P) -> (runtime: Self)
        ensures
            runtime.tools() == tools@,
            runtime.policy() == policy,
            runtime.context() == (PolicyContextView {
                principal: None,
                channel: None,
                agent: None,
                sandbox: None,
            }),
            runtime.parent() is None,
            runtime.limits() == (RuntimeConfigView {
                max_model_iterations: 32,
                workspace: None,
                tool_metadata: Map::empty(),
            }),
            runtime.active() == Set::<Seq<char>>::empty(),
    {
        let runtime = AgentRuntime {
            tools,
            policy,
            policy_context: PolicyContext::default(),
            parent_capabilities: None,
            config: RuntimeConfig::default(),
            active_threads: Keyed::new(),
        };
        assert(runtime.active() =~= Set::<Seq<char>>::empty());
        runtime
    }

    pub fn with_policy_context(self, context: PolicyContext) -> (runtime: Self)
        ensures
            runtime.context() == context@,
            runtime.tools() == self.tools(),
            runtime.policy() == self.policy(),
            runtime.parent() == self.parent(),
            runtime.limits() == self.limits(),
            runtime.active() == self.active(),
    {
        AgentRuntime { policy_context: context, ..self }
    }

    pub fn with_parent_capabilities(self, parent: CapabilityProjection) -> (runtime: Self)
        ensures
            runtime.parent() == Some(parent@),
            runtime.tools() == self.tools(),
            runtime.policy() == self.policy(),
            runtime.context() == self.context(),
            runtime.limits() == self.limits(),
            runtime.active() == self.active(),
    {
        AgentRuntime { parent_capabilities: Some(parent), ..self }
    }

    pub fn with_config(self, config: RuntimeConfig) -> (runtime: Self)
        ensures
            runtime.limits() == config@,
            runtime.tools() == self.tools(),
            runtime.policy() == self.policy(),
            runtime.context() == self.context(),
            runtime.parent() == self.parent(),
            runtime.active() == self.active(),
    {
        AgentRuntime { config, ..self }
    }

    /// How far each registered tool may be used.
    pub fn capabilities(&self) -> (projection: CapabilityProjection)
        ensures
            projection@ == self.grants(),
    {
        let names = self.tools.names();
        let parent = match &self.parent_capabilities {
            Some(parent) => Some(parent),
            None => None,
        };
        let projection = project_capabilities(&names, &self.policy, &self.policy_context, parent);
        proof {
            assert forall|name: Seq<char>| #[trigger]
                views(names@).contains(name) == self.tools@.contains_key(name) by {
                assert(views(names@).to_set().contains(name) == self.tools@.dom().contains(name));
            }
            assert(projection@ =~= self.grants());
        }
        projection
    }

    /// What runs the tool of a name.
    pub fn tool(&self, name: &str) -> (found: Option<&T>)
        ensures
            match found {
                Some(implementation) => self.tools().contains_key(name@) && *implementation
                    == self.tools()[name@].1,
                None => !self.tools().contains_key(name@),
            },
    {
        self.tools.get(name)
    }

    /// What a tool of a turn is told about its run.
    pub fn tool_context(&self, thread_id: &ThreadId, turn_id: &TurnId) -> (context:
        ToolExecutionContext)
        ensures
            context@ == (ToolExecutionContextView {
                thread_id: thread_id@,
                turn_id: turn_id@,
                workspace: self.limits().workspace,
                metadata: self.limits().tool_metadata,
            }),
    {
        ToolExecutionContext {
            thread_id: thread_id.clone(),
            turn_id: turn_id.clone(),
            workspace: snapshot_opt(&self.config.workspace),
            metadata: snapshot_keyed(&self.config.tool_metadata),
        }
    }

    /// Refuses a thread that was never started.
    pub fn ensure_thread(&self, events: &Vec<EventEnvelope>, thread_id: &ThreadId) -> (verdict: Result<
        (),
        RuntimeError,
    >)
        ensures
            match verdict {
                Ok(()) => thread_started(views(events@)),
                Err(error) => !thread_started(views(events@)) && error@
                    == RuntimeErrorView::UnknownThread(thread_id@),
            },
    {
        if has_started(events) {
            Ok(())
        } else {
            Err(RuntimeError::UnknownThread(thread_id.clone()))
        }
    }

    /// Refuses a turn that the thread has an event of.
    pub fn ensure_turn_unused(
        &self,
        events: &Vec<EventEnvelope>,
        thread_id: &ThreadId,
        turn_id: &TurnId,
    ) -> (verdict: Result<(), RuntimeError>)
        ensures
            match verdict {
                Ok(()) => !turn_used(views(events@), turn_id@),
                Err(error) => turn_used(views(events@), turn_id@) && error@ == (
                RuntimeErrorView::DuplicateTurn { thread_id: thread_id@, turn_id: turn_id@ }),
            },
    {
        if uses_turn(events, turn_id) {
            Err(
                RuntimeError::DuplicateTurn {
                    thread_id: thread_id.clone(),
                    turn_id: turn_id.clone(),
                },
            )
        } else {
            Ok(())
        }
    }

    /// Claims a thread for a turn. A thread has one turn at a time.
    pub fn acquire_thread(&mut self, thread_id: &ThreadId) -> (claim: Result<(), RuntimeError>)
        ensures
            final(self).configured_as(old(self)),
            match claim {
                Ok(()) => !old(self).active().contains(thread_id@) && final(self).active() == old(
                    self,
                ).active().insert(thread_id@),
                Err(error) => old(self).active().contains(thread_id@)
                    && final(self).active() == old(
                    self,
                ).active() && error@ == RuntimeErrorView::ConcurrentTurn(thread_id@),
            },
    {
        if self.active_threads.contains(thread_id.as_str()) {
            return Err(RuntimeError::ConcurrentTurn(thread_id.clone()));
        }
        let _ = self.active_threads.insert(thread_id.as_str().to_owned(), true);
        assert(self.active() =~= old(self).active().insert(thread_id@));
        Ok(())
    }

    /// Gives a thread free when its turn is over, however it ended.
    pub fn release_thread(&mut self, thread_id: &ThreadId)
        ensures
            final(self).configured_as(old(self)),
            final(self).active() == old(self).active().remove(thread_id@),
    {
        let _ = self.active_threads.remove(thread_id.as_str());
        assert(self.active() =~= old(self).active().remove(thread_id@));
    }

    /// The frame of a turn.
    fn frame(&self, thread_id: &ThreadId, turn_id: &TurnId) -> (frame: TurnFrame)
        ensures
            frames(frame@, self.tools(), self.grants()),
            frame@.thread_id == thread_id@,
            frame@.turn_id == turn_id@,
            frame@.max_model_iterations == self.limits().max_model_iterations,
    {
        let capabilities = self.capabilities();
        let visible_names = capabilities.visible_names();
        let visible_tools = self.tools.definitions_for(&visible_names);
        let registered = self.tools.names();
        proof {
            assert forall|i: int| 0 <= i < views(visible_tools@).len() implies projected_access(
                self.grants(),
                (#[trigger] views(visible_tools@)[i]).name,
            ) != Access::Deny by {
                assert(views(visible_names@).contains(views(visible_tools@)[i].name));
            }
        }
        TurnFrame {
            thread_id: thread_id.clone(),
            turn_id: turn_id.clone(),
            visible_names,
            visible_tools,
            capabilities,
            registered,
            max_model_iterations: self.config.max_model_iterations,
        }
    }

    /// Admits a turn of a thread, whose events are given, and claims the thread for it.
    /// The thread must have been started, must have no active turn, and must not know
    /// the turn yet; they are looked at in this order. The host recovers the thread
    /// before it performs the first action of the turn, and releases the thread when
    /// the turn is over. A refused turn leaves the active threads as they were.
    pub fn begin_turn(
        &mut self,
        events: &Vec<EventEnvelope>,
        thread_id: &ThreadId,
        turn_id: &TurnId,
        input: String,
    ) -> (admitted: Result<Turn, RuntimeError>)
        ensures
            final(self).configured_as(old(self)),
            match admitted {
                Ok(turn) => {
                    &&& thread_started(views(events@))
                    &&& !old(self).active().contains(thread_id@)
                    &&& !turn_used(views(events@), turn_id@)
                    &&& final(self).active() == old(self).active().insert(thread_id@)
                    &&& turn@ == new_turn(turn@.frame, input@)
                    &&& frames(turn@.frame, old(self).tools(), old(self).grants())
                    &&& turn@.frame.thread_id == thread_id@
                    &&& turn@.frame.turn_id == turn_id@
                    &&& turn@.frame.max_model_iterations == old(self).limits().max_model_iterations
                },
                Err(error) => {
                    &&& final(self).active() == old(self).active()
                    &&& error@ == (if !thread_started(views(events@)) {
                        RuntimeErrorView::UnknownThread(thread_id@)
                    } else if old(self).active().contains(thread_id@) {
                        RuntimeErrorView::ConcurrentTurn(thread_id@)
                    } else {
                        RuntimeErrorView::DuplicateTurn {
                            thread_id: thread_id@,
                            turn_id: turn_id@,
                        }
                    })
                    &&& !thread_started(views(events@)) || old(self).active().contains(thread_id@)
                        || turn_used(views(events@), turn_id@)
                },
            },
    {
        match self.ensure_thread(events, thread_id) {
            Ok(()) => {},
            Err(error) => {
                return Err(error);
            },
        }
        match self.acquire_thread(thread_id) {
            Ok(()) => {},
            Err(error) => {
                return Err(error);
            },
        }
        match self.ensure_turn_unused(events, thread_id, turn_id) {
            Ok(()) => {},
            Err(error) => {
                self.release_thread(thread_id);
                assert(self.active() =~= old(self).active());
                return Err(error);
            },
        }
        let frame = self.frame(thread_id, turn_id);
        Ok(Turn::start(frame, input))
    }

    /// Works out the recovery of a thread, whose events are given. A thread with an
    /// active turn is not recovered from under it.
    pub fn recover(&self, events: &Vec<EventEnvelope>, thread_id: &ThreadId) -> (plan: Result<
        RecoveryPlan,
        RuntimeError,
    >)
        ensures
            match plan {
                Ok(found) => {
                    &&& thread_started(views(events@))
                    &&& !self.active().contains(thread_id@)
                    &&& closes_calls(views(events@), tagged(found.receipts@))
                    &&& lists_open_turns(views(events@), views(found.turns@))
                },
                Err(error) => error@ == (if !thread_started(views(events@)) {
                    RuntimeErrorView::UnknownThread(thread_id@)
                } else {
                    RuntimeErrorView::ConcurrentTurn(thread_id@)
                }) && (!thread_started(views(events@)) || self.active().contains(thread_id@)),
            },
    {
        match self.ensure_thread(events, thread_id) {
            Ok(()) => {},
            Err(error) => {
                return Err(error);
            },
        }
        if self.active_threads.contains(thread_id.as_str()) {
            return Err(RuntimeError::ConcurrentTurn(thread_id.clone()));
        }
        Ok(plan_recovery(events))
    }
}

/// The model is never told of a denied tool, whatever the policies and the parent
/// grant.
pub proof fn law_denied_tools_are_not_projected<T>(
    frame: TurnFrameView,
    tools: Map<Seq<char>, (ToolDefinitionView, T)>,
    grants: Map<Seq<char>, Access>,
    index: int,
)
    requires
        frames(frame, tools, grants),
        0 <= index < frame.visible_tools.len(),
    ensures
        projected_access(frame.capabilities, frame.visible_tools[index].name) != Access::Deny,
{
}

} // verus!

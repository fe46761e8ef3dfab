//! Deterministic checks around model and tool actions.

use vstd::prelude::*;
use vstd::string::*;

use crate::context::CompiledContext;
use crate::datum::{done_view, Datum};
use crate::id::{ThreadId, TurnId};
use crate::protocol::{PreparedToolCall, ToolReceipt};

verus! {

/// Where in a turn a hook is asked.
#[derive(Debug, PartialEq, Eq)]
pub struct HookContext {
    pub thread_id: ThreadId,
    pub turn_id: TurnId,
    pub iteration: usize,
}

/// The model of [`HookContext`].
#[verifier::ext_equal]
pub ghost struct HookContextView {
    pub thread_id: Seq<char>,
    pub turn_id: Seq<char>,
    pub iteration: usize,
}

impl View for HookContext {
    type V = HookContextView;

    open spec fn view(&self) -> HookContextView {
        HookContextView {
            thread_id: self.thread_id@,
            turn_id: self.turn_id@,
            iteration: self.iteration,
        }
    }
}

impl Datum for HookContext {
    fn snapshot(&self) -> (copy: Self) {
        HookContext {
            thread_id: self.thread_id.snapshot(),
            turn_id: self.turn_id.snapshot(),
            iteration: self.iteration,
        }
    }

    fn same(&self, other: &Self) -> (equal: bool) {
        self.thread_id.same(&other.thread_id) && self.turn_id.same(&other.turn_id)
            && self.iteration == other.iteration
    }
}

impl Clone for HookContext {
    fn clone(&self) -> (copy: Self)
        ensures
            copy@ == self@,
    {
        self.snapshot()
    }
}

/// The refusal of a hook.
#[derive(Debug, PartialEq, Eq)]
pub struct HookError {
    pub hook: String,
    pub point: String,
    pub reason: String,
}

/// The model of [`HookError`].
#[verifier::ext_equal]
pub ghost struct HookErrorView {
    pub hook: Seq<char>,
    pub point: Seq<char>,
    pub reason: Seq<char>,
}

impl View for HookError {
    type V = HookErrorView;

    open spec fn view(&self) -> HookErrorView {
        HookErrorView {
            hook: self.hook@,
            point: self.point@,
            reason: self.reason@,
        }
    }
}

impl Datum for HookError {
    fn snapshot(&self) -> (copy: Self) {
        HookError {
            hook: self.hook.snapshot(),
            point: self.point.snapshot(),
            reason: self.reason.snapshot(),
        }
    }

    fn same(&self, other: &Self) -> (equal: bool) {
        self.hook.same(&other.hook) && self.point.same(&other.point)
            && self.reason.same(&other.reason)
    }
}

impl Clone for HookError {
    fn clone(&self) -> (copy: Self)
        ensures
            copy@ == self@,
    {
        self.snapshot()
    }
}

/// The message of a refusal.
pub open spec fn hook_error_text(error: HookErrorView) -> Seq<char> {
    "hook `"@ + error.hook + "` rejected "@ + error.point + ": "@ + error.reason
}

impl HookError {
    pub fn to_text(&self) -> (text: String)
        ensures
            text@ == hook_error_text(self@),
    {
        "hook `".to_owned().concat(self.hook.as_str()).concat("` rejected ").concat(
            self.point.as_str(),
        ).concat(": ").concat(self.reason.as_str())
    }
}

/// Deterministic shell around model and tool actions. Hooks may reject or halt,
/// but may not mutate an already canonicalized action.
pub trait Hook {
    fn name(&self) -> String;

    fn before_model(&self, context: &HookContext, compiled: &CompiledContext) -> Result<(), String> {
        Ok(())
    }

    fn before_tool(&self, context: &HookContext, prepared: &PreparedToolCall) -> Result<(), String> {
        Ok(())
    }

    fn after_tool(&self, context: &HookContext, receipt: &ToolReceipt) -> Result<(), String> {
        Ok(())
    }
}

/// Whether a hook may call itself so.
pub open spec fn named<H: Hook>(hook: H, name: Seq<char>) -> bool {
    exists|given: String| given@ == name && #[trigger] call_ensures(H::name, (&hook,), given)
}

/// Whether a hook may answer so before a model request.
pub open spec fn answers_before_model<H: Hook>(
    hook: H,
    context: HookContext,
    compiled: CompiledContext,
    answer: Result<(), Seq<char>>,
) -> bool {
    exists|given: Result<(), String>| answer_view(given) == answer && #[trigger]
        call_ensures(H::before_model, (&hook, &context, &compiled), given)
}

/// Whether the first hooks agree before a model request.
pub open spec fn agree_before_model<H: Hook>(
    hooks: Seq<H>,
    context: HookContext,
    compiled: CompiledContext,
    count: int,
) -> bool {
    &&& 0 <= count <= hooks.len()
    &&& forall|i: int|
        0 <= i < count ==> answers_before_model(#[trigger] hooks[i], context, compiled, Ok(()))
}

/// Whether hooks that are asked one after the other may come to this verdict before a model request: all
/// agree, or the first that does not is named with its reason.
pub open spec fn verdict_before_model<H: Hook>(
    hooks: Seq<H>,
    context: HookContext,
    compiled: CompiledContext,
    verdict: Result<(), HookErrorView>,
) -> bool {
    match verdict {
        Ok(()) => agree_before_model(hooks, context, compiled, hooks.len() as int),
        Err(error) => exists|count: int| #[trigger]
            agree_before_model(hooks, context, compiled, count) && count < hooks.len()
                && answers_before_model(hooks[count], context, compiled, Err(error.reason))
                && named(hooks[count], error.hook) && error.point == "before_model"@,
    }
}

/// Whether a hook may answer so before a tool is executed.
pub open spec fn answers_before_tool<H: Hook>(
    hook: H,
    context: HookContext,
    prepared: PreparedToolCall,
    answer: Result<(), Seq<char>>,
) -> bool {
    exists|given: Result<(), String>| answer_view(given) == answer && #[trigger]
        call_ensures(H::before_tool, (&hook, &context, &prepared), given)
}

/// Whether the first hooks agree before a tool is executed.
pub open spec fn agree_before_tool<H: Hook>(
    hooks: Seq<H>,
    context: HookContext,
    prepared: PreparedToolCall,
    count: int,
) -> bool {
    &&& 0 <= count <= hooks.len()
    &&& forall|i: int|
        0 <= i < count ==> answers_before_tool(#[trigger] hooks[i], context, prepared, Ok(()))
}

/// Whether hooks that are asked one after the other may come to this verdict before a tool is executed: all
/// agree, or the first that does not is named with its reason.
pub open spec fn verdict_before_tool<H: Hook>(
    hooks: Seq<H>,
    context: HookContext,
    prepared: PreparedToolCall,
    verdict: Result<(), HookErrorView>,
) -> bool {
    match verdict {
        Ok(()) => agree_before_tool(hooks, context, prepared, hooks.len() as int),
        Err(error) => exists|count: int| #[trigger]
            agree_before_tool(hooks, context, prepared, count) && count < hooks.len()
                && answers_before_tool(hooks[count], context, prepared, Err(error.reason))
                && named(hooks[count], error.hook) && error.point == "before_tool"@,
    }
}

/// Whether a hook may answer so after a tool was executed.
pub open spec fn answers_after_tool<H: Hook>(
    hook: H,
    context: HookContext,
    receipt: ToolReceipt,
    answer: Result<(), Seq<char>>,
) -> bool {
    exists|given: Result<(), String>| answer_view(given) == answer && #[trigger]
        call_ensures(H::after_tool, (&hook, &context, &receipt), given)
}

/// Whether the first hooks agree after a tool was executed.
pub open spec fn agree_after_tool<H: Hook>(
    hooks: Seq<H>,
    context: HookContext,
    receipt: ToolReceipt,
    count: int,
) -> bool {
    &&& 0 <= count <= hooks.len()
    &&& forall|i: int|
        0 <= i < count ==> answers_after_tool(#[trigger] hooks[i], context, receipt, Ok(()))
}

/// Whether hooks that are asked one after the other may come to this verdict after a tool was executed: all
/// agree, or the first that does not is named with its reason.
pub open spec fn verdict_after_tool<H: Hook>(
    hooks: Seq<H>,
    context: HookContext,
    receipt: ToolReceipt,
    verdict: Result<(), HookErrorView>,
) -> bool {
    match verdict {
        Ok(()) => agree_after_tool(hooks, context, receipt, hooks.len() as int),
        Err(error) => exists|count: int| #[trigger]
            agree_after_tool(hooks, context, receipt, count) && count < hooks.len()
                && answers_after_tool(hooks[count], context, receipt, Err(error.reason))
                && named(hooks[count], error.hook) && error.point == "after_tool"@,
    }
}

/// The view of a hook's answer.
pub open spec fn answer_view(answer: Result<(), String>) -> Result<(), Seq<char>> {
    match answer {
        Ok(()) => Ok(()),
        Err(reason) => Err(reason@),
    }
}

/// Hooks that are asked one after the other until one refuses.
pub struct HookSet<H: Hook> {
    hooks: Vec<H>,
}

impl<H: Hook + Clone> Clone for HookSet<H> {
    fn clone(&self) -> (copy: Self)
        ensures
            copy.hooks().len() == self.hooks().len(),
            forall|i: int|
                0 <= i < self.hooks().len() ==> cloned::<H>(
                    #[trigger] self.hooks()[i],
                    copy.hooks()[i],
                ),
    {
        HookSet { hooks: self.hooks.clone() }
    }
}

impl<H: Hook> HookSet<H> {
    /// The hooks, in the order in which they are asked.
    pub closed spec fn hooks(&self) -> Seq<H> {
        self.hooks@
    }

    pub fn new() -> (set: Self)
        ensures
            set.hooks() == Seq::<H>::empty(),
    {
        HookSet { hooks: Vec::new() }
    }

    /// The set with a hook behind the others.
    pub fn with(self, hook: H) -> (set: Self)
        ensures
            set.hooks() == self.hooks().push(hook),
    {
        let mut hooks = self.hooks;
        hooks.push(hook);
        HookSet { hooks }
    }

    /// Adds a hook behind the others.
    pub fn push(&mut self, hook: H)
        ensures
            final(self).hooks() == old(self).hooks().push(hook),
    {
        self.hooks.push(hook);
    }

    /// Asks the hooks before a model request. The first refusal is the verdict.
    pub fn before_model(&self, context: &HookContext, compiled: &CompiledContext) -> (verdict: Result<
        (),
        HookError,
    >)
        ensures
            verdict_before_model(self.hooks(), *context, *compiled, done_view(verdict)),
    {
        let mut index: usize = 0;
        while index < self.hooks.len()
            invariant
                agree_before_model(self.hooks@, *context, *compiled, index as int),
            decreases self.hooks@.len() - index,
        {
            let ghost asked = self.hooks@[index as int];
            let answer = self.hooks[index].before_model(context, compiled);
            assert(call_ensures(H::before_model, (&asked, context, compiled), answer));
            assert(answers_before_model(asked, *context, *compiled, answer_view(answer)));
            match answer {
                Ok(()) => {},
                Err(reason) => {
                    let hook = self.hooks[index].name();
                    assert(call_ensures(H::name, (&asked,), hook));
                    assert(named(asked, hook@));
                    return Err(HookError { hook, point: "before_model".to_owned(), reason });
                },
            }
            index = index + 1;
        }
        Ok(())
    }

    /// Asks the hooks before a tool is executed. The first refusal is the verdict.
    pub fn before_tool(&self, context: &HookContext, prepared: &PreparedToolCall) -> (verdict: Result<
        (),
        HookError,
    >)
        ensures
            verdict_before_tool(self.hooks(), *context, *prepared, done_view(verdict)),
    {
        let mut index: usize = 0;
        while index < self.hooks.len()
            invariant
                agree_before_tool(self.hooks@, *context, *prepared, index as int),
            decreases self.hooks@.len() - index,
        {
            let ghost asked = self.hooks@[index as int];
            let answer = self.hooks[index].before_tool(context, prepared);
            assert(call_ensures(H::before_tool, (&asked, context, prepared), answer));
            assert(answers_before_tool(asked, *context, *prepared, answer_view(answer)));
            match answer {
                Ok(()) => {},
                Err(reason) => {
                    let hook = self.hooks[index].name();
                    assert(call_ensures(H::name, (&asked,), hook));
                    assert(named(asked, hook@));
                    return Err(HookError { hook, point: "before_tool".to_owned(), reason });
                },
            }
            index = index + 1;
        }
        Ok(())
    }

    /// Asks the hooks after a tool was executed. The first refusal is the verdict.
    pub fn after_tool(&self, context: &HookContext, receipt: &ToolReceipt) -> (verdict: Result<
        (),
        HookError,
    >)
        ensures
            verdict_after_tool(self.hooks(), *context, *receipt, done_view(verdict)),
    {
        let mut index: usize = 0;
        while index < self.hooks.len()
            invariant
                agree_after_tool(self.hooks@, *context, *receipt, index as int),
            decreases self.hooks@.len() - index,
        {
            let ghost asked = self.hooks@[index as int];
            let answer = self.hooks[index].after_tool(context, receipt);
            assert(call_ensures(H::after_tool, (&asked, context, receipt), answer));
            assert(answers_after_tool(asked, *context, *receipt, answer_view(answer)));
            match answer {
                Ok(()) => {},
                Err(reason) => {
                    let hook = self.hooks[index].name();
                    assert(call_ensures(H::name, (&asked,), hook));
                    assert(named(asked, hook@));
                    return Err(HookError { hook, point: "after_tool".to_owned(), reason });
                },
            }
            index = index + 1;
        }
        Ok(())
    }
}

} // verus!

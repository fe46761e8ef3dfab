//! Requests for approval and their answers.

use vstd::prelude::*;
use vstd::string::*;

use crate::datum::{Datum};
use crate::id::{CallId, ThreadId, TurnId};
use crate::protocol::{CanonicalAction, CanonicalActionView};

verus! {

/// A question put to whoever approves actions.
#[derive(Debug, PartialEq, Eq)]
pub struct ApprovalRequest {
    pub thread_id: ThreadId,
    pub turn_id: TurnId,
    pub call_id: CallId,
    pub action: CanonicalAction,
    pub reason: String,
}

/// The model of [`ApprovalRequest`].
#[verifier::ext_equal]
pub ghost struct ApprovalRequestView {
    pub thread_id: Seq<char>,
    pub turn_id: Seq<char>,
    pub call_id: Seq<char>,
    pub action: CanonicalActionView,
    pub reason: Seq<char>,
}

impl View for ApprovalRequest {
    type V = ApprovalRequestView;

    open spec fn view(&self) -> ApprovalRequestView {
        ApprovalRequestView {
            thread_id: self.thread_id@,
            turn_id: self.turn_id@,
            call_id: self.call_id@,
            action: self.action@,
            reason: self.reason@,
        }
    }
}

impl Datum for ApprovalRequest {
    fn snapshot(&self) -> (copy: Self) {
        ApprovalRequest {
            thread_id: self.thread_id.snapshot(),
            turn_id: self.turn_id.snapshot(),
            call_id: self.call_id.snapshot(),
            action: self.action.snapshot(),
            reason: self.reason.snapshot(),
        }
    }

    fn same(&self, other: &Self) -> (equal: bool) {
        self.thread_id.same(&other.thread_id) && self.turn_id.same(&other.turn_id)
            && self.call_id.same(&other.call_id) && self.action.same(&other.action)
            && self.reason.same(&other.reason)
    }
}

impl Clone for ApprovalRequest {
    fn clone(&self) -> (copy: Self)
        ensures
            copy@ == self@,
    {
        self.snapshot()
    }
}

/// The answer to an approval request. An approval names the action it is for.
#[derive(Debug, PartialEq, Eq)]
pub enum ApprovalDecision {
    Approved { action: CanonicalAction },
    Denied { reason: String },
}

/// The model of [`ApprovalDecision`].
#[verifier::ext_equal]
pub ghost enum ApprovalDecisionView {
    Approved { action: CanonicalActionView },
    Denied { reason: Seq<char> },
}

impl View for ApprovalDecision {
    type V = ApprovalDecisionView;

    open spec fn view(&self) -> ApprovalDecisionView {
        match *self {
            ApprovalDecision::Approved { action } => ApprovalDecisionView::Approved {
                action: action@,
            },
            ApprovalDecision::Denied { reason } => ApprovalDecisionView::Denied { reason: reason@ },
        }
    }
}

impl Datum for ApprovalDecision {
    fn snapshot(&self) -> (copy: Self) {
        match self {
            ApprovalDecision::Approved { action } => ApprovalDecision::Approved {
                action: action.snapshot(),
            },
            ApprovalDecision::Denied { reason } => ApprovalDecision::Denied {
                reason: reason.snapshot(),
            },
        }
    }

    fn same(&self, other: &Self) -> (equal: bool) {
        match (self, other) {
            (
                ApprovalDecision::Approved { action: action_a },
                ApprovalDecision::Approved { action: action_b },
            ) => action_a.same(action_b),
            (
                ApprovalDecision::Denied { reason: reason_a },
                ApprovalDecision::Denied { reason: reason_b },
            ) => reason_a.same(reason_b),
            _ => false,
        }
    }
}

impl Clone for ApprovalDecision {
    fn clone(&self) -> (copy: Self)
        ensures
            copy@ == self@,
    {
        self.snapshot()
    }
}

/// A failure to get an answer at all.
#[derive(Debug, PartialEq, Eq)]
pub struct ApprovalError(pub String);

impl View for ApprovalError {
    type V = Seq<char>;

    open spec fn view(&self) -> Seq<char> {
        self.0@
    }
}

impl Datum for ApprovalError {
    fn snapshot(&self) -> (copy: Self) {
        ApprovalError(self.0.clone())
    }

    fn same(&self, other: &Self) -> (equal: bool) {
        self.0.same(&other.0)
    }
}

impl Clone for ApprovalError {
    fn clone(&self) -> (copy: Self)
        ensures
            copy@ == self@,
    {
        self.snapshot()
    }
}

/// The message of an approval failure.
pub open spec fn approval_error_text(message: Seq<char>) -> Seq<char> {
    "approval provider failed: "@ + message
}

impl ApprovalError {
    pub fn to_text(&self) -> (text: String)
        ensures
            text@ == approval_error_text(self@),
    {
        "approval provider failed: ".to_owned().concat(self.0.as_str())
    }
}

/// Fail-closed provider used when a runtime has no interactive control plane.
#[derive(Clone, Copy, Debug, PartialEq, Eq, Structural)]
pub struct DenyAllApprovals;

impl DenyAllApprovals {
    /// Answers every request with a denial.
    pub fn request(&self, request: &ApprovalRequest) -> (decision: ApprovalDecision)
        ensures
            decision@ == (ApprovalDecisionView::Denied {
                reason: "no approval provider is configured"@,
            }),
    {
        ApprovalDecision::Denied { reason: "no approval provider is configured".to_owned() }
    }
}

} // verus!

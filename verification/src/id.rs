//! Identifiers of threads, turns, tool calls and events.
//! 
//! The host makes new identifiers; the library compares and carries them.

use vstd::prelude::*;
use vstd::string::*;

use crate::datum::Datum;

verus! {

/// A conversation.
#[derive(Debug, PartialEq, Eq, PartialOrd, Ord)]
pub struct ThreadId {
    text: String,
}

impl View for ThreadId {
    type V = Seq<char>;

    closed spec fn view(&self) -> Seq<char> {
        self.text@
    }
}

impl ThreadId {
    /// The identifier that a text spells.
    pub fn from_string(text: String) -> (id: Self)
        ensures
            id@ == text@,
    {
        ThreadId { text }
    }

    /// The text of the identifier.
    pub fn as_str(&self) -> (text: &str)
        ensures
            text@ == self@,
    {
        self.text.as_str()
    }
}

impl Datum for ThreadId {
    fn snapshot(&self) -> (copy: Self) {
        ThreadId { text: self.text.clone() }
    }

    fn same(&self, other: &Self) -> (equal: bool) {
        self.text.same(&other.text)
    }
}

impl Clone for ThreadId {
    fn clone(&self) -> (copy: Self)
        ensures
            copy@ == self@,
    {
        self.snapshot()
    }
}

/// One exchange of a conversation.
#[derive(Debug, PartialEq, Eq, PartialOrd, Ord)]
pub struct TurnId {
    text: String,
}

impl View for TurnId {
    type V = Seq<char>;

    closed spec fn view(&self) -> Seq<char> {
        self.text@
    }
}

impl TurnId {
    /// The identifier that a text spells.
    pub fn from_string(text: String) -> (id: Self)
        ensures
            id@ == text@,
    {
        TurnId { text }
    }

    /// The text of the identifier.
    pub fn as_str(&self) -> (text: &str)
        ensures
            text@ == self@,
    {
        self.text.as_str()
    }
}

impl Datum for TurnId {
    fn snapshot(&self) -> (copy: Self) {
        TurnId { text: self.text.clone() }
    }

    fn same(&self, other: &Self) -> (equal: bool) {
        self.text.same(&other.text)
    }
}

impl Clone for TurnId {
    fn clone(&self) -> (copy: Self)
        ensures
            copy@ == self@,
    {
        self.snapshot()
    }
}

/// One tool call of a turn.
#[derive(Debug, PartialEq, Eq, PartialOrd, Ord)]
pub struct CallId {
    text: String,
}

impl View for CallId {
    type V = Seq<char>;

    closed spec fn view(&self) -> Seq<char> {
        self.text@
    }
}

impl CallId {
    /// The identifier that a text spells.
    pub fn from_string(text: String) -> (id: Self)
        ensures
            id@ == text@,
    {
        CallId { text }
    }

    /// The text of the identifier.
    pub fn as_str(&self) -> (text: &str)
        ensures
            text@ == self@,
    {
        self.text.as_str()
    }
}

impl Datum for CallId {
    fn snapshot(&self) -> (copy: Self) {
        CallId { text: self.text.clone() }
    }

    fn same(&self, other: &Self) -> (equal: bool) {
        self.text.same(&other.text)
    }
}

impl Clone for CallId {
    fn clone(&self) -> (copy: Self)
        ensures
            copy@ == self@,
    {
        self.snapshot()
    }
}

/// One recorded event.
#[derive(Debug, PartialEq, Eq, PartialOrd, Ord)]
pub struct EventId {
    text: String,
}

impl View for EventId {
    type V = Seq<char>;

    closed spec fn view(&self) -> Seq<char> {
        self.text@
    }
}

impl EventId {
    /// The identifier that a text spells.
    pub fn from_string(text: String) -> (id: Self)
        ensures
            id@ == text@,
    {
        EventId { text }
    }

    /// The text of the identifier.
    pub fn as_str(&self) -> (text: &str)
        ensures
            text@ == self@,
    {
        self.text.as_str()
    }
}

impl Datum for EventId {
    fn snapshot(&self) -> (copy: Self) {
        EventId { text: self.text.clone() }
    }

    fn same(&self, other: &Self) -> (equal: bool) {
        self.text.same(&other.text)
    }
}

impl Clone for EventId {
    fn clone(&self) -> (copy: Self)
        ensures
            copy@ == self@,
    {
        self.snapshot()
    }
}

} // verus!

//! The stages of a connection, and what each stage reads next.

use vstd::prelude::*;

verus! {

/// How far a connection has come.
#[derive(Clone, Copy, PartialEq, Eq, Structural, Debug)]
pub enum State {
    /// The client's preface is awaited.
    Preface,
    /// The first SETTINGS frame is awaited.
    Settings,
    /// The connection is over.
    Closed,
}

/// What to read when the transport has something.
#[derive(Clone, Copy, PartialEq, Eq, Structural, Debug)]
pub enum ReadAction {
    ReadPreface,
    ReadSettings,
    Ignore,
}

impl State {
    /// What a connection in this state reads next.
    pub open spec fn spec_on_readable(self) -> ReadAction {
        match self {
            State::Preface => ReadAction::ReadPreface,
            State::Settings => ReadAction::ReadSettings,
            State::Closed => ReadAction::Ignore,
        }
    }

    pub fn on_readable(&self) -> (action: ReadAction)
        ensures
            action == self.spec_on_readable(),
    {
        match self {
            State::Preface => ReadAction::ReadPreface,
            State::Settings => ReadAction::ReadSettings,
            _ => ReadAction::Ignore,
        }
    }

    pub fn is_closed(&self) -> (closed: bool)
        ensures
            closed == (*self == State::Closed),
    {
        match self {
            State::Closed => true,
            _ => false,
        }
    }
}

} // verus!

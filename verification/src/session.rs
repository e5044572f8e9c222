//! The life of a session with a vault: not yet opened, open, and then either
//! saved or discarded.

use vstd::prelude::*;

verus! {

/// Where a session stands.
#[derive(Clone, Copy, Debug, PartialEq, Eq, Structural)]
pub enum SessionState {
    /// No vault has been opened yet.
    Uninitialized,
    /// A credential set is held in memory.
    Open,
    /// The set has been saved; the session is over.
    Saved,
    /// The set has been dropped without saving; the session is over.
    Discarded,
}

/// What can happen to a session.
#[derive(Clone, Copy, Debug, PartialEq, Eq, Structural)]
pub enum SessionEvent {
    /// A vault was opened, or an empty one was started.
    Opened,
    /// An attempt to open a vault failed.
    OpenRefused,
    /// The set was saved.
    Saved,
    /// The set was dropped.
    Discarded,
}

impl SessionState {
    /// The state after `event`, where the event can happen in this state. An
    /// open session is never opened again, and a finished one goes nowhere.
    pub open spec fn after(self, event: SessionEvent) -> Option<SessionState> {
        match (self, event) {
            (SessionState::Uninitialized, SessionEvent::Opened) => Some(SessionState::Open),
            (SessionState::Uninitialized, SessionEvent::OpenRefused) => Some(
                SessionState::Uninitialized,
            ),
            (SessionState::Open, SessionEvent::Saved) => Some(SessionState::Saved),
            (SessionState::Open, SessionEvent::Discarded) => Some(SessionState::Discarded),
            _ => None,
        }
    }

    /// A session that has not opened anything yet.
    pub fn new() -> (state: SessionState)
        ensures
            state == SessionState::Uninitialized,
    {
        SessionState::Uninitialized
    }

    /// The state after `event`, or none where the event is out of place.
    pub fn on(self, event: SessionEvent) -> (next: Option<SessionState>)
        ensures
            next == self.after(event),
    {
        match self {
            SessionState::Uninitialized => match event {
                SessionEvent::Opened => Some(SessionState::Open),
                SessionEvent::OpenRefused => Some(SessionState::Uninitialized),
                _ => None,
            },
            SessionState::Open => match event {
                SessionEvent::Saved => Some(SessionState::Saved),
                SessionEvent::Discarded => Some(SessionState::Discarded),
                _ => None,
            },
            _ => None,
        }
    }

    /// Whether the session is over.
    pub fn is_over(&self) -> (over: bool)
        ensures
            over == (*self == SessionState::Saved || *self == SessionState::Discarded),
            over ==> forall|event: SessionEvent| self.after(event) is None,
    {
        match self {
            SessionState::Saved => true,
            SessionState::Discarded => true,
            _ => false,
        }
    }
}

/// No event leads from an open session back to one that awaits a passphrase.
pub proof fn lemma_open_never_reopens(event: SessionEvent)
    ensures
        SessionState::Open.after(event) != Some(SessionState::Uninitialized),
        SessionState::Open.after(event) != Some(SessionState::Open),
{
}

} // verus!

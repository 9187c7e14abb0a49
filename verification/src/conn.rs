//! The connection state shared between the bridge connection task and the
//! user interface.
use vstd::prelude::*;
use std::sync::atomic::AtomicU8;
use std::sync::atomic::Ordering;
use std::sync::Arc;

verus! {

/// State of the connection to the agent bridge.
#[derive(Debug, Clone, Copy, PartialEq, Eq, Structural)]
pub enum ConnState {
    Disconnected,
    Connecting,
    Connected,
}

/// The one-byte code under which a state is stored.
pub open spec fn state_code(s: ConnState) -> u8 {
    match s {
        ConnState::Disconnected => 0,
        ConnState::Connecting => 1,
        ConnState::Connected => 2,
    }
}

/// The state that a stored code stands for: codes other than 1 and 2 read as
/// disconnected.
pub open spec fn state_of_code(c: u8) -> ConnState {
    if c == 2 {
        ConnState::Connected
    } else if c == 1 {
        ConnState::Connecting
    } else {
        ConnState::Disconnected
    }
}

impl ConnState {
    /// The code under which this state is stored.
    pub fn code(self) -> (c: u8)
        ensures
            c == state_code(self),
    {
        match self {
            ConnState::Disconnected => 0,
            ConnState::Connecting => 1,
            ConnState::Connected => 2,
        }
    }

    /// The state that a stored code stands for.
    pub fn from_code(c: u8) -> (s: ConnState)
        ensures
            s == state_of_code(c),
    {
        if c == 2 {
            ConnState::Connected
        } else if c == 1 {
            ConnState::Connecting
        } else {
            ConnState::Disconnected
        }
    }
}

/// Reading back the code of a state gives that state.
pub proof fn law_state_code_roundtrip(s: ConnState)
    ensures
        state_of_code(state_code(s)) == s,
{
}

/// A connection state shared by clones (one atomic byte behind an `Arc`).
#[derive(Clone)]
pub struct ConnStatus(Arc<AtomicU8>);

impl ConnStatus {
    /// A new shared state, disconnected: the atomic byte holds the code of
    /// `ConnState::Disconnected`. No clause states it: Verus sees nothing
    /// inside a std atomic (vstd gives them no specification of their value).
    pub fn new() -> (r: Self) {
        ConnStatus(Arc::new(AtomicU8::new(ConnState::Disconnected.code())))
    }

    /// Stores `state` for every clone to see.
    pub fn set(&self, state: ConnState) {
        self.0.store(state.code(), Ordering::Relaxed);
    }

    /// The state last stored by any clone. Another task may store at any
    /// time, so nothing ties the answer to an earlier `set`.
    pub fn get(&self) -> ConnState {
        let c = self.0.load(Ordering::Relaxed);
        ConnState::from_code(c)
    }
}

} // verus!

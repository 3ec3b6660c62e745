//! The decisions of lazy connection acquisition: a connection is opened on
//! first use, reused while it is open, and opened again after a failure.
use vstd::prelude::*;

verus! {

#[derive(Debug, Clone, Copy, PartialEq, Eq, Structural)]
pub enum ConnectionState {
    Uninitialized,
    Connected,
    Failed,
}

/// What acquiring a connection does.
#[derive(Debug, Clone, Copy, PartialEq, Eq, Structural)]
pub enum ConnectStep {
    /// Open a new connection.
    Open,
    /// Hand out the connection that is already open.
    Reuse,
}

impl ConnectionState {
    pub fn new() -> (r: ConnectionState)
        ensures
            r is Uninitialized,
    {
        ConnectionState::Uninitialized
    }

    /// An open connection is reused; otherwise one is opened.
    pub fn next_step(&self) -> (r: ConnectStep)
        ensures
            (r is Reuse) == (*self is Connected),
    {
        match self {
            ConnectionState::Connected => ConnectStep::Reuse,
            _ => ConnectStep::Open,
        }
    }

    /// The state after trying to open a connection.
    pub fn after_open(opened: bool) -> (r: ConnectionState)
        ensures
            opened ==> r is Connected,
            !opened ==> r is Failed,
    {
        if opened {
            ConnectionState::Connected
        } else {
            ConnectionState::Failed
        }
    }

    /// Whether a ready connection can be handed out.
    pub fn is_available(&self) -> (r: bool)
        ensures
            r == (*self is Connected),
    {
        match self {
            ConnectionState::Connected => true,
            _ => false,
        }
    }
}

} // verus!

//! The client's side: what a `connect` attempt came to, and what to do when
//! a connection that was still being made reports readiness.

use vstd::prelude::*;
use crate::epoll::{epoll_out, flag_set, has_flag};

verus! {

/// What a non-blocking `connect` came to.
pub enum ConnectOutcome {
    /// Connected at once.
    Connected,
    /// Still in progress; the connection reports when it is writable.
    InProgress,
    /// Failed.
    Failed,
}

/// `connect` returned 0 (or anything but -1): connected; -1 with the error
/// "in progress": pending; -1 with any other error: failed.
pub open spec fn connect_outcome_of(connect_response: i32, in_progress: bool) -> ConnectOutcome {
    if connect_response == -1 {
        if in_progress {
            ConnectOutcome::InProgress
        } else {
            ConnectOutcome::Failed
        }
    } else {
        ConnectOutcome::Connected
    }
}

/// Classifies the response of `connect`; `in_progress` tells whether the
/// error it set was `EINPROGRESS`.
pub fn connect_outcome(connect_response: i32, in_progress: bool) -> (outcome: ConnectOutcome)
    ensures
        outcome == connect_outcome_of(connect_response, in_progress),
{
    if connect_response == -1 {
        if in_progress {
            ConnectOutcome::InProgress
        } else {
            ConnectOutcome::Failed
        }
    } else {
        ConnectOutcome::Connected
    }
}

/// What to do about a readiness notification for a pending connection.
pub enum PendingAction {
    /// The connection was made: watch it for reading only, and count it.
    Established,
    /// The connection failed: close it.
    Broken,
    /// Not writable: nothing to do.
    Ignore,
}

/// A writable connection was made if its pending socket error is 0 and failed
/// otherwise; notifications without writability are ignored.
pub open spec fn pending_action(flags: u32, socket_error: i32) -> PendingAction {
    if flag_set(flags, 0x4) {
        if socket_error == 0 {
            PendingAction::Established
        } else {
            PendingAction::Broken
        }
    } else {
        PendingAction::Ignore
    }
}

/// Decides about the events `flags` of a connection whose pending socket
/// error (`SO_ERROR`) is `socket_error`.
pub fn on_connection_event(flags: u32, socket_error: i32) -> (action: PendingAction)
    ensures
        action == pending_action(flags, socket_error),
{
    if has_flag(flags, epoll_out()) {
        if socket_error == 0 {
            PendingAction::Established
        } else {
            PendingAction::Broken
        }
    } else {
        PendingAction::Ignore
    }
}

/// The connections the client holds open, in the order they were made.
pub struct ClientConnections {
    connections_active: Vec<i32>,
}

impl View for ClientConnections {
    type V = Seq<i32>;

    closed spec fn view(&self) -> Seq<i32> {
        self.connections_active@
    }
}

impl ClientConnections {
    /// None yet.
    pub fn new() -> (c: Self)
        ensures
            c@ == Seq::<i32>::empty(),
    {
        ClientConnections { connections_active: Vec::new() }
    }

    /// The connection on `fd` was made.
    pub fn connection_made(&mut self, fd: i32)
        ensures
            final(self)@ == old(self)@.push(fd),
    {
        self.connections_active.push(fd);
    }

    /// How many connections are held.
    pub fn len(&self) -> (n: usize)
        ensures
            n == self@.len(),
    {
        self.connections_active.len()
    }
}

/// A connection reported writable was made exactly when its socket error is
/// 0, and failed for every non-zero error, whatever other bits (readability,
/// error, hang-up) the notification holds; notifications without
/// writability (bit 0x4) change nothing.
pub proof fn lemma_writable_connection_decided_by_error(flags: u32, socket_error: i32)
    ensures
        flags & 4u32 != 0 ==> (pending_action(flags, socket_error) is Established <==> socket_error == 0),
        flags & 4u32 != 0 && socket_error != 0 ==> pending_action(flags, socket_error) is Broken,
        flags & 4u32 == 0 ==> pending_action(flags, socket_error) is Ignore,
{
    assert(0x4i32 as u32 == 4u32);
}

/// The outcome of `connect` is decided by its response and, on -1, by whether
/// the error was "in progress": any other response is a connection made.
pub proof fn lemma_connect_outcome_decided(connect_response: i32, in_progress: bool)
    ensures
        connect_response != -1 ==> connect_outcome_of(connect_response, in_progress) is Connected,
        connect_response == -1 && in_progress ==> connect_outcome_of(connect_response, in_progress) is InProgress,
        connect_response == -1 && !in_progress ==> connect_outcome_of(connect_response, in_progress) is Failed,
{
}

} // verus!

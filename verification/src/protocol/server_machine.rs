//! Server-side session transition validation.
use vstd::prelude::*;

use super::state::{LineKind, RequestKind, StateError};

verus! {

/// Current phase of a server session.
#[derive(Debug, Clone, Copy, PartialEq, Eq, Structural)]
pub enum ServerState {
    /// Greeting hooks are running before the initial OK.
    Greeting,
    /// Waiting for a client command.
    Ready,
    /// A handler owns the command and may emit its responses.
    Handler,
    /// Waiting for client data terminated by END or CAN.
    Inquiry,
    /// The client sent CAN; only informational lines and one final may follow.
    AwaitFinal,
    /// Protocol or I/O failure prevents reuse.
    Invalid,
    /// The connection is closed.
    Closed,
}

/// A server phase together with the phase an inquiry returns to.
pub struct ServerPhase {
    pub state: ServerState,
    pub origin: ServerState,
}

/// The phase after invalidation: closed stays closed.
pub open spec fn server_invalidated(p: ServerPhase) -> ServerPhase {
    if p.state == ServerState::Closed {
        p
    } else {
        ServerPhase { state: ServerState::Invalid, ..p }
    }
}

/// The effect of a validated client request on a server session.
///
/// A new command is accepted only in Ready. Inquiry data does not finish
/// the inquiry; END resumes its origin, while CAN requires a final.
pub open spec fn server_receive(p: ServerPhase, event: RequestKind) -> (ServerPhase, Result<(), StateError>) {
    let s = p.state;
    if s == ServerState::Invalid || s == ServerState::Closed {
        (p, Err(StateError::Unusable))
    } else if event == RequestKind::Comment || event == RequestKind::Empty || (s
        == ServerState::Inquiry && event == RequestKind::Data) {
        (p, Ok(()))
    } else if s == ServerState::Ready && event == RequestKind::Command {
        (ServerPhase { state: ServerState::Handler, ..p }, Ok(()))
    } else if s == ServerState::Inquiry && event == RequestKind::End {
        (ServerPhase { state: p.origin, ..p }, Ok(()))
    } else if s == ServerState::Inquiry && event == RequestKind::Can {
        (ServerPhase { state: ServerState::AwaitFinal, ..p }, Ok(()))
    } else {
        (server_invalidated(p), Err(StateError::UnexpectedEvent))
    }
}

/// The effect of a response about to be sent by the server.
///
/// Status and comments do not finish an operation. A greeting ERR is
/// accepted for sending but invalidates the session. A handler's OK or ERR
/// returns to Ready, where a duplicate final is rejected.
pub open spec fn server_send(p: ServerPhase, event: LineKind) -> (ServerPhase, Result<(), StateError>) {
    let s = p.state;
    if s == ServerState::Invalid || s == ServerState::Closed {
        (p, Err(StateError::Unusable))
    } else if event == LineKind::Comment || event == LineKind::Empty {
        (p, Ok(()))
    } else if event == LineKind::Status && s != ServerState::Ready {
        (p, Ok(()))
    } else if s == ServerState::Handler && (event == LineKind::Data || event == LineKind::End) {
        (p, Ok(()))
    } else if (s == ServerState::Greeting || s == ServerState::Handler) && event == LineKind::Inquire {
        (ServerPhase { state: ServerState::Inquiry, origin: s }, Ok(()))
    } else if (s == ServerState::Greeting && event == LineKind::Okay) || (s == ServerState::Handler
        && (event == LineKind::Okay || event == LineKind::Error)) {
        (ServerPhase { state: ServerState::Ready, ..p }, Ok(()))
    } else if s == ServerState::Greeting && event == LineKind::Error {
        (server_invalidated(p), Ok(()))
    } else if s == ServerState::AwaitFinal && (event == LineKind::Okay || event == LineKind::Error) {
        if p.origin == ServerState::Greeting && event == LineKind::Error {
            (server_invalidated(p), Ok(()))
        } else {
            (ServerPhase { state: ServerState::Ready, ..p }, Ok(()))
        }
    } else {
        (server_invalidated(p), Err(StateError::UnexpectedEvent))
    }
}

/// Pure server-side session validation, with exactly one final per operation.
///
/// Transport failures and abandoned operations must call
/// [`ServerMachine::invalidate`]. This type handles neither I/O nor dispatch.
#[derive(Debug)]
pub struct ServerMachine {
    state: ServerState,
    inquiry_origin: ServerState,
}

impl View for ServerMachine {
    type V = ServerPhase;

    closed spec fn view(&self) -> ServerPhase {
        ServerPhase { state: self.state, origin: self.inquiry_origin }
    }
}

impl ServerMachine {
    /// Starts before the greeting's final response.
    pub fn new() -> (m: Self)
        ensures
            m@ == (ServerPhase { state: ServerState::Greeting, origin: ServerState::Greeting }),
    {
        Self { state: ServerState::Greeting, inquiry_origin: ServerState::Greeting }
    }

    /// Returns the current phase.
    pub fn state(&self) -> (s: ServerState)
        ensures
            s == self@.state,
    {
        self.state
    }

    /// Applies a validated client request category.
    pub fn receive_request(&mut self, event: RequestKind) -> (r: Result<(), StateError>)
        ensures
            (final(self)@, r) == server_receive(old(self)@, event),
    {
        let s = self.state;
        if s == ServerState::Invalid || s == ServerState::Closed {
            return Err(StateError::Unusable);
        }
        if event == RequestKind::Comment || event == RequestKind::Empty || (s == ServerState::Inquiry
            && event == RequestKind::Data) {
            return Ok(());
        }
        if s == ServerState::Ready && event == RequestKind::Command {
            self.state = ServerState::Handler;
            return Ok(());
        }
        if s == ServerState::Inquiry && event == RequestKind::End {
            self.state = self.inquiry_origin;
            return Ok(());
        }
        if s == ServerState::Inquiry && event == RequestKind::Can {
            self.state = ServerState::AwaitFinal;
            return Ok(());
        }
        self.invalidate();
        Err(StateError::UnexpectedEvent)
    }

    /// Validates a response transition before the corresponding send.
    ///
    /// If the send fails, the caller must invalidate even if this transition
    /// reached Ready.
    pub fn send_response(&mut self, event: LineKind) -> (r: Result<(), StateError>)
        ensures
            (final(self)@, r) == server_send(old(self)@, event),
    {
        let s = self.state;
        if s == ServerState::Invalid || s == ServerState::Closed {
            return Err(StateError::Unusable);
        }
        if event == LineKind::Comment || event == LineKind::Empty {
            return Ok(());
        }
        if event == LineKind::Status && s != ServerState::Ready {
            return Ok(());
        }
        if s == ServerState::Handler && (event == LineKind::Data || event == LineKind::End) {
            return Ok(());
        }
        if (s == ServerState::Greeting || s == ServerState::Handler) && event == LineKind::Inquire {
            self.inquiry_origin = s;
            self.state = ServerState::Inquiry;
            return Ok(());
        }
        if (s == ServerState::Greeting && event == LineKind::Okay) || (s == ServerState::Handler
            && (event == LineKind::Okay || event == LineKind::Error)) {
            self.state = ServerState::Ready;
            return Ok(());
        }
        if s == ServerState::Greeting && event == LineKind::Error {
            self.invalidate();
            return Ok(());
        }
        if s == ServerState::AwaitFinal && (event == LineKind::Okay || event == LineKind::Error) {
            if self.inquiry_origin == ServerState::Greeting && event == LineKind::Error {
                self.invalidate();
            } else {
                self.state = ServerState::Ready;
            }
            return Ok(());
        }
        self.invalidate();
        Err(StateError::UnexpectedEvent)
    }

    /// Permanently forbids reuse after protocol failure or uncertain I/O.
    pub fn invalidate(&mut self)
        ensures
            final(self)@ == server_invalidated(old(self)@),
    {
        if self.state != ServerState::Closed {
            self.state = ServerState::Invalid;
        }
    }

    /// Marks the connection closed; subsequent events cannot reopen it.
    pub fn close(&mut self)
        ensures
            final(self)@ == (ServerPhase { state: ServerState::Closed, ..old(self)@ }),
    {
        self.state = ServerState::Closed;
    }
}

impl Default for ServerMachine {
    fn default() -> (m: Self)
        ensures
            m@ == (ServerPhase { state: ServerState::Greeting, origin: ServerState::Greeting }),
    {
        Self::new()
    }
}

} // verus!

//! Client-side session transition validation.
use vstd::prelude::*;

use super::state::{LineKind, StateError};

verus! {

/// Current phase of a client session.
#[derive(Debug, Clone, Copy, PartialEq, Eq, Structural)]
pub enum ClientState {
    /// Waiting for the initial successful greeting.
    Greeting,
    /// Available for one new command.
    Ready,
    /// A command is awaiting its final response.
    Command,
    /// The client must finish or cancel an inquiry.
    Inquiry,
    /// CAN was sent; a final OK or ERR is still required.
    AwaitFinal,
    /// Protocol or I/O state is uncertain; reuse is forbidden.
    Invalid,
    /// The connection was explicitly closed.
    Closed,
}

/// A client phase together with the phase an inquiry returns to.
pub struct ClientPhase {
    pub state: ClientState,
    pub origin: ClientState,
}

/// The phase after invalidation: closed stays closed.
pub open spec fn client_invalidated(p: ClientPhase) -> ClientPhase {
    if p.state == ClientState::Closed {
        p
    } else {
        ClientPhase { state: ClientState::Invalid, ..p }
    }
}

/// The effect of a validated server response on a client session.
///
/// Comments and empty lines are ignored in live phases. Status is allowed
/// during greeting, command, inquiry and cancellation drain. Data and
/// partial END are allowed only during a command. A final ERR completes a
/// command but rejects a greeting. An inquiry remembers its origin.
pub open spec fn client_receive(p: ClientPhase, event: LineKind) -> (ClientPhase, Result<(), StateError>) {
    let s = p.state;
    if s == ClientState::Invalid || s == ClientState::Closed {
        (p, Err(StateError::Unusable))
    } else if event == LineKind::Comment || event == LineKind::Empty {
        (p, Ok(()))
    } else if event == LineKind::Status && s != ClientState::Ready {
        (p, Ok(()))
    } else if s == ClientState::Command && (event == LineKind::Data || event == LineKind::End) {
        (p, Ok(()))
    } else if (s == ClientState::Greeting || s == ClientState::Command) && event == LineKind::Inquire {
        (ClientPhase { state: ClientState::Inquiry, origin: s }, Ok(()))
    } else if (s == ClientState::Greeting && event == LineKind::Okay) || (s == ClientState::Command
        && (event == LineKind::Okay || event == LineKind::Error)) {
        (ClientPhase { state: ClientState::Ready, ..p }, Ok(()))
    } else if s == ClientState::Greeting && event == LineKind::Error {
        (client_invalidated(p), Err(StateError::GreetingRejected))
    } else if s == ClientState::AwaitFinal && (event == LineKind::Okay || event == LineKind::Error) {
        if p.origin == ClientState::Greeting && event == LineKind::Error {
            (client_invalidated(p), Err(StateError::GreetingRejected))
        } else {
            (ClientPhase { state: ClientState::Ready, ..p }, Ok(()))
        }
    } else {
        (client_invalidated(p), Err(StateError::UnexpectedEvent))
    }
}

/// Reserving the session for a command.
pub open spec fn client_begin(p: ClientPhase) -> (ClientPhase, Result<(), StateError>) {
    if p.state == ClientState::Ready {
        (ClientPhase { state: ClientState::Command, ..p }, Ok(()))
    } else if p.state == ClientState::Invalid || p.state == ClientState::Closed {
        (p, Err(StateError::Unusable))
    } else {
        (p, Err(StateError::NotReady))
    }
}

/// Recording a sent END (`cancelled == false`) or CAN (`true`).
pub open spec fn client_finish_inquiry(p: ClientPhase, cancelled: bool) -> (ClientPhase, Result<(), StateError>) {
    if p.state == ClientState::Invalid || p.state == ClientState::Closed {
        (p, Err(StateError::Unusable))
    } else if p.state == ClientState::Inquiry {
        if cancelled {
            (ClientPhase { state: ClientState::AwaitFinal, ..p }, Ok(()))
        } else {
            (ClientPhase { state: p.origin, ..p }, Ok(()))
        }
    } else {
        (p, Err(StateError::NotReady))
    }
}

/// Pure client-side transition validation, independent of I/O and timeouts.
///
/// Call transitions only for validated lines and completed sends; a
/// transport or cancellation error must call [`ClientMachine::invalidate`].
#[derive(Debug)]
pub struct ClientMachine {
    state: ClientState,
    inquiry_origin: ClientState,
}

impl View for ClientMachine {
    type V = ClientPhase;

    closed spec fn view(&self) -> ClientPhase {
        ClientPhase { state: self.state, origin: self.inquiry_origin }
    }
}

impl ClientMachine {
    /// Starts a session awaiting its greeting.
    pub fn new() -> (m: Self)
        ensures
            m@ == (ClientPhase { state: ClientState::Greeting, origin: ClientState::Greeting }),
    {
        Self { state: ClientState::Greeting, inquiry_origin: ClientState::Greeting }
    }

    /// Returns the current phase without changing it.
    pub fn state(&self) -> (s: ClientState)
        ensures
            s == self@.state,
    {
        self.state
    }

    /// Reserves the ready session for exactly one command.
    ///
    /// A rejected local request preserves state.
    pub fn begin_command(&mut self) -> (r: Result<(), StateError>)
        ensures
            (final(self)@, r) == client_begin(old(self)@),
    {
        match self.state {
            ClientState::Ready => {
                self.state = ClientState::Command;
                Ok(())
            },
            ClientState::Invalid | ClientState::Closed => Err(StateError::Unusable),
            _ => Err(StateError::NotReady),
        }
    }

    /// Applies a validated server response category.
    pub fn receive(&mut self, event: LineKind) -> (r: Result<(), StateError>)
        ensures
            (final(self)@, r) == client_receive(old(self)@, event),
    {
        let s = self.state;
        if s == ClientState::Invalid || s == ClientState::Closed {
            return Err(StateError::Unusable);
        }
        if event == LineKind::Comment || event == LineKind::Empty {
            return Ok(());
        }
        if event == LineKind::Status && s != ClientState::Ready {
            return Ok(());
        }
        if s == ClientState::Command && (event == LineKind::Data || event == LineKind::End) {
            return Ok(());
        }
        if (s == ClientState::Greeting || s == ClientState::Command) && event == LineKind::Inquire {
            self.inquiry_origin = s;
            self.state = ClientState::Inquiry;
            return Ok(());
        }
        if (s == ClientState::Greeting && event == LineKind::Okay) || (s == ClientState::Command
            && (event == LineKind::Okay || event == LineKind::Error)) {
            self.state = ClientState::Ready;
            return Ok(());
        }
        if s == ClientState::Greeting && event == LineKind::Error {
            self.invalidate();
            return Err(StateError::GreetingRejected);
        }
        if s == ClientState::AwaitFinal && (event == LineKind::Okay || event == LineKind::Error) {
            if self.inquiry_origin == ClientState::Greeting && event == LineKind::Error {
                self.invalidate();
                return Err(StateError::GreetingRejected);
            }
            self.state = ClientState::Ready;
            return Ok(());
        }
        self.invalidate();
        Err(StateError::UnexpectedEvent)
    }

    /// Records a successfully sent END (`false`) or CAN (`true`) for an inquiry.
    ///
    /// END resumes the originating greeting or command; CAN enters
    /// `AwaitFinal`. Rejections leave the state unchanged.
    pub fn finish_inquiry(&mut self, cancelled: bool) -> (r: Result<(), StateError>)
        ensures
            (final(self)@, r) == client_finish_inquiry(old(self)@, cancelled),
    {
        match self.state {
            ClientState::Invalid | ClientState::Closed => Err(StateError::Unusable),
            ClientState::Inquiry => {
                self.state = if cancelled {
                    ClientState::AwaitFinal
                } else {
                    self.inquiry_origin
                };
                Ok(())
            },
            _ => Err(StateError::NotReady),
        }
    }

    /// Permanently forbids reuse after uncertain I/O, abandonment, or failure.
    pub fn invalidate(&mut self)
        ensures
            final(self)@ == client_invalidated(old(self)@),
    {
        if self.state != ClientState::Closed {
            self.state = ClientState::Invalid;
        }
    }

    /// Marks the connection closed; no subsequent event can reopen it.
    pub fn close(&mut self)
        ensures
            final(self)@ == (ClientPhase { state: ClientState::Closed, ..old(self)@ }),
    {
        self.state = ClientState::Closed;
    }
}

impl Default for ClientMachine {
    fn default() -> (m: Self)
        ensures
            m@ == (ClientPhase { state: ClientState::Greeting, origin: ClientState::Greeting }),
    {
        Self::new()
    }
}

} // verus!

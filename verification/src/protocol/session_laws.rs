//! Properties that every client and server session run satisfies.
use vstd::prelude::*;

use super::client_machine::{
    client_begin, client_finish_inquiry, client_invalidated, client_receive, ClientPhase,
    ClientState,
};
use super::server_machine::{
    server_invalidated, server_receive, server_send, ServerPhase, ServerState,
};
use super::state::{LineKind, RequestKind, StateError};

verus! {

/// The client phase that mirrors a server phase.
pub open spec fn mirrored(s: ServerState) -> ClientState {
    match s {
        ServerState::Greeting => ClientState::Greeting,
        ServerState::Ready => ClientState::Ready,
        ServerState::Handler => ClientState::Command,
        ServerState::Inquiry => ClientState::Inquiry,
        ServerState::AwaitFinal => ClientState::AwaitFinal,
        ServerState::Invalid => ClientState::Invalid,
        ServerState::Closed => ClientState::Closed,
    }
}

/// A client session and a server session agree on phase and inquiry origin.
pub open spec fn in_step(c: ClientPhase, s: ServerPhase) -> bool {
    c.state == mirrored(s.state) && c.origin == mirrored(s.origin)
}

/// A final response category.
pub open spec fn is_final(e: LineKind) -> bool {
    e == LineKind::Okay || e == LineKind::Error
}

/// Invalid and closed client sessions reject every event and operation
/// without changing, and invalidation never reopens a closed session.
pub proof fn law_client_terminal(p: ClientPhase, event: LineKind, cancelled: bool)
    requires
        p.state == ClientState::Invalid || p.state == ClientState::Closed,
    ensures
        client_receive(p, event) == (p, Err::<(), StateError>(StateError::Unusable)),
        client_begin(p) == (p, Err::<(), StateError>(StateError::Unusable)),
        client_finish_inquiry(p, cancelled) == (p, Err::<(), StateError>(StateError::Unusable)),
        client_invalidated(p).state == p.state,
{
}

/// Invalid and closed server sessions reject every request and response
/// without changing, and invalidation never reopens a closed session.
pub proof fn law_server_terminal(p: ServerPhase, request: RequestKind, response: LineKind)
    requires
        p.state == ServerState::Invalid || p.state == ServerState::Closed,
    ensures
        server_receive(p, request) == (p, Err::<(), StateError>(StateError::Unusable)),
        server_send(p, response) == (p, Err::<(), StateError>(StateError::Unusable)),
        server_invalidated(p).state == p.state,
{
}

/// A client event rejected for any reason other than unusability leaves
/// the session invalid.
pub proof fn law_client_rejection_invalidates(p: ClientPhase, event: LineKind)
    requires
        client_receive(p, event).1 is Err,
        client_receive(p, event).1 != Err::<(), StateError>(StateError::Unusable),
    ensures
        client_receive(p, event).0.state == ClientState::Invalid,
{
}

/// An illegal request or response leaves the server session invalid.
pub proof fn law_server_rejection_invalidates(p: ServerPhase, request: RequestKind, response: LineKind)
    ensures
        server_receive(p, request).1 == Err::<(), StateError>(StateError::UnexpectedEvent)
            ==> server_receive(p, request).0.state == ServerState::Invalid,
        server_send(p, response).1 == Err::<(), StateError>(StateError::UnexpectedEvent)
            ==> server_send(p, response).0.state == ServerState::Invalid,
{
}

/// Rejected local client operations leave the phase unchanged.
pub proof fn law_client_local_rejection_preserves(p: ClientPhase, cancelled: bool)
    ensures
        client_begin(p).1 is Err ==> client_begin(p).0 == p,
        client_finish_inquiry(p, cancelled).1 is Err ==> client_finish_inquiry(p, cancelled).0 == p,
{
}

/// Each command gets exactly one final: a final completes the command, and
/// a second final before the next command is rejected on both sides.
pub proof fn law_one_final_per_command(c: ClientPhase, s: ServerPhase, first: LineKind, second: LineKind)
    requires
        c.state == ClientState::Command,
        s.state == ServerState::Handler,
        is_final(first),
        is_final(second),
    ensures
        client_receive(c, first).0.state == ClientState::Ready,
        client_receive(c, first).1 is Ok,
        server_send(s, first).0.state == ServerState::Ready,
        server_send(s, first).1 is Ok,
        client_receive(client_receive(c, first).0, second).1 == Err::<(), StateError>(
            StateError::UnexpectedEvent,
        ),
        server_send(server_send(s, first).0, second).1 == Err::<(), StateError>(
            StateError::UnexpectedEvent,
        ),
{
}

/// A response that the server may send keeps a client that receives it in
/// step with the server.
pub proof fn law_response_keeps_sessions_in_step(c: ClientPhase, s: ServerPhase, event: LineKind)
    requires
        in_step(c, s),
        server_send(s, event).1 is Ok,
    ensures
        in_step(client_receive(c, event).0, server_send(s, event).0),
{
}

/// A command the client may begin is accepted by a server in step with it,
/// and both sides stay in step.
pub proof fn law_command_keeps_sessions_in_step(c: ClientPhase, s: ServerPhase)
    requires
        in_step(c, s),
        client_begin(c).1 is Ok,
    ensures
        server_receive(s, RequestKind::Command).1 is Ok,
        in_step(client_begin(c).0, server_receive(s, RequestKind::Command).0),
{
}

/// Ending or cancelling an inquiry is accepted by a server in step with the
/// client, and both sides stay in step.
pub proof fn law_inquiry_end_keeps_sessions_in_step(c: ClientPhase, s: ServerPhase, cancelled: bool)
    requires
        in_step(c, s),
        client_finish_inquiry(c, cancelled).1 is Ok,
    ensures
        server_receive(s, if cancelled { RequestKind::Can } else { RequestKind::End }).1 is Ok,
        in_step(
            client_finish_inquiry(c, cancelled).0,
            server_receive(s, if cancelled { RequestKind::Can } else { RequestKind::End }).0,
        ),
{
}

/// Inquiry data and ignorable lines never change a server in step with its
/// client.
pub proof fn law_inquiry_data_keeps_phase(s: ServerPhase)
    requires
        s.state == ServerState::Inquiry,
    ensures
        server_receive(s, RequestKind::Data) == (s, Ok::<(), StateError>(())),
{
}

/// A final response the client accepts completes the operation: the
/// session is Ready again, also after CAN. An accepted response never leaves
/// the client invalid.
pub proof fn law_client_accepted_final_completes(p: ClientPhase, event: LineKind)
    ensures
        client_receive(p, event).1 is Ok ==> client_receive(p, event).0.state != ClientState::Invalid,
        client_receive(p, event).1 is Ok && is_final(event) ==> client_receive(p, event).0.state
            == ClientState::Ready,
        p.state == ClientState::AwaitFinal && event == LineKind::Okay ==> client_receive(p, event)
            == (ClientPhase { state: ClientState::Ready, ..p }, Ok::<(), StateError>(())),
        p.state == ClientState::AwaitFinal && p.origin != ClientState::Greeting && is_final(event)
            ==> client_receive(p, event) == (ClientPhase { state: ClientState::Ready, ..p }, Ok::<
            (),
            StateError,
        >(())),
{
}

/// A final the server sends completes the operation and returns to Ready,
/// also after CAN, unless it is the ERR that rejects a greeting.
pub proof fn law_server_sent_final_completes(p: ServerPhase, event: LineKind)
    ensures
        server_send(p, event).1 is Ok && is_final(event) && !(event == LineKind::Error && (p.state
            == ServerState::Greeting || (p.state == ServerState::AwaitFinal && p.origin
            == ServerState::Greeting))) ==> server_send(p, event).0.state == ServerState::Ready,
        p.state == ServerState::AwaitFinal && event == LineKind::Okay ==> server_send(p, event)
            == (ServerPhase { state: ServerState::Ready, ..p }, Ok::<(), StateError>(())),
        p.state == ServerState::AwaitFinal && p.origin != ServerState::Greeting && is_final(event)
            ==> server_send(p, event) == (ServerPhase { state: ServerState::Ready, ..p }, Ok::<
            (),
            StateError,
        >(())),
{
}

/// A command whose inquiry the client cancels is still completed by its
/// final: after INQUIRE and a sent CAN, OK or ERR makes the client Ready and
/// a new command can begin.
pub proof fn law_client_cancelled_inquiry_completes(p: ClientPhase, event: LineKind)
    requires
        p.state == ClientState::Command,
        is_final(event),
    ensures
        ({
            let asked = client_receive(p, LineKind::Inquire);
            let cancelled = client_finish_inquiry(asked.0, true);
            let done = client_receive(cancelled.0, event);
            &&& asked.1 is Ok
            &&& cancelled.1 is Ok
            &&& done.1 is Ok
            &&& done.0.state == ClientState::Ready
            &&& client_begin(done.0).1 is Ok
        }),
{
}

} // verus!

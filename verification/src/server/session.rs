//! The decisions of a session runner: which lines start commands, which
//! built-in runs, which final response a handler result produces, and why a
//! session ended.
use vstd::prelude::*;
use vstd::string::{StringExecFns, StringSliceAdditionalSpecFns};
use vstd::utf8::encode_utf8;

use super::error::{
    HandlerError, ServerError, TransportError, INTERNAL, INVALID_VALUE, UNKNOWN_COMMAND,
};
use super::hooks::{OptionRequest, SessionEnd};
use super::inquiry::{request_kind, request_kind_of};
use super::registry::{
    bytes_equal, registered, word_bye, word_help, word_nop, word_option, word_reset, Registry,
};
use crate::protocol::encode::encode_model;
use crate::protocol::encode_response;
use crate::protocol::message::{LineModel, ServerLine};
use crate::protocol::server_machine::{
    server_receive, server_send, ServerMachine, ServerPhase, ServerState,
};
use crate::protocol::state::{model_kind, LineKind, RequestKind, StateError};
use crate::protocol::wire::{LF, MAX_LINE_BYTES};

verus! {

/// Why a session ended, from the error that ended it.
pub open spec fn end_reason_of(error: ServerError) -> SessionEnd {
    match error {
        ServerError::Transport(TransportError::Timeout) => SessionEnd::Timeout,
        ServerError::Handler(HandlerError::Transport(TransportError::Timeout)) => SessionEnd::Timeout,
        ServerError::Protocol(_) | ServerError::State(_) => SessionEnd::Protocol,
        ServerError::Transport(TransportError::Protocol(_)) => SessionEnd::Protocol,
        ServerError::Handler(HandlerError::Protocol(_)) => SessionEnd::Protocol,
        ServerError::Handler(HandlerError::State(_)) => SessionEnd::Protocol,
        ServerError::Handler(HandlerError::Transport(TransportError::Protocol(_))) => SessionEnd::Protocol,
        ServerError::Transport(_) => SessionEnd::Transport,
        ServerError::Handler(HandlerError::Transport(_)) => SessionEnd::Transport,
        ServerError::Handler(_) | ServerError::InvalidOptions => SessionEnd::Handler,
    }
}

/// Classifies the error that ended a session: deadlines as timeouts, wire and
/// state failures as protocol failures, other I/O as transport failures, and
/// handler or option failures as handler failures.
pub fn end_reason(error: &ServerError) -> (reason: SessionEnd)
    ensures
        reason == end_reason_of(*error),
{
    match error {
        ServerError::Transport(TransportError::Timeout) => SessionEnd::Timeout,
        ServerError::Handler(HandlerError::Transport(TransportError::Timeout)) => SessionEnd::Timeout,
        ServerError::Protocol(_) | ServerError::State(_) => SessionEnd::Protocol,
        ServerError::Transport(TransportError::Protocol(_)) => SessionEnd::Protocol,
        ServerError::Handler(HandlerError::Protocol(_)) => SessionEnd::Protocol,
        ServerError::Handler(HandlerError::State(_)) => SessionEnd::Protocol,
        ServerError::Handler(HandlerError::Transport(TransportError::Protocol(_))) => SessionEnd::Protocol,
        ServerError::Transport(_) => SessionEnd::Transport,
        ServerError::Handler(HandlerError::Transport(_)) => SessionEnd::Transport,
        ServerError::Handler(_) | ServerError::InvalidOptions => SessionEnd::Handler,
    }
}

/// The reason reported to the close hook: clean for a session that ended
/// without error.
pub fn close_reason(result: &Result<(), ServerError>) -> (reason: SessionEnd)
    ensures
        match result {
            Ok(()) => reason == SessionEnd::Clean,
            Err(e) => reason == end_reason_of(*e),
        },
{
    match result {
        Ok(()) => SessionEnd::Clean,
        Err(e) => end_reason(e),
    }
}

/// Applies a client line received between commands. Returns whether it
/// starts a command; comments and empty lines do not.
pub fn receive_line(machine: &mut ServerMachine, line: &[u8]) -> (r: Result<bool, ServerError>)
    ensures
        match request_kind_of(line@) {
            Err(e) => r matches Err(ServerError::Protocol(f)) && f == e
                && final(machine)@ == old(machine)@,
            Ok(kind) => final(machine)@ == server_receive(old(machine)@, kind).0
                && match server_receive(old(machine)@, kind).1 {
                Err(e) => r matches Err(ServerError::State(f)) && f == e,
                Ok(()) => r == Ok::<bool, ServerError>(
                    kind != RequestKind::Empty && kind != RequestKind::Comment,
                ),
            },
        },
{
    let kind = match request_kind(line) {
        Ok(kind) => kind,
        Err(e) => {
            return Err(ServerError::Protocol(e));
        },
    };
    match machine.receive_request(kind) {
        Err(e) => Err(ServerError::State(e)),
        Ok(()) => Ok(kind != RequestKind::Empty && kind != RequestKind::Comment),
    }
}

/// The commands every session provides itself, and the rest.
#[derive(Debug, Clone, Copy, PartialEq, Eq, Structural)]
pub enum Builtin {
    /// `NOP`, which succeeds.
    Nop,
    /// `BYE`, which succeeds and then ends the session.
    Bye,
    /// `HELP`, which lists the commands.
    Help,
    /// `OPTION`, handed to the option hook.
    Option,
    /// `RESET`, handed to the reset hook.
    Reset,
    /// Any other name, looked up among registered handlers.
    Registered,
}

/// The built-in command named by `name`, if any.
pub open spec fn builtin_of(name: Seq<u8>) -> Builtin {
    if name == word_nop() {
        Builtin::Nop
    } else if name == word_bye() {
        Builtin::Bye
    } else if name == word_help() {
        Builtin::Help
    } else if name == word_option() {
        Builtin::Option
    } else if name == word_reset() {
        Builtin::Reset
    } else {
        Builtin::Registered
    }
}

/// Selects how a command is run, by its exact name.
pub fn builtin(name: &str) -> (b: Builtin)
    ensures
        b == builtin_of(name.spec_bytes()),
{
    let bytes = name.as_bytes();
    let nop: [u8; 3] = [0x4e, 0x4f, 0x50];
    let bye: [u8; 3] = [0x42, 0x59, 0x45];
    let help: [u8; 4] = [0x48, 0x45, 0x4c, 0x50];
    let option: [u8; 6] = [0x4f, 0x50, 0x54, 0x49, 0x4f, 0x4e];
    let reset: [u8; 5] = [0x52, 0x45, 0x53, 0x45, 0x54];
    assert(nop@ =~= word_nop());
    assert(bye@ =~= word_bye());
    assert(help@ =~= word_help());
    assert(option@ =~= word_option());
    assert(reset@ =~= word_reset());
    if bytes_equal(bytes, nop.as_slice()) {
        Builtin::Nop
    } else if bytes_equal(bytes, bye.as_slice()) {
        Builtin::Bye
    } else if bytes_equal(bytes, help.as_slice()) {
        Builtin::Help
    } else if bytes_equal(bytes, option.as_slice()) {
        Builtin::Option
    } else if bytes_equal(bytes, reset.as_slice()) {
        Builtin::Reset
    } else {
        Builtin::Registered
    }
}

/// What the runner does to execute a command.
pub enum CommandAction<'a, H> {
    /// Succeed at once (`NOP`, `BYE`).
    Acknowledge,
    /// List the built-in and registered commands (`HELP`).
    ListHelp,
    /// Hand the arguments to the option hook (`OPTION`).
    SetOption,
    /// Hand the command to the reset hook (`RESET`).
    ResetSession,
    /// Call the handler registered under the command's name.
    Call(&'a H),
    /// Answer with the unknown-command error: no handler owns the name.
    RejectUnknown,
}

/// The runner's next step for one parsed command: the action that produces
/// its result, and whether the session ends once its final is sent.
pub struct CommandPlan<'a, H> {
    /// How the command's result is produced.
    pub action: CommandAction<'a, H>,
    /// The session ends after the final response (`BYE`).
    pub then_close: bool,
}

/// The plan for the command named `name` against `registry`: built-ins by
/// exact name, then the registered handler, else the unknown-command answer;
/// only `BYE` ends the session.
pub fn plan_command<'a, H>(registry: &'a Registry<H>, name: &str) -> (p: CommandPlan<'a, H>)
    ensures
        p.then_close == (builtin_of(name.spec_bytes()) == Builtin::Bye),
        builtin_of(name.spec_bytes()) == Builtin::Nop ==> p.action is Acknowledge,
        builtin_of(name.spec_bytes()) == Builtin::Bye ==> p.action is Acknowledge,
        builtin_of(name.spec_bytes()) == Builtin::Help ==> p.action is ListHelp,
        builtin_of(name.spec_bytes()) == Builtin::Option ==> p.action is SetOption,
        builtin_of(name.spec_bytes()) == Builtin::Reset ==> p.action is ResetSession,
        builtin_of(name.spec_bytes()) == Builtin::Registered ==> (if registered(
            registry@,
            name.spec_bytes(),
        ) {
            p.action matches CommandAction::Call(h) && forall|i: int|
                0 <= i < registry@.len() && #[trigger] registry@[i].0 == name.spec_bytes()
                    ==> registry@[i].1 == *h
        } else {
            p.action is RejectUnknown
        }),
{
    let selected = builtin(name);
    let action = match selected {
        Builtin::Nop => CommandAction::Acknowledge,
        Builtin::Bye => CommandAction::Acknowledge,
        Builtin::Help => CommandAction::ListHelp,
        Builtin::Option => CommandAction::SetOption,
        Builtin::Reset => CommandAction::ResetSession,
        Builtin::Registered => match registry.get(name) {
            Some(handler) => CommandAction::Call(handler),
            None => CommandAction::RejectUnknown,
        },
    };
    let then_close = match selected {
        Builtin::Bye => true,
        _ => false,
    };
    CommandPlan { action, then_close }
}

/// Parses the arguments of OPTION for the option hook; a malformed request
/// is answered with the remote error `INVALID_VALUE`, `invalid option`.
pub fn option_request<'a>(args: &'a [u8]) -> (r: Result<OptionRequest<'a>, HandlerError>)
    ensures
        match super::hooks::parse_option(args@) {
            Ok(view) => r matches Ok(request) && request@ == view,
            Err(_) => r matches Err(HandlerError::Remote { code, message }) && code
                == INVALID_VALUE && message@ == "invalid option"@,
        },
{
    match OptionRequest::parse(args) {
        Ok(request) => Ok(request),
        Err(_) => Err(
            HandlerError::Remote { code: INVALID_VALUE, message: String::from_str("invalid option") },
        ),
    }
}

/// The answer to a command that no built-in or registered handler owns: the
/// remote error `UNKNOWN_COMMAND`, `unknown command`.
pub fn unknown_command() -> (e: HandlerError)
    ensures
        e matches HandlerError::Remote { code, message } && code == UNKNOWN_COMMAND
            && message@ == "unknown command"@,
{
    HandlerError::Remote { code: UNKNOWN_COMMAND, message: String::from_str("unknown command") }
}

/// A handler error that ends the session instead of being answered.
pub open spec fn fatal_result(result: Result<(), HandlerError>) -> bool {
    match result {
        Err(HandlerError::Transport(_)) => true,
        Err(HandlerError::Protocol(_)) => true,
        Err(HandlerError::State(_)) => true,
        Err(HandlerError::Limit(_)) => true,
        _ => false,
    }
}

/// A phase in which an operation still owes its final response.
pub open spec fn awaits_final(state: ServerState) -> bool {
    state == ServerState::Greeting || state == ServerState::Handler || state
        == ServerState::AwaitFinal
}

/// The final response for an answerable handler result: `OK`, the remote
/// error, or a fixed `internal error` text for internal failures.
pub open spec fn final_model(result: Result<(), HandlerError>) -> LineModel {
    match result {
        Ok(()) => LineModel::Okay(Seq::empty()),
        Err(HandlerError::Remote { code, message }) => LineModel::Error {
            code,
            text: encode_utf8(message@),
        },
        Err(_) => LineModel::Error { code: INTERNAL, text: encode_utf8("internal error"@) },
    }
}

/// A final response written into the output buffer, and what the runner
/// reports once it has been sent.
pub struct FinalLine {
    /// The number of bytes of the wire line, LF included.
    pub len: usize,
    /// The outcome after sending: a rejected greeting ends the session.
    pub outcome: Result<(), ServerError>,
}

/// Decides and encodes the one final response for a handler result and
/// applies it to the session.
///
/// Transport, protocol, state and limit failures end the session without a
/// final. Otherwise the session must owe a final; the response is encoded
/// into `output` and its transition applied. A rejected greeting is answered
/// and then ends the session.
pub fn finalize(
    result: Result<(), HandlerError>,
    machine: &mut ServerMachine,
    greeting: bool,
    output: &mut [u8; MAX_LINE_BYTES],
) -> (r: Result<FinalLine, ServerError>)
    ensures
        fatal_result(result) ==> (r matches Err(ServerError::Handler(e)) && result == Err::<
            (),
            HandlerError,
        >(e)) && final(machine)@ == old(machine)@ && final(output)@ == old(output)@,
        !fatal_result(result) && !awaits_final(old(machine)@.state) ==> (r matches Err(
            ServerError::State(StateError::Unusable),
        )) && final(machine)@ == old(machine)@ && final(output)@ == old(output)@,
        !fatal_result(result) && awaits_final(old(machine)@.state) ==> match encode_model(
            final_model(result),
        ) {
            Err(e) => (r matches Err(ServerError::Protocol(f)) && f == e) && final(machine)@ == old(
                machine,
            )@ && final(output)@ == old(output)@,
            Ok(bytes) => {
                &&& final(output)@.take(bytes.len() + 1int) == bytes.push(LF)
                &&& final(output)@.skip(bytes.len() + 1int) == old(output)@.skip(bytes.len() + 1int)
                &&& final(machine)@ == server_send(
                    old(machine)@,
                    model_kind(final_model(result)),
                ).0
                &&& match server_send(old(machine)@, model_kind(final_model(result))).1 {
                    Err(e) => r matches Err(ServerError::State(f)) && f == e,
                    Ok(()) => r matches Ok(line) && line.len == bytes.len() + 1 && (if greeting
                        && result is Err {
                        line.outcome matches Err(ServerError::Handler(h)) && result == Err::<
                            (),
                            HandlerError,
                        >(h)
                    } else {
                        line.outcome is Ok
                    }),
                }
            },
        },
{
    let fatal = match &result {
        Err(HandlerError::Transport(_)) => true,
        Err(HandlerError::Protocol(_)) => true,
        Err(HandlerError::State(_)) => true,
        Err(HandlerError::Limit(_)) => true,
        _ => false,
    };
    if fatal {
        return match result {
            Err(e) => Err(ServerError::Handler(e)),
            Ok(()) => Err(ServerError::State(StateError::Unusable)),
        };
    }
    let state = machine.state();
    if !(state == ServerState::Greeting || state == ServerState::Handler || state
        == ServerState::AwaitFinal) {
        return Err(ServerError::State(StateError::Unusable));
    }
    let empty: [u8; 0] = [];
    let internal = "internal error";
    let line = match &result {
        Ok(()) => {
            assert(empty@ =~= Seq::<u8>::empty());
            ServerLine::Okay(empty.as_slice())
        },
        Err(HandlerError::Remote { code, message }) => {
            match result.as_ref().err().unwrap().validate_remote() {
                Err(e) => {
                    return Err(ServerError::Protocol(e));
                },
                Ok(()) => {},
            }
            let text = message.as_str();
            assert(text@ == message@);
            ServerLine::Error { code: *code, text: text.as_bytes() }
        },
        Err(_) => ServerLine::Error { code: INTERNAL, text: internal.as_bytes() },
    };
    assert(line@ == final_model(result));
    let encoded = encode_response(line, output);
    let len = match encoded {
        Ok(len) => len,
        Err(e) => {
            return Err(ServerError::Protocol(e));
        },
    };
    let kind = if result.is_ok() {
        LineKind::Okay
    } else {
        LineKind::Error
    };
    match machine.send_response(kind) {
        Err(e) => {
            return Err(ServerError::State(e));
        },
        Ok(()) => {},
    }
    proof {
        crate::protocol::encode::lemma_encode_model_len(final_model(result));
    }
    let outcome = if greeting {
        match result {
            Err(e) => Err(ServerError::Handler(e)),
            Ok(()) => Ok(()),
        }
    } else {
        Ok(())
    };
    Ok(FinalLine { len, outcome })
}

/// A handler result is answered by exactly one final response: once it has
/// been sent, the session owes no final, so a second `finalize` is refused.
pub proof fn law_single_final(p: ServerPhase, result: Result<(), HandlerError>)
    requires
        awaits_final(p.state),
        !fatal_result(result),
        server_send(p, model_kind(final_model(result))).1 is Ok,
    ensures
        !awaits_final(server_send(p, model_kind(final_model(result))).0.state),
{
}

} // verus!

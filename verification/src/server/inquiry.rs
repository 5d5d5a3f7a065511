//! Classification of client request lines and the rules of a server inquiry.
use vstd::prelude::*;
use vstd::string::StringSliceAdditionalSpecFns;

use super::error::HandlerError;
use super::registry::bytes_equal;
use crate::protocol::command::{
    first_field, lemma_field_end, line_byte, token_byte, valid_line, valid_token, Command,
};
use crate::protocol::error::{LimitError, ProtocolError};
use crate::protocol::server_machine::{server_receive, ServerMachine, ServerPhase};
use crate::protocol::state::{RequestKind, StateError};
use crate::protocol::wire::{HASH, SPACE};

verus! {

/// `D`, which starts a data line.
pub const LETTER_D: u8 = 0x44;

/// `END`.
pub open spec fn word_end() -> Seq<u8> {
    seq![0x45, 0x4e, 0x44]
}

/// `CAN`.
pub open spec fn word_can() -> Seq<u8> {
    seq![0x43, 0x41, 0x4e]
}

/// The category of a client line without its terminator.
///
/// Comments start with `#`, data lines with `D `; `END` and `CAN` end an
/// inquiry. Anything else must parse as a command whose name is not `END`,
/// `CAN` or `D`.
pub open spec fn request_kind_of(line: Seq<u8>) -> Result<RequestKind, ProtocolError> {
    if !valid_line(line) {
        Err(ProtocolError::InvalidLine)
    } else if line.len() == 0 {
        Ok(RequestKind::Empty)
    } else if line[0] == HASH {
        Ok(RequestKind::Comment)
    } else if line.len() >= 2 && line[0] == LETTER_D && line[1] == SPACE {
        Ok(RequestKind::Data)
    } else if line == word_end() {
        Ok(RequestKind::End)
    } else if line == word_can() {
        Ok(RequestKind::Can)
    } else if !valid_token(first_field(line)) {
        Err(ProtocolError::InvalidToken)
    } else if first_field(line) == word_end() || first_field(line) == word_can() || first_field(
        line,
    ) == seq![LETTER_D] {
        Err(ProtocolError::InvalidLine)
    } else {
        Ok(RequestKind::Command)
    }
}

/// A line is data only when it starts with `D` and a space.
pub proof fn law_data_starts_with_d_space(line: Seq<u8>)
    ensures
        request_kind_of(line) == Ok::<RequestKind, ProtocolError>(RequestKind::Data) ==> line.len()
            >= 2 && line[0] == 0x44u8 && line[1] == 0x20u8,
{
}

/// Every line made of a valid command name other than `END`, `CAN` and `D`,
/// alone or followed by a space and arguments, is a command.
pub proof fn law_named_lines_are_commands(name: Seq<u8>, args: Seq<u8>)
    requires
        valid_token(name),
        name != seq![0x45u8, 0x4eu8, 0x44u8],
        name != seq![0x43u8, 0x41u8, 0x4eu8],
        name != seq![0x44u8],
        valid_line(args),
    ensures
        request_kind_of(name) == Ok::<RequestKind, ProtocolError>(RequestKind::Command),
        request_kind_of(name + seq![0x20u8] + args) == Ok::<RequestKind, ProtocolError>(
            RequestKind::Command,
        ),
{
    assert forall|i: int| 0 <= i < name.len() implies #[trigger] name[i] != SPACE && line_byte(
        name[i],
    ) by {
        assert(token_byte(name[i]));
    }
    assert(valid_line(name));
    lemma_field_end(name, name.len() as int);
    assert(first_field(name) =~= name);
    if name.len() == 1 && name[0] == LETTER_D {
        assert(name =~= seq![0x44u8]);
    }
    if name.len() >= 2 {
        assert(token_byte(name[1]));
    }
    assert(word_end() =~= seq![0x45u8, 0x4eu8, 0x44u8]);
    assert(word_can() =~= seq![0x43u8, 0x41u8, 0x4eu8]);
    let line = name + seq![0x20u8] + args;
    let n = name.len() as int;
    assert forall|i: int| 0 <= i < line.len() implies #[trigger] line_byte(line[i]) by {
        if i < n {
            assert(line[i] == name[i]);
        } else if i > n {
            assert(line[i] == args[i - n - 1]);
        }
    }
    assert forall|j: int| 0 <= j < n implies #[trigger] line[j] != SPACE by {
        assert(line[j] == name[j]);
        assert(name[j] != SPACE);
    }
    assert(line[n] == SPACE);
    lemma_field_end(line, n);
    assert(first_field(line) =~= name);
    assert(line[0] == name[0]);
    if name.len() >= 2 {
        assert(line[1] == name[1]);
    }
    if line == word_end() || line == word_can() {
        assert(line[n] == SPACE);
    }
}

/// Classifies a client line without its terminator.
pub fn request_kind(line: &[u8]) -> (r: Result<RequestKind, ProtocolError>)
    ensures
        r == request_kind_of(line@),
{
    match crate::protocol::command::validate_line(line) {
        Err(e) => {
            return Err(e);
        },
        Ok(()) => {},
    }
    if line.len() == 0 {
        return Ok(RequestKind::Empty);
    }
    if line[0] == HASH {
        return Ok(RequestKind::Comment);
    }
    if line.len() >= 2 && line[0] == LETTER_D && line[1] == SPACE {
        return Ok(RequestKind::Data);
    }
    let end: [u8; 3] = [0x45, 0x4e, 0x44];
    let can: [u8; 3] = [0x43, 0x41, 0x4e];
    let d: [u8; 1] = [LETTER_D];
    assert(end@ =~= word_end());
    assert(can@ =~= word_can());
    assert(d@ =~= seq![LETTER_D]);
    if bytes_equal(line, end.as_slice()) {
        return Ok(RequestKind::End);
    }
    if bytes_equal(line, can.as_slice()) {
        return Ok(RequestKind::Can);
    }
    let command = match Command::parse(line) {
        Ok(command) => command,
        Err(e) => {
            return Err(e);
        },
    };
    let name = command.name().as_bytes();
    if bytes_equal(name, end.as_slice()) || bytes_equal(name, can.as_slice()) || bytes_equal(
        name,
        d.as_slice(),
    ) {
        return Err(ProtocolError::InvalidLine);
    }
    Ok(RequestKind::Command)
}

/// How the peer terminated an inquiry. CAN does not decide the command result.
#[derive(Debug, Clone, Copy, PartialEq, Eq, Structural)]
pub enum InquiryOutcome {
    /// The peer sent END.
    Completed,
    /// The peer sent CAN; the handler must now return its final outcome.
    Cancelled,
}

/// What one received line means to a running inquiry.
#[derive(Debug, Clone, Copy, PartialEq, Eq, Structural)]
pub enum InquiryLine {
    /// END or CAN arrived; the inquiry keeps its phase until it is finished.
    Terminated(InquiryOutcome),
    /// A comment or empty line, to be skipped.
    Skip,
    /// A data line, whose payload follows `D `.
    Data,
}

/// The terminator request of an outcome.
pub open spec fn outcome_request(outcome: InquiryOutcome) -> RequestKind {
    match outcome {
        InquiryOutcome::Completed => RequestKind::End,
        InquiryOutcome::Cancelled => RequestKind::Can,
    }
}

/// Classifies a line received during an inquiry and applies it to the
/// session, except END and CAN, which the inquiry records until it finishes.
pub fn inquiry_line(machine: &mut ServerMachine, line: &[u8]) -> (r: Result<InquiryLine, HandlerError>)
    ensures
        match request_kind_of(line@) {
            Err(e) => r matches Err(HandlerError::Protocol(f)) && f == e
                && final(machine)@ == old(machine)@,
            Ok(RequestKind::End) => r == Ok::<InquiryLine, HandlerError>(
                InquiryLine::Terminated(InquiryOutcome::Completed),
            ) && final(machine)@ == old(machine)@,
            Ok(RequestKind::Can) => r == Ok::<InquiryLine, HandlerError>(
                InquiryLine::Terminated(InquiryOutcome::Cancelled),
            ) && final(machine)@ == old(machine)@,
            Ok(kind) => final(machine)@ == server_receive(old(machine)@, kind).0 && match server_receive(
                old(machine)@,
                kind,
            ).1 {
                Err(e) => r matches Err(HandlerError::State(f)) && f == e,
                Ok(()) => if kind == RequestKind::Data {
                    r == Ok::<InquiryLine, HandlerError>(InquiryLine::Data)
                } else {
                    r == Ok::<InquiryLine, HandlerError>(InquiryLine::Skip)
                },
            },
        },
{
    let kind = match request_kind(line) {
        Ok(kind) => kind,
        Err(e) => {
            return Err(HandlerError::Protocol(e));
        },
    };
    match kind {
        RequestKind::End => {
            return Ok(InquiryLine::Terminated(InquiryOutcome::Completed));
        },
        RequestKind::Can => {
            return Ok(InquiryLine::Terminated(InquiryOutcome::Cancelled));
        },
        _ => {},
    }
    match machine.receive_request(kind) {
        Err(e) => {
            return Err(HandlerError::State(e));
        },
        Ok(()) => {},
    }
    if kind == RequestKind::Data {
        Ok(InquiryLine::Data)
    } else {
        Ok(InquiryLine::Skip)
    }
}

/// Adds `len` decoded bytes to the `received` total of an inquiry whose
/// budget is `limit`.
pub fn add_received(received: usize, len: usize, limit: usize) -> (r: Result<usize, HandlerError>)
    ensures
        received + len <= limit ==> (r matches Ok(total) && total == received + len),
        received + len > limit ==> r matches Err(HandlerError::Limit(LimitError::CapacityExceeded)),
{
    match received.checked_add(len) {
        Some(total) => {
            if total <= limit {
                Ok(total)
            } else {
                Err(HandlerError::Limit(LimitError::CapacityExceeded))
            }
        },
        None => Err(HandlerError::Limit(LimitError::CapacityExceeded)),
    }
}

/// Releases an inquiry after END or CAN, applying the terminator to the
/// session; without a terminator the inquiry cannot finish.
pub fn finish_inquiry(machine: &mut ServerMachine, outcome: Option<InquiryOutcome>) -> (r: Result<
    InquiryOutcome,
    HandlerError,
>)
    ensures
        outcome is None ==> (r matches Err(HandlerError::State(StateError::NotReady))
            && final(machine)@ == old(machine)@),
        outcome matches Some(o) ==> (final(machine)@ == server_receive(
            old(machine)@,
            outcome_request(o),
        ).0 && match server_receive(old(machine)@, outcome_request(o)).1 {
            Err(e) => r matches Err(HandlerError::State(f)) && f == e,
            Ok(()) => r == Ok::<InquiryOutcome, HandlerError>(o),
        }),
{
    let outcome = match outcome {
        Some(outcome) => outcome,
        None => {
            return Err(HandlerError::State(StateError::NotReady));
        },
    };
    let request = match outcome {
        InquiryOutcome::Completed => RequestKind::End,
        InquiryOutcome::Cancelled => RequestKind::Can,
    };
    match machine.receive_request(request) {
        Err(e) => Err(HandlerError::State(e)),
        Ok(()) => Ok(outcome),
    }
}

/// A line classified as a command is a valid command line: it parses as a
/// command whose name is not a request keyword.
pub proof fn law_command_lines_parse(line: Seq<u8>)
    ensures
        request_kind_of(line) == Ok::<RequestKind, ProtocolError>(RequestKind::Command) ==> {
            &&& valid_line(line)
            &&& valid_token(first_field(line))
            &&& first_field(line) != word_end()
            &&& first_field(line) != word_can()
        },
{
}

} // verus!

//! Response and request categories, and session transition errors.
use vstd::prelude::*;

use super::message::{LineModel, ServerLine};

verus! {

/// Response categories, without payload bytes.
#[derive(Debug, Clone, Copy, PartialEq, Eq, Structural)]
pub enum LineKind {
    /// Successful final response (`OK`).
    Okay,
    /// Failed final response (`ERR`).
    Error,
    /// Data segment.
    Data,
    /// Informational status.
    Status,
    /// Request for client-provided data.
    Inquire,
    /// Partial end of data, not final completion.
    End,
    /// Ignorable comment.
    Comment,
    /// Ignorable empty line.
    Empty,
}

/// The category of a modelled server line.
pub open spec fn model_kind(line: LineModel) -> LineKind {
    match line {
        LineModel::Okay(_) => LineKind::Okay,
        LineModel::Error { .. } => LineKind::Error,
        LineModel::Data(_) => LineKind::Data,
        LineModel::Status { .. } => LineKind::Status,
        LineModel::Inquire { .. } => LineKind::Inquire,
        LineModel::End => LineKind::End,
        LineModel::Comment(_) => LineKind::Comment,
        LineModel::Empty => LineKind::Empty,
    }
}

impl ServerLine<'_> {
    /// Returns this response's category without exposing or copying its payload.
    pub fn kind(&self) -> (k: LineKind)
        ensures
            k == model_kind(self@),
    {
        match self {
            ServerLine::Okay(_) => LineKind::Okay,
            ServerLine::Error { .. } => LineKind::Error,
            ServerLine::Data(_) => LineKind::Data,
            ServerLine::Status { .. } => LineKind::Status,
            ServerLine::Inquire { .. } => LineKind::Inquire,
            ServerLine::End => LineKind::End,
            ServerLine::Comment(_) => LineKind::Comment,
            ServerLine::Empty => LineKind::Empty,
        }
    }
}

/// Client request categories supplied after wire validation.
///
/// `CAN` is inquiry cancellation; the reserved command `CANCEL` is a
/// [`RequestKind::Command`].
#[derive(Debug, Clone, Copy, PartialEq, Eq, Structural)]
pub enum RequestKind {
    /// An application or built-in command, including the reserved CANCEL name.
    Command,
    /// Client-provided inquiry data.
    Data,
    /// Successful end of inquiry data (END).
    End,
    /// Cancellation of the current inquiry (CAN).
    Can,
    /// Ignorable comment.
    Comment,
    /// Ignorable empty line.
    Empty,
}

/// A session transition failure containing no command or payload data.
#[derive(Debug, Clone, Copy, PartialEq, Eq, Structural)]
#[non_exhaustive]
pub enum StateError {
    /// The event is illegal in the current phase; the session was invalidated.
    UnexpectedEvent,
    /// A local operation was requested in the wrong phase; state is unchanged.
    NotReady,
    /// The session is already invalid or closed and cannot be reused.
    Unusable,
    /// A remote error rejected the greeting; the session was invalidated.
    GreetingRejected,
}

impl StateError {
    /// The fixed description of this error.
    pub open spec fn text(self) -> Seq<char> {
        match self {
            StateError::UnexpectedEvent => "unexpected session event"@,
            StateError::NotReady => "session is not ready for this operation"@,
            StateError::Unusable => "session is invalid or closed"@,
            StateError::GreetingRejected => "server rejected the greeting"@,
        }
    }

    /// Returns the description that the error displays.
    pub fn to_string(&self) -> (s: String)
        ensures
            s@ == self.text(),
    {
        let text = match self {
            StateError::UnexpectedEvent => "unexpected session event",
            StateError::NotReady => "session is not ready for this operation",
            StateError::Unusable => "session is invalid or closed",
            StateError::GreetingRejected => "server rejected the greeting",
        };
        text.to_string()
    }
}

} // verus!

//! Registration, handler and session errors, with payload-free diagnostics.
use vstd::prelude::*;
use vstd::string::{StringExecFns, StringSliceAdditionalSpecFns};

use crate::protocol::encode::encode_model;
use crate::protocol::error::{LimitError, ProtocolError};
use crate::protocol::message::{LineModel, ServerLine};
use crate::protocol::state::StateError;
use crate::protocol::wire::{decimal, MAX_LINE_BYTES};
use crate::protocol::encode_response;
use crate::sexpr::error::decimal_text;
use vstd::utf8::encode_utf8;

verus! {

/// Internal failure (libgpg-error `GPG_ERR_INTERNAL`).
pub const INTERNAL: u32 = 63;
/// Unknown option (libgpg-error `GPG_ERR_UNKNOWN_OPTION`).
pub const UNKNOWN_OPTION: u32 = 174;
/// Unknown command (libgpg-error `GPG_ERR_UNKNOWN_COMMAND`).
pub const UNKNOWN_COMMAND: u32 = 175;
/// Invalid value (libgpg-error `GPG_ERR_INV_VALUE`).
pub const INVALID_VALUE: u32 = 55;

/// A command registration failure. Existing entries remain unchanged.
#[derive(Debug, PartialEq, Eq)]
pub enum RegistryError {
    /// The name is invalid or cannot fit in one command line.
    InvalidName,
    /// A built-in command owns this name.
    Reserved(String),
    /// Another handler already owns this name.
    Duplicate(String),
    /// The description contains CR, LF, or NUL.
    InvalidDescription,
}

impl RegistryError {
    /// The text this error displays.
    pub open spec fn text(&self) -> Seq<char> {
        match self {
            RegistryError::InvalidName => "invalid handler name"@,
            RegistryError::Reserved(name) => "handler name is reserved: "@ + name@,
            RegistryError::Duplicate(name) => "handler already registered: "@ + name@,
            RegistryError::InvalidDescription => "invalid handler description"@,
        }
    }

    /// Returns the text this error displays.
    pub fn to_string(&self) -> (s: String)
        ensures
            s@ == self.text(),
    {
        match self {
            RegistryError::InvalidName => String::from_str("invalid handler name"),
            RegistryError::Reserved(name) => {
                let mut text = String::from_str("handler name is reserved: ");
                text.append(name.as_str());
                text
            },
            RegistryError::Duplicate(name) => {
                let mut text = String::from_str("handler already registered: ");
                text.append(name.as_str());
                text
            },
            RegistryError::InvalidDescription => String::from_str("invalid handler description"),
        }
    }
}

/// The category of a transport failure, as the session rules read it.
#[derive(Debug, Clone, Copy, PartialEq, Eq, Structural)]
#[non_exhaustive]
pub enum TransportError {
    /// An operation deadline expired.
    Timeout,
    /// The peer or the local side closed the channel.
    Closed,
    /// Received bytes violated the wire format.
    Protocol(ProtocolError),
    /// The underlying I/O failed.
    Io,
}

/// A handler failure with payload-free diagnostic formatting.
///
/// Remote text is explicitly public wire content; never put secrets in it.
/// Debug omits remote messages and nested error details.
pub enum HandlerError {
    /// An application error intended for the peer.
    ///
    /// Prefer [`HandlerError::remote`]. Because fields are public, the session
    /// runner validates them again immediately before encoding a final.
    Remote {
        /// The unsigned Assuan error code, including any application source bits.
        code: u32,
        /// Public, single-line error text fitting within the protocol wire limit.
        message: String,
    },
    /// An internal failure whose details must never be sent to the peer.
    Internal,
    /// I/O failed; the connection is unusable.
    Transport(TransportError),
    /// Protocol encoding or parsing failed.
    Protocol(ProtocolError),
    /// The operation is not legal in the current protocol state.
    State(StateError),
    /// A decoded inquiry exceeded its configured byte budget.
    Limit(LimitError),
}

/// The ERR line that reports `code` with `message` to the peer.
pub open spec fn remote_line(code: u32, message: Seq<u8>) -> LineModel {
    LineModel::Error { code, text: message }
}

/// Checks that `ERR code message` encodes as one wire line.
fn validate_message(code: u32, message: &str) -> (r: Result<(), ProtocolError>)
    ensures
        match encode_model(remote_line(code, message.spec_bytes())) {
            Ok(_) => r is Ok,
            Err(e) => r == Err::<(), ProtocolError>(e),
        },
{
    let mut output = [0u8; MAX_LINE_BYTES];
    let line = ServerLine::Error { code, text: message.as_bytes() };
    match encode_response(line, &mut output) {
        Ok(_) => Ok(()),
        Err(e) => Err(e),
    }
}

impl HandlerError {
    /// Creates a remote error after validating its complete encoded wire line.
    ///
    /// Empty text is allowed. The byte budget includes `ERR `, the decimal
    /// code, the optional separator and LF; UTF-8 text is measured in bytes.
    /// Returns a protocol error for CR, LF, NUL, or an oversized response.
    pub fn remote(code: u32, message: &str) -> (r: Result<Self, ProtocolError>)
        ensures
            match encode_model(remote_line(code, message.spec_bytes())) {
                Ok(_) => r matches Ok(HandlerError::Remote { code: c, message: m }) && c == code
                    && m@ == message@,
                Err(e) => r matches Err(f) && f == e,
            },
    {
        match validate_message(code, message) {
            Err(e) => Err(e),
            Ok(()) => Ok(HandlerError::Remote { code, message: message.to_owned() }),
        }
    }

    /// Checks remote fields, including values constructed directly or mutated.
    ///
    /// Non-remote variants need no text validation and return success.
    pub fn validate_remote(&self) -> (r: Result<(), ProtocolError>)
        ensures
            match self {
                HandlerError::Remote { code, message } => match encode_model(
                    remote_line(*code, encode_utf8(message@)),
                ) {
                    Ok(_) => r is Ok,
                    Err(e) => r == Err::<(), ProtocolError>(e),
                },
                _ => r is Ok,
            },
    {
        match self {
            HandlerError::Remote { code, message } => validate_message(*code, message.as_str()),
            _ => Ok(()),
        }
    }
}

impl HandlerError {
    /// The text this error displays; remote messages and sources are omitted.
    pub open spec fn text(&self) -> Seq<char> {
        match self {
            HandlerError::Remote { code, .. } => "remote handler error ("@ + decimal(
                *code as nat,
            ).map_values(|b: u8| b as char) + ")"@,
            HandlerError::Internal => "internal handler failure"@,
            HandlerError::Transport(_) => "handler transport failure"@,
            HandlerError::Protocol(_) => "handler protocol failure"@,
            HandlerError::State(_) => "handler state failure"@,
            HandlerError::Limit(_) => "handler resource limit exceeded"@,
        }
    }

    /// Returns the text this error displays, which never includes remote text.
    pub fn to_string(&self) -> (s: String)
        ensures
            s@ == self.text(),
    {
        match self {
            HandlerError::Remote { code, .. } => {
                let mut text = String::from_str("remote handler error (");
                let digits = decimal_text(*code as usize);
                text.append(digits.as_str());
                text.append(")");
                text
            },
            HandlerError::Internal => String::from_str("internal handler failure"),
            HandlerError::Transport(_) => String::from_str("handler transport failure"),
            HandlerError::Protocol(_) => String::from_str("handler protocol failure"),
            HandlerError::State(_) => String::from_str("handler state failure"),
            HandlerError::Limit(_) => String::from_str("handler resource limit exceeded"),
        }
    }
}

impl core::fmt::Debug for HandlerError {
    /// Shows the variant and a remote code, never remote text or sources.
    #[verifier::external_body]
    fn fmt(&self, f: &mut core::fmt::Formatter<'_>) -> core::fmt::Result {
        match self {
            HandlerError::Remote { code, .. } => f.debug_struct("Remote").field("code", code).finish_non_exhaustive(),
            HandlerError::Internal => f.write_str("Internal"),
            HandlerError::Transport(_) => f.write_str("Transport { .. }"),
            HandlerError::Protocol(_) => f.write_str("Protocol { .. }"),
            HandlerError::State(_) => f.write_str("State { .. }"),
            HandlerError::Limit(_) => f.write_str("Limit { .. }"),
        }
    }
}

/// Terminal session failures. Diagnostics never include application payloads.
///
/// Ordinary remote command errors are sent to the peer and do not end a
/// session.
#[derive(Debug)]
#[non_exhaustive]
pub enum ServerError {
    /// Channel I/O, framing, or an operation deadline failed.
    Transport(TransportError),
    /// Wire encoding or parsing failed.
    Protocol(ProtocolError),
    /// The session is incomplete or unusable.
    State(StateError),
    /// A fatal handler operation, authentication, or the close hook failed.
    Handler(HandlerError),
    /// Options have a zero limit, unsupported concurrency, or an
    /// unrepresentable deadline.
    InvalidOptions,
}

impl ServerError {
    /// The text this error displays.
    pub open spec fn text(&self) -> Seq<char> {
        match self {
            ServerError::Transport(_) => "server transport failure"@,
            ServerError::Protocol(_) => "server protocol failure"@,
            ServerError::State(_) => "server state failure"@,
            ServerError::Handler(_) => "server handler or hook failure"@,
            ServerError::InvalidOptions => "invalid server options"@,
        }
    }

    /// Returns the text this error displays.
    pub fn to_string(&self) -> (s: String)
        ensures
            s@ == self.text(),
    {
        let text = match self {
            ServerError::Transport(_) => "server transport failure",
            ServerError::Protocol(_) => "server protocol failure",
            ServerError::State(_) => "server state failure",
            ServerError::Handler(_) => "server handler or hook failure",
            ServerError::InvalidOptions => "invalid server options",
        };
        String::from_str(text)
    }
}

} // verus!

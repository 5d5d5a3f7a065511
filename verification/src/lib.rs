//! Verified core of an Assuan protocol library: wire parsing, encoding,
//! session state machines, canonical S-expressions and server-side
//! validation rules.

pub mod fmt_support;
pub mod protocol;
pub mod server;
pub mod sexpr;

pub use protocol::{
    decode_data_in_place, encode_command, encode_data_chunk, encode_response, parse_server_line,
    ClientMachine, ClientState, Command, LimitError, LineBuffer, LineKind, PayloadRef,
    ProtocolError, RequestKind, SecretBytes, SecretRef, Sensitivity, ServerLine, ServerMachine,
    ServerState, StateError, MAX_LINE_BYTES,
};
pub use sexpr::error::{EncodeError, ParseError, ParseErrorKind};
pub use sexpr::limits::{ParseLimits, MAX_NESTING_DEPTH};
pub use sexpr::parser::{parse_complete, parse_prefix};
pub use sexpr::value::{OwnedSexpr, Sexpr};
pub use server::error::{HandlerError, RegistryError, ServerError, TransportError};
pub use server::hooks::{DefaultHooks, OptionRequest, SessionEnd};
pub use server::inquiry::{request_kind, InquiryOutcome};
pub use server::options::ServerOptions;
pub use server::registry::Registry;

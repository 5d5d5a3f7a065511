//! Protocol parsing, encoding and state machines, without I/O.

pub mod command;
pub mod error;
pub mod escape;
pub mod limits;
pub mod text;
pub mod wire;

pub use command::Command;
pub use error::{LimitError, ProtocolError};
pub use escape::decode_data_in_place;
pub mod message;
pub use message::{parse_server_line, ServerLine};
pub mod encode;
pub use encode::{encode_command, encode_data_chunk, encode_response};
pub use wire::MAX_LINE_BYTES;
pub mod state;
pub mod client_machine;
pub use state::{LineKind, RequestKind, StateError};
pub use client_machine::{ClientMachine, ClientState};
pub mod server_machine;
pub use server_machine::{ServerMachine, ServerState};
pub mod session_laws;
pub mod protected;
pub mod secret;
pub use secret::{PayloadRef, SecretBytes, SecretRef, Sensitivity};
pub mod frame;
pub use frame::LineBuffer;
pub mod wire_laws;
pub mod frame_laws;

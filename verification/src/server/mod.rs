//! Server-side rules: handler errors, option requests, limits, command
//! registration, request classification and final-response decisions.

pub mod error;
pub mod help;
pub mod hooks;
pub mod inquiry;
pub mod options;
pub mod registry;
pub mod session;

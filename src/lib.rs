//! Interactive client core for a tagged mail-retrieval protocol and a
//! status-coded mail-submission protocol: response framing, command framing,
//! the session's prompt-mode state machine and the response tool chain.
pub mod framer;
pub mod bytes;
pub mod protocol;
pub mod tools;
pub mod session;
pub mod auth;
pub mod profile;
pub mod flag;

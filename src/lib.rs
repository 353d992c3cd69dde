//! Turns "resource touched" signals from an editor into timed sessions, and
//! decides when each session is over and what gets reported for it.
//!
//! The library holds the session table and its rules. Clocks, the editor
//! protocol and the command that records a session live in the program that
//! drives it: every operation here takes the current times as plain numbers.

pub mod config;
pub mod laws;
pub mod resource;
pub mod session;
pub mod store;

//! The decision logic of a small command-line to-do list with per-user
//! accounts, kept as comma-separated text lines.
//!
//! Text is handled as sequences of `char`; the I/O edges (reading and
//! writing the account and task files, prompting the user) belong to the
//! program around this library.
pub mod text;
pub mod accounts;
pub mod tasks;
pub mod menu;
pub mod session;

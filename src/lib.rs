//! A personal registry of one-line shell commands, kept in a plain text
//! file, together with the decisions taken while running them.

pub mod codec;
pub mod command;
pub mod messages;
pub mod registry;
pub mod runner;
pub mod text;

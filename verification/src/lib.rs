//! Command-line front-end logic of the remini assistant: argument
//! resolution, slash/bang/at command handling, plan mode, session
//! bookkeeping and the text processing behind the built-in tools.

pub mod text;
pub mod config;
pub mod run;
pub mod slash_command;
pub mod glob;
pub mod paths;
pub mod plan_mode;
pub mod tools;
pub mod at_command;
pub mod tool_registry;
pub mod bang_command;
pub mod session;
pub mod cli;

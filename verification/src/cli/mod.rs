//! The command-line interface: its arguments, the decisions behind each
//! command, and the checks applied to what the user types.

pub mod args;
pub mod commands;
pub mod utils;

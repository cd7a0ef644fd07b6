//! Remote debug control for a program that runs inside a virtual machine:
//! the command and response vocabulary, the session and run-control rules,
//! breakpoints, the two wire bindings and the argument rules of the shell.

pub mod limits;
pub mod error;
pub mod numeral;
pub mod text;
pub mod breakpoint;
pub mod names;
pub mod shell;
pub mod session;
pub mod queries;
pub mod client;
pub mod json;
pub mod command;
pub mod wire;
pub mod control;
pub mod host;
pub mod line;

pub use client::Client;
pub use command::{Command, Response};

//! Planning a run of the `lit` test runner on a single file.
//!
//! The runner works on directories. To test one file, the file is copied
//! into a scratch directory beside it, together with a configuration that
//! says which suffix to test and which substitutions to make. The runner is
//! then run on that directory, and the directory is removed at the end
//! unless it is to be kept.
//!
//! This crate decides all of that and does none of it. From the resolved path
//! of the input, the substitutions and the place of the runner it plans a
//! session: the name of the scratch directory, the text of the configuration,
//! the steps that fill the directory, the command lines to run, and the
//! cleanup. A caller carries the steps out and hands back what happened.
//!
//! Paths are text with `/` between their segments.
//!
//! Every function is verified against its contract but for three that call
//! into code that is not: `String::push` and `String::from_utf8` of the
//! standard library, and `shlex::split`. Their contracts are believed.

pub mod command;
pub mod config;
pub mod defines;
pub mod error;
pub mod path;
pub mod scratch;
pub mod session;
pub mod text;

pub use crate::command::{Invocation, LitCmd, Lookup, Output};
pub use crate::defines::Defines;
pub use crate::error::LitError;
pub use crate::scratch::{Cleanup, Step};
pub use crate::session::{app, Cli, LitFile};

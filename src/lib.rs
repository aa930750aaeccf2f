//! Typed command-line flags and a tree of named commands: flag extraction and
//! coercion from a token list, and dispatch of an argument vector to the
//! matching command's action.
use vstd::prelude::*;

pub mod app;
pub mod command;
pub mod context;
pub mod error;
pub mod flag;
pub mod help;
pub mod laws;
mod output;
pub mod text;
pub mod utils;

pub use app::App;
pub use command::{Command, Handler, Route, Target};
pub use context::Context;
pub use error::{ActionError, FlagError};
pub use flag::{Flag, FlagType, FlagValue};

verus! {

} // verus!

//! Building blocks for tree-shaped command-line tools.
//!
//! - [`command`]: lifecycle hooks for chains of commands, together with a
//!   verified engine that sequences them and propagates failures.
//! - [`file`]: format sniffing for values deserialized from files.
//! - [`output`]: structured output selection for commands.
//! - [`telemetry`]: opt-in activity and error reporting for a CLI.

use vstd::prelude::*;

pub mod command;
pub mod file;
pub mod output;
pub mod telemetry;

pub use crate::command::Command;
pub use crate::command::Container;
pub use crate::output::Format;

verus! {

/// Whether two string slices hold the same characters.
pub fn str_eq(a: &str, b: &str) -> (r: bool)
    ensures
        r == (a@ == b@),
{
    let sa: String = a.to_owned();
    let sb: String = b.to_owned();
    sa == sb
}

} // verus!

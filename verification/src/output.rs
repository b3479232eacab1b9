//! Structured output for commands.
//!
//! Users of a CLI can choose what type of structured output they would like
//! from the CLI. JSON, YAML and an aligned pretty table are supported. The
//! rendering itself happens outside this crate; here lives the selector that
//! commands carry around.

pub mod tabled;

use vstd::prelude::*;

verus! {

/// Argument for specifying the output format of structured data.
///
/// `Pretty` is the default.
#[derive(Debug, Clone, PartialEq, Eq, Structural)]
pub enum Format {
    Pretty,
    Json,
    Yaml,
}

impl Default for Format {
    /// The default output format is the aligned table.
    fn default() -> (f: Self)
        ensures
            f == Format::Pretty,
    {
        Format::Pretty
    }
}

} // verus!

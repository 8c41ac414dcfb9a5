//! The command line, as plain values.

use vstd::prelude::*;

verus! {

/// The words of the command line and the two paths it may give.
#[derive(Debug, Clone)]
pub struct Opts {
    /// The operation and its arguments.
    pub args: Vec<String>,
    /// The backing file, where given.
    pub config: Option<String>,
    /// The anchor directory, where given.
    pub pwd: Option<String>,
}

} // verus!

//! The failures that the library reports.

use vstd::prelude::*;

verus! {

/// Why a request could not be carried out.
#[derive(Debug, Clone, PartialEq, Eq)]
pub enum SplitError {
    /// No profile is stored under the requested name.
    UnknownProfile { name: String },
    /// The pattern of a profile is not a regular expression; `cause` is the
    /// regex engine's own account of what is wrong with it.
    InvalidPattern { pattern: String, cause: String },
    /// The source file has no usable stem to derive output names from.
    InvalidFileName,
    /// A channel of the profile points outside red, green and blue.
    InvalidChannelIndex { index: usize },
}

} // verus!

//! The ways in which resolving a URL can fail.

use vstd::prelude::*;

verus! {

/// Why a URL could not be turned into a command invocation.
#[derive(Debug, PartialEq, Eq)]
pub enum ExpansionError {
    /// No configured handler has the URL's scheme.
    HandlerNotFound,
    /// The URL could not be parsed.
    MalformedUrl,
    /// A `%NAME%` token names a variable that the environment does not hold.
    EnvironmentVariableMissing(String),
    /// The configuration could not be read or has the wrong shape.
    ConfigurationInvalid,
}

} // verus!

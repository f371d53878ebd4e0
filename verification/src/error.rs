//! The error vocabulary of a discovery call.
use vstd::prelude::*;
use vstd::string::StringExecFns;

verus! {

/// Why a discovery call failed.
#[derive(Debug, Clone, PartialEq, Eq)]
pub enum DiscoveryError {
    /// The configuration document could not be read; carries a report.
    ConfigRead(String),
    /// The configuration document's syntax is malformed; carries the
    /// parser's report.
    ConfigParse(String),
    /// A modifier token could not be resolved; carries the token.
    UnknownModifier(String),
    /// The embedded runtime or one of its expected modules or attributes
    /// is not present; carries a report.
    RuntimeUnavailable(String),
}

/// The text of an error report.
pub open spec fn spec_error_message(e: DiscoveryError) -> Seq<char> {
    match e {
        DiscoveryError::ConfigRead(s) => "Failed to read config: "@ + s@,
        DiscoveryError::ConfigParse(s) => "Failed to parse config: "@ + s@,
        DiscoveryError::UnknownModifier(s) => "Unknown modifier: "@ + s@,
        DiscoveryError::RuntimeUnavailable(s) => "Runtime unavailable: "@ + s@,
    }
}

impl DiscoveryError {
    /// A human-readable report of the failure.
    pub fn message(&self) -> (r: String)
        ensures
            r@ == spec_error_message(*self),
    {
        let (head, detail): (&'static str, &String) = match self {
            DiscoveryError::ConfigRead(s) => ("Failed to read config: ", s),
            DiscoveryError::ConfigParse(s) => ("Failed to parse config: ", s),
            DiscoveryError::UnknownModifier(s) => ("Unknown modifier: ", s),
            DiscoveryError::RuntimeUnavailable(s) => ("Runtime unavailable: ", s),
        };
        let mut r = String::from_str(head);
        r.append(detail.as_str());
        r
    }
}

} // verus!

//! The capability contract a discovery backend implements: name yourself,
//! and produce your complete list of items in one fresh scan, or fail.
use vstd::prelude::*;

use crate::error::DiscoveryError;

verus! {

/// A backend that discovers keybind-like items.
pub trait Source {
    type Item;

    /// The backend's identifier.
    fn name(&self) -> &'static str;

    /// One complete, fresh scan: every discovered item, or a single
    /// call-level error.
    fn discover(&self) -> Result<Vec<Self::Item>, DiscoveryError>;
}

} // verus!

//! Monitor-related data as reported by the compositor.

use vstd::prelude::*;

verus! {

/// An active workspace shown on a monitor.
#[derive(Debug, Clone, PartialEq, Eq)]
pub struct ActiveWorkspace {
    pub id: i32,
    pub name: String,
}

/// Default value for a monitor's enabled state: a monitor that the
/// compositor reports without an explicit flag counts as enabled.
pub fn default_enabled() -> (r: bool)
    ensures
        r,
{
    true
}

} // verus!

//! The marker that stands for the present time in a response.

use vstd::prelude::*;

verus! {

/// Stands for the present time; it is rendered when a response is written.
#[derive(Clone, Copy, Debug, PartialEq, Eq)]
pub struct Now(());

impl Now {
    /// The one value of the marker.
    pub closed spec fn present() -> Now {
        Now(())
    }
}

/// The marker for the present time.
pub fn now() -> (marker: Now)
    ensures
        marker == Now::present(),
{
    Now(())
}

} // verus!

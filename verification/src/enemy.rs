//! Enemy data: a marker and the hit points attached to it.

use vstd::prelude::*;

verus! {

/// Hit points of an entity; a fresh one has a single point.
#[derive(Clone, Copy, PartialEq, Eq, Structural, Debug)]
pub struct Health(pub u64);

impl Default for Health {
    fn default() -> (r: Self)
        ensures
            r == Health(1),
    {
        Health(1)
    }
}

/// Marker for a hostile entity.
#[derive(Clone, Copy, PartialEq, Eq, Structural, Debug, Default)]
pub struct Enemy;

} // verus!

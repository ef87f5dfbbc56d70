use vstd::prelude::*;

verus! {

/// Marker for values kept as global singleton state of an application.
pub trait Store {}

} // verus!

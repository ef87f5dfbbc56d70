use vstd::prelude::*;

verus! {

/// Lifecycle stages for the application loop.
#[derive(Debug, Clone, Copy, PartialEq, Eq, Hash, Structural)]
pub enum Lifecycle {
    Setup,
    AfterSetup,
    BeforeUpdate,
    Update,
    BeforeRender,
    Render,
    AfterRender,
}

} // verus!

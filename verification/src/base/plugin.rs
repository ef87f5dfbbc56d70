use vstd::prelude::*;

verus! {

/// Registers terminal I/O, input polling, and frame rendering.
pub struct CorePlugins;

/// Plays the decay tree intro animation on startup.
pub struct IntroPlugin;

} // verus!

pub mod ansi;
pub mod button;
pub mod clip;
pub mod focus;
pub mod frame;
pub mod input;
pub mod label;
pub mod order;
pub mod panel;
pub mod progress;
pub mod render;
pub mod spinner;
pub mod status;
pub mod theme;
pub mod timer;

use vstd::prelude::*;

verus! {

/// Registers the UI interaction and rendering systems.
pub struct UiPlugin;

} // verus!

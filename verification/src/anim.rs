//! Animation vocabulary: easing curves and the properties a tween can drive.
use vstd::prelude::*;

verus! {

/// Easing function for animation interpolation.
#[derive(Clone, Copy, PartialEq, Eq, Debug, Structural)]
pub enum Easing {
    Linear,
    EaseIn,
    EaseOut,
    EaseInOut,
}

/// Animatable property target.
#[derive(Clone, Copy, PartialEq, Eq, Debug, Structural)]
pub enum AnimProp {
    X,
    Y,
    Width,
    Height,
}

} // verus!

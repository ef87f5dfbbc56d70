//! The application loop's decisions: which stage runs next and when the loop ends.
use vstd::prelude::*;

use super::store::Store;
use super::system::Lifecycle;

verus! {

/// Set to true to exit the application loop.
pub struct AppExit(pub bool);

impl Store for AppExit {}

/// A step of the application loop.
#[derive(Clone, Copy, PartialEq, Eq, Debug, Structural)]
pub enum RunStep {
    /// Run the handlers of a stage.
    Stage(Lifecycle),
    /// Start a frame: advance the frame counter, swap event buffers, poll input.
    FrameStart,
    /// End a frame: wait out the rest of the frame time.
    FrameEnd,
    /// Leave the loop and restore the terminal.
    Finish,
}

/// The step after `step`: setup, then (when any per-frame stage has a
/// handler) frames of before-update, update, before-render, render and
/// after-render, leaving as soon as an exit was requested after the
/// before-update or update stage.
pub open spec fn spec_next_step(step: RunStep, has_loop: bool, exit: bool) -> RunStep {
    match step {
        RunStep::Stage(Lifecycle::Setup) => RunStep::Stage(Lifecycle::AfterSetup),
        RunStep::Stage(Lifecycle::AfterSetup) => if has_loop {
            RunStep::FrameStart
        } else {
            RunStep::Finish
        },
        RunStep::FrameStart => RunStep::Stage(Lifecycle::BeforeUpdate),
        RunStep::Stage(Lifecycle::BeforeUpdate) => if exit {
            RunStep::Finish
        } else {
            RunStep::Stage(Lifecycle::Update)
        },
        RunStep::Stage(Lifecycle::Update) => if exit {
            RunStep::Finish
        } else {
            RunStep::Stage(Lifecycle::BeforeRender)
        },
        RunStep::Stage(Lifecycle::BeforeRender) => RunStep::Stage(Lifecycle::Render),
        RunStep::Stage(Lifecycle::Render) => RunStep::Stage(Lifecycle::AfterRender),
        RunStep::Stage(Lifecycle::AfterRender) => RunStep::FrameEnd,
        RunStep::FrameEnd => RunStep::FrameStart,
        RunStep::Finish => RunStep::Finish,
    }
}

/// The loop starts with the setup stage.
pub fn first_step() -> (s: RunStep)
    ensures
        s == RunStep::Stage(Lifecycle::Setup),
{
    RunStep::Stage(Lifecycle::Setup)
}

/// The step after `step`; `has_loop` says whether any per-frame stage has a
/// handler, `exit` whether an exit has been requested.
pub fn next_step(step: RunStep, has_loop: bool, exit: bool) -> (s: RunStep)
    ensures
        s == spec_next_step(step, has_loop, exit),
{
    match step {
        RunStep::Stage(Lifecycle::Setup) => RunStep::Stage(Lifecycle::AfterSetup),
        RunStep::Stage(Lifecycle::AfterSetup) => if has_loop {
            RunStep::FrameStart
        } else {
            RunStep::Finish
        },
        RunStep::FrameStart => RunStep::Stage(Lifecycle::BeforeUpdate),
        RunStep::Stage(Lifecycle::BeforeUpdate) => if exit {
            RunStep::Finish
        } else {
            RunStep::Stage(Lifecycle::Update)
        },
        RunStep::Stage(Lifecycle::Update) => if exit {
            RunStep::Finish
        } else {
            RunStep::Stage(Lifecycle::BeforeRender)
        },
        RunStep::Stage(Lifecycle::BeforeRender) => RunStep::Stage(Lifecycle::Render),
        RunStep::Stage(Lifecycle::Render) => RunStep::Stage(Lifecycle::AfterRender),
        RunStep::Stage(Lifecycle::AfterRender) => RunStep::FrameEnd,
        RunStep::FrameEnd => RunStep::FrameStart,
        RunStep::Finish => RunStep::Finish,
    }
}

/// Whether the per-frame loop runs: some per-frame stage (before-update,
/// update, before-render, render, after-render) has a handler.
pub fn has_frame_loop(handlers: &[(Lifecycle, usize)]) -> (r: bool)
    ensures
        r == exists|i: int|
            0 <= i < handlers@.len() && handlers@[i].1 > 0 && handlers@[i].0 != Lifecycle::Setup && handlers@[i].0
                != Lifecycle::AfterSetup,
{
    let mut i: usize = 0;
    while i < handlers.len()
        invariant
            0 <= i <= handlers@.len(),
            forall|j: int|
                0 <= j < i ==> !(handlers@[j].1 > 0 && handlers@[j].0 != Lifecycle::Setup && handlers@[j].0
                    != Lifecycle::AfterSetup),
        decreases handlers@.len() - i,
    {
        let (stage, count) = handlers[i];
        if count > 0 && stage != Lifecycle::Setup && stage != Lifecycle::AfterSetup {
            return true;
        }
        i = i + 1;
    }
    false
}

/// An exit requested before rendering is honored before the frame is drawn:
/// from the update stages the loop leaves without reaching a render stage.
pub proof fn law_exit_before_render(has_loop: bool)
    ensures
        spec_next_step(RunStep::Stage(Lifecycle::BeforeUpdate), has_loop, true) == RunStep::Finish,
        spec_next_step(RunStep::Stage(Lifecycle::Update), has_loop, true) == RunStep::Finish,
        spec_next_step(RunStep::Finish, has_loop, false) == RunStep::Finish,
{
}

} // verus!

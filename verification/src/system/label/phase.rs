//! The built-in phases.
use vstd::prelude::*;
use super::{PhaseLabel, PRE_STARTUP, STARTUP, FIRST, PRE_UPDATE, FIXED_UPDATE, UPDATE, POST_UPDATE, LAST, PRE_RENDER, RENDER, POST_RENDER, FRAME_END};

verus! {

/// Runs before the `Startup` phase: very early initialization such as logging or configuration loading.
#[derive(Debug, Clone, Copy)]
pub struct PreStartup;

impl PhaseLabel for PreStartup {
    open spec fn label_spec() -> &'static str {
        PRE_STARTUP
    }

    fn label() -> (r: &'static str) {
        PRE_STARTUP
    }
}

/// Main startup phase: initializing game state, spawning entities, loading assets.
#[derive(Debug, Clone, Copy)]
pub struct Startup;

impl PhaseLabel for Startup {
    open spec fn label_spec() -> &'static str {
        STARTUP
    }

    fn label() -> (r: &'static str) {
        STARTUP
    }
}

/// Runs at the start of the frame update before other update logic.
#[derive(Debug, Clone, Copy)]
pub struct First;

impl PhaseLabel for First {
    open spec fn label_spec() -> &'static str {
        FIRST
    }

    fn label() -> (r: &'static str) {
        FIRST
    }
}

/// Runs immediately before `Update`, useful for preparing frame data.
#[derive(Debug, Clone, Copy)]
pub struct PreUpdate;

impl PhaseLabel for PreUpdate {
    open spec fn label_spec() -> &'static str {
        PRE_UPDATE
    }

    fn label() -> (r: &'static str) {
        PRE_UPDATE
    }
}

/// Runs at a fixed timestep, typically for physics and time-step dependent systems.
#[derive(Debug, Clone, Copy)]
pub struct FixedUpdate;

impl PhaseLabel for FixedUpdate {
    open spec fn label_spec() -> &'static str {
        FIXED_UPDATE
    }

    fn label() -> (r: &'static str) {
        FIXED_UPDATE
    }
}

/// Main per-frame update phase: most gameplay and logic systems run here.
#[derive(Debug, Clone, Copy)]
pub struct Update;

impl PhaseLabel for Update {
    open spec fn label_spec() -> &'static str {
        UPDATE
    }

    fn label() -> (r: &'static str) {
        UPDATE
    }
}

/// Runs immediately after `Update`, typically for state cleanup or deferred logic.
#[derive(Debug, Clone, Copy)]
pub struct PostUpdate;

impl PhaseLabel for PostUpdate {
    open spec fn label_spec() -> &'static str {
        POST_UPDATE
    }

    fn label() -> (r: &'static str) {
        POST_UPDATE
    }
}

/// Final update phase before rendering begins.
#[derive(Debug, Clone, Copy)]
pub struct Last;

impl PhaseLabel for Last {
    open spec fn label_spec() -> &'static str {
        LAST
    }

    fn label() -> (r: &'static str) {
        LAST
    }
}

/// Runs before the `Render` phase, often to prepare render data.
#[derive(Debug, Clone, Copy)]
pub struct PreRender;

impl PhaseLabel for PreRender {
    open spec fn label_spec() -> &'static str {
        PRE_RENDER
    }

    fn label() -> (r: &'static str) {
        PRE_RENDER
    }
}

/// Main rendering phase, responsible for submitting GPU commands.
#[derive(Debug, Clone, Copy)]
pub struct Render;

impl PhaseLabel for Render {
    open spec fn label_spec() -> &'static str {
        RENDER
    }

    fn label() -> (r: &'static str) {
        RENDER
    }
}

/// Runs after the `Render` phase, often for post-processing or readback.
#[derive(Debug, Clone, Copy)]
pub struct PostRender;

impl PhaseLabel for PostRender {
    open spec fn label_spec() -> &'static str {
        POST_RENDER
    }

    fn label() -> (r: &'static str) {
        POST_RENDER
    }
}

/// Final phase of the frame: cleanup, diagnostics and end-of-frame tasks.
#[derive(Debug, Clone, Copy)]
pub struct FrameEnd;

impl PhaseLabel for FrameEnd {
    open spec fn label_spec() -> &'static str {
        FRAME_END
    }

    fn label() -> (r: &'static str) {
        FRAME_END
    }
}

} // verus!

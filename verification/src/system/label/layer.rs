//! The built-in layers.
use vstd::prelude::*;
use super::{LayerLabel, PRE, START, MAIN, END, POST};

verus! {

/// Runs before all other layers in the phase, for early setup systems.
#[derive(Debug, Clone, Copy)]
pub struct Pre;

impl LayerLabel for Pre {
    open spec fn label_spec() -> &'static str {
        PRE
    }

    fn label() -> (r: &'static str) {
        PRE
    }
}

/// Runs near the beginning of the phase, useful for input or time updates.
#[derive(Debug, Clone, Copy)]
pub struct Start;

impl LayerLabel for Start {
    open spec fn label_spec() -> &'static str {
        START
    }

    fn label() -> (r: &'static str) {
        START
    }
}

/// Primary layer in the phase: most game logic runs here.
#[derive(Debug, Clone, Copy)]
pub struct Main;

impl LayerLabel for Main {
    open spec fn label_spec() -> &'static str {
        MAIN
    }

    fn label() -> (r: &'static str) {
        MAIN
    }
}

/// Runs near the end of the phase, typically for cleanup or deferred execution.
#[derive(Debug, Clone, Copy)]
pub struct End;

impl LayerLabel for End {
    open spec fn label_spec() -> &'static str {
        END
    }

    fn label() -> (r: &'static str) {
        END
    }
}

/// Runs after all other layers have completed, for finalization tasks.
#[derive(Debug, Clone, Copy)]
pub struct Post;

impl LayerLabel for Post {
    open spec fn label_spec() -> &'static str {
        POST
    }

    fn label() -> (r: &'static str) {
        POST
    }
}

} // verus!

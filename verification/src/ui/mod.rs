//! User interface: node layout settings and pointer interaction with nodes.
pub mod node;
pub mod interactivity;

use vstd::prelude::*;

verus! {

/// Adds the UI resources and systems to an application.
pub struct UiPlugin;

} // verus!

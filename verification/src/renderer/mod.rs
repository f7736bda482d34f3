//! Rendering settings and the culling of what is not seen.
pub mod culling;

use vstd::prelude::*;

verus! {

/// Which faces of a mesh are culled.
#[derive(Debug, Clone, Copy, PartialEq, Eq, Structural)]
pub enum Face {
    Front,
    Back,
}

impl Default for Face {
    fn default() -> (r: Self)
        ensures
            r == Face::Back,
    {
        Face::Back
    }
}

} // verus!

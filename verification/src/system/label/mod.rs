//! Labels of scheduler phases and layers, and system locations in the scheduler.
pub mod phase;
pub mod layer;

use vstd::prelude::*;

verus! {

pub const PRE_STARTUP: &'static str = "PreStartup";
pub const STARTUP: &'static str = "Startup";
pub const FIRST: &'static str = "First";
pub const PRE_UPDATE: &'static str = "PreUpdate";
pub const FIXED_UPDATE: &'static str = "FixedUpdate";
pub const UPDATE: &'static str = "Update";
pub const POST_UPDATE: &'static str = "PostUpdate";
pub const LAST: &'static str = "Last";
pub const PRE_RENDER: &'static str = "PreRender";
pub const RENDER: &'static str = "Render";
pub const POST_RENDER: &'static str = "PostRender";
pub const FRAME_END: &'static str = "FrameEnd";

pub const PRE: &'static str = "Pre";
pub const START: &'static str = "Start";
pub const MAIN: &'static str = "Main";
pub const END: &'static str = "End";
pub const POST: &'static str = "Post";

/// The built-in phase labels, in execution order.
pub open spec fn builtin_phase_labels() -> Seq<&'static str> {
    seq![
        PRE_STARTUP,
        STARTUP,
        FIRST,
        PRE_UPDATE,
        FIXED_UPDATE,
        UPDATE,
        POST_UPDATE,
        LAST,
        PRE_RENDER,
        RENDER,
        POST_RENDER,
        FRAME_END,
    ]
}

/// The built-in layer labels, in execution order.
pub open spec fn builtin_layer_labels() -> Seq<&'static str> {
    seq![PRE, START, MAIN, END, POST]
}

/// Marker trait for identifying system phases.
/// To create a custom phase, implement this trait for a new type and register it with the
/// scheduler.
pub trait PhaseLabel: Copy {
    /// The label of this phase.
    spec fn label_spec() -> &'static str;

    /// Get the label for this phase
    fn label() -> (r: &'static str)
        ensures
            r == Self::label_spec(),
    ;

    /// The location of a layer within this phase
    fn layer<L: LayerLabel>(&self, layer: L) -> (r: SchedulerLocation)
        ensures
            r.phase == Self::label_spec(),
            r.layer == L::label_spec(),
    {
        SchedulerLocation { phase: Self::label(), layer: L::label() }
    }
}

/// Marker trait for identifying system layers.
/// To create a custom layer, implement this trait for a new type and register it with the
/// scheduler.
pub trait LayerLabel: Copy {
    /// The label of this layer.
    spec fn label_spec() -> &'static str;

    /// Get the label for this layer
    fn label() -> (r: &'static str)
        ensures
            r == Self::label_spec(),
    ;
}

/// Returns all built-in phase labels in order
pub fn all_phase_labels() -> (r: Vec<&'static str>)
    ensures
        r@ == builtin_phase_labels(),
{
    let r = vec![
        PRE_STARTUP,
        STARTUP,
        FIRST,
        PRE_UPDATE,
        FIXED_UPDATE,
        UPDATE,
        POST_UPDATE,
        LAST,
        PRE_RENDER,
        RENDER,
        POST_RENDER,
        FRAME_END,
    ];
    assert(r@ =~= builtin_phase_labels());
    r
}

/// Returns all built-in layer labels
pub fn all_layer_labels() -> (r: Vec<&'static str>)
    ensures
        r@ == builtin_layer_labels(),
{
    let r = vec![PRE, START, MAIN, END, POST];
    assert(r@ =~= builtin_layer_labels());
    r
}

/// Implemented for types that can specify a location of a system within the scheduler.
pub trait IntoSchedulerLocation {
    /// Get the phase label for this location
    fn phase_label(&self) -> &'static str;

    /// Get the layer label for this location
    fn layer_label(&self) -> &'static str;

    /// Get the full scheduler location
    fn get(&self) -> SchedulerLocation;
}

/// A scheduler location of a system
#[derive(Debug, Clone, Copy)]
pub struct SchedulerLocation {
    pub phase: &'static str,
    pub layer: &'static str,
}

impl Default for SchedulerLocation {
    fn default() -> (r: Self)
        ensures
            r.phase == UPDATE,
            r.layer == MAIN,
    {
        Self { phase: UPDATE, layer: MAIN }
    }
}

impl IntoSchedulerLocation for SchedulerLocation {
    fn phase_label(&self) -> (r: &'static str)
        ensures
            r == self.phase,
    {
        self.phase
    }

    fn layer_label(&self) -> (r: &'static str)
        ensures
            r == self.layer,
    {
        self.layer
    }

    fn get(&self) -> (r: SchedulerLocation)
        ensures
            r == *self,
    {
        SchedulerLocation { phase: self.phase, layer: self.layer }
    }
}

} // verus!

verus! {

/// The built-in phase labels are pairwise different.
pub proof fn lemma_builtin_phase_labels_distinct()
    ensures
        forall|i: int, j: int|
            0 <= i < builtin_phase_labels().len() && 0 <= j < builtin_phase_labels().len() && i != j
                ==> builtin_phase_labels()[i]@ != builtin_phase_labels()[j]@,
{
    reveal_strlit("PreStartup");
    reveal_strlit("Startup");
    reveal_strlit("First");
    reveal_strlit("PreUpdate");
    reveal_strlit("FixedUpdate");
    reveal_strlit("Update");
    reveal_strlit("PostUpdate");
    reveal_strlit("Last");
    reveal_strlit("PreRender");
    reveal_strlit("Render");
    reveal_strlit("PostRender");
    reveal_strlit("FrameEnd");
    let l = builtin_phase_labels();
    assert forall|i: int, j: int| 0 <= i < l.len() && 0 <= j < l.len() && i != j implies l[i]@ != l[j]@ by {
        if l[i]@ == l[j]@ {
            assert(l[i]@.len() == l[j]@.len());
            assert(l[i]@[0] == l[j]@[0]);
            assert(l[i]@[l[i]@.len() - 1] == l[j]@[l[j]@.len() - 1]);
            assert(l[i]@[3] == l[j]@[3]);
        }
    }
}

/// The built-in layer labels are pairwise different.
pub proof fn lemma_builtin_layer_labels_distinct()
    ensures
        forall|i: int, j: int|
            0 <= i < builtin_layer_labels().len() && 0 <= j < builtin_layer_labels().len() && i != j
                ==> builtin_layer_labels()[i]@ != builtin_layer_labels()[j]@,
{
    reveal_strlit("Pre");
    reveal_strlit("Start");
    reveal_strlit("Main");
    reveal_strlit("End");
    reveal_strlit("Post");
    let l = builtin_layer_labels();
    assert forall|i: int, j: int| 0 <= i < l.len() && 0 <= j < l.len() && i != j implies l[i]@ != l[j]@ by {
        if l[i]@ == l[j]@ {
            assert(l[i]@.len() == l[j]@.len());
            assert(l[i]@[0] == l[j]@[0]);
            assert(l[i]@[1] == l[j]@[1]);
        }
    }
}

} // verus!

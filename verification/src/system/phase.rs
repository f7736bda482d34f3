//! Batches, layers and phases: the levels at which the scheduler groups systems.
use vstd::prelude::*;
use super::System;
use super::SystemCondition;
use super::conflict::{ConflictChecker, systems_clash};
use super::label::{all_layer_labels, builtin_layer_labels};
use super::order::{
    distinct, find_label, insert_position, label_views, lemma_insert_position_range,
    lemma_position_bound, ordered_insert_index, position,
};

verus! {

/// No system of the batch conflicts with a system added after it.
pub open spec fn batch_wf<E>(systems: Seq<System<E>>) -> bool {
    forall|i: int, j: int| 0 <= i < j < systems.len() ==> !systems_clash(systems[i], systems[j])
}

/// A batch accepts a system when none of its systems conflicts with it.
pub open spec fn accepts<E>(systems: Seq<System<E>>, system: System<E>) -> bool {
    forall|i: int| 0 <= i < systems.len() ==> !#[trigger] systems_clash(systems[i], system)
}

/// A group of systems that can safely run in parallel.
///
/// Each batch contains systems that do not conflict with each other based on their
/// parameter access patterns. These systems can be executed concurrently.
///
/// Batches are created automatically when inserting systems into layers.
pub struct Batch<E> {
    /// Systems in this batch
    pub systems: Vec<System<E>>,
}

impl<E> Batch<E> {
    /// Create a new system batch
    pub fn new() -> (r: Self)
        ensures
            r.systems@ == Seq::<System<E>>::empty(),
    {
        Self { systems: Vec::new() }
    }

    /// Add a system to this batch
    pub fn add_system(&mut self, system: System<E>)
        ensures
            final(self).systems@ == old(self).systems@.push(system),
    {
        self.systems.push(system);
    }

    /// Check if this batch can accept the given system without conflicts
    pub fn can_accept(&self, system: &System<E>) -> (r: bool)
        ensures
            r == accepts(self.systems@, *system),
    {
        let mut i: usize = 0;
        while i < self.systems.len()
            invariant
                i <= self.systems@.len(),
                forall|k: int| 0 <= k < i ==> !#[trigger] systems_clash(self.systems@[k], *system),
            decreases self.systems@.len() - i,
        {
            if self.systems[i].is_conflicting_with(system) {
                return false;
            }
            i += 1;
        }
        true
    }
}

/// What the library knows of a layer.
#[verifier::ext_equal]
pub struct LayerView<E> {
    pub label: Seq<char>,
    pub batches: Seq<Seq<System<E>>>,
    pub before: Seq<Seq<char>>,
    pub after: Seq<Seq<char>>,
}

/// A layer of systems within a phase.
///
/// Layers group systems by logical functionality and allow ordering constraints between groups
/// within the same phase. Layers always run sequentially, but systems within them can be
/// parallelized in batches.
pub struct Layer<E> {
    /// Layer label
    pub label: &'static str,
    /// Batches in this layer
    pub batches: Vec<Batch<E>>,
    /// This layer will run before these layers
    pub before: Vec<&'static str>,
    /// This layer will run after these layers
    pub after: Vec<&'static str>,
}

/// The systems of each batch.
pub open spec fn batch_views<E>(batches: Seq<Batch<E>>) -> Seq<Seq<System<E>>> {
    Seq::new(batches.len(), |i: int| batches[i].systems@)
}

impl<E> View for Layer<E> {
    type V = LayerView<E>;

    open spec fn view(&self) -> LayerView<E> {
        LayerView {
            label: self.label@,
            batches: batch_views(self.batches@),
            before: label_views(self.before@),
            after: label_views(self.after@),
        }
    }
}

/// The first batch that accepts `system`, if any.
pub open spec fn accepting_batch<E>(batches: Seq<Seq<System<E>>>, system: System<E>) -> Option<int> {
    if exists|i: int| 0 <= i < batches.len() && accepts(batches[i], system) {
        Some(
            choose|i: int|
                0 <= i < batches.len() && accepts(batches[i], system) && forall|k: int|
                    0 <= k < i ==> !accepts(batches[k], system),
        )
    } else {
        None
    }
}

/// The batches after adding `system`: into the first batch that accepts it, or into a new batch
/// at the end.
pub open spec fn batches_with<E>(batches: Seq<Seq<System<E>>>, system: System<E>) -> Seq<Seq<System<E>>> {
    match accepting_batch(batches, system) {
        Some(i) => batches.update(i, batches[i].push(system)),
        None => batches.push(seq![system]),
    }
}

/// Every batch of the layer is conflict free.
pub open spec fn layer_wf<E>(l: LayerView<E>) -> bool {
    forall|i: int| 0 <= i < l.batches.len() ==> batch_wf(#[trigger] l.batches[i])
}

proof fn lemma_accepting_batch_first<E>(batches: Seq<Seq<System<E>>>, system: System<E>, i: int)
    requires
        0 <= i < batches.len(),
        accepts(batches[i], system),
        forall|k: int| 0 <= k < i ==> !accepts(batches[k], system),
    ensures
        accepting_batch(batches, system) == Some(i),
{
    let j = choose|j: int|
        0 <= j < batches.len() && accepts(batches[j], system) && forall|k: int|
            0 <= k < j ==> !accepts(batches[k], system);
    if j < i {
        assert(!accepts(batches[j], system));
    } else if i < j {
        assert(!accepts(batches[i], system));
    }
}

/// What `accepting_batch` returns is the first accepting batch.
pub proof fn lemma_accepting_batch<E>(batches: Seq<Seq<System<E>>>, system: System<E>)
    ensures
        match accepting_batch(batches, system) {
            Some(i) => 0 <= i < batches.len() && accepts(batches[i], system) && forall|k: int|
                0 <= k < i ==> !accepts(batches[k], system),
            None => forall|k: int| 0 <= k < batches.len() ==> !accepts(batches[k], system),
        },
{
    if exists|i: int| 0 <= i < batches.len() && accepts(batches[i], system) {
        let i0 = choose|i: int| 0 <= i < batches.len() && accepts(batches[i], system);
        let f = first_accepting(batches, system, i0);
        assert(0 <= f < batches.len() && accepts(batches[f], system) && forall|k: int|
            0 <= k < f ==> !accepts(batches[k], system));
    }
}

proof fn first_accepting<E>(batches: Seq<Seq<System<E>>>, system: System<E>, i: int) -> (f: int)
    requires
        0 <= i < batches.len(),
        accepts(batches[i], system),
    ensures
        0 <= f <= i,
        accepts(batches[f], system),
        forall|k: int| 0 <= k < f ==> !accepts(batches[k], system),
    decreases i,
{
    if exists|k: int| 0 <= k < i && accepts(batches[k], system) {
        let k = choose|k: int| 0 <= k < i && accepts(batches[k], system);
        first_accepting(batches, system, k)
    } else {
        i
    }
}

impl<E> Layer<E> {
    /// Create a new layer
    pub fn new(label: &'static str) -> (r: Self)
        ensures
            r.label == label,
            r@ == new_layer_view::<E>(label@),
    {
        let r = Self { label, batches: Vec::new(), before: Vec::new(), after: Vec::new() };
        assert(r@.batches =~= Seq::<Seq<System<E>>>::empty());
        assert(r@.before =~= Seq::<Seq<char>>::empty());
        assert(r@.after =~= Seq::<Seq<char>>::empty());
        r
    }

    /// Add a system to the first batch that can accept it, or to a new batch.
    pub fn add_system(&mut self, system: System<E>)
        ensures
            final(self).label == old(self).label,
            final(self).before@ == old(self).before@,
            final(self).after@ == old(self).after@,
            final(self)@.batches == batches_with(old(self)@.batches, system),
    {
        let ghost old_batches = old(self)@.batches;
        let mut i: usize = 0;
        let mut target: Option<usize> = None;
        while i < self.batches.len()
            invariant_except_break
                i <= self.batches@.len(),
                target is None,
            invariant
                self@.batches == old_batches,
                self.batches@.len() == old_batches.len(),
                forall|k: int| 0 <= k < i ==> !accepts(#[trigger] old_batches[k], system),
            ensures
                match target {
                    Some(t) => t < old_batches.len() && t == i && accepts(old_batches[t as int], system),
                    None => i == old_batches.len(),
                },
            decreases self.batches@.len() - i,
        {
            if self.batches[i].can_accept(&system) {
                target = Some(i);
                break;
            }
            i += 1;
        }
        match target {
            Some(t) => {
                proof {
                    lemma_accepting_batch_first(old_batches, system, t as int);
                }
                let mut batch = self.batches.remove(t);
                batch.add_system(system);
                self.batches.insert(t, batch);
                assert(self@.batches =~= old_batches.update(t as int, old_batches[t as int].push(system)));
            },
            None => {
                proof {
                    lemma_accepting_batch(old_batches, system);
                }
                let mut new_batch = Batch::new();
                new_batch.add_system(system);
                self.batches.push(new_batch);
                assert(self@.batches =~= old_batches.push(seq![system]));
            },
        }
    }
}

/// Adding a system keeps every batch conflict free.
pub proof fn lemma_batches_with_keeps_wf<E>(l: LayerView<E>, system: System<E>)
    requires
        layer_wf(l),
    ensures
        layer_wf(LayerView { batches: batches_with(l.batches, system), ..l }),
{
    let nb = batches_with(l.batches, system);
    lemma_accepting_batch(l.batches, system);
    match accepting_batch(l.batches, system) {
        Some(i) => {
            assert forall|k: int| 0 <= k < nb.len() implies batch_wf(#[trigger] nb[k]) by {
                if k == i {
                    let b = l.batches[i];
                    assert(batch_wf(b));
                    assert(accepts(b, system));
                    assert forall|x: int, y: int| 0 <= x < y < b.push(system).len() implies !systems_clash(
                        b.push(system)[x],
                        b.push(system)[y],
                    ) by {
                        if y == b.len() {
                            assert(!systems_clash(b[x], system));
                        }
                    }
                } else {
                    assert(nb[k] == l.batches[k]);
                }
            }
        },
        None => {
            assert forall|k: int| 0 <= k < nb.len() implies batch_wf(#[trigger] nb[k]) by {
                if k < l.batches.len() {
                    assert(nb[k] == l.batches[k]);
                }
            }
        },
    }
}

} // verus!

verus! {

/// Type of execution for a phase
#[derive(Debug, Clone, Copy)]
pub enum PhaseExecutionType {
    /// Run systems sequentially (batches do not run in parallel)
    Sequential,
    /// Run systems in parallel (where possible)
    Parallel,
}

impl Default for PhaseExecutionType {
    fn default() -> (r: Self)
        ensures
            r == PhaseExecutionType::Sequential,
    {
        PhaseExecutionType::Sequential
    }
}

/// Policy for executing a phase. `F` is the fixed-timestep clock.
pub enum PhaseExecutionPolicy<E, F> {
    /// Default execution policy, runs systems every frame
    Normal,
    /// Run systems for a finite number of iterations, then they are removed from the scheduler
    Finite(usize),
    /// Run systems at a fixed timestep
    FixedTimestep(F),
    /// Run systems based on a custom condition
    Custom(SystemCondition<E>),
}

impl<E, F> Default for PhaseExecutionPolicy<E, F> {
    fn default() -> (r: Self)
        ensures
            r is Normal,
    {
        PhaseExecutionPolicy::Normal
    }
}

impl<E, F> PhaseExecutionPolicy<E, F> {
    /// True for the `Normal` policy
    pub fn is_normal(&self) -> (r: bool)
        ensures
            r == self is Normal,
    {
        match self {
            PhaseExecutionPolicy::Normal => true,
            _ => false,
        }
    }

    /// For a `Finite` policy with iterations left, uses one up and returns how many remain.
    pub fn decrement_finite(&mut self) -> (r: Option<usize>)
        ensures
            match *old(self) {
                PhaseExecutionPolicy::Finite(n) => if n > 0 {
                    r == Some((n - 1) as usize) && *final(self) == PhaseExecutionPolicy::<E, F>::Finite((n - 1) as usize)
                } else {
                    r is None && *final(self) == *old(self)
                },
                _ => r is None && *final(self) == *old(self),
            },
    {
        match self {
            PhaseExecutionPolicy::Finite(iterations) => {
                if *iterations > 0 {
                    *iterations = *iterations - 1;
                    Some(*iterations)
                } else {
                    None
                }
            },
            _ => None,
        }
    }

    /// The fixed-timestep clock, for a `FixedTimestep` policy.
    pub fn get_fixed_timestep(&mut self) -> (r: Option<&mut F>)
        ensures
            match *old(self) {
                PhaseExecutionPolicy::FixedTimestep(t) => r is Some && *r->0 == t
                    && *final(self) == PhaseExecutionPolicy::<E, F>::FixedTimestep(*final(r->0)),
                _ => r is None && *final(self) == *old(self),
            },
    {
        match self {
            PhaseExecutionPolicy::FixedTimestep(timestep) => Some(timestep),
            _ => None,
        }
    }

    /// The run condition, for a `Custom` policy.
    pub fn get_custom(&mut self) -> (r: Option<&mut SystemCondition<E>>)
        ensures
            match *old(self) {
                PhaseExecutionPolicy::Custom(c) => r is Some && *r->0 == c
                    && *final(self) == PhaseExecutionPolicy::<E, F>::Custom(*final(r->0)),
                _ => r is None && *final(self) == *old(self),
            },
    {
        match self {
            PhaseExecutionPolicy::Custom(condition) => Some(condition),
            _ => None,
        }
    }
}

} // verus!

verus! {

/// What the library knows of a phase.
#[verifier::ext_equal]
pub struct PhaseView<E, F> {
    pub label: Seq<char>,
    pub layers: Seq<LayerView<E>>,
    pub execution_type: PhaseExecutionType,
    pub execution_policy: PhaseExecutionPolicy<E, F>,
    pub before: Seq<Seq<char>>,
    pub after: Seq<Seq<char>>,
}

/// A phase of system execution within the scheduler pipeline.
///
/// Phases provide a high-level organization for systems ("Startup", "Update", "Render"). Like
/// layers they carry ordering constraints, at the level of the whole pipeline. Phases always run
/// sequentially.
pub struct Phase<E, F> {
    /// Phase label
    pub label: &'static str,
    /// Layers in this phase
    pub layers: Vec<Layer<E>>,
    pub execution_type: PhaseExecutionType,
    pub execution_policy: PhaseExecutionPolicy<E, F>,
    /// This phase will run before these phases
    pub before: Vec<&'static str>,
    /// This phase will run after these phases
    pub after: Vec<&'static str>,
}

/// The views of a list of layers.
pub open spec fn layer_views<E>(layers: Seq<Layer<E>>) -> Seq<LayerView<E>> {
    Seq::new(layers.len(), |i: int| layers[i]@)
}

/// The labels of a list of layers.
pub open spec fn layer_labels<E>(layers: Seq<LayerView<E>>) -> Seq<Seq<char>> {
    Seq::new(layers.len(), |i: int| layers[i].label)
}

impl<E, F> View for Phase<E, F> {
    type V = PhaseView<E, F>;

    open spec fn view(&self) -> PhaseView<E, F> {
        PhaseView {
            label: self.label@,
            layers: layer_views(self.layers@),
            execution_type: self.execution_type,
            execution_policy: self.execution_policy,
            before: label_views(self.before@),
            after: label_views(self.after@),
        }
    }
}

/// Layer labels are unique and every batch is conflict free.
pub open spec fn phase_wf<E, F>(p: PhaseView<E, F>) -> bool {
    &&& distinct(layer_labels(p.layers))
    &&& forall|i: int| 0 <= i < p.layers.len() ==> layer_wf(#[trigger] p.layers[i])
}

/// The phase with `layer` inserted where its ordering constraints put it; `None` where adding it
/// fails (a layer with that label exists, or its constraints contradict each other).
pub open spec fn phase_with_layer<E, F>(p: PhaseView<E, F>, layer: LayerView<E>) -> Option<PhaseView<E, F>> {
    let labels = layer_labels(p.layers);
    if position(labels, layer.label) is Some {
        None
    } else {
        match insert_position(labels, layer.before, layer.after) {
            Some(i) => Some(PhaseView { layers: p.layers.insert(i, layer), ..p }),
            None => None,
        }
    }
}

/// The phase with the layer `label` taken out and inserted again under its current constraints.
pub open spec fn phase_with_refreshed_layer<E, F>(p: PhaseView<E, F>, label: Seq<char>) -> Option<PhaseView<E, F>> {
    match position(layer_labels(p.layers), label) {
        Some(i) => phase_with_layer(PhaseView { layers: p.layers.remove(i), ..p }, p.layers[i]),
        None => None,
    }
}

/// The phase with `system` added to the layer `label`.
pub open spec fn phase_with_system<E, F>(p: PhaseView<E, F>, label: Seq<char>, system: System<E>) -> Option<PhaseView<E, F>> {
    match position(layer_labels(p.layers), label) {
        Some(i) => Some(
            PhaseView {
                layers: p.layers.update(
                    i,
                    LayerView { batches: batches_with(p.layers[i].batches, system), ..p.layers[i] },
                ),
                ..p
            },
        ),
        None => None,
    }
}

/// A layer as created from its label: no systems and no ordering constraints.
pub open spec fn new_layer_view<E>(label: Seq<char>) -> LayerView<E> {
    LayerView {
        label,
        batches: Seq::empty(),
        before: Seq::empty(),
        after: Seq::empty(),
    }
}

/// A phase as created from its label: the built-in layers, in order, each empty; sequential
/// execution under the normal policy; no ordering constraints.
pub open spec fn new_phase_view<E, F>(label: Seq<char>) -> PhaseView<E, F> {
    PhaseView {
        label,
        layers: Seq::new(
            builtin_layer_labels().len(),
            |i: int| new_layer_view::<E>(builtin_layer_labels()[i]@),
        ),
        execution_type: PhaseExecutionType::Sequential,
        execution_policy: PhaseExecutionPolicy::Normal,
        before: Seq::empty(),
        after: Seq::empty(),
    }
}

impl<E, F> Phase<E, F> {
    /// Create a new phase with the built-in layers
    pub fn new(label: &'static str) -> (r: Self)
        ensures
            r@ == new_phase_view::<E, F>(label@),
            r.label == label,
    {
        let labels = all_layer_labels();
        let mut layers: Vec<Layer<E>> = Vec::new();
        let mut i: usize = 0;
        while i < labels.len()
            invariant
                labels@ == builtin_layer_labels(),
                i <= labels@.len(),
                layers@.len() == i,
                forall|k: int|
                    0 <= k < i ==> (#[trigger] layers@[k])@ == new_layer_view::<E>(builtin_layer_labels()[k]@),
            decreases labels@.len() - i,
        {
            layers.push(Layer::new(labels[i]));
            i += 1;
        }
        let r = Self {
            label,
            layers,
            execution_type: PhaseExecutionType::default(),
            execution_policy: PhaseExecutionPolicy::default(),
            before: Vec::new(),
            after: Vec::new(),
        };
        assert(r@.before =~= Seq::<Seq<char>>::empty());
        assert(r@.after =~= Seq::<Seq<char>>::empty());
        assert(r@.layers =~= new_phase_view::<E, F>(label@).layers);
        assert(r@ =~= new_phase_view::<E, F>(label@));
        r
    }

    /// The labels of the layers, in order.
    fn layer_label_list(&self) -> (r: Vec<&'static str>)
        ensures
            label_views(r@) == layer_labels(self@.layers),
    {
        let mut r: Vec<&'static str> = Vec::new();
        let mut i: usize = 0;
        while i < self.layers.len()
            invariant
                i <= self.layers@.len(),
                r@.len() == i,
                forall|k: int| 0 <= k < i ==> (#[trigger] r@[k]) == self.layers@[k].label,
            decreases self.layers@.len() - i,
        {
            r.push(self.layers[i].label);
            i += 1;
        }
        assert(label_views(r@) =~= layer_labels(self@.layers));
        r
    }

    /// Returns the layer index
    pub fn find_layer(&self, layer_label: &'static str) -> (r: Option<usize>)
        ensures
            match r {
                Some(i) => position(layer_labels(self@.layers), layer_label@) == Some(i as int) && i
                    < self.layers@.len(),
                None => position(layer_labels(self@.layers), layer_label@) is None,
            },
    {
        let labels = self.layer_label_list();
        proof {
            lemma_position_bound(layer_labels(self@.layers), layer_label@);
        }
        find_label(&labels, layer_label)
    }

    /// Add a layer to this phase, where its ordering constraints put it.
    pub fn add_layer(&mut self, layer: Layer<E>)
        requires
            phase_with_layer(old(self)@, layer@) is Some,
        ensures
            final(self)@ == phase_with_layer(old(self)@, layer@).unwrap(),
            final(self).label == old(self).label,
    {
        let labels = self.layer_label_list();
        let index = ordered_insert_index(&labels, &layer.before, &layer.after);
        let ghost old_view = self@;
        let ghost lv = layer@;
        proof {
            lemma_insert_position_range(layer_labels(old_view.layers), lv.before, lv.after);
        }
        match index {
            Some(i) => {
                self.layers.insert(i, layer);
                assert(self@.layers =~= old_view.layers.insert(i as int, lv));
            },
            None => {},
        }
    }

    /// Refresh the ordering of a mutated layer
    pub fn refresh_layer(&mut self, layer_label: &'static str)
        requires
            phase_with_refreshed_layer(old(self)@, layer_label@) is Some,
        ensures
            final(self)@ == phase_with_refreshed_layer(old(self)@, layer_label@).unwrap(),
            final(self).label == old(self).label,
    {
        let ghost old_view = self@;
        if let Some(index) = self.find_layer(layer_label) {
            let layer = self.layers.remove(index);
            assert(position(layer_labels(old_view.layers), layer_label@) == Some(index as int));
            assert(layer@ == old_view.layers[index as int]);
            assert(self@.layers =~= old_view.layers.remove(index as int));
            assert(self@ =~= PhaseView { layers: old_view.layers.remove(index as int), ..old_view });
            self.add_layer(layer);
        }
    }

    /// Add a system to a specific layer in this phase
    pub fn add_system_to_layer(&mut self, layer_label: &'static str, system: System<E>)
        requires
            phase_with_system(old(self)@, layer_label@, system) is Some,
        ensures
            final(self)@ == phase_with_system(old(self)@, layer_label@, system).unwrap(),
            final(self).label == old(self).label,
    {
        let ghost old_view = self@;
        if let Some(index) = self.find_layer(layer_label) {
            let mut layer = self.layers.remove(index);
            let ghost lv = layer@;
            layer.add_system(system);
            self.layers.insert(index, layer);
            assert(self@.layers =~= old_view.layers.update(
                index as int,
                LayerView { batches: batches_with(lv.batches, system), ..lv },
            ));
            assert(self@ =~= PhaseView {
                layers: old_view.layers.update(
                    index as int,
                    LayerView { batches: batches_with(lv.batches, system), ..lv },
                ),
                ..old_view
            });
        }
    }
}

} // verus!

//! The scheduler: phases in execution order, and the queue of changes to them.
use vstd::prelude::*;
use super::System;
use super::label::{
    all_phase_labels, builtin_layer_labels, builtin_phase_labels, lemma_builtin_layer_labels_distinct,
    lemma_builtin_phase_labels_distinct, SchedulerLocation, FIXED_UPDATE, PRE_STARTUP, STARTUP,
};
use super::order::{
    distinct, find_label, insert_position, label_views, lemma_insert_position_range,
    lemma_position_bound, ordered_insert_index, position,
};
use super::phase::{
    Layer, LayerView, Phase, PhaseExecutionPolicy, PhaseExecutionType, PhaseView, layer_labels,
    new_layer_view, new_phase_view, phase_with_layer, phase_with_refreshed_layer, phase_with_system,
};

verus! {

/// A change to be applied to the scheduler.
pub enum SchedulerChange<E, F> {
    /// Remove the phase
    PhaseRemove(&'static str),
    /// Add a system to the layer of the phase
    SystemAdd(&'static str, &'static str, System<E>),
    /// Add a new phase
    PhaseAdd(&'static str),
    /// Add a new layer to the phase
    LayerAdd(&'static str, &'static str),
    /// The phase runs before the other
    PhaseBefore(&'static str, &'static str),
    /// The phase runs after the other
    PhaseAfter(&'static str, &'static str),
    /// The layer of the phase runs before the other layer
    LayerBefore(&'static str, &'static str, &'static str),
    /// The layer of the phase runs after the other layer
    LayerAfter(&'static str, &'static str, &'static str),
    /// Move the layer of the phase to the target phase
    MoveLayer(&'static str, &'static str, &'static str),
    /// Set the phase's execution policy
    Policy(&'static str, PhaseExecutionPolicy<E, F>),
    /// Set the phase's execution type
    SetType(&'static str, PhaseExecutionType),
}

/// The views of a list of phases.
pub open spec fn phase_views<E, F>(phases: Seq<Phase<E, F>>) -> Seq<PhaseView<E, F>> {
    Seq::new(phases.len(), |i: int| phases[i]@)
}

/// The labels of a list of phases.
pub open spec fn phase_labels<E, F>(phases: Seq<PhaseView<E, F>>) -> Seq<Seq<char>> {
    Seq::new(phases.len(), |i: int| phases[i].label)
}

/// The phases with `phase` inserted where its ordering constraints put it; `None` where that
/// fails (a phase with that label exists, or its constraints contradict each other).
pub open spec fn with_phase<E, F>(s: Seq<PhaseView<E, F>>, phase: PhaseView<E, F>) -> Option<Seq<PhaseView<E, F>>> {
    let labels = phase_labels(s);
    if position(labels, phase.label) is Some {
        None
    } else {
        match insert_position(labels, phase.before, phase.after) {
            Some(i) => Some(s.insert(i, phase)),
            None => None,
        }
    }
}

/// The phases with `label` taken out and inserted again under its current constraints.
pub open spec fn with_refreshed_phase<E, F>(s: Seq<PhaseView<E, F>>, label: Seq<char>) -> Option<Seq<PhaseView<E, F>>> {
    match position(phase_labels(s), label) {
        Some(i) => with_phase(s.remove(i), s[i]),
        None => None,
    }
}

/// The result of applying one change; `None` where applying it fails.
pub open spec fn change_result<E, F>(s: Seq<PhaseView<E, F>>, change: SchedulerChange<E, F>) -> Option<Seq<PhaseView<E, F>>> {
    let labels = phase_labels(s);
    match change {
        SchedulerChange::PhaseRemove(p) => match position(labels, p@) {
            Some(i) => Some(s.remove(i)),
            None => None,
        },
        SchedulerChange::SystemAdd(p, l, system) => match position(labels, p@) {
            Some(i) => match phase_with_system(s[i], l@, system) {
                Some(np) => Some(s.update(i, np)),
                None => None,
            },
            None => None,
        },
        SchedulerChange::PhaseAdd(p) => with_phase(s, new_phase_view(p@)),
        SchedulerChange::LayerAdd(p, l) => match position(labels, p@) {
            Some(i) => match phase_with_layer(s[i], new_layer_view(l@)) {
                Some(np) => Some(s.update(i, np)),
                None => None,
            },
            None => None,
        },
        SchedulerChange::PhaseBefore(p, b) => match position(labels, p@) {
            Some(i) => with_refreshed_phase(
                s.update(i, PhaseView { before: s[i].before.push(b@), ..s[i] }),
                p@,
            ),
            None => None,
        },
        SchedulerChange::PhaseAfter(p, a) => match position(labels, p@) {
            Some(i) => with_refreshed_phase(
                s.update(i, PhaseView { after: s[i].after.push(a@), ..s[i] }),
                p@,
            ),
            None => None,
        },
        SchedulerChange::LayerBefore(p, l, b) => match position(labels, p@) {
            Some(i) => match position(layer_labels(s[i].layers), l@) {
                Some(j) => {
                    let layer = s[i].layers[j];
                    let np = PhaseView {
                        layers: s[i].layers.update(j, LayerView { before: layer.before.push(b@), ..layer }),
                        ..s[i]
                    };
                    match phase_with_refreshed_layer(np, l@) {
                        Some(np2) => Some(s.update(i, np2)),
                        None => None,
                    }
                },
                None => None,
            },
            None => None,
        },
        SchedulerChange::LayerAfter(p, l, a) => match position(labels, p@) {
            Some(i) => match position(layer_labels(s[i].layers), l@) {
                Some(j) => {
                    let layer = s[i].layers[j];
                    let np = PhaseView {
                        layers: s[i].layers.update(j, LayerView { after: layer.after.push(a@), ..layer }),
                        ..s[i]
                    };
                    match phase_with_refreshed_layer(np, l@) {
                        Some(np2) => Some(s.update(i, np2)),
                        None => None,
                    }
                },
                None => None,
            },
            None => None,
        },
        SchedulerChange::MoveLayer(p, l, t) => match position(labels, p@) {
            Some(i) => match position(layer_labels(s[i].layers), l@) {
                Some(j) => {
                    let layer = s[i].layers[j];
                    let s1 = s.update(i, PhaseView { layers: s[i].layers.remove(j), ..s[i] });
                    match position(phase_labels(s1), t@) {
                        Some(k) => match phase_with_layer(s1[k], layer) {
                            Some(tp) => Some(s1.update(k, tp)),
                            None => None,
                        },
                        None => None,
                    }
                },
                None => None,
            },
            None => None,
        },
        SchedulerChange::Policy(p, policy) => match position(labels, p@) {
            Some(i) => Some(s.update(i, PhaseView { execution_policy: policy, ..s[i] })),
            None => None,
        },
        SchedulerChange::SetType(p, t) => match position(labels, p@) {
            Some(i) => Some(s.update(i, PhaseView { execution_type: t, ..s[i] })),
            None => None,
        },
    }
}

/// The result of applying the changes in order; `None` where one of them fails.
pub open spec fn run_changes<E, F>(s: Seq<PhaseView<E, F>>, changes: Seq<SchedulerChange<E, F>>) -> Option<Seq<PhaseView<E, F>>>
    decreases changes.len(),
{
    if changes.len() == 0 {
        Some(s)
    } else {
        match change_result(s, changes[0]) {
            Some(s2) => run_changes(s2, changes.drop_first()),
            None => None,
        }
    }
}

/// Changes to be applied to the scheduler
pub struct SchedulerChanges<E, F> {
    pub changes: Vec<SchedulerChange<E, F>>,
}

impl<E, F> Default for SchedulerChanges<E, F> {
    fn default() -> (r: Self)
        ensures
            r.changes@.len() == 0,
    {
        Self { changes: Vec::new() }
    }
}

impl<E, F> SchedulerChanges<E, F> {
    /// Queues the change.
    fn queue(&mut self, change: SchedulerChange<E, F>) -> (r: &mut Self)
        ensures
            r.changes@ == old(self).changes@.push(change),
            *final(self) == *final(r),
    {
        self.changes.push(change);
        self
    }

    /// Internal scheduler change to remove a phase
    pub fn phase_remove(&mut self, phase_label: &'static str) -> (r: &mut Self)
        ensures
            r.changes@ == old(self).changes@.push(SchedulerChange::PhaseRemove(phase_label)),
            *final(self) == *final(r),
    {
        self.queue(SchedulerChange::PhaseRemove(phase_label))
    }

    /// Internal scheduler change to add a system
    pub fn system_add(&mut self, phase_label: &'static str, layer_label: &'static str, system: System<E>) -> (r: &mut Self)
        ensures
            r.changes@ == old(self).changes@.push(SchedulerChange::SystemAdd(phase_label, layer_label, system)),
            *final(self) == *final(r),
    {
        self.queue(SchedulerChange::SystemAdd(phase_label, layer_label, system))
    }

    /// Add a new phase to the scheduler
    pub fn phase_add(&mut self, phase: &'static str) -> (r: &mut Self)
        ensures
            r.changes@ == old(self).changes@.push(SchedulerChange::PhaseAdd(phase)),
            *final(self) == *final(r),
    {
        self.queue(SchedulerChange::PhaseAdd(phase))
    }

    /// Add a new layer to the scheduler
    pub fn layer_add(&mut self, location: SchedulerLocation) -> (r: &mut Self)
        ensures
            r.changes@ == old(self).changes@.push(SchedulerChange::LayerAdd(location.phase, location.layer)),
            *final(self) == *final(r),
    {
        self.queue(SchedulerChange::LayerAdd(location.phase, location.layer))
    }

    /// Add a new before dependency to a phase
    pub fn phase_before(&mut self, phase: &'static str, before: &'static str) -> (r: &mut Self)
        ensures
            r.changes@ == old(self).changes@.push(SchedulerChange::PhaseBefore(phase, before)),
            *final(self) == *final(r),
    {
        self.queue(SchedulerChange::PhaseBefore(phase, before))
    }

    /// Add a new after dependency to a phase
    pub fn phase_after(&mut self, phase: &'static str, after: &'static str) -> (r: &mut Self)
        ensures
            r.changes@ == old(self).changes@.push(SchedulerChange::PhaseAfter(phase, after)),
            *final(self) == *final(r),
    {
        self.queue(SchedulerChange::PhaseAfter(phase, after))
    }

    /// Add a new before dependency to a layer
    pub fn layer_before(&mut self, location: SchedulerLocation, before: &'static str) -> (r: &mut Self)
        ensures
            r.changes@ == old(self).changes@.push(SchedulerChange::LayerBefore(location.phase, location.layer, before)),
            *final(self) == *final(r),
    {
        self.queue(SchedulerChange::LayerBefore(location.phase, location.layer, before))
    }

    /// Add a new after dependency to a layer
    pub fn layer_after(&mut self, location: SchedulerLocation, after: &'static str) -> (r: &mut Self)
        ensures
            r.changes@ == old(self).changes@.push(SchedulerChange::LayerAfter(location.phase, location.layer, after)),
            *final(self) == *final(r),
    {
        self.queue(SchedulerChange::LayerAfter(location.phase, location.layer, after))
    }

    /// Move a layer to a different phase
    pub fn move_layer(&mut self, location: SchedulerLocation, target: &'static str) -> (r: &mut Self)
        ensures
            r.changes@ == old(self).changes@.push(SchedulerChange::MoveLayer(location.phase, location.layer, target)),
            *final(self) == *final(r),
    {
        self.queue(SchedulerChange::MoveLayer(location.phase, location.layer, target))
    }

    /// Set the execution policy for a phase
    pub fn policy(&mut self, phase: &'static str, policy: PhaseExecutionPolicy<E, F>) -> (r: &mut Self)
        ensures
            r.changes@ == old(self).changes@.push(SchedulerChange::Policy(phase, policy)),
            *final(self) == *final(r),
    {
        self.queue(SchedulerChange::Policy(phase, policy))
    }

    /// Set the execution type for a phase
    pub fn set_type(&mut self, phase: &'static str, exec_type: PhaseExecutionType) -> (r: &mut Self)
        ensures
            r.changes@ == old(self).changes@.push(SchedulerChange::SetType(phase, exec_type)),
            *final(self) == *final(r),
    {
        self.queue(SchedulerChange::SetType(phase, exec_type))
    }
}

} // verus!

verus! {

/// The main scheduler responsible for organizing and executing the system pipeline.
///
/// The scheduler organizes systems into phases and layers and keeps them in the order their
/// dependencies ask for. Within layers, systems are grouped into batches of non-conflicting
/// systems.
pub struct Scheduler<E, F> {
    pub phases: Vec<Phase<E, F>>,
    pub pending_changes: SchedulerChanges<E, F>,
}

/// Phase labels are unique, and every phase is well formed.
pub open spec fn scheduler_wf<E, F>(s: Seq<PhaseView<E, F>>) -> bool {
    &&& distinct(phase_labels(s))
    &&& forall|i: int| 0 <= i < s.len() ==> super::phase::phase_wf(#[trigger] s[i])
}

/// In a list without repeats, a label's position is where it stands.
pub proof fn lemma_first_position_of_distinct(labels: Seq<Seq<char>>, i: int)
    requires
        distinct(labels),
        0 <= i < labels.len(),
    ensures
        position(labels, labels[i]) == Some(i),
{
    lemma_position_bound(labels, labels[i]);
}

/// A new scheduler is well formed.
pub proof fn lemma_default_phases_wf<E, F>(fixed: F)
    ensures
        scheduler_wf(default_phases::<E, F>(fixed)),
{
    let s = default_phases::<E, F>(fixed);
    lemma_builtin_phase_labels_distinct();
    lemma_builtin_layer_labels_distinct();
    assert forall|i: int| 0 <= i < s.len() implies super::phase::phase_wf(#[trigger] s[i]) by {
        let ls = layer_labels(s[i].layers);
        assert forall|a: int, b: int| 0 <= a < ls.len() && 0 <= b < ls.len() && a != b implies ls[a] != ls[b] by {
            assert(ls[a] == builtin_layer_labels()[a]@);
            assert(ls[b] == builtin_layer_labels()[b]@);
        }
    }
    let pl = phase_labels(s);
    assert forall|a: int, b: int| 0 <= a < pl.len() && 0 <= b < pl.len() && a != b implies pl[a] != pl[b] by {
        assert(pl[a] == builtin_phase_labels()[a]@);
        assert(pl[b] == builtin_phase_labels()[b]@);
    }
}

impl<E, F> View for Scheduler<E, F> {
    type V = Seq<PhaseView<E, F>>;

    open spec fn view(&self) -> Seq<PhaseView<E, F>> {
        phase_views(self.phases@)
    }
}

/// The phases of a new scheduler: the built-in phases in order, each fresh; `PreStartup` and
/// `Startup` run once, `FixedUpdate` runs on the fixed-timestep clock `fixed`.
pub open spec fn default_phases<E, F>(fixed: F) -> Seq<PhaseView<E, F>> {
    Seq::new(
        builtin_phase_labels().len(),
        |i: int|
            {
                let p = new_phase_view::<E, F>(builtin_phase_labels()[i]@);
                if i == 0 || i == 1 {
                    PhaseView { execution_policy: PhaseExecutionPolicy::Finite(1), ..p }
                } else if i == 4 {
                    PhaseView { execution_policy: PhaseExecutionPolicy::FixedTimestep(fixed), ..p }
                } else {
                    p
                }
            },
    )
}

impl<E, F> Scheduler<E, F> {
    /// A scheduler with the built-in phases; `fixed_update` is the clock of the `FixedUpdate`
    /// phase.
    pub fn new(fixed_update: F) -> (r: Self)
        ensures
            r@ == default_phases::<E, F>(fixed_update),
            r.pending_changes.changes@.len() == 0,
            scheduler_wf(r@),
    {
        let labels = all_phase_labels();
        let mut phases: Vec<Phase<E, F>> = Vec::new();
        let mut i: usize = 0;
        while i < labels.len()
            invariant
                labels@ == builtin_phase_labels(),
                i <= labels@.len(),
                phases@.len() == i,
                forall|k: int|
                    0 <= k < i ==> (#[trigger] phases@[k])@ == new_phase_view::<E, F>(builtin_phase_labels()[k]@),
            decreases labels@.len() - i,
        {
            phases.push(Phase::new(labels[i]));
            i += 1;
        }
        let mut scheduler = Self { phases, pending_changes: SchedulerChanges::default() };
        let ghost base = scheduler@;
        proof {
            lemma_builtin_phase_labels_distinct();
            assert(base =~= Seq::new(12, |k: int| new_phase_view::<E, F>(builtin_phase_labels()[k]@)));
        }
        scheduler.pending_changes.policy(FIXED_UPDATE, PhaseExecutionPolicy::FixedTimestep(fixed_update));
        scheduler.pending_changes.policy(PRE_STARTUP, PhaseExecutionPolicy::Finite(1));
        scheduler.pending_changes.policy(STARTUP, PhaseExecutionPolicy::Finite(1));
        proof {
            let labels_v = phase_labels(base);
            assert(labels_v[4] == FIXED_UPDATE@);
            assert(labels_v[0] == PRE_STARTUP@);
            assert(labels_v[1] == STARTUP@);
            lemma_first_position_of_distinct(labels_v, 4);
            lemma_first_position_of_distinct(labels_v, 0);
            lemma_first_position_of_distinct(labels_v, 1);
            let cs = scheduler.pending_changes.changes@;
            reveal_with_fuel(run_changes, 4);
            let s1 = base.update(4, PhaseView { execution_policy: PhaseExecutionPolicy::FixedTimestep(fixed_update), ..base[4] });
            assert(phase_labels(s1) =~= labels_v);
            let s2 = s1.update(0, PhaseView { execution_policy: PhaseExecutionPolicy::Finite(1), ..s1[0] });
            assert(phase_labels(s2) =~= labels_v);
            let s3 = s2.update(1, PhaseView { execution_policy: PhaseExecutionPolicy::Finite(1), ..s2[1] });
            assert(cs.drop_first().drop_first().drop_first() =~= Seq::<SchedulerChange<E, F>>::empty());
            assert(s3 =~= default_phases::<E, F>(fixed_update));
        }
        scheduler.apply_changes();
        proof {
            lemma_default_phases_wf::<E, F>(fixed_update);
        }
        scheduler
    }

    /// The labels of the phases, in order.
    fn phase_label_list(&self) -> (r: Vec<&'static str>)
        ensures
            label_views(r@) == phase_labels(self@),
    {
        let mut r: Vec<&'static str> = Vec::new();
        let mut i: usize = 0;
        while i < self.phases.len()
            invariant
                i <= self.phases@.len(),
                r@.len() == i,
                forall|k: int| 0 <= k < i ==> (#[trigger] r@[k]) == self.phases@[k].label,
            decreases self.phases@.len() - i,
        {
            r.push(self.phases[i].label);
            i += 1;
        }
        assert(label_views(r@) =~= phase_labels(self@));
        r
    }

    /// Returns the phase index
    pub fn find_phase(&self, phase_label: &'static str) -> (r: Option<usize>)
        ensures
            match r {
                Some(i) => position(phase_labels(self@), phase_label@) == Some(i as int) && i
                    < self.phases@.len(),
                None => position(phase_labels(self@), phase_label@) is None,
            },
    {
        let labels = self.phase_label_list();
        find_label(&labels, phase_label)
    }

    /// Add a phase to the scheduler, where its ordering constraints put it.
    pub fn add_phase(&mut self, phase: Phase<E, F>)
        requires
            with_phase(old(self)@, phase@) is Some,
        ensures
            final(self)@ == with_phase(old(self)@, phase@).unwrap(),
            final(self).pending_changes == old(self).pending_changes,
    {
        let labels = self.phase_label_list();
        let index = ordered_insert_index(&labels, &phase.before, &phase.after);
        let ghost old_view = self@;
        let ghost pv = phase@;
        proof {
            lemma_insert_position_range(phase_labels(old_view), pv.before, pv.after);
        }
        match index {
            Some(i) => {
                self.phases.insert(i, phase);
                assert(self@ =~= old_view.insert(i as int, pv));
            },
            None => {},
        }
    }

    /// Refresh the ordering of a mutated phase
    pub fn refresh_phase(&mut self, phase_label: &'static str)
        requires
            with_refreshed_phase(old(self)@, phase_label@) is Some,
        ensures
            final(self)@ == with_refreshed_phase(old(self)@, phase_label@).unwrap(),
            final(self).pending_changes == old(self).pending_changes,
    {
        let ghost old_view = self@;
        if let Some(index) = self.find_phase(phase_label) {
            let phase = self.phases.remove(index);
            assert(self@ =~= old_view.remove(index as int));
            self.add_phase(phase);
        }
    }

    /// Add a layer to a phase in the scheduler
    pub fn add_layer_to_phase(&mut self, phase_label: &'static str, layer: Layer<E>)
        requires
            position(phase_labels(old(self)@), phase_label@) is Some,
            phase_with_layer(
                old(self)@[position(phase_labels(old(self)@), phase_label@).unwrap()],
                layer@,
            ) is Some,
        ensures
            final(self)@ == old(self)@.update(
                position(phase_labels(old(self)@), phase_label@).unwrap(),
                phase_with_layer(
                    old(self)@[position(phase_labels(old(self)@), phase_label@).unwrap()],
                    layer@,
                ).unwrap(),
            ),
            final(self).pending_changes == old(self).pending_changes,
    {
        let ghost old_view = self@;
        if let Some(index) = self.find_phase(phase_label) {
            let mut phase = self.phases.remove(index);
            phase.add_layer(layer);
            self.phases.insert(index, phase);
            assert(self@ =~= old_view.update(index as int, phase@));
        }
    }

    /// Add a system to a specific location in the scheduler; it is placed when pending changes
    /// are next applied.
    pub fn add_system(&mut self, system: System<E>, location: SchedulerLocation)
        ensures
            final(self).phases == old(self).phases,
            final(self).pending_changes.changes@ == old(self).pending_changes.changes@.push(
                SchedulerChange::SystemAdd(location.phase, location.layer, system),
            ),
    {
        self.pending_changes.system_add(location.phase, location.layer, system);
    }
}

} // verus!

verus! {

impl<E, F> Scheduler<E, F> {
    /// Apply any pending changes to the scheduler, in the order they were queued
    pub fn apply_changes(&mut self)
        requires
            run_changes(old(self)@, old(self).pending_changes.changes@) is Some,
        ensures
            final(self)@ == run_changes(old(self)@, old(self).pending_changes.changes@).unwrap(),
            final(self).pending_changes.changes@.len() == 0,
    {
        if self.pending_changes.changes.len() == 0 {
            return;
        }
        let ghost all = self.pending_changes.changes@;
        let ghost start = self@;
        let mut drained: Vec<SchedulerChange<E, F>> = Vec::new();
        std::mem::swap(&mut drained, &mut self.pending_changes.changes);
        assert(drained@ == all);
        let mut rest = drained;
        // `rest` holds the changes not applied yet, in order
        while rest.len() > 0
            invariant
                run_changes(start, all) == run_changes(self@, rest@),
                run_changes(self@, rest@) is Some,
                self.pending_changes.changes@.len() == 0,
            decreases rest@.len(),
        {
            let ghost before = rest@;
            let change = rest.remove(0);
            assert(rest@ =~= before.drop_first());
            self.apply_change(change);
        }
        assert(run_changes(self@, rest@) == Some(self@));
    }

    /// Applies one change.
    pub fn apply_change(&mut self, change: SchedulerChange<E, F>)
        requires
            change_result(old(self)@, change) is Some,
        ensures
            final(self)@ == change_result(old(self)@, change).unwrap(),
            final(self).pending_changes == old(self).pending_changes,
    {
        match change {
            SchedulerChange::PhaseRemove(p) => self.apply_phase_remove(p),
            SchedulerChange::SystemAdd(p, l, system) => self.apply_system_add(p, l, system),
            SchedulerChange::PhaseAdd(p) => self.apply_phase_add(p),
            SchedulerChange::LayerAdd(p, l) => self.apply_layer_add(p, l),
            SchedulerChange::PhaseBefore(p, b) => self.apply_phase_before(p, b),
            SchedulerChange::PhaseAfter(p, a) => self.apply_phase_after(p, a),
            SchedulerChange::LayerBefore(p, l, b) => self.apply_layer_before(p, l, b),
            SchedulerChange::LayerAfter(p, l, a) => self.apply_layer_after(p, l, a),
            SchedulerChange::MoveLayer(p, l, t) => self.apply_move_layer(p, l, t),
            SchedulerChange::Policy(p, policy) => self.apply_policy(p, policy),
            SchedulerChange::SetType(p, t) => self.apply_set_type(p, t),
        }
    }

    fn apply_phase_remove(&mut self, p: &'static str)
        requires
            change_result(old(self)@, SchedulerChange::PhaseRemove(p)) is Some,
        ensures
            final(self)@ == change_result(old(self)@, SchedulerChange::PhaseRemove(p)).unwrap(),
            final(self).pending_changes == old(self).pending_changes,
    {
        let ghost s = self@;
        if let Some(index) = self.find_phase(p) {
            let _removed = self.phases.remove(index);
            assert(self@ =~= s.remove(index as int));
        }
    }

    fn apply_system_add(&mut self, p: &'static str, l: &'static str, system: System<E>)
        requires
            change_result(old(self)@, SchedulerChange::SystemAdd(p, l, system)) is Some,
        ensures
            final(self)@ == change_result(old(self)@, SchedulerChange::SystemAdd(p, l, system)).unwrap(),
            final(self).pending_changes == old(self).pending_changes,
    {
        let ghost s = self@;
        if let Some(index) = self.find_phase(p) {
            let mut phase = self.phases.remove(index);
            phase.add_system_to_layer(l, system);
            self.phases.insert(index, phase);
            assert(self@ =~= s.update(index as int, phase@));
        }
    }

    fn apply_phase_add(&mut self, p: &'static str)
        requires
            change_result(old(self)@, SchedulerChange::PhaseAdd(p)) is Some,
        ensures
            final(self)@ == change_result(old(self)@, SchedulerChange::PhaseAdd(p)).unwrap(),
            final(self).pending_changes == old(self).pending_changes,
    {
        let ghost s = self@;
        let phase = Phase::new(p);
        self.add_phase(phase);
    }

    fn apply_layer_add(&mut self, p: &'static str, l: &'static str)
        requires
            change_result(old(self)@, SchedulerChange::LayerAdd(p, l)) is Some,
        ensures
            final(self)@ == change_result(old(self)@, SchedulerChange::LayerAdd(p, l)).unwrap(),
            final(self).pending_changes == old(self).pending_changes,
    {
        let ghost s = self@;
        if let Some(index) = self.find_phase(p) {
            let mut phase = self.phases.remove(index);
            phase.add_layer(Layer::new(l));
            self.phases.insert(index, phase);
            assert(self@ =~= s.update(index as int, phase@));
        }
    }

    fn apply_phase_before(&mut self, p: &'static str, b: &'static str)
        requires
            change_result(old(self)@, SchedulerChange::PhaseBefore(p, b)) is Some,
        ensures
            final(self)@ == change_result(old(self)@, SchedulerChange::PhaseBefore(p, b)).unwrap(),
            final(self).pending_changes == old(self).pending_changes,
    {
        let ghost s = self@;
        if let Some(index) = self.find_phase(p) {
            let mut phase = self.phases.remove(index);
            let ghost pv = phase@;
            phase.before.push(b);
            assert(label_views(phase.before@) =~= pv.before.push(b@));
            assert(phase@ =~= PhaseView { before: pv.before.push(b@), ..pv });
            self.phases.insert(index, phase);
            assert(self@ =~= s.update(index as int, phase@));
            self.refresh_phase(p);
        }
    }

    fn apply_phase_after(&mut self, p: &'static str, a: &'static str)
        requires
            change_result(old(self)@, SchedulerChange::PhaseAfter(p, a)) is Some,
        ensures
            final(self)@ == change_result(old(self)@, SchedulerChange::PhaseAfter(p, a)).unwrap(),
            final(self).pending_changes == old(self).pending_changes,
    {
        let ghost s = self@;
        if let Some(index) = self.find_phase(p) {
            let mut phase = self.phases.remove(index);
            let ghost pv = phase@;
            phase.after.push(a);
            assert(label_views(phase.after@) =~= pv.after.push(a@));
            assert(phase@ =~= PhaseView { after: pv.after.push(a@), ..pv });
            self.phases.insert(index, phase);
            assert(self@ =~= s.update(index as int, phase@));
            self.refresh_phase(p);
        }
    }

    fn apply_layer_before(&mut self, p: &'static str, l: &'static str, b: &'static str)
        requires
            change_result(old(self)@, SchedulerChange::LayerBefore(p, l, b)) is Some,
        ensures
            final(self)@ == change_result(old(self)@, SchedulerChange::LayerBefore(p, l, b)).unwrap(),
            final(self).pending_changes == old(self).pending_changes,
    {
        let ghost s = self@;
        if let Some(index) = self.find_phase(p) {
            let mut phase = self.phases.remove(index);
            let ghost pv = phase@;
            if let Some(li) = phase.find_layer(l) {
                let mut layer = phase.layers.remove(li);
                let ghost lv = layer@;
                layer.before.push(b);
                assert(label_views(layer.before@) =~= lv.before.push(b@));
                assert(layer@ =~= LayerView { before: lv.before.push(b@), ..lv });
                phase.layers.insert(li, layer);
                assert(phase@ =~= PhaseView {
                    layers: pv.layers.update(li as int, LayerView { before: lv.before.push(b@), ..lv }),
                    ..pv
                });
                phase.refresh_layer(l);
            }
            self.phases.insert(index, phase);
            assert(self@ =~= s.update(index as int, phase@));
        }
    }

    fn apply_layer_after(&mut self, p: &'static str, l: &'static str, a: &'static str)
        requires
            change_result(old(self)@, SchedulerChange::LayerAfter(p, l, a)) is Some,
        ensures
            final(self)@ == change_result(old(self)@, SchedulerChange::LayerAfter(p, l, a)).unwrap(),
            final(self).pending_changes == old(self).pending_changes,
    {
        let ghost s = self@;
        if let Some(index) = self.find_phase(p) {
            let mut phase = self.phases.remove(index);
            let ghost pv = phase@;
            if let Some(li) = phase.find_layer(l) {
                let mut layer = phase.layers.remove(li);
                let ghost lv = layer@;
                layer.after.push(a);
                assert(label_views(layer.after@) =~= lv.after.push(a@));
                assert(layer@ =~= LayerView { after: lv.after.push(a@), ..lv });
                phase.layers.insert(li, layer);
                assert(phase@ =~= PhaseView {
                    layers: pv.layers.update(li as int, LayerView { after: lv.after.push(a@), ..lv }),
                    ..pv
                });
                phase.refresh_layer(l);
            }
            self.phases.insert(index, phase);
            assert(self@ =~= s.update(index as int, phase@));
        }
    }

    fn apply_move_layer(&mut self, p: &'static str, l: &'static str, t: &'static str)
        requires
            change_result(old(self)@, SchedulerChange::MoveLayer(p, l, t)) is Some,
        ensures
            final(self)@ == change_result(old(self)@, SchedulerChange::MoveLayer(p, l, t)).unwrap(),
            final(self).pending_changes == old(self).pending_changes,
    {
        let ghost s = self@;
        if let Some(index) = self.find_phase(p) {
            let mut phase = self.phases.remove(index);
            let ghost pv = phase@;
            if let Some(li) = phase.find_layer(l) {
                let layer = phase.layers.remove(li);
                assert(phase@ =~= PhaseView { layers: pv.layers.remove(li as int), ..pv });
                self.phases.insert(index, phase);
                let ghost s1 = self@;
                assert(s1 =~= s.update(index as int, PhaseView { layers: pv.layers.remove(li as int), ..pv }));
                if let Some(ti) = self.find_phase(t) {
                    let mut target = self.phases.remove(ti);
                    target.add_layer(layer);
                    self.phases.insert(ti, target);
                    assert(self@ =~= s1.update(ti as int, target@));
                }
            }
        }
    }

    fn apply_policy(&mut self, p: &'static str, policy: PhaseExecutionPolicy<E, F>)
        requires
            change_result(old(self)@, SchedulerChange::Policy(p, policy)) is Some,
        ensures
            final(self)@ == change_result(old(self)@, SchedulerChange::Policy(p, policy)).unwrap(),
            final(self).pending_changes == old(self).pending_changes,
    {
        let ghost s = self@;
        if let Some(index) = self.find_phase(p) {
            let mut phase = self.phases.remove(index);
            let ghost pv = phase@;
            phase.execution_policy = policy;
            assert(phase@ =~= PhaseView { execution_policy: policy, ..pv });
            self.phases.insert(index, phase);
            assert(self@ =~= s.update(index as int, phase@));
        }
    }

    fn apply_set_type(&mut self, p: &'static str, t: PhaseExecutionType)
        requires
            change_result(old(self)@, SchedulerChange::SetType(p, t)) is Some,
        ensures
            final(self)@ == change_result(old(self)@, SchedulerChange::SetType(p, t)).unwrap(),
            final(self).pending_changes == old(self).pending_changes,
    {
        let ghost s = self@;
        if let Some(index) = self.find_phase(p) {
            let mut phase = self.phases.remove(index);
            let ghost pv = phase@;
            phase.execution_type = t;
            assert(phase@ =~= PhaseView { execution_type: t, ..pv });
            self.phases.insert(index, phase);
            assert(self@ =~= s.update(index as int, phase@));
        }
    }
}

} // verus!

verus! {

proof fn lemma_distinct_insert(l: Seq<Seq<char>>, i: int, x: Seq<char>)
    requires
        distinct(l),
        0 <= i <= l.len(),
        position(l, x) is None,
    ensures
        distinct(l.insert(i, x)),
{
    lemma_position_bound(l, x);
    let r = l.insert(i, x);
    assert forall|a: int, b: int| 0 <= a < r.len() && 0 <= b < r.len() && a != b implies r[a] != r[b] by {
        let oa = if a < i { a } else { a - 1 };
        let ob = if b < i { b } else { b - 1 };
        if a != i && b != i {
            assert(r[a] == l[oa] && r[b] == l[ob]);
        } else if a == i {
            assert(r[b] == l[ob]);
        } else {
            assert(r[a] == l[oa]);
        }
    }
}

pub(crate) proof fn lemma_distinct_remove(l: Seq<Seq<char>>, i: int)
    requires
        distinct(l),
        0 <= i < l.len(),
    ensures
        distinct(l.remove(i)),
        position(l.remove(i), l[i]) is None,
{
    let r = l.remove(i);
    assert forall|a: int, b: int| 0 <= a < r.len() && 0 <= b < r.len() && a != b implies r[a] != r[b] by {
        let oa = if a < i { a } else { a + 1 };
        let ob = if b < i { b } else { b + 1 };
        assert(r[a] == l[oa] && r[b] == l[ob]);
    }
    assert forall|k: int| 0 <= k < r.len() implies r[k] != l[i] by {
        let ok = if k < i { k } else { k + 1 };
        assert(r[k] == l[ok]);
    }
}

/// Adding a well formed phase under a fresh label keeps the scheduler well formed.
proof fn lemma_with_phase_wf<E, F>(s: Seq<PhaseView<E, F>>, p: PhaseView<E, F>)
    requires
        scheduler_wf(s),
        super::phase::phase_wf(p),
        with_phase(s, p) is Some,
    ensures
        scheduler_wf(with_phase(s, p).unwrap()),
{
    let labels = phase_labels(s);
    let i = insert_position(labels, p.before, p.after).unwrap();
    lemma_insert_position_range(labels, p.before, p.after);
    let r = s.insert(i, p);
    assert(phase_labels(r) =~= labels.insert(i, p.label));
    lemma_distinct_insert(labels, i, p.label);
    assert forall|k: int| 0 <= k < r.len() implies super::phase::phase_wf(#[trigger] r[k]) by {
        if k < i {
            assert(r[k] == s[k]);
        } else if k > i {
            assert(r[k] == s[k - 1]);
        }
    }
}

/// Adding a layer under a fresh label keeps a phase well formed.
proof fn lemma_with_layer_wf<E, F>(p: PhaseView<E, F>, l: LayerView<E>)
    requires
        super::phase::phase_wf(p),
        super::phase::layer_wf(l),
        phase_with_layer(p, l) is Some,
    ensures
        super::phase::phase_wf(phase_with_layer(p, l).unwrap()),
{
    let labels = layer_labels(p.layers);
    let i = insert_position(labels, l.before, l.after).unwrap();
    lemma_insert_position_range(labels, l.before, l.after);
    let r = p.layers.insert(i, l);
    assert(layer_labels(r) =~= labels.insert(i, l.label));
    lemma_distinct_insert(labels, i, l.label);
    assert forall|k: int| 0 <= k < r.len() implies super::phase::layer_wf(#[trigger] r[k]) by {
        if k < i {
            assert(r[k] == p.layers[k]);
        } else if k > i {
            assert(r[k] == p.layers[k - 1]);
        }
    }
}

/// Taking a layer out keeps a phase well formed, and its label is then free.
proof fn lemma_without_layer_wf<E, F>(p: PhaseView<E, F>, j: int)
    requires
        super::phase::phase_wf(p),
        0 <= j < p.layers.len(),
    ensures
        super::phase::phase_wf(PhaseView { layers: p.layers.remove(j), ..p }),
        position(layer_labels(p.layers.remove(j)), p.layers[j].label) is None,
{
    let labels = layer_labels(p.layers);
    assert(layer_labels(p.layers.remove(j)) =~= labels.remove(j));
    lemma_distinct_remove(labels, j);
    let r = p.layers.remove(j);
    assert forall|k: int| 0 <= k < r.len() implies super::phase::layer_wf(#[trigger] r[k]) by {
        if k < j {
            assert(r[k] == p.layers[k]);
        } else {
            assert(r[k] == p.layers[k + 1]);
        }
    }
}

/// Taking a phase out keeps the scheduler well formed, and its label is then free.
proof fn lemma_without_phase_wf<E, F>(s: Seq<PhaseView<E, F>>, i: int)
    requires
        scheduler_wf(s),
        0 <= i < s.len(),
    ensures
        scheduler_wf(s.remove(i)),
        position(phase_labels(s.remove(i)), s[i].label) is None,
{
    let labels = phase_labels(s);
    assert(phase_labels(s.remove(i)) =~= labels.remove(i));
    lemma_distinct_remove(labels, i);
    let r = s.remove(i);
    assert forall|k: int| 0 <= k < r.len() implies super::phase::phase_wf(#[trigger] r[k]) by {
        if k < i {
            assert(r[k] == s[k]);
        } else {
            assert(r[k] == s[k + 1]);
        }
    }
}

/// Replacing a phase by a well formed one with the same label keeps the scheduler well formed.
proof fn lemma_update_phase_wf<E, F>(s: Seq<PhaseView<E, F>>, i: int, p: PhaseView<E, F>)
    requires
        scheduler_wf(s),
        0 <= i < s.len(),
        p.label == s[i].label,
        super::phase::phase_wf(p),
    ensures
        scheduler_wf(s.update(i, p)),
{
    assert(phase_labels(s.update(i, p)) =~= phase_labels(s));
}

/// A new phase is well formed.
proof fn lemma_new_phase_wf<E, F>(label: Seq<char>)
    ensures
        super::phase::phase_wf(new_phase_view::<E, F>(label)),
{
    super::label::lemma_builtin_layer_labels_distinct();
    let p = new_phase_view::<E, F>(label);
    let ls = layer_labels(p.layers);
    assert forall|a: int, b: int| 0 <= a < ls.len() && 0 <= b < ls.len() && a != b implies ls[a] != ls[b] by {
        assert(ls[a] == builtin_layer_labels()[a]@);
        assert(ls[b] == builtin_layer_labels()[b]@);
    }
}

/// Every change that applies keeps the scheduler well formed: phase labels stay unique, layer
/// labels stay unique within each phase, and no batch holds two conflicting systems.
pub proof fn lemma_change_keeps_wf<E, F>(s: Seq<PhaseView<E, F>>, change: SchedulerChange<E, F>)
    requires
        scheduler_wf(s),
        change_result(s, change) is Some,
    ensures
        scheduler_wf(change_result(s, change).unwrap()),
{
    let labels = phase_labels(s);
    match change {
        SchedulerChange::PhaseRemove(p) => {
            let i = position(labels, p@).unwrap();
            lemma_position_bound(labels, p@);
            lemma_without_phase_wf(s, i);
        },
        SchedulerChange::SystemAdd(p, l, system) => {
            let i = position(labels, p@).unwrap();
            lemma_position_bound(labels, p@);
            let ph = s[i];
            let j = position(layer_labels(ph.layers), l@).unwrap();
            lemma_position_bound(layer_labels(ph.layers), l@);
            let np = phase_with_system(ph, l@, system).unwrap();
            super::phase::lemma_batches_with_keeps_wf(ph.layers[j], system);
            assert(layer_labels(np.layers) =~= layer_labels(ph.layers));
            assert forall|k: int| 0 <= k < np.layers.len() implies super::phase::layer_wf(#[trigger] np.layers[k]) by {
                if k != j {
                    assert(np.layers[k] == ph.layers[k]);
                }
            }
            lemma_update_phase_wf(s, i, np);
        },
        SchedulerChange::PhaseAdd(p) => {
            lemma_new_phase_wf::<E, F>(p@);
            lemma_with_phase_wf(s, new_phase_view::<E, F>(p@));
        },
        SchedulerChange::LayerAdd(p, l) => {
            let i = position(labels, p@).unwrap();
            lemma_position_bound(labels, p@);
            lemma_with_layer_wf(s[i], new_layer_view::<E>(l@));
            lemma_update_phase_wf(s, i, phase_with_layer(s[i], new_layer_view::<E>(l@)).unwrap());
        },
        SchedulerChange::PhaseBefore(p, b) => {
            let i = position(labels, p@).unwrap();
            lemma_position_bound(labels, p@);
            let np = PhaseView { before: s[i].before.push(b@), ..s[i] };
            let s1 = s.update(i, np);
            lemma_update_phase_wf(s, i, np);
            assert(phase_labels(s1) =~= labels);
            lemma_position_bound(phase_labels(s1), p@);
            lemma_without_phase_wf(s1, i);
            lemma_with_phase_wf(s1.remove(i), s1[i]);
        },
        SchedulerChange::PhaseAfter(p, a) => {
            let i = position(labels, p@).unwrap();
            lemma_position_bound(labels, p@);
            let np = PhaseView { after: s[i].after.push(a@), ..s[i] };
            let s1 = s.update(i, np);
            lemma_update_phase_wf(s, i, np);
            assert(phase_labels(s1) =~= labels);
            lemma_position_bound(phase_labels(s1), p@);
            lemma_without_phase_wf(s1, i);
            lemma_with_phase_wf(s1.remove(i), s1[i]);
        },
        SchedulerChange::LayerBefore(p, l, b) => {
            let i = position(labels, p@).unwrap();
            lemma_position_bound(labels, p@);
            let ph = s[i];
            let j = position(layer_labels(ph.layers), l@).unwrap();
            lemma_position_bound(layer_labels(ph.layers), l@);
            let layer = ph.layers[j];
            let np = PhaseView {
                layers: ph.layers.update(j, LayerView { before: layer.before.push(b@), ..layer }),
                ..ph
            };
            assert(layer_labels(np.layers) =~= layer_labels(ph.layers));
            assert forall|k: int| 0 <= k < np.layers.len() implies super::phase::layer_wf(#[trigger] np.layers[k]) by {
                if k != j {
                    assert(np.layers[k] == ph.layers[k]);
                }
            }
            lemma_position_bound(layer_labels(np.layers), l@);
            lemma_without_layer_wf(np, j);
            lemma_with_layer_wf(PhaseView { layers: np.layers.remove(j), ..np }, np.layers[j]);
            lemma_update_phase_wf(s, i, phase_with_refreshed_layer(np, l@).unwrap());
        },
        SchedulerChange::LayerAfter(p, l, a) => {
            let i = position(labels, p@).unwrap();
            lemma_position_bound(labels, p@);
            let ph = s[i];
            let j = position(layer_labels(ph.layers), l@).unwrap();
            lemma_position_bound(layer_labels(ph.layers), l@);
            let layer = ph.layers[j];
            let np = PhaseView {
                layers: ph.layers.update(j, LayerView { after: layer.after.push(a@), ..layer }),
                ..ph
            };
            assert(layer_labels(np.layers) =~= layer_labels(ph.layers));
            assert forall|k: int| 0 <= k < np.layers.len() implies super::phase::layer_wf(#[trigger] np.layers[k]) by {
                if k != j {
                    assert(np.layers[k] == ph.layers[k]);
                }
            }
            lemma_position_bound(layer_labels(np.layers), l@);
            lemma_without_layer_wf(np, j);
            lemma_with_layer_wf(PhaseView { layers: np.layers.remove(j), ..np }, np.layers[j]);
            lemma_update_phase_wf(s, i, phase_with_refreshed_layer(np, l@).unwrap());
        },
        SchedulerChange::MoveLayer(p, l, t) => {
            let i = position(labels, p@).unwrap();
            lemma_position_bound(labels, p@);
            let ph = s[i];
            let j = position(layer_labels(ph.layers), l@).unwrap();
            lemma_position_bound(layer_labels(ph.layers), l@);
            let layer = ph.layers[j];
            let np = PhaseView { layers: ph.layers.remove(j), ..ph };
            lemma_without_layer_wf(ph, j);
            lemma_update_phase_wf(s, i, np);
            let s1 = s.update(i, np);
            let k = position(phase_labels(s1), t@).unwrap();
            lemma_position_bound(phase_labels(s1), t@);
            assert(super::phase::layer_wf(layer));
            lemma_with_layer_wf(s1[k], layer);
            lemma_update_phase_wf(s1, k, phase_with_layer(s1[k], layer).unwrap());
        },
        SchedulerChange::Policy(p, policy) => {
            let i = position(labels, p@).unwrap();
            lemma_position_bound(labels, p@);
            lemma_update_phase_wf(s, i, PhaseView { execution_policy: policy, ..s[i] });
        },
        SchedulerChange::SetType(p, t) => {
            let i = position(labels, p@).unwrap();
            lemma_position_bound(labels, p@);
            lemma_update_phase_wf(s, i, PhaseView { execution_type: t, ..s[i] });
        },
    }
}

/// Moving layer `l` of phase `p` to phase `t` moves the layer whole: the target phase then holds a
/// layer equal to the one the source phase had (label, batches with their systems, and ordering
/// constraints).
pub proof fn lemma_move_layer_keeps_layer<E, F>(s: Seq<PhaseView<E, F>>, p: &'static str, l: &'static str, t: &'static str)
    requires
        change_result(s, SchedulerChange::MoveLayer(p, l, t)) is Some,
    ensures
        ({
            let r = change_result(s, SchedulerChange::MoveLayer(p, l, t)).unwrap();
            exists|i: int, j: int, k: int, m: int|
                #![trigger r[k].layers[m], s[i].layers[j]]
                {
                    &&& 0 <= i < s.len()
                    &&& s[i].label == p@
                    &&& 0 <= j < s[i].layers.len()
                    &&& s[i].layers[j].label == l@
                    &&& 0 <= k < r.len()
                    &&& r[k].label == t@
                    &&& 0 <= m < r[k].layers.len()
                    &&& r[k].layers[m] == s[i].layers[j]
                }
        }),
{
    let labels = phase_labels(s);
    let i = position(labels, p@).unwrap();
    lemma_position_bound(labels, p@);
    let ll = layer_labels(s[i].layers);
    let j = position(ll, l@).unwrap();
    lemma_position_bound(ll, l@);
    let layer = s[i].layers[j];
    let s1 = s.update(i, PhaseView { layers: s[i].layers.remove(j), ..s[i] });
    let k = position(phase_labels(s1), t@).unwrap();
    lemma_position_bound(phase_labels(s1), t@);
    let tl = layer_labels(s1[k].layers);
    let m = insert_position(tl, layer.before, layer.after).unwrap();
    lemma_insert_position_range(tl, layer.before, layer.after);
    let r = change_result(s, SchedulerChange::MoveLayer(p, l, t)).unwrap();
    assert(r[k].layers == s1[k].layers.insert(m, layer));
    assert(r[k].layers[m] == s[i].layers[j]);
}

/// Applying a queue of changes keeps the scheduler well formed.
pub proof fn lemma_run_changes_keeps_wf<E, F>(s: Seq<PhaseView<E, F>>, changes: Seq<SchedulerChange<E, F>>)
    requires
        scheduler_wf(s),
        run_changes(s, changes) is Some,
    ensures
        scheduler_wf(run_changes(s, changes).unwrap()),
    decreases changes.len(),
{
    if changes.len() > 0 {
        lemma_change_keeps_wf(s, changes[0]);
        lemma_run_changes_keeps_wf(change_result(s, changes[0]).unwrap(), changes.drop_first());
    }
}

} // verus!

verus! {

/// A phase added to the scheduler runs after every existing phase it must run after and before
/// every existing phase it must run before; the other phases keep their order. (A phase that
/// names itself among its own constraints is left out: such an entry constrains nothing.)
pub proof fn lemma_added_phase_respects_order<E, F>(s: Seq<PhaseView<E, F>>, p: PhaseView<E, F>)
    requires
        scheduler_wf(s),
        super::phase::phase_wf(p),
        with_phase(s, p) is Some,
        !p.after.contains(p.label),
        !p.before.contains(p.label),
    ensures
        ({
            let r = with_phase(s, p).unwrap();
            let idx = insert_position(phase_labels(s), p.before, p.after).unwrap();
            &&& scheduler_wf(r)
            &&& 0 <= idx < r.len()
            &&& r[idx] == p
            &&& forall|a: int, k: int|
                0 <= a < p.after.len() && 0 <= k < r.len() && r[k].label == p.after[a] ==> k < idx
            &&& forall|b: int, k: int|
                0 <= b < p.before.len() && 0 <= k < r.len() && r[k].label == p.before[b] ==> k > idx
            &&& forall|k: int| 0 <= k < idx ==> r[k] == s[k]
            &&& forall|k: int| idx < k < r.len() ==> r[k] == s[k - 1]
        }),
{
    let labels = phase_labels(s);
    let idx = insert_position(labels, p.before, p.after).unwrap();
    let r = with_phase(s, p).unwrap();
    lemma_insert_position_range(labels, p.before, p.after);
    super::order::lemma_insert_position_respects_constraints(labels, p.before, p.after, p.label);
    lemma_with_phase_wf(s, p);
    assert forall|a: int, k: int|
        0 <= a < p.after.len() && 0 <= k < r.len() && r[k].label == p.after[a] implies k < idx by {
        if k > idx {
            assert(r[k] == s[k - 1]);
            lemma_first_position_of_distinct(labels, k - 1);
            assert(super::order::first_position(labels, p.after[a], k - 1));
        } else if k == idx {
            assert(p.after[a] == p.label);
        }
    }
    assert forall|b: int, k: int|
        0 <= b < p.before.len() && 0 <= k < r.len() && r[k].label == p.before[b] implies k > idx by {
        if k < idx {
            assert(r[k] == s[k]);
            lemma_first_position_of_distinct(labels, k);
            assert(super::order::first_position(labels, p.before[b], k));
        } else if k == idx {
            assert(p.before[b] == p.label);
        }
    }
}

} // verus!

//! Running the scheduled systems: phase execution policies, layer and batch order, and the
//! post-run apply step.
use vstd::prelude::*;
use crate::tick::Tick;
use super::{System, SystemCondition, SystemRunner, same_signature, conditions_ran, system_ran, system_prepared};
use super::conflict::{lists_clash, systems_clash, condition_clashes};
use super::phase::{
    Batch, Layer, LayerView, Phase, PhaseExecutionPolicy, PhaseExecutionType, PhaseView, batch_wf,
    layer_wf, phase_wf, layer_labels,
};
use super::scheduler::{
    Scheduler, SchedulerChange, SchedulerChanges, change_result, lemma_distinct_remove, lemma_run_changes_keeps_wf,
    phase_labels, run_changes, scheduler_wf,
};
use super::order::{distinct, lemma_position_bound, position};

verus! {

/// The world side of running a phase, beyond running single systems.
pub trait PhaseRunner<E, F>: SystemRunner<E> {
    /// Advancing fixed-timestep clock `clock` to `next_clock` finds `steps` steps due, the runner
    /// going from `self` to `next`. A runner that does not define it promises nothing of the
    /// count.
    closed spec fn due(&self, clock: F, next: Self, next_clock: F, steps: usize) -> bool {
        true
    }

    /// Advances the fixed-timestep clock and returns how many steps are due.
    fn fixed_iterations(&mut self, clock: &mut F) -> (r: usize)
        ensures
            old(self).due(*old(clock), *final(self), *final(clock), r),
    ;

    /// What waiting for a batch does to the runner: it goes from `self` to `next`. A runner that
    /// does not define it promises nothing of the wait.
    closed spec fn finishes_batch(&self, next: Self) -> bool {
        true
    }

    /// Called after each batch of a parallel phase has been handed out; waits for it.
    fn finish_batch(&mut self)
        ensures
            old(self).finishes_batch(*final(self)),
    ;

    /// What flushing queued world commands does to the runner: it goes from `self` to `next`. A
    /// runner that does not define it promises nothing of the flush.
    closed spec fn flushes(&self, next: Self) -> bool {
        true
    }

    /// Flushes queued world commands.
    fn flush_commands(&mut self)
        ensures
            old(self).flushes(*final(self)),
    ;
}

/// Running a phase stopped because the world tick would overflow.
#[derive(Debug, Clone, Copy)]
pub struct TickOverflow;

/// The conditions have the same functions (run ticks and payloads may differ).
pub open spec fn conditions_same_functions<E>(a: Seq<SystemCondition<E>>, b: Seq<SystemCondition<E>>) -> bool {
    &&& a.len() == b.len()
    &&& forall|i: int| 0 <= i < a.len() ==> same_signature(#[trigger] a[i].function, b[i].function)
}

/// `b` is `a` after runs: same function and conditions, other run ticks and payloads.
pub open spec fn system_kept<E>(a: System<E>, b: System<E>) -> bool {
    same_signature(a.function, b.function) && conditions_same_functions(a.conditions@, b.conditions@)
}

/// The batches hold the same systems up to runs.
pub open spec fn batches_kept<E>(a: Seq<Seq<System<E>>>, b: Seq<Seq<System<E>>>) -> bool {
    &&& a.len() == b.len()
    &&& forall|i: int|
        0 <= i < a.len() ==> (#[trigger] a[i]).len() == b[i].len() && forall|j: int|
            0 <= j < a[i].len() ==> system_kept(#[trigger] a[i][j], b[i][j])
}

/// The layers are the same up to runs of their systems.
pub open spec fn layers_kept<E>(a: Seq<LayerView<E>>, b: Seq<LayerView<E>>) -> bool {
    &&& a.len() == b.len()
    &&& forall|i: int|
        0 <= i < a.len() ==> (#[trigger] a[i]).label == b[i].label && a[i].before == b[i].before
            && a[i].after == b[i].after && batches_kept(a[i].batches, b[i].batches)
}

/// The phase is the same up to runs of its systems and a change of its policy's state.
pub open spec fn phase_kept<E, F>(a: PhaseView<E, F>, b: PhaseView<E, F>) -> bool {
    &&& a.label == b.label
    &&& a.before == b.before
    &&& a.after == b.after
    &&& a.execution_type == b.execution_type
    &&& layers_kept(a.layers, b.layers)
}

/// How a run changes a phase's policy: a finite policy uses up an iteration, the others keep
/// their kind.
pub open spec fn policy_step<E, F>(a: PhaseExecutionPolicy<E, F>, b: PhaseExecutionPolicy<E, F>) -> bool {
    match a {
        PhaseExecutionPolicy::Normal => b is Normal,
        PhaseExecutionPolicy::Finite(n) => b == PhaseExecutionPolicy::<E, F>::Finite((n - 1) as usize),
        PhaseExecutionPolicy::FixedTimestep(_) => b is FixedTimestep,
        PhaseExecutionPolicy::Custom(c) => b is Custom && same_signature(c.function, b->Custom_0.function),
    }
}

/// Conflicts between systems depend only on their functions and conditions.
pub proof fn lemma_kept_systems_clash_alike<E>(a: System<E>, a2: System<E>, b: System<E>, b2: System<E>)
    requires
        system_kept(a, a2),
        system_kept(b, b2),
    ensures
        systems_clash(a, b) == systems_clash(a2, b2),
{
    assert forall|i: int| 0 <= i < a.conditions@.len() implies condition_clashes(a.conditions@[i], b)
        == condition_clashes(a2.conditions@[i], b2) by {
        assert(same_signature(a.conditions@[i].function, a2.conditions@[i].function));
        assert forall|j: int| 0 <= j < b.conditions@.len() implies lists_clash(
            a.conditions@[i].function.params_info@,
            b.conditions@[j].function.params_info@,
        ) == lists_clash(
            a2.conditions@[i].function.params_info@,
            b2.conditions@[j].function.params_info@,
        ) by {
            assert(same_signature(b.conditions@[j].function, b2.conditions@[j].function));
        }
    }
    assert forall|j: int| 0 <= j < b.conditions@.len() implies lists_clash(
        b.conditions@[j].function.params_info@,
        a.function.params_info@,
    ) == lists_clash(b2.conditions@[j].function.params_info@, a2.function.params_info@) by {
        assert(same_signature(b.conditions@[j].function, b2.conditions@[j].function));
    }
    if systems_clash(a, b) {
        if !lists_clash(a.function.params_info@, b.function.params_info@) && !(exists|j: int|
            0 <= j < b.conditions@.len() && lists_clash(b.conditions@[j].function.params_info@, a.function.params_info@)) {
            let i = choose|i: int| 0 <= i < a.conditions@.len() && condition_clashes(a.conditions@[i], b);
            assert(condition_clashes(a2.conditions@[i], b2));
        }
    }
    if systems_clash(a2, b2) {
        if !lists_clash(a2.function.params_info@, b2.function.params_info@) && !(exists|j: int|
            0 <= j < b2.conditions@.len() && lists_clash(b2.conditions@[j].function.params_info@, a2.function.params_info@)) {
            let i = choose|i: int| 0 <= i < a2.conditions@.len() && condition_clashes(a2.conditions@[i], b2);
            assert(condition_clashes(a.conditions@[i], b));
        }
    }
}

/// Running systems keeps a well formed phase well formed.
pub proof fn lemma_phase_kept_wf<E, F>(a: PhaseView<E, F>, b: PhaseView<E, F>)
    requires
        phase_wf(a),
        phase_kept(a, b),
    ensures
        phase_wf(b),
{
    assert(layer_labels(a.layers) =~= layer_labels(b.layers));
    assert forall|i: int| 0 <= i < b.layers.len() implies layer_wf(#[trigger] b.layers[i]) by {
        assert(layer_wf(a.layers[i]));
        assert forall|k: int| 0 <= k < b.layers[i].batches.len() implies batch_wf(#[trigger] b.layers[i].batches[k]) by {
            let x = a.layers[i].batches[k];
            let y = b.layers[i].batches[k];
            assert(batch_wf(x));
            assert forall|p: int, q: int| 0 <= p < q < y.len() implies !systems_clash(y[p], y[q]) by {
                lemma_kept_systems_clash_alike(x[p], y[p], x[q], y[q]);
            }
        }
    }
}

} // verus!

verus! {

/// Items `0..i` of `a` were taken in turn by `step`, making them `b`, the world tick going
/// through `ts` and the runner through `rs`: every step up to `f` went through, the step at `f`
/// (if `f < i`) did not, and the items after it were left alone.
pub open spec fn ran_in_turn_upto<A, R>(
    a: Seq<A>,
    b: Seq<A>,
    ts: Seq<int>,
    rs: Seq<R>,
    f: int,
    i: int,
    step: spec_fn(A, A, int, int, R, R, bool) -> bool,
) -> bool {
    &&& b.len() == a.len()
    &&& 0 <= f <= i <= a.len()
    &&& ts.len() == i + 1
    &&& rs.len() == i + 1
    &&& forall|k: int| #![trigger b[k]] 0 <= k < f ==> step(a[k], b[k], ts[k], ts[k + 1], rs[k], rs[k + 1], true)
    &&& f < i ==> step(a[f], b[f], ts[f], ts[f + 1], rs[f], rs[f + 1], false)
    &&& forall|k: int| #![trigger b[k]] f < k < i ==> b[k] == a[k] && ts[k + 1] == ts[k] && rs[k + 1] == rs[k]
}

/// All of `a` was taken in turn by `step` into `b`, as `ran_in_turn_upto` says.
pub open spec fn ran_in_turn<A, R>(
    a: Seq<A>,
    b: Seq<A>,
    ts: Seq<int>,
    rs: Seq<R>,
    f: int,
    step: spec_fn(A, A, int, int, R, R, bool) -> bool,
) -> bool {
    ran_in_turn_upto(a, b, ts, rs, f, a.len() as int, step)
}

/// The items `a` were run in turn by `step` into `b`, the world tick going from `t0` to `t1` and
/// the runner from `r0` to `r1`: each step went through until one did not, after which the rest
/// were left alone; `ok` says whether all went through.
pub open spec fn run_in_turn<A, R>(
    a: Seq<A>,
    b: Seq<A>,
    t0: int,
    t1: int,
    r0: R,
    r1: R,
    ok: bool,
    step: spec_fn(A, A, int, int, R, R, bool) -> bool,
) -> bool {
    exists|ts: Seq<int>, rs: Seq<R>, f: int|
        #[trigger] ran_in_turn(a, b, ts, rs, f, step) && ts[0] == t0 && ts[a.len() as int] == t1 && rs[0] == r0
            && rs[a.len() as int] == r1 && ok == (f == a.len())
}

proof fn lemma_turn_step<A, R>(
    a: Seq<A>,
    b_old: Seq<A>,
    b_new: Seq<A>,
    ts: Seq<int>,
    rs: Seq<R>,
    f: int,
    i: int,
    step: spec_fn(A, A, int, int, R, R, bool) -> bool,
    t_new: int,
    r_new: R,
    ok: bool,
)
    requires
        ran_in_turn_upto(a, b_old, ts, rs, f, i, step),
        i < a.len(),
        b_new.len() == a.len(),
        forall|k: int| 0 <= k < a.len() && k != i ==> b_new[k] == b_old[k],
        b_old[i] == a[i],
        f == i ==> step(a[i], b_new[i], ts[i], t_new, rs[i], r_new, ok),
        f < i ==> b_new[i] == a[i] && t_new == ts[i] && r_new == rs[i],
    ensures
        ran_in_turn_upto(
            a,
            b_new,
            ts.push(t_new),
            rs.push(r_new),
            if f < i {
                f
            } else if ok {
                i + 1
            } else {
                i
            },
            i + 1,
            step,
        ),
{
    let ts2 = ts.push(t_new);
    let rs2 = rs.push(r_new);
    let f2 = if f < i {
        f
    } else if ok {
        i + 1
    } else {
        i
    };
    assert forall|k: int| #![trigger b_new[k]] 0 <= k < f2 implies step(a[k], b_new[k], ts2[k], ts2[k + 1], rs2[k], rs2[k + 1], true) by {
        if k < i {
            assert(b_new[k] == b_old[k]);
            assert(ts2[k] == ts[k] && ts2[k + 1] == ts[k + 1] && rs2[k] == rs[k] && rs2[k + 1] == rs[k + 1]);
            assert(b_old[k] == b_old[k]);
        }
    }
    if f < i {
        assert(b_new[f] == b_old[f]);
        assert(ts2[f] == ts[f] && ts2[f + 1] == ts[f + 1] && rs2[f] == rs[f] && rs2[f + 1] == rs[f + 1]);
    }
    assert forall|k: int| #![trigger b_new[k]] f2 < k < i + 1 implies b_new[k] == a[k] && ts2[k + 1] == ts2[k]
        && rs2[k + 1] == rs2[k] by {
        if k < i {
            assert(b_new[k] == b_old[k]);
            assert(b_old[k] == b_old[k]);
        }
    }
}

/// The world tick leaves too little room to run system `a` with its conditions from tick `t`.
pub open spec fn no_headroom<E>(a: System<E>, t: int) -> bool {
    a.conditions@.len() >= u64::MAX - 1 || t >= u64::MAX - 1 - a.conditions@.len()
}

/// One system taken in turn: with room on the world tick it ran (its conditions, then its
/// function if they passed), and the step went through; without, it stayed as it was.
pub open spec fn system_step<E, R: SystemRunner<E>>() -> spec_fn(System<E>, System<E>, int, int, R, R, bool) -> bool {
    |a: System<E>, b: System<E>, t0: int, t1: int, r0: R, r1: R, ok: bool|
        if ok {
            !no_headroom(a, t0) && exists|ran: bool| system_ran(a, b, t0, t1, r0, r1, ran)
        } else {
            no_headroom(a, t0) && b == a && t1 == t0 && r1 == r0
        }
}

/// One system's deferred changes applied: its conditions' and then its function's.
pub open spec fn apply_step<E, R: SystemRunner<E>>() -> spec_fn(System<E>, System<E>, int, int, R, R, bool) -> bool {
    |a: System<E>, b: System<E>, t0: int, t1: int, r0: R, r1: R, ok: bool|
        ok && t1 == t0 && system_prepared(a, b, r0, r1, true)
}

/// One batch taken in turn: with `apply` its systems' changes applied; otherwise its systems run
/// in turn, and in a parallel run the runner then waits for the batch.
pub open spec fn batch_step<E, F, R: PhaseRunner<E, F>>(parallel: bool, apply: bool) -> spec_fn(
    Seq<System<E>>,
    Seq<System<E>>,
    int,
    int,
    R,
    R,
    bool,
) -> bool {
    |a: Seq<System<E>>, b: Seq<System<E>>, t0: int, t1: int, r0: R, r1: R, ok: bool|
        if apply {
            ok && t1 == t0 && run_in_turn(a, b, 0, 0, r0, r1, true, apply_step::<E, R>())
        } else {
            exists|rm: R|
                run_in_turn(a, b, t0, t1, r0, rm, ok, system_step::<E, R>()) && (if parallel {
                    rm.finishes_batch(r1)
                } else {
                    r1 == rm
                })
        }
}

/// One layer taken in turn: its batches, in turn.
pub open spec fn layer_step<E, F, R: PhaseRunner<E, F>>(parallel: bool, apply: bool) -> spec_fn(
    LayerView<E>,
    LayerView<E>,
    int,
    int,
    R,
    R,
    bool,
) -> bool {
    |a: LayerView<E>, b: LayerView<E>, t0: int, t1: int, r0: R, r1: R, ok: bool|
        run_in_turn(a.batches, b.batches, t0, t1, r0, r1, ok, batch_step::<E, F, R>(parallel, apply))
}

} // verus!

verus! {

/// Every system whose last run changed got a world tick in `(t0, t1]`: it ran in that span.
pub open spec fn stamped_within<E>(a: Seq<System<E>>, b: Seq<System<E>>, t0: int, t1: int) -> bool {
    &&& a.len() == b.len()
    &&& forall|i: int|
        0 <= i < a.len() && (#[trigger] b[i]).last_run != a[i].last_run ==> t0 < b[i].last_run.0 <= t1
}

/// The systems that ran in `(t0, t1]` ran in the order of the sequence: their last runs increase
/// along it.
pub open spec fn stamped_in_order<E>(a: Seq<System<E>>, b: Seq<System<E>>, t0: int, t1: int) -> bool {
    &&& stamped_within(a, b, t0, t1)
    &&& forall|i: int, j: int|
        #![trigger b[i], b[j]]
        0 <= i < j < a.len() && b[i].last_run != a[i].last_run && b[j].last_run != a[j].last_run
            ==> b[i].last_run.0 < b[j].last_run.0
}

/// The systems of the batches, batch after batch.
pub open spec fn batch_systems<E>(batches: Seq<Seq<System<E>>>) -> Seq<System<E>>
    decreases batches.len(),
{
    if batches.len() == 0 {
        Seq::empty()
    } else {
        batch_systems(batches.drop_last()) + batches.last()
    }
}

/// The systems of the layers, layer after layer.
pub open spec fn layer_systems<E>(layers: Seq<LayerView<E>>) -> Seq<System<E>>
    decreases layers.len(),
{
    if layers.len() == 0 {
        Seq::empty()
    } else {
        layer_systems(layers.drop_last()) + batch_systems(layers.last().batches)
    }
}

proof fn lemma_stamped_concat<E>(
    a1: Seq<System<E>>,
    b1: Seq<System<E>>,
    a2: Seq<System<E>>,
    b2: Seq<System<E>>,
    t0: int,
    t1: int,
    t2: int,
)
    requires
        stamped_in_order(a1, b1, t0, t1),
        stamped_in_order(a2, b2, t1, t2),
        t0 <= t1 <= t2,
    ensures
        stamped_in_order(a1 + a2, b1 + b2, t0, t2),
{
    let a = a1 + a2;
    let b = b1 + b2;
    let n1 = a1.len() as int;
    assert forall|i: int| 0 <= i < a.len() && (#[trigger] b[i]).last_run != a[i].last_run implies t0
        < b[i].last_run.0 <= t2 by {
        if i < n1 {
            assert(b[i] == b1[i] && a[i] == a1[i]);
        } else {
            assert(b[i] == b2[i - n1] && a[i] == a2[i - n1]);
        }
    }
    assert forall|i: int, j: int|
        #![trigger b[i], b[j]]
        0 <= i < j < a.len() && b[i].last_run != a[i].last_run && b[j].last_run != a[j].last_run
            implies b[i].last_run.0 < b[j].last_run.0 by {
        if j < n1 {
            assert(b[i] == b1[i] && a[i] == a1[i] && b[j] == b1[j] && a[j] == a1[j]);
        } else if i >= n1 {
            assert(b[i] == b2[i - n1] && a[i] == a2[i - n1] && b[j] == b2[j - n1] && a[j] == a2[j - n1]);
        } else {
            assert(b[i] == b1[i] && a[i] == a1[i] && b[j] == b2[j - n1] && a[j] == a2[j - n1]);
        }
    }
}

proof fn lemma_stamped_widen<E>(a: Seq<System<E>>, b: Seq<System<E>>, t0: int, t1: int, t2: int)
    requires
        stamped_in_order(a, b, t1, t2),
        t0 <= t1,
    ensures
        stamped_in_order(a, b, t0, t2),
{
}

proof fn lemma_stamped_within_trans<E>(
    a: Seq<System<E>>,
    b: Seq<System<E>>,
    c: Seq<System<E>>,
    t0: int,
    t1: int,
    t2: int,
)
    requires
        stamped_within(a, b, t0, t1),
        stamped_within(b, c, t1, t2),
        t0 <= t1 <= t2,
    ensures
        stamped_within(a, c, t0, t2),
{
    assert forall|i: int| 0 <= i < a.len() && (#[trigger] c[i]).last_run != a[i].last_run implies t0
        < c[i].last_run.0 <= t2 by {
        if c[i].last_run == b[i].last_run {
            assert(b[i].last_run != a[i].last_run);
        }
    }
}

/// No system's last run changed.
pub open spec fn runs_unchanged<E>(a: Seq<System<E>>, b: Seq<System<E>>) -> bool {
    &&& a.len() == b.len()
    &&& forall|i: int| 0 <= i < a.len() ==> (#[trigger] b[i]).last_run == a[i].last_run
}

proof fn lemma_stamped_refl<E>(a: Seq<System<E>>, t: int)
    ensures
        stamped_in_order(a, a, t, t),
{
}

} // verus!

verus! {

/// The systems are the same up to runs.
pub open spec fn systems_kept<E>(a: Seq<System<E>>, b: Seq<System<E>>) -> bool {
    &&& a.len() == b.len()
    &&& forall|j: int| 0 <= j < a.len() ==> system_kept(#[trigger] a[j], b[j])
}

proof fn lemma_system_kept_refl<E>(a: System<E>)
    ensures
        system_kept(a, a),
{
}

proof fn lemma_system_kept_trans<E>(a: System<E>, b: System<E>, c: System<E>)
    requires
        system_kept(a, b),
        system_kept(b, c),
    ensures
        system_kept(a, c),
{
}

/// Runs one system, unless the world tick could overflow during its run.
fn run_system<E, R: SystemRunner<E>>(system: &mut System<E>, world_tick: &mut Tick, runner: &mut R) -> (r:
    Result<(), TickOverflow>)
    ensures
        system_kept(*old(system), *final(system)),
        final(world_tick).0 >= old(world_tick).0,
        r is Err ==> *final(system) == *old(system) && *final(world_tick) == *old(world_tick),
        stamped_in_order(seq![*old(system)], seq![*final(system)], old(world_tick).0 as int, final(world_tick).0 as int),
        r is Err <==> no_headroom(*old(system), old(world_tick).0 as int),
        (system_step::<E, R>())(
            *old(system),
            *final(system),
            old(world_tick).0 as int,
            final(world_tick).0 as int,
            *old(runner),
            *final(runner),
            r is Ok,
        ),
{
    let n = system.conditions.len();
    if n as u64 >= u64::MAX - 1 || world_tick.0 >= u64::MAX - 1 - n as u64 {
        return Err(TickOverflow);
    }
    let ghost old_system = *system;
    let _ran = system.run(world_tick, runner);
    proof {
        assert(system_ran(
            old_system,
            *system,
            old(world_tick).0 as int,
            world_tick.0 as int,
            *old(runner),
            *runner,
            _ran,
        ));
        let k = choose|k: int| {
            &&& conditions_ran(old_system.conditions@, system.conditions@, k, old(world_tick).0 as int)
            &&& _ran ==> k == old_system.conditions@.len() && world_tick.0 == old(world_tick).0 + k + 1
            &&& !_ran ==> k >= 1 && world_tick.0 == old(world_tick).0 + k
        };
        assert forall|i: int| 0 <= i < old_system.conditions@.len() implies same_signature(
            #[trigger] old_system.conditions@[i].function,
            system.conditions@[i].function,
        ) by {
            if i >= k {
                assert(system.conditions@[i] == old_system.conditions@[i]);
            }
        }
    }
    Ok(())
}

/// Runs the systems in order; once one could not run for the tick overflowing, the rest are not
/// run either.
fn run_systems<E, R: SystemRunner<E>>(systems: &mut Vec<System<E>>, world_tick: &mut Tick, runner: &mut R) -> (r:
    Result<(), TickOverflow>)
    ensures
        systems_kept(old(systems)@, final(systems)@),
        final(world_tick).0 >= old(world_tick).0,
        stamped_in_order(old(systems)@, final(systems)@, old(world_tick).0 as int, final(world_tick).0 as int),
        run_in_turn(
            old(systems)@,
            final(systems)@,
            old(world_tick).0 as int,
            final(world_tick).0 as int,
            *old(runner),
            *final(runner),
            r is Ok,
            system_step::<E, R>(),
        ),
{
    let ghost start = old(systems)@;
    let ghost t0 = old(world_tick).0 as int;
    let n = systems.len();
    let mut i: usize = 0;
    let mut failed = false;
    let ghost mut ts: Seq<int> = seq![t0];
    let ghost mut rs: Seq<R> = seq![*runner];
    let ghost mut f: int = 0;
    while i < n
        invariant
            n == start.len(),
            i <= n,
            systems@.len() == n,
            systems_kept(start, systems@),
            world_tick.0 >= old(world_tick).0,
            t0 == old(world_tick).0,
            stamped_in_order(start.take(i as int), systems@.take(i as int), t0, world_tick.0 as int),
            forall|j: int| i <= j < n ==> #[trigger] systems@[j] == start[j],
            ran_in_turn_upto(start, systems@, ts, rs, f, i as int, system_step::<E, R>()),
            failed == (f < i),
            ts[0] == t0,
            rs[0] == *old(runner),
            ts[i as int] == world_tick.0,
            rs[i as int] == *runner,
        decreases n - i,
    {
        let ghost before = systems@;
        let ghost t_before = world_tick.0 as int;
        let ghost mut step_ok = true;
        if !failed {
            let mut system = systems.remove(i);
            let result = run_system(&mut system, world_tick, runner);
            systems.insert(i, system);
            proof {
                step_ok = result is Ok;
            }
            if result.is_err() {
                failed = true;
            }
        }
        proof {
            assert(before[i as int] == start[i as int]);
            lemma_turn_step(
                start,
                before,
                systems@,
                ts,
                rs,
                f,
                i as int,
                system_step::<E, R>(),
                world_tick.0 as int,
                *runner,
                step_ok,
            );
            ts = ts.push(world_tick.0 as int);
            rs = rs.push(*runner);
            if f == i && !step_ok {
            } else if f == i {
                f = i + 1;
            }
            assert forall|j: int| 0 <= j < n implies system_kept(#[trigger] start[j], systems@[j]) by {
                if j == i {
                    lemma_system_kept_trans(start[j], before[j], systems@[j]);
                } else {
                    assert(systems@[j] == before[j]);
                }
            }
            assert(systems@.take(i as int) =~= before.take(i as int));
            assert(start.take(i + 1) =~= start.take(i as int) + seq![start[i as int]]);
            assert(systems@.take(i + 1) =~= systems@.take(i as int) + seq![systems@[i as int]]);
            lemma_stamped_concat(
                start.take(i as int),
                before.take(i as int),
                seq![start[i as int]],
                seq![systems@[i as int]],
                t0,
                t_before,
                world_tick.0 as int,
            );
        }
        i += 1;
    }
    proof {
        assert(start.take(n as int) =~= start);
        assert(systems@.take(n as int) =~= systems@);
        assert(ran_in_turn(start, systems@, ts, rs, f, system_step::<E, R>()));
    }
    if failed {
        Err(TickOverflow)
    } else {
        Ok(())
    }
}

/// Applies deferred changes of the systems, in order.
fn apply_system_list<E, R: SystemRunner<E>>(systems: &mut Vec<System<E>>, runner: &mut R)
    ensures
        systems_kept(old(systems)@, final(systems)@),
        forall|j: int| 0 <= j < old(systems)@.len() ==> (#[trigger] final(systems)@[j]).last_run == old(systems)@[j].last_run,
        run_in_turn(old(systems)@, final(systems)@, 0, 0, *old(runner), *final(runner), true, apply_step::<E, R>()),
{
    let ghost start = old(systems)@;
    let n = systems.len();
    let mut i: usize = 0;
    let ghost mut ts: Seq<int> = seq![0int];
    let ghost mut rs: Seq<R> = seq![*runner];
    while i < n
        invariant
            n == start.len(),
            i <= n,
            systems@.len() == n,
            systems_kept(start, systems@),
            forall|j: int| 0 <= j < n ==> (#[trigger] systems@[j]).last_run == start[j].last_run,
            forall|j: int| i <= j < n ==> #[trigger] systems@[j] == start[j],
            ran_in_turn_upto(start, systems@, ts, rs, i as int, i as int, apply_step::<E, R>()),
            forall|j: int| 0 <= j <= i ==> ts[j] == 0,
            rs[0] == *old(runner),
            rs[i as int] == *runner,
        decreases n - i,
    {
        let ghost before = systems@;
        let mut system = systems.remove(i);
        system.apply(runner);
        systems.insert(i, system);
        proof {
            assert forall|j: int| 0 <= j < n implies system_kept(#[trigger] start[j], systems@[j]) by {
                if j != i {
                    assert(systems@[j] == before[j]);
                }
            }
            assert(before[i as int] == start[i as int]);
            lemma_turn_step(start, before, systems@, ts, rs, i as int, i as int, apply_step::<E, R>(), 0, *runner, true);
            ts = ts.push(0);
            rs = rs.push(*runner);
        }
        i += 1;
    }
    proof {
        assert(ran_in_turn(start, systems@, ts, rs, n as int, apply_step::<E, R>()));
    }
}

/// A layer is the same up to runs of its systems.
pub open spec fn layer_kept<E>(a: LayerView<E>, b: LayerView<E>) -> bool {
    a.label == b.label && a.before == b.before && a.after == b.after && batches_kept(a.batches, b.batches)
}

/// Runs (or, with `apply`, applies) the batches of a layer in order; once the tick would
/// overflow, the rest are not run.
fn run_layer<E, F, R: PhaseRunner<E, F>>(
    layer: &mut Layer<E>,
    world_tick: &mut Tick,
    runner: &mut R,
    parallel: bool,
    apply: bool,
) -> (r: Result<(), TickOverflow>)
    ensures
        layer_kept(old(layer)@, final(layer)@),
        final(world_tick).0 >= old(world_tick).0,
        stamped_in_order(
            batch_systems(old(layer)@.batches),
            batch_systems(final(layer)@.batches),
            old(world_tick).0 as int,
            final(world_tick).0 as int,
        ),
        apply ==> r is Ok,
        apply ==> final(world_tick).0 == old(world_tick).0,
        run_in_turn(
            old(layer)@.batches,
            final(layer)@.batches,
            old(world_tick).0 as int,
            final(world_tick).0 as int,
            *old(runner),
            *final(runner),
            r is Ok,
            batch_step::<E, F, R>(parallel, apply),
        ),
{
    let ghost start = old(layer)@;
    let ghost t0 = old(world_tick).0 as int;
    let n = layer.batches.len();
    let mut i: usize = 0;
    let mut failed = false;
    let ghost mut ts: Seq<int> = seq![t0];
    let ghost mut rs: Seq<R> = seq![*runner];
    let ghost mut f: int = 0;
    while i < n
        invariant
            n == start.batches.len(),
            i <= n,
            layer@.batches.len() == n,
            layer_kept(start, layer@),
            world_tick.0 >= old(world_tick).0,
            t0 == old(world_tick).0,
            apply ==> world_tick.0 == old(world_tick).0,
            apply ==> !failed,
            stamped_in_order(
                batch_systems(start.batches.take(i as int)),
                batch_systems(layer@.batches.take(i as int)),
                t0,
                world_tick.0 as int,
            ),
            forall|k: int| i <= k < n ==> #[trigger] layer@.batches[k] == start.batches[k],
            ran_in_turn_upto(start.batches, layer@.batches, ts, rs, f, i as int, batch_step::<E, F, R>(parallel, apply)),
            failed == (f < i),
            ts[0] == t0,
            rs[0] == *old(runner),
            ts[i as int] == world_tick.0,
            rs[i as int] == *runner,
        decreases n - i,
    {
        let ghost before = layer@;
        let ghost t_before = world_tick.0 as int;
        let ghost r_before = *runner;
        let ghost mut step_ok = true;
        let mut batch = layer.batches.remove(i);
        let ghost bs = batch.systems@;
        if apply {
            apply_system_list(&mut batch.systems, runner);
        } else if !failed {
            let result = run_systems(&mut batch.systems, world_tick, runner);
            let ghost r_mid = *runner;
            if parallel {
                runner.finish_batch();
            }
            proof {
                step_ok = result is Ok;
                assert(run_in_turn(bs, batch.systems@, t_before, world_tick.0 as int, r_before, r_mid, step_ok, system_step::<E, R>()));
                assert(if parallel { r_mid.finishes_batch(*runner) } else { *runner == r_mid });
            }
            if result.is_err() {
                failed = true;
            }
        }
        layer.batches.insert(i, batch);
        proof {
            assert(before.batches[i as int] == start.batches[i as int]);
            assert(layer@.batches[i as int] == batch.systems@);
            lemma_turn_step(
                start.batches,
                before.batches,
                layer@.batches,
                ts,
                rs,
                f,
                i as int,
                batch_step::<E, F, R>(parallel, apply),
                world_tick.0 as int,
                *runner,
                step_ok,
            );
            ts = ts.push(world_tick.0 as int);
            rs = rs.push(*runner);
            if f == i && !step_ok {
            } else if f == i {
                f = i + 1;
            }
            assert forall|k: int| 0 <= k < n implies (#[trigger] start.batches[k]).len() == layer@.batches[k].len()
                && forall|j: int| 0 <= j < start.batches[k].len() ==> system_kept(#[trigger] start.batches[k][j], layer@.batches[k][j]) by {
                if k == i {
                    assert forall|j: int| 0 <= j < start.batches[k].len() implies system_kept(#[trigger] start.batches[k][j], layer@.batches[k][j]) by {
                        lemma_system_kept_trans(start.batches[k][j], bs[j], layer@.batches[k][j]);
                    }
                } else {
                    assert(layer@.batches[k] == before.batches[k]);
                }
            }
            assert(bs == start.batches[i as int]);
            assert(layer@.batches[i as int] == batch.systems@);
            assert(stamped_in_order(bs, batch.systems@, t_before, world_tick.0 as int));
            assert(layer@.batches.take(i as int) =~= before.batches.take(i as int));
            assert(start.batches.take(i + 1).drop_last() =~= start.batches.take(i as int));
            assert(layer@.batches.take(i + 1).drop_last() =~= layer@.batches.take(i as int));
            lemma_stamped_concat(
                batch_systems(start.batches.take(i as int)),
                batch_systems(before.batches.take(i as int)),
                bs,
                batch.systems@,
                t0,
                t_before,
                world_tick.0 as int,
            );
        }
        i += 1;
    }
    proof {
        assert(start.batches.take(n as int) =~= start.batches);
        assert(layer@.batches.take(n as int) =~= layer@.batches);
        assert(ran_in_turn(start.batches, layer@.batches, ts, rs, f, batch_step::<E, F, R>(parallel, apply)));
    }
    if failed {
        Err(TickOverflow)
    } else {
        Ok(())
    }
}

/// Runs (or applies) every layer in order.
fn run_layers<E, F, R: PhaseRunner<E, F>>(
    layers: &mut Vec<Layer<E>>,
    world_tick: &mut Tick,
    runner: &mut R,
    parallel: bool,
    apply: bool,
) -> (r: Result<(), TickOverflow>)
    ensures
        super::phase::layer_views(old(layers)@).len() == super::phase::layer_views(final(layers)@).len(),
        layers_kept(super::phase::layer_views(old(layers)@), super::phase::layer_views(final(layers)@)),
        final(world_tick).0 >= old(world_tick).0,
        stamped_in_order(
            layer_systems(super::phase::layer_views(old(layers)@)),
            layer_systems(super::phase::layer_views(final(layers)@)),
            old(world_tick).0 as int,
            final(world_tick).0 as int,
        ),
        apply ==> r is Ok,
        apply ==> final(world_tick).0 == old(world_tick).0,
        run_in_turn(
            super::phase::layer_views(old(layers)@),
            super::phase::layer_views(final(layers)@),
            old(world_tick).0 as int,
            final(world_tick).0 as int,
            *old(runner),
            *final(runner),
            r is Ok,
            layer_step::<E, F, R>(parallel, apply),
        ),
{
    let ghost start = super::phase::layer_views(old(layers)@);
    let ghost t0 = old(world_tick).0 as int;
    let n = layers.len();
    let mut i: usize = 0;
    let mut failed = false;
    let ghost mut ts: Seq<int> = seq![t0];
    let ghost mut rs: Seq<R> = seq![*runner];
    let ghost mut f: int = 0;
    while i < n
        invariant
            n == start.len(),
            i <= n,
            layers@.len() == n,
            layers_kept(start, super::phase::layer_views(layers@)),
            world_tick.0 >= old(world_tick).0,
            t0 == old(world_tick).0,
            apply ==> !failed,
            apply ==> world_tick.0 == old(world_tick).0,
            stamped_in_order(
                layer_systems(start.take(i as int)),
                layer_systems(super::phase::layer_views(layers@).take(i as int)),
                t0,
                world_tick.0 as int,
            ),
            forall|k: int| i <= k < n ==> #[trigger] super::phase::layer_views(layers@)[k] == start[k],
            ran_in_turn_upto(start, super::phase::layer_views(layers@), ts, rs, f, i as int, layer_step::<E, F, R>(parallel, apply)),
            failed == (f < i),
            ts[0] == t0,
            rs[0] == *old(runner),
            ts[i as int] == world_tick.0,
            rs[i as int] == *runner,
        decreases n - i,
    {
        let ghost before = super::phase::layer_views(layers@);
        let ghost t_before = world_tick.0 as int;
        let ghost mut step_ok = true;
        let mut layer = layers.remove(i);
        let ghost lv = layer@;
        if !failed {
            let result = run_layer::<E, F, R>(&mut layer, world_tick, runner, parallel, apply);
            proof {
                step_ok = result is Ok;
            }
            if result.is_err() {
                failed = true;
            }
        }
        layers.insert(i, layer);
        let ghost after = super::phase::layer_views(layers@);
        proof {
            assert(before[i as int] == start[i as int]);
            assert(after[i as int] == layer@);
            assert(forall|k: int| 0 <= k < n && k != i ==> after[k] == before[k]);
            lemma_turn_step(
                start,
                before,
                after,
                ts,
                rs,
                f,
                i as int,
                layer_step::<E, F, R>(parallel, apply),
                world_tick.0 as int,
                *runner,
                step_ok,
            );
            ts = ts.push(world_tick.0 as int);
            rs = rs.push(*runner);
            if f == i && !step_ok {
            } else if f == i {
                f = i + 1;
            }
            assert forall|k: int| 0 <= k < n implies (#[trigger] start[k]).label == after[k].label && start[k].before
                == after[k].before && start[k].after == after[k].after && batches_kept(start[k].batches, after[k].batches) by {
                if k == i {
                    assert(after[k] == layer@);
                    assert forall|b: int| 0 <= b < start[k].batches.len() implies (#[trigger] start[k].batches[b]).len() == after[k].batches[b].len()
                        && forall|j: int| 0 <= j < start[k].batches[b].len() ==> system_kept(#[trigger] start[k].batches[b][j], after[k].batches[b][j]) by {
                        assert forall|j: int| 0 <= j < start[k].batches[b].len() implies system_kept(#[trigger] start[k].batches[b][j], after[k].batches[b][j]) by {
                            lemma_system_kept_trans(start[k].batches[b][j], lv.batches[b][j], after[k].batches[b][j]);
                        }
                    }
                } else {
                    assert(after[k] == before[k]);
                }
            }
            assert(lv == start[i as int]);
            assert(after[i as int] == layer@);
            assert(after.take(i as int) =~= before.take(i as int));
            assert(start.take(i + 1).drop_last() =~= start.take(i as int));
            assert(after.take(i + 1).drop_last() =~= after.take(i as int));
            lemma_stamped_concat(
                layer_systems(start.take(i as int)),
                layer_systems(before.take(i as int)),
                batch_systems(lv.batches),
                batch_systems(layer@.batches),
                t0,
                t_before,
                world_tick.0 as int,
            );
        }
        i += 1;
    }
    proof {
        assert(start.take(n as int) =~= start);
        assert(super::phase::layer_views(layers@).take(n as int) =~= super::phase::layer_views(layers@));
        assert(ran_in_turn(start, super::phase::layer_views(layers@), ts, rs, f, layer_step::<E, F, R>(parallel, apply)));
    }
    if failed {
        Err(TickOverflow)
    } else {
        Ok(())
    }
}

} // verus!

verus! {

/// A finite policy with no iterations left: such a phase cannot run.
pub open spec fn exhausted<E, F>(p: PhaseExecutionPolicy<E, F>) -> bool {
    p == PhaseExecutionPolicy::<E, F>::Finite(0)
}

/// Passes `0..m` over a phase's layers: pass `k` ran the layers `ls[k]` into `ls[k + 1]`, the
/// world tick going from `ts[k]` to `ts[k + 1]` and the runner from `rs[k]` to `rs[k + 1]`. Every
/// pass went through but, when `!ok`, the last, which stopped for the tick.
pub open spec fn passes_through<E, F, R: PhaseRunner<E, F>>(
    ls: Seq<Seq<LayerView<E>>>,
    ts: Seq<int>,
    rs: Seq<R>,
    m: int,
    parallel: bool,
    ok: bool,
) -> bool {
    &&& 0 <= m
    &&& ls.len() == m + 1
    &&& ts.len() == m + 1
    &&& rs.len() == m + 1
    &&& forall|k: int|
        #![trigger ls[k + 1]]
        0 <= k < m ==> run_in_turn(
            ls[k],
            ls[k + 1],
            ts[k],
            ts[k + 1],
            rs[k],
            rs[k + 1],
            ok || k < m - 1,
            layer_step::<E, F, R>(parallel, false),
        )
}

/// The layers `l0` were run `n` times in turn (in parallel batches or not), then their deferred
/// changes were applied and the runner flushed the queued commands, taking them to `l1`, the
/// tick from `t0` to `t1` and the runner from `r0` to `r1`. When a pass stopped for the tick
/// (`!ok`), nothing after it was done.
pub open spec fn passes_done<E, F, R: PhaseRunner<E, F>>(
    l0: Seq<LayerView<E>>,
    l1: Seq<LayerView<E>>,
    t0: int,
    t1: int,
    r0: R,
    r1: R,
    n: int,
    parallel: bool,
    ok: bool,
) -> bool {
    exists|ls: Seq<Seq<LayerView<E>>>, ts: Seq<int>, rs: Seq<R>, m: int|
        #[trigger] passes_through::<E, F, R>(ls, ts, rs, m, parallel, ok) && ls[0] == l0 && ts[0] == t0 && rs[0]
            == r0 && t1 == ts[m] && (if ok {
            m == n && exists|ra: R|
                run_in_turn(ls[m], l1, 0, 0, rs[m], ra, true, layer_step::<E, F, R>(false, true))
                    && ra.flushes(r1)
        } else {
            1 <= m <= n && l1 == ls[m] && r1 == rs[m]
        })
}

/// One execution of phase `a` that made it `b`, took the world tick from `t0` to `t1` and the
/// runner from `r0` to `r1`; `ok` is false when it stopped for the tick. The policy decides how
/// often the layers run: once for a normal or finite policy; as many times as the runner finds
/// due for a fixed timestep; for a custom policy the condition runs first (if the tick has room)
/// and the layers run once only if it passes.
pub open spec fn phase_executed<E, F, R: PhaseRunner<E, F>>(
    a: PhaseView<E, F>,
    b: PhaseView<E, F>,
    t0: int,
    t1: int,
    r0: R,
    r1: R,
    ok: bool,
) -> bool {
    let parallel = a.execution_type == PhaseExecutionType::Parallel;
    match a.execution_policy {
        PhaseExecutionPolicy::FixedTimestep(clock) => exists|rq: R, n: usize|
            r0.due(clock, rq, b.execution_policy->FixedTimestep_0, n) && passes_done::<E, F, R>(
                a.layers,
                b.layers,
                t0,
                t1,
                rq,
                r1,
                n as int,
                parallel,
                ok,
            ),
        PhaseExecutionPolicy::Custom(c) => if t0 >= u64::MAX {
            !ok && b == a && t1 == t0 && r1 == r0
        } else {
            exists|rc: R, v: bool|
                {
                    &&& #[trigger] r0.runs(
                        c.function.body,
                        c.function.params_info@,
                        c.function.exec_info,
                        c.last_run,
                        Tick((t0 + 1) as u64),
                        rc,
                        b.execution_policy->Custom_0.function.body,
                        v,
                    )
                    &&& b.execution_policy->Custom_0.last_run.0 == t0 + 1
                    &&& if v {
                        passes_done::<E, F, R>(a.layers, b.layers, t0 + 1, t1, rc, r1, 1, parallel, ok)
                    } else {
                        ok && b.layers == a.layers && t1 == t0 + 1 && r1 == rc
                    }
                }
        },
        _ => passes_done::<E, F, R>(a.layers, b.layers, t0, t1, r0, r1, 1, parallel, ok),
    }
}

/// In a run of passes that went through, the last thing the runner did was flush the queued
/// commands, and it did so after the apply pass: some apply pass took the layers the passes left
/// to `l1` and the runner to `ra`, and flushing took `ra` to the final runner `r1`.
pub proof fn lemma_passes_flush_after_apply<E, F, R: PhaseRunner<E, F>>(
    l0: Seq<LayerView<E>>,
    l1: Seq<LayerView<E>>,
    t0: int,
    t1: int,
    r0: R,
    r1: R,
    n: int,
    parallel: bool,
)
    requires
        passes_done::<E, F, R>(l0, l1, t0, t1, r0, r1, n, parallel, true),
    ensures
        exists|lp: Seq<LayerView<E>>, rp: R, ra: R|
            #[trigger] run_in_turn(lp, l1, 0, 0, rp, ra, true, layer_step::<E, F, R>(false, true)) && ra.flushes(r1),
{
    let (ls, ts, rs, m) = choose|ls: Seq<Seq<LayerView<E>>>, ts: Seq<int>, rs: Seq<R>, m: int|
        #[trigger] passes_through::<E, F, R>(ls, ts, rs, m, parallel, true) && ls[0] == l0 && ts[0] == t0 && rs[0]
            == r0 && t1 == ts[m] && (m == n && exists|ra: R|
            run_in_turn(ls[m], l1, 0, 0, rs[m], ra, true, layer_step::<E, F, R>(false, true)) && ra.flushes(r1));
    let ra = choose|ra: R| run_in_turn(ls[m], l1, 0, 0, rs[m], ra, true, layer_step::<E, F, R>(false, true)) && ra.flushes(r1);
    assert(run_in_turn(ls[m], l1, 0, 0, rs[m], ra, true, layer_step::<E, F, R>(false, true)) && ra.flushes(r1));
}

/// A phase execution that went through ends with the flush of queued commands, taken after the
/// systems' deferred changes were applied (the apply pass took the runner to some `ra`, and
/// flushing took `ra` to the final runner), unless a custom condition turned the phase down and
/// its layers were left alone.
pub proof fn lemma_phase_flushes_after_apply<E, F, R: PhaseRunner<E, F>>(
    a: PhaseView<E, F>,
    b: PhaseView<E, F>,
    t0: int,
    t1: int,
    r0: R,
    r1: R,
)
    requires
        phase_executed::<E, F, R>(a, b, t0, t1, r0, r1, true),
    ensures
        (exists|lp: Seq<LayerView<E>>, rp: R, ra: R|
            #[trigger] run_in_turn(lp, b.layers, 0, 0, rp, ra, true, layer_step::<E, F, R>(false, true))
                && ra.flushes(r1)) || (a.execution_policy is Custom && b.layers == a.layers),
{
    let parallel = a.execution_type == PhaseExecutionType::Parallel;
    match a.execution_policy {
        PhaseExecutionPolicy::FixedTimestep(clock) => {
            let (rq, n) = choose|rq: R, n: usize|
                r0.due(clock, rq, b.execution_policy->FixedTimestep_0, n) && passes_done::<E, F, R>(
                    a.layers,
                    b.layers,
                    t0,
                    t1,
                    rq,
                    r1,
                    n as int,
                    parallel,
                    true,
                );
            lemma_passes_flush_after_apply::<E, F, R>(a.layers, b.layers, t0, t1, rq, r1, n as int, parallel);
        },
        PhaseExecutionPolicy::Custom(c) => {
            if t0 < u64::MAX {
                let (rc, v) = choose|rc: R, v: bool|
                    {
                        &&& #[trigger] r0.runs(
                            c.function.body,
                            c.function.params_info@,
                            c.function.exec_info,
                            c.last_run,
                            Tick((t0 + 1) as u64),
                            rc,
                            b.execution_policy->Custom_0.function.body,
                            v,
                        )
                        &&& b.execution_policy->Custom_0.last_run.0 == t0 + 1
                        &&& if v {
                            passes_done::<E, F, R>(a.layers, b.layers, t0 + 1, t1, rc, r1, 1, parallel, true)
                        } else {
                            b.layers == a.layers && t1 == t0 + 1 && r1 == rc
                        }
                    };
                if v {
                    lemma_passes_flush_after_apply::<E, F, R>(a.layers, b.layers, t0 + 1, t1, rc, r1, 1, parallel);
                }
            }
        },
        _ => {
            lemma_passes_flush_after_apply::<E, F, R>(a.layers, b.layers, t0, t1, r0, r1, 1, parallel);
        },
    }
}

/// One phase taken in turn by a pipeline run: it was executed as `phase_executed` says.
pub open spec fn phase_step<E, F, R: PhaseRunner<E, F>>() -> spec_fn(
    PhaseView<E, F>,
    PhaseView<E, F>,
    int,
    int,
    R,
    R,
    bool,
) -> bool {
    |a: PhaseView<E, F>, b: PhaseView<E, F>, t0: int, t1: int, r0: R, r1: R, ok: bool|
        phase_executed::<E, F, R>(a, b, t0, t1, r0, r1, ok)
}

impl<E, F> Phase<E, F> {
    /// Execute this phase: the policy decides whether and how often its systems run; then the
    /// systems' deferred changes are applied and queued commands are flushed.
    ///
    /// A finite policy uses up one iteration, and when none is left the phase's removal is
    /// queued. A fixed timestep runs the systems as many times as the clock says are due. A
    /// custom condition that fails skips the phase, apply and flush included.
    pub fn execute<R: PhaseRunner<E, F>>(
        &mut self,
        world_tick: &mut Tick,
        runner: &mut R,
        pending_changes: &mut SchedulerChanges<E, F>,
    ) -> (r: Result<(), TickOverflow>)
        requires
            !exhausted(old(self).execution_policy),
        ensures
            phase_kept(old(self)@, final(self)@),
            policy_step(old(self).execution_policy, final(self).execution_policy),
            final(self).label == old(self).label,
            final(pending_changes).changes@ == (if old(self).execution_policy
                == PhaseExecutionPolicy::<E, F>::Finite(1) {
                old(pending_changes).changes@.push(SchedulerChange::PhaseRemove(old(self).label))
            } else {
                old(pending_changes).changes@
            }),
            final(world_tick).0 >= old(world_tick).0,
            stamped_within(
                layer_systems(old(self)@.layers),
                layer_systems(final(self)@.layers),
                old(world_tick).0 as int,
                final(world_tick).0 as int,
            ),
            !(old(self).execution_policy is FixedTimestep) ==> stamped_in_order(
                layer_systems(old(self)@.layers),
                layer_systems(final(self)@.layers),
                old(world_tick).0 as int,
                final(world_tick).0 as int,
            ),
            phase_executed::<E, F, R>(
                old(self)@,
                final(self)@,
                old(world_tick).0 as int,
                final(world_tick).0 as int,
                *old(runner),
                *final(runner),
                r is Ok,
            ),
    {
        let ghost start = self@;
        let ghost t0 = world_tick.0 as int;
        let ghost sys0 = layer_systems(start.layers);
        let mut iterations: usize = 1;
        if self.execution_policy.is_normal() {
            // Normal execution, run every frame
        } else if let Some(remaining) = self.execution_policy.decrement_finite() {
            if remaining == 0 {
                pending_changes.phase_remove(self.label);
            }
        } else if let Some(timestep) = self.execution_policy.get_fixed_timestep() {
            iterations = runner.fixed_iterations(timestep);
        } else if let Some(condition) = self.execution_policy.get_custom() {
            if world_tick.0 == u64::MAX {
                assert(self@ =~= start);
                return Err(TickOverflow);
            }
            let ghost c0 = *condition;
            let passed = condition.run(world_tick, runner);
            proof {
                assert(*world_tick == Tick((t0 + 1) as u64));
                assert(old(runner).runs(
                    c0.function.body,
                    c0.function.params_info@,
                    c0.function.exec_info,
                    c0.last_run,
                    Tick((t0 + 1) as u64),
                    *runner,
                    condition.function.body,
                    passed,
                ));
            }
            let ghost c1 = *condition;
            if !passed {
                assert(self@.layers == start.layers);
                proof {
                    assert(self.execution_policy == PhaseExecutionPolicy::<E, F>::Custom(c1));
                    assert(old(runner).runs(
                        c0.function.body,
                        c0.function.params_info@,
                        c0.function.exec_info,
                        c0.last_run,
                        Tick((t0 + 1) as u64),
                        *runner,
                        self.execution_policy->Custom_0.function.body,
                        false,
                    ));
                }
                return Ok(());
            }
        }
        assert(self@.layers == start.layers);
        let ghost pol = self.execution_policy;
        let ghost tq = world_tick.0 as int;
        let ghost rq = *runner;
        let ghost mut ls: Seq<Seq<LayerView<E>>> = seq![start.layers];
        let ghost mut ts: Seq<int> = seq![tq];
        let ghost mut rs: Seq<R> = seq![rq];
        let ghost mut m: int = 0;
        let parallel = match self.execution_type {
            PhaseExecutionType::Sequential => false,
            PhaseExecutionType::Parallel => true,
        };
        let mut n: usize = 0;
        let mut failed = false;
        while n < iterations
            invariant
                n <= iterations,
                layers_kept(start.layers, self@.layers),
                self@.label == start.label,
                self@.before == start.before,
                self@.after == start.after,
                self.execution_type == start.execution_type,
                parallel == (self.execution_type == PhaseExecutionType::Parallel),
                policy_step(old(self).execution_policy, self.execution_policy),
                world_tick.0 >= old(world_tick).0,
                self.label == old(self).label,
                t0 == old(world_tick).0,
                sys0 == layer_systems(start.layers),
                !(old(self).execution_policy is FixedTimestep) ==> iterations == 1,
                n == 0 ==> self@.layers == start.layers,
                stamped_within(sys0, layer_systems(self@.layers), t0, world_tick.0 as int),
                iterations == 1 ==> stamped_in_order(sys0, layer_systems(self@.layers), t0, world_tick.0 as int),
                self.execution_policy == pol,
                passes_through::<E, F, R>(ls, ts, rs, m, parallel, !failed),
                ls[0] == start.layers,
                ts[0] == tq,
                rs[0] == rq,
                ls[m] == self@.layers,
                ts[m] == world_tick.0,
                rs[m] == *runner,
                !failed ==> m == n,
                failed ==> 1 <= m <= iterations && n == iterations,
            decreases iterations - n,
        {
            let ghost before = self@.layers;
            let ghost t_before = world_tick.0 as int;
            let ghost r_before = *runner;
            let result = if parallel {
                self.execute_parallel(world_tick, runner)
            } else {
                self.execute_sequential(world_tick, runner)
            };
            proof {
                lemma_layers_kept_trans(start.layers, before, self@.layers);
                lemma_stamped_within_trans(
                    sys0,
                    layer_systems(before),
                    layer_systems(self@.layers),
                    t0,
                    t_before,
                    world_tick.0 as int,
                );
                if iterations == 1 {
                    lemma_stamped_widen(sys0, layer_systems(self@.layers), t0, t_before, world_tick.0 as int);
                }
            }
            proof {
                let ls2 = ls.push(self@.layers);
                let ts2 = ts.push(world_tick.0 as int);
                let rs2 = rs.push(*runner);
                assert forall|k: int| #![trigger ls2[k + 1]] 0 <= k < m + 1 implies run_in_turn(
                    ls2[k],
                    ls2[k + 1],
                    ts2[k],
                    ts2[k + 1],
                    rs2[k],
                    rs2[k + 1],
                    result is Ok || k < m,
                    layer_step::<E, F, R>(parallel, false),
                ) by {
                    if k < m {
                        assert(ls2[k] == ls[k] && ls2[k + 1] == ls[k + 1]);
                        assert(ts2[k] == ts[k] && ts2[k + 1] == ts[k + 1] && rs2[k] == rs[k] && rs2[k + 1] == rs[k + 1]);
                    }
                }
                ls = ls2;
                ts = ts2;
                rs = rs2;
                m = m + 1;
            }
            if result.is_err() {
                failed = true;
                n = iterations;
            } else {
                n += 1;
            }
        }
        proof {
            match old(self).execution_policy {
                PhaseExecutionPolicy::FixedTimestep(clock) => {
                    assert(old(runner).due(clock, rq, self.execution_policy->FixedTimestep_0, iterations));
                },
                PhaseExecutionPolicy::Custom(c) => {
                    assert(tq == t0 + 1);
                    assert(old(runner).runs(
                        c.function.body,
                        c.function.params_info@,
                        c.function.exec_info,
                        c.last_run,
                        Tick((t0 + 1) as u64),
                        rq,
                        self.execution_policy->Custom_0.function.body,
                        true,
                    ));
                },
                _ => {
                    assert(tq == t0 && rq == *old(runner));
                },
            }
        }
        if failed {
            proof {
                assert(passes_done::<E, F, R>(start.layers, self@.layers, tq, world_tick.0 as int, rq, *runner, iterations as int, parallel, false));
            }
            return Err(TickOverflow);
        }
        let ghost before = self@.layers;
        self.apply_systems(runner);
        let ghost ra = *runner;
        proof {
            lemma_layers_kept_trans(start.layers, before, self@.layers);
            let mid = layer_systems(before);
            let fin = layer_systems(self@.layers);
            assert forall|i: int| 0 <= i < sys0.len() && (#[trigger] fin[i]).last_run != sys0[i].last_run
                implies t0 < fin[i].last_run.0 <= world_tick.0 by {
                assert(fin[i].last_run == mid[i].last_run);
            }
            assert forall|i: int, j: int|
                #![trigger fin[i], fin[j]]
                0 <= i < j < sys0.len() && fin[i].last_run != sys0[i].last_run && fin[j].last_run != sys0[j].last_run
                    && iterations == 1 implies fin[i].last_run.0 < fin[j].last_run.0 by {
                assert(fin[i].last_run == mid[i].last_run);
                assert(fin[j].last_run == mid[j].last_run);
            }
        }
        runner.flush_commands();
        proof {
            assert(passes_done::<E, F, R>(start.layers, self@.layers, tq, world_tick.0 as int, rq, *runner, iterations as int, parallel, true));
        }
        Ok(())
    }

    /// Execute systems in this phase one after another
    fn execute_sequential<R: PhaseRunner<E, F>>(&mut self, world_tick: &mut Tick, runner: &mut R) -> (r:
        Result<(), TickOverflow>)
        ensures
            layers_kept(old(self)@.layers, final(self)@.layers),
            final(self).label == old(self).label,
            final(self).before == old(self).before,
            final(self).after == old(self).after,
            final(self).execution_type == old(self).execution_type,
            final(self).execution_policy == old(self).execution_policy,
            final(world_tick).0 >= old(world_tick).0,
            stamped_in_order(
                layer_systems(old(self)@.layers),
                layer_systems(final(self)@.layers),
                old(world_tick).0 as int,
                final(world_tick).0 as int,
            ),
            run_in_turn(
                old(self)@.layers,
                final(self)@.layers,
                old(world_tick).0 as int,
                final(world_tick).0 as int,
                *old(runner),
                *final(runner),
                r is Ok,
                layer_step::<E, F, R>(false, false),
            ),
    {
        run_layers::<E, F, R>(&mut self.layers, world_tick, runner, false, false)
    }

    /// Execute systems batch by batch; the runner may run the systems of a batch concurrently
    /// and waits for them when the batch is done
    fn execute_parallel<R: PhaseRunner<E, F>>(&mut self, world_tick: &mut Tick, runner: &mut R) -> (r:
        Result<(), TickOverflow>)
        ensures
            layers_kept(old(self)@.layers, final(self)@.layers),
            final(self).label == old(self).label,
            final(self).before == old(self).before,
            final(self).after == old(self).after,
            final(self).execution_type == old(self).execution_type,
            final(self).execution_policy == old(self).execution_policy,
            final(world_tick).0 >= old(world_tick).0,
            stamped_in_order(
                layer_systems(old(self)@.layers),
                layer_systems(final(self)@.layers),
                old(world_tick).0 as int,
                final(world_tick).0 as int,
            ),
            run_in_turn(
                old(self)@.layers,
                final(self)@.layers,
                old(world_tick).0 as int,
                final(world_tick).0 as int,
                *old(runner),
                *final(runner),
                r is Ok,
                layer_step::<E, F, R>(true, false),
            ),
    {
        run_layers::<E, F, R>(&mut self.layers, world_tick, runner, true, false)
    }

    /// Apply all systems' deferred changes, layer by layer
    fn apply_systems<R: PhaseRunner<E, F>>(&mut self, runner: &mut R)
        ensures
            layers_kept(old(self)@.layers, final(self)@.layers),
            final(self).label == old(self).label,
            final(self).before == old(self).before,
            final(self).after == old(self).after,
            final(self).execution_type == old(self).execution_type,
            final(self).execution_policy == old(self).execution_policy,
            runs_unchanged(layer_systems(old(self)@.layers), layer_systems(final(self)@.layers)),
            run_in_turn(
                old(self)@.layers,
                final(self)@.layers,
                0,
                0,
                *old(runner),
                *final(runner),
                true,
                layer_step::<E, F, R>(false, true),
            ),
    {
        let mut tick = Tick::new();
        let _ = run_layers::<E, F, R>(&mut self.layers, &mut tick, runner, false, true);
    }
}

proof fn lemma_layers_kept_trans<E>(a: Seq<LayerView<E>>, b: Seq<LayerView<E>>, c: Seq<LayerView<E>>)
    requires
        layers_kept(a, b),
        layers_kept(b, c),
    ensures
        layers_kept(a, c),
{
    assert forall|i: int| 0 <= i < a.len() implies (#[trigger] a[i]).label == c[i].label && a[i].before
        == c[i].before && a[i].after == c[i].after && batches_kept(a[i].batches, c[i].batches) by {
        assert(batches_kept(a[i].batches, b[i].batches));
        assert(batches_kept(b[i].batches, c[i].batches));
        assert forall|k: int| 0 <= k < a[i].batches.len() implies (#[trigger] a[i].batches[k]).len() == c[i].batches[k].len()
            && forall|j: int| 0 <= j < a[i].batches[k].len() ==> system_kept(#[trigger] a[i].batches[k][j], c[i].batches[k][j]) by {
            assert forall|j: int| 0 <= j < a[i].batches[k].len() implies system_kept(#[trigger] a[i].batches[k][j], c[i].batches[k][j]) by {
                lemma_system_kept_trans(a[i].batches[k][j], b[i].batches[k][j], c[i].batches[k][j]);
            }
        }
    }
}

} // verus!

verus! {

/// The labels of the phases that a run leaves without iterations, in order.
pub open spec fn finishing_phases<E, F>(s: Seq<PhaseView<E, F>>) -> Seq<Seq<char>>
    decreases s.len(),
{
    if s.len() == 0 {
        Seq::empty()
    } else {
        let rest = finishing_phases(s.drop_last());
        if s.last().execution_policy == PhaseExecutionPolicy::<E, F>::Finite(1) {
            rest.push(s.last().label)
        } else {
            rest
        }
    }
}

/// The queued changes remove exactly the phases `labels`, in order.
pub open spec fn removes_phases<E, F>(changes: Seq<SchedulerChange<E, F>>, labels: Seq<Seq<char>>) -> bool {
    &&& changes.len() == labels.len()
    &&& forall|i: int|
        0 <= i < changes.len() ==> (#[trigger] changes[i]) is PhaseRemove && changes[i]->PhaseRemove_0@ == labels[i]
}

/// A run took phase `a` to `b` within the ticks `(t0, t1]`: each of its systems that ran did so
/// in that span, and, unless the phase runs on a fixed timestep (and so may pass over its systems
/// several times), they ran in the order of its layers and batches.
pub open spec fn phase_ran_within<E, F>(a: PhaseView<E, F>, b: PhaseView<E, F>, t0: int, t1: int) -> bool {
    &&& stamped_within(layer_systems(a.layers), layer_systems(b.layers), t0, t1)
    &&& !(a.execution_policy is FixedTimestep) ==> stamped_in_order(
        layer_systems(a.layers),
        layer_systems(b.layers),
        t0,
        t1,
    )
}

/// The phases ran one after another within `(t0, t1]`: there are ticks `t0 = ts[0] <= ts[1] <= ...
/// <= ts[n] = t1` such that phase `k` ran within `(ts[k], ts[k + 1]]`.
pub open spec fn phases_ran_in_order<E, F>(a: Seq<PhaseView<E, F>>, b: Seq<PhaseView<E, F>>, t0: int, t1: int) -> bool {
    exists|ts: Seq<int>| #[trigger] phases_ran_at(a, b, ts, t0, t1)
}

/// Phase `k` ran within `(ts[k], ts[k + 1]]`, the ticks rising from `t0` to `t1`.
pub open spec fn phases_ran_at<E, F>(a: Seq<PhaseView<E, F>>, b: Seq<PhaseView<E, F>>, ts: Seq<int>, t0: int, t1: int) -> bool {
    &&& ts.len() == a.len() + 1
    &&& ts[0] == t0
    &&& ts[a.len() as int] == t1
    &&& forall|k: int| 0 <= k < a.len() ==> #[trigger] ticks_rise(ts, k)
    &&& forall|k: int| 0 <= k < a.len() ==> #[trigger] phase_ran_within(a[k], b[k], ts[k], ts[k + 1])
}

/// The tick after step `k` is not below the one before it.
pub open spec fn ticks_rise(ts: Seq<int>, k: int) -> bool {
    ts[k] <= ts[k + 1]
}

/// Every phase is executable.
pub open spec fn none_exhausted<E, F>(s: Seq<PhaseView<E, F>>) -> bool {
    forall|i: int| 0 <= i < s.len() ==> !exhausted(#[trigger] s[i].execution_policy)
}

/// The phases are the same up to runs of their systems and their policies' progress.
pub open spec fn phases_ran<E, F>(a: Seq<PhaseView<E, F>>, b: Seq<PhaseView<E, F>>) -> bool {
    &&& a.len() == b.len()
    &&& forall|i: int|
        0 <= i < a.len() ==> phase_kept(#[trigger] a[i], b[i]) && policy_step(
            a[i].execution_policy,
            b[i].execution_policy,
        )
}

/// The phases are the same up to runs of their systems.
pub open spec fn phases_kept<E, F>(a: Seq<PhaseView<E, F>>, b: Seq<PhaseView<E, F>>) -> bool {
    &&& a.len() == b.len()
    &&& forall|i: int| 0 <= i < a.len() ==> phase_kept(#[trigger] a[i], b[i])
}

proof fn lemma_phase_kept_refl<E, F>(a: PhaseView<E, F>)
    ensures
        phase_kept(a, a),
{
    assert forall|i: int| 0 <= i < a.layers.len() implies batches_kept((#[trigger] a.layers[i]).batches, a.layers[i].batches) by {
        let b = a.layers[i].batches;
        assert forall|k: int| 0 <= k < b.len() implies (#[trigger] b[k]).len() == b[k].len() && forall|j: int|
            0 <= j < b[k].len() ==> system_kept(#[trigger] b[k][j], b[k][j]) by {
            assert forall|j: int| 0 <= j < b[k].len() implies system_kept(#[trigger] b[k][j], b[k][j]) by {
                lemma_system_kept_refl(b[k][j]);
            }
        }
    }
}

/// Running phases keeps a well formed scheduler well formed.
pub proof fn lemma_phases_ran_wf<E, F>(a: Seq<PhaseView<E, F>>, b: Seq<PhaseView<E, F>>)
    requires
        scheduler_wf(a),
        phases_kept(a, b),
    ensures
        scheduler_wf(b),
{
    assert(phase_labels(a) =~= phase_labels(b));
    assert forall|i: int| 0 <= i < b.len() implies phase_wf(#[trigger] b[i]) by {
        lemma_phase_kept_wf(a[i], b[i]);
    }
}

impl<E, F> Scheduler<E, F> {
    /// Execute the full scheduler pipeline: pending changes are applied, then every phase runs
    /// in order. Once the world tick would overflow, the remaining phases do not run.
    pub fn execute_pipeline<R: PhaseRunner<E, F>>(&mut self, world_tick: &mut Tick, runner: &mut R) -> (r:
        Result<(), TickOverflow>)
        requires
            run_changes(old(self)@, old(self).pending_changes.changes@) is Some,
            none_exhausted(run_changes(old(self)@, old(self).pending_changes.changes@).unwrap()),
        ensures
            ({
                let mid = run_changes(old(self)@, old(self).pending_changes.changes@).unwrap();
                &&& phases_kept(mid, final(self)@)
                &&& r is Ok ==> phases_ran(mid, final(self)@)
                &&& r is Ok ==> removes_phases(final(self).pending_changes.changes@, finishing_phases(mid))
                &&& scheduler_wf(mid) ==> scheduler_wf(final(self)@)
                &&& phases_ran_in_order(mid, final(self)@, old(world_tick).0 as int, final(world_tick).0 as int)
                &&& run_in_turn(
                    mid,
                    final(self)@,
                    old(world_tick).0 as int,
                    final(world_tick).0 as int,
                    *old(runner),
                    *final(runner),
                    r is Ok,
                    phase_step::<E, F, R>(),
                )
            }),
            final(world_tick).0 >= old(world_tick).0,
    {
        self.apply_changes();
        let ghost mid = self@;
        let ghost t0 = world_tick.0 as int;
        let ghost mut ts: Seq<int> = seq![t0];
        let ghost mut rs: Seq<R> = seq![*runner];
        let ghost mut f: int = 0;
        proof {
            assert forall|k: int| 0 <= k < mid.len() implies phase_kept(#[trigger] mid[k], mid[k]) by {
                lemma_phase_kept_refl(mid[k]);
            }
        }
        let n = self.phases.len();
        let mut i: usize = 0;
        let mut failed = false;
        while i < n
            invariant
                n == mid.len(),
                i <= n,
                self@.len() == n,
                forall|k: int| 0 <= k < n ==> phase_kept(#[trigger] mid[k], self@[k]),
                !failed ==> forall|k: int| 0 <= k < i ==> policy_step(#[trigger] mid[k].execution_policy, self@[k].execution_policy),
                forall|k: int| i <= k < n ==> #[trigger] self@[k] == mid[k],
                !failed ==> removes_phases(self.pending_changes.changes@, finishing_phases(mid.take(i as int))),
                none_exhausted(mid),
                world_tick.0 >= old(world_tick).0,
                t0 == old(world_tick).0,
                ts.len() == i + 1,
                ts[0] == t0,
                ts[i as int] == world_tick.0,
                forall|k: int| 0 <= k < i ==> #[trigger] ticks_rise(ts, k),
                forall|k: int| 0 <= k < i ==> #[trigger] phase_ran_within(mid[k], self@[k], ts[k], ts[k + 1]),
                ran_in_turn_upto(mid, self@, ts, rs, f, i as int, phase_step::<E, F, R>()),
                failed == (f < i),
                rs[0] == *old(runner),
                rs[i as int] == *runner,
            decreases n - i,
        {
            let ghost before = self@;
            let ghost mut step_ok = true;
            let ghost queued = self.pending_changes.changes@;
            let ghost t_before = world_tick.0 as int;
            if !failed {
                let mut phase = self.phases.remove(i);
                assert(phase@ == mid[i as int]);
                let result = phase.execute(world_tick, runner, &mut self.pending_changes);
                self.phases.insert(i, phase);
                proof {
                    step_ok = result is Ok;
                }
                if result.is_err() {
                    failed = true;
                }
            }
            proof {
                assert(before[i as int] == mid[i as int]);
                assert(forall|k: int| 0 <= k < n && k != i ==> self@[k] == before[k]);
                lemma_turn_step(
                    mid,
                    before,
                    self@,
                    ts,
                    rs,
                    f,
                    i as int,
                    phase_step::<E, F, R>(),
                    world_tick.0 as int,
                    *runner,
                    step_ok,
                );
                rs = rs.push(*runner);
                if f == i && step_ok {
                    f = i + 1;
                }
                let old_ts = ts;
                ts = ts.push(world_tick.0 as int);
                assert forall|k: int| 0 <= k < n implies phase_kept(#[trigger] mid[k], self@[k]) by {
                    if k != i {
                        assert(self@[k] == before[k]);
                    }
                }
                assert forall|k: int| 0 <= k < i + 1 && !failed implies policy_step(#[trigger] mid[k].execution_policy, self@[k].execution_policy) by {
                    if k != i {
                        assert(self@[k] == before[k]);
                    }
                }
                assert forall|k: int| 0 <= k < i + 1 implies #[trigger] ticks_rise(ts, k) by {
                    if k != i {
                        assert(ts[k] == old_ts[k] && ts[k + 1] == old_ts[k + 1]);
                        assert(ticks_rise(old_ts, k));
                    }
                }
                assert forall|k: int| 0 <= k < i + 1 implies #[trigger] phase_ran_within(mid[k], self@[k], ts[k], ts[k + 1]) by {
                    if k != i {
                        assert(self@[k] == before[k]);
                        assert(ts[k] == old_ts[k] && ts[k + 1] == old_ts[k + 1]);
                        assert(phase_ran_within(mid[k], before[k], old_ts[k], old_ts[k + 1]));
                    } else {
                        assert(ts[k] == t_before && ts[k + 1] == world_tick.0);
                        lemma_stamped_refl(layer_systems(mid[k].layers), t_before);
                    }
                }
                assert(mid.take(i + 1).drop_last() =~= mid.take(i as int));
                let f = finishing_phases(mid.take(i + 1));
                if !failed {
                    assert forall|k: int| 0 <= k < self.pending_changes.changes@.len() implies
                        (#[trigger] self.pending_changes.changes@[k]) is PhaseRemove
                        && self.pending_changes.changes@[k]->PhaseRemove_0@ == f[k] by {
                        if k < queued.len() {
                            assert(self.pending_changes.changes@[k] == queued[k]);
                        }
                    }
                }
            }
            i += 1;
        }
        proof {
            assert(mid.take(n as int) =~= mid);
            if scheduler_wf(mid) {
                lemma_phases_ran_wf(mid, self@);
            }
            assert(phases_ran_at(mid, self@, ts, t0, world_tick.0 as int));
            assert(ran_in_turn(mid, self@, ts, rs, f, phase_step::<E, F, R>()));
        }
        if failed {
            Err(TickOverflow)
        } else {
            Ok(())
        }
    }

    /// Execute a specific phase in the scheduler, after applying pending changes
    pub fn execute_phase<R: PhaseRunner<E, F>>(&mut self, world_tick: &mut Tick, runner: &mut R, phase: &'static str) -> (r:
        Result<(), TickOverflow>)
        requires
            run_changes(old(self)@, old(self).pending_changes.changes@) is Some,
            none_exhausted(run_changes(old(self)@, old(self).pending_changes.changes@).unwrap()),
            position(
                phase_labels(run_changes(old(self)@, old(self).pending_changes.changes@).unwrap()),
                phase@,
            ) is Some,
        ensures
            ({
                let mid = run_changes(old(self)@, old(self).pending_changes.changes@).unwrap();
                let i = position(phase_labels(mid), phase@).unwrap();
                &&& final(self)@.len() == mid.len()
                &&& phase_kept(mid[i], final(self)@[i])
                &&& policy_step(mid[i].execution_policy, final(self)@[i].execution_policy)
                &&& phase_ran_within(mid[i], final(self)@[i], old(world_tick).0 as int, final(world_tick).0 as int)
                &&& forall|k: int| 0 <= k < mid.len() && k != i ==> #[trigger] final(self)@[k] == mid[k]
                &&& final(self).pending_changes.changes@.len() == (if mid[i].execution_policy
                    == PhaseExecutionPolicy::<E, F>::Finite(1) {
                    1int
                } else {
                    0int
                })
                &&& mid[i].execution_policy == PhaseExecutionPolicy::<E, F>::Finite(1) ==> {
                    &&& final(self).pending_changes.changes@[0] is PhaseRemove
                    &&& final(self).pending_changes.changes@[0]->PhaseRemove_0@ == phase@
                }
                &&& phase_executed::<E, F, R>(
                    mid[i],
                    final(self)@[i],
                    old(world_tick).0 as int,
                    final(world_tick).0 as int,
                    *old(runner),
                    *final(runner),
                    r is Ok,
                )
            }),
            final(world_tick).0 >= old(world_tick).0,
    {
        self.apply_changes();
        let ghost mid = self@;
        if let Some(index) = self.find_phase(phase) {
            let mut p = self.phases.remove(index);
            proof {
                lemma_position_bound(phase_labels(mid), phase@);
                assert(phase_labels(mid)[index as int] == phase@);
                assert(p@.label == phase@);
            }
            let result = p.execute(world_tick, runner, &mut self.pending_changes);
            self.phases.insert(index, p);
            assert forall|k: int| 0 <= k < mid.len() && k != index implies #[trigger] self@[k] == mid[k] by {}
            result
        } else {
            Ok(())
        }
    }
}


proof fn lemma_ticks_monotone(ts: Seq<int>, n: int, p: int, q: int)
    requires
        forall|k: int| 0 <= k < n ==> #[trigger] ticks_rise(ts, k),
        0 <= p <= q <= n,
    ensures
        ts[p] <= ts[q],
    decreases q - p,
{
    if p < q {
        lemma_ticks_monotone(ts, n, p, q - 1);
        assert(ticks_rise(ts, q - 1));
    }
}

/// Phases run one after another: a system of an earlier phase that ran in a pipeline run did so
/// before every system of a later phase that ran in it.
pub proof fn lemma_earlier_phase_ran_first<E, F>(
    a: Seq<PhaseView<E, F>>,
    b: Seq<PhaseView<E, F>>,
    t0: int,
    t1: int,
    k: int,
    l: int,
    x: int,
    y: int,
)
    requires
        phases_ran_in_order(a, b, t0, t1),
        0 <= k < l < a.len(),
        0 <= x < layer_systems(a[k].layers).len(),
        0 <= y < layer_systems(a[l].layers).len(),
        layer_systems(b[k].layers)[x].last_run != layer_systems(a[k].layers)[x].last_run,
        layer_systems(b[l].layers)[y].last_run != layer_systems(a[l].layers)[y].last_run,
    ensures
        layer_systems(b[k].layers)[x].last_run.0 < layer_systems(b[l].layers)[y].last_run.0,
{
    let ts = choose|ts: Seq<int>| #[trigger] phases_ran_at(a, b, ts, t0, t1);
    assert(phase_ran_within(a[k], b[k], ts[k], ts[k + 1]));
    assert(phase_ran_within(a[l], b[l], ts[l], ts[l + 1]));
    lemma_ticks_monotone(ts, a.len() as int, k + 1, l);
}


/// Every element of `t` is an element of `s` whose label is not among `labels`.
pub open spec fn kept_outside<E, F>(t: Seq<PhaseView<E, F>>, s: Seq<PhaseView<E, F>>, labels: Seq<Seq<char>>) -> bool {
    forall|k: int| 0 <= k < t.len() ==> s.contains(#[trigger] t[k]) && !labels.contains(t[k].label)
}

proof fn lemma_removals<E, F>(s: Seq<PhaseView<E, F>>, changes: Seq<SchedulerChange<E, F>>, labels: Seq<Seq<char>>)
    requires
        distinct(phase_labels(s)),
        distinct(labels),
        forall|k: int| 0 <= k < labels.len() ==> phase_labels(s).contains(#[trigger] labels[k]),
        removes_phases(changes, labels),
    ensures
        run_changes(s, changes) is Some,
        kept_outside(run_changes(s, changes).unwrap(), s, labels),
    decreases changes.len(),
{
    if changes.len() == 0 {
        assert(labels.len() == 0);
        assert forall|k: int| 0 <= k < s.len() implies s.contains(#[trigger] s[k]) && !labels.contains(s[k].label) by {
            assert(s[k] == s[k]);
        }
    } else {
        let l0 = labels[0];
        let sl = phase_labels(s);
        assert(sl.contains(l0));
        lemma_position_bound(sl, l0);
        let i0 = position(sl, l0).unwrap();
        assert(changes[0] is PhaseRemove && changes[0]->PhaseRemove_0@ == l0);
        let s2 = s.remove(i0);
        assert(change_result(s, changes[0]) == Some(s2));
        assert(phase_labels(s2) =~= sl.remove(i0));
        lemma_distinct_remove(sl, i0);
        lemma_position_bound(phase_labels(s2), l0);
        let rest = labels.drop_first();
        let cs = changes.drop_first();
        assert(distinct(rest)) by {
            assert forall|a: int, b: int| 0 <= a < rest.len() && 0 <= b < rest.len() && a != b implies rest[a] != rest[b] by {
                assert(rest[a] == labels[a + 1] && rest[b] == labels[b + 1]);
            }
        }
        assert forall|k: int| 0 <= k < rest.len() implies phase_labels(s2).contains(#[trigger] rest[k]) by {
            assert(rest[k] == labels[k + 1]);
            assert(labels[k + 1] != labels[0]);
            assert(sl.contains(labels[k + 1]));
            let m = choose|m: int| 0 <= m < sl.len() && sl[m] == labels[k + 1];
            assert(m != i0);
            if m < i0 {
                assert(phase_labels(s2)[m] == sl[m]);
            } else {
                assert(phase_labels(s2)[m - 1] == sl[m]);
            }
        }
        assert(removes_phases(cs, rest)) by {
            assert forall|k: int| 0 <= k < cs.len() implies (#[trigger] cs[k]) is PhaseRemove && cs[k]->PhaseRemove_0@ == rest[k] by {
                assert(cs[k] == changes[k + 1]);
                assert(rest[k] == labels[k + 1]);
            }
        }
        lemma_removals(s2, cs, rest);
        let t = run_changes(s2, cs).unwrap();
        assert(run_changes(s, changes) == run_changes(s2, cs));
        assert forall|k: int| 0 <= k < t.len() implies s.contains(#[trigger] t[k]) && !labels.contains(t[k].label) by {
            assert(s2.contains(t[k]));
            let j = choose|j: int| 0 <= j < s2.len() && s2[j] == t[k];
            let i = if j < i0 { j } else { j + 1 };
            assert(s[i] == s2[j]);
            assert(phase_labels(s2)[j] == s2[j].label);
            assert(s2[j].label != l0);
            assert(!rest.contains(t[k].label));
            assert forall|q: int| 0 <= q < labels.len() implies labels[q] != t[k].label by {
                if q > 0 {
                    assert(rest[q - 1] == labels[q]);
                }
            }
        }
    }
}

proof fn lemma_finishing<E, F>(mid: Seq<PhaseView<E, F>>)
    ensures
        forall|k: int| 0 <= k < finishing_phases(mid).len() ==> phase_labels(mid).contains(#[trigger] finishing_phases(mid)[k]),
        forall|i: int|
            0 <= i < mid.len() && mid[i].execution_policy == PhaseExecutionPolicy::<E, F>::Finite(1)
                ==> finishing_phases(mid).contains(#[trigger] mid[i].label),
        distinct(phase_labels(mid)) ==> distinct(finishing_phases(mid)),
    decreases mid.len(),
{
    if mid.len() > 0 {
        let prev = mid.drop_last();
        lemma_finishing(prev);
        let f0 = finishing_phases(prev);
        let f = finishing_phases(mid);
        let last = mid.len() - 1;
        let ml = phase_labels(mid);
        let pl = phase_labels(prev);
        assert(mid.last() == mid[last]);
        assert forall|i: int| 0 <= i < prev.len() implies #[trigger] pl[i] == ml[i] by {
            assert(prev[i] == mid[i]);
        }
        assert forall|k: int| 0 <= k < f.len() implies ml.contains(#[trigger] f[k]) by {
            if k < f0.len() {
                assert(f[k] == f0[k]);
                assert(pl.contains(f0[k]));
                let i = choose|i: int| 0 <= i < pl.len() && pl[i] == f0[k];
                assert(ml[i] == pl[i]);
            } else {
                assert(mid[last].execution_policy == PhaseExecutionPolicy::<E, F>::Finite(1));
                assert(f[k] == mid[last].label);
                assert(ml[last] == mid[last].label);
            }
        }
        assert forall|i: int|
            0 <= i < mid.len() && mid[i].execution_policy == PhaseExecutionPolicy::<E, F>::Finite(1)
                implies f.contains(#[trigger] mid[i].label) by {
            if i < last {
                assert(prev[i] == mid[i]);
                assert(f0.contains(prev[i].label));
                let k = choose|k: int| 0 <= k < f0.len() && f0[k] == prev[i].label;
                assert(f[k] == f0[k]);
            } else {
                assert(f[f.len() - 1] == mid[last].label);
            }
        }
        if distinct(ml) {
            assert(distinct(pl)) by {
                assert forall|a: int, b: int| 0 <= a < pl.len() && 0 <= b < pl.len() && a != b
                    implies pl[a] != pl[b] by {
                    assert(pl[a] == ml[a]);
                    assert(pl[b] == ml[b]);
                }
            }
            if mid[last].execution_policy == PhaseExecutionPolicy::<E, F>::Finite(1) {
                assert forall|a: int, b: int| 0 <= a < f.len() && 0 <= b < f.len() && a != b implies f[a] != f[b] by {
                    if a < f0.len() && b < f0.len() {
                        assert(f[a] == f0[a] && f[b] == f0[b]);
                    } else {
                        let x = if a < f0.len() { a } else { b };
                        assert(f[x] == f0[x]);
                        assert(pl.contains(f0[x]));
                        let i = choose|i: int| 0 <= i < pl.len() && pl[i] == f0[x];
                        assert(ml[i] == pl[i]);
                        assert(ml[last] == mid[last].label);
                    }
                }
            }
        }
    }
}

/// The phases that run a finite number of times run exactly that often: after a pipeline run,
/// the removals it queued apply and take out exactly the phases that used up their iterations,
/// leaving a well formed scheduler in which every phase can run, so the pipeline can run again.
pub proof fn lemma_pipeline_runs_again<E, F>(
    mid: Seq<PhaseView<E, F>>,
    fin: Seq<PhaseView<E, F>>,
    changes: Seq<SchedulerChange<E, F>>,
)
    requires
        scheduler_wf(mid),
        none_exhausted(mid),
        phases_ran(mid, fin),
        removes_phases(changes, finishing_phases(mid)),
    ensures
        run_changes(fin, changes) is Some,
        scheduler_wf(run_changes(fin, changes).unwrap()),
        none_exhausted(run_changes(fin, changes).unwrap()),
{
    let f = finishing_phases(mid);
    lemma_finishing(mid);
    assert(phases_kept(mid, fin));
    lemma_phases_ran_wf(mid, fin);
    assert(phase_labels(fin) =~= phase_labels(mid));
    assert forall|k: int| 0 <= k < f.len() implies phase_labels(fin).contains(#[trigger] f[k]) by {
        assert(phase_labels(mid).contains(f[k]));
    }
    lemma_removals(fin, changes, f);
    lemma_run_changes_keeps_wf(fin, changes);
    let t = run_changes(fin, changes).unwrap();
    assert forall|k: int| 0 <= k < t.len() implies !exhausted(#[trigger] t[k].execution_policy) by {
        assert(fin.contains(t[k]));
        let i = choose|i: int| 0 <= i < fin.len() && fin[i] == t[k];
        assert(!exhausted(mid[i].execution_policy));
        assert(policy_step(mid[i].execution_policy, fin[i].execution_policy));
        if exhausted(fin[i].execution_policy) {
            assert(mid[i].execution_policy == PhaseExecutionPolicy::<E, F>::Finite(1));
            assert(f.contains(mid[i].label));
        }
    }
}

} // verus!

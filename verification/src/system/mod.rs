//! System descriptions and the bookkeeping around running them.
//!
//! A system's function itself is opaque to the library: it is carried as a payload `E` and
//! executed through a [`SystemRunner`], which is where the world lives. The library owns the
//! tick accounting, the run-condition protocol and the parameter access information.
pub mod params;
pub mod conflict;
pub mod into;
pub mod commands;
pub mod handler;
pub mod label;
pub mod order;
pub mod phase;
pub mod scheduler;
pub mod execute;
pub mod graph;

use vstd::prelude::*;
use crate::tick::Tick;
use params::{ParamInfo, TypeInfo};

verus! {

/// Executes system payloads against the world.
///
/// This is the boundary to the world: the library decides what runs and when, the runner does
/// the running.
/// Each runner says, by its own spec functions, what running, initialising and applying a
/// function does to it and to the function's payload; the library's contracts speak of runs in
/// those terms. A runner that does not define them promises nothing of its runs.
pub trait SystemRunner<E>: Sized {
    /// One run of the function identified by `info`, with parameters `params`, whose payload is
    /// `body`, last run at `last_run`, run at `world_tick`: the runner goes from `self` to
    /// `next`, the payload becomes `body_after`, and `verdict` is the result.
    closed spec fn runs(
        &self,
        body: E,
        params: Seq<ParamInfo>,
        info: TypeInfo,
        last_run: Tick,
        world_tick: Tick,
        next: Self,
        body_after: E,
        verdict: bool,
    ) -> bool {
        true
    }

    /// One parameter initialisation of the function, as for `runs`.
    closed spec fn inits(&self, body: E, params: Seq<ParamInfo>, info: TypeInfo, last_run: Tick, next: Self, body_after: E) -> bool {
        true
    }

    /// One application of the function's deferred parameter changes, as for `runs`.
    closed spec fn applies(&self, body: E, params: Seq<ParamInfo>, info: TypeInfo, last_run: Tick, next: Self, body_after: E) -> bool {
        true
    }

    /// Runs a system or condition function. The result is the condition's verdict; for plain
    /// systems it is ignored. `world_tick` is the world tick at the time of the run.
    fn execute(&mut self, body: &mut E, context: SystemContext<'_>, world_tick: Tick) -> (r: bool)
        ensures
            old(self).runs(
                *old(body),
                context.params_info@,
                *context.exec_info,
                *context.last_run,
                world_tick,
                *final(self),
                *final(body),
                r,
            ),
    ;

    /// Runs the function's parameter initialisation.
    fn init(&mut self, body: &mut E, context: SystemContext<'_>)
        ensures
            old(self).inits(*old(body), context.params_info@, *context.exec_info, *context.last_run, *final(self), *final(body)),
    ;

    /// Applies deferred parameter changes (such as queued commands) to the world.
    fn apply(&mut self, body: &mut E, context: SystemContext<'_>)
        ensures
            old(self).applies(*old(body), context.params_info@, *context.exec_info, *context.last_run, *final(self), *final(body)),
    ;
}

/// Per-system data passed to systems during execution.
/// Stores things like last run tick, system name, profiling info, etc.
pub struct SystemContext<'a> {
    pub last_run: &'a Tick,
    pub params_info: &'a [ParamInfo],
    pub exec_info: &'a TypeInfo,
}

impl<'a> SystemContext<'a> {
    /// Create new system context
    pub fn new(last_run: &'a Tick, params_info: &'a [ParamInfo], exec_info: &'a TypeInfo) -> (r:
        Self)
        ensures
            *r.last_run == *last_run,
            r.params_info@ == params_info@,
            *r.exec_info == *exec_info,
    {
        Self { last_run, params_info, exec_info }
    }
}

/// A system function with its type information.
pub struct SystemExec<E> {
    /// Function's parameters info
    pub params_info: Vec<ParamInfo>,
    /// Function's type info
    pub exec_info: TypeInfo,
    /// The function itself (with its parameter states)
    pub body: E,
}

/// The parts of a system function that the library reads: everything but the payload.
pub open spec fn same_signature<E>(a: SystemExec<E>, b: SystemExec<E>) -> bool {
    a.params_info@ == b.params_info@ && a.exec_info == b.exec_info
}

impl<E> SystemExec<E> {
    /// Create a new system execution from function `body` and its type information
    pub fn new(params_info: Vec<ParamInfo>, exec_info: TypeInfo, body: E) -> (r: Self)
        ensures
            r.params_info@ == params_info@,
            r.exec_info == exec_info,
            r.body == body,
    {
        Self { params_info, exec_info, body }
    }

    /// Execute the system function
    pub fn run<R: SystemRunner<E>>(&mut self, runner: &mut R, last_run: &Tick, world_tick: Tick) -> (r: bool)
        ensures
            same_signature(*final(self), *old(self)),
            old(runner).runs(
                old(self).body,
                old(self).params_info@,
                old(self).exec_info,
                *last_run,
                world_tick,
                *final(runner),
                final(self).body,
                r,
            ),
    {
        let context = SystemContext::new(last_run, self.params_info.as_slice(), &self.exec_info);
        runner.execute(&mut self.body, context, world_tick)
    }

    /// Execute the system's init function
    pub fn init<R: SystemRunner<E>>(&mut self, runner: &mut R, last_run: &Tick)
        ensures
            same_signature(*final(self), *old(self)),
            old(runner).inits(old(self).body, old(self).params_info@, old(self).exec_info, *last_run, *final(runner), final(self).body),
    {
        let context = SystemContext::new(last_run, self.params_info.as_slice(), &self.exec_info);
        runner.init(&mut self.body, context);
    }

    /// Execute the system's apply function
    pub fn apply<R: SystemRunner<E>>(&mut self, runner: &mut R, last_run: &Tick)
        ensures
            same_signature(*final(self), *old(self)),
            old(runner).applies(old(self).body, old(self).params_info@, old(self).exec_info, *last_run, *final(runner), final(self).body),
    {
        let context = SystemContext::new(last_run, self.params_info.as_slice(), &self.exec_info);
        runner.apply(&mut self.body, context);
    }
}

} // verus!

verus! {

/// A condition to be checked before running a [`System`]
pub struct SystemCondition<E> {
    /// Tick of the last run, or `0`
    pub last_run: Tick,
    /// Condition execution
    pub function: SystemExec<E>,
}

/// Conditions `new` are `old` after the first `k` of them ran, the i-th at world tick
/// `start + i + 1`; the others are untouched.
pub open spec fn conditions_ran<E>(
    old: Seq<SystemCondition<E>>,
    new: Seq<SystemCondition<E>>,
    k: int,
    start: int,
) -> bool {
    &&& new.len() == old.len()
    &&& 0 <= k <= old.len()
    &&& forall|i: int|
        #![trigger new[i]]
        0 <= i < k ==> new[i].last_run.0 == start + i + 1 && same_signature(
            new[i].function,
            old[i].function,
        )
    &&& forall|i: int| #![trigger new[i]] k <= i < old.len() ==> new[i] == old[i]
}

/// Conditions `0..k` of `a` ran in order, as `conditions_ran` says, the runner going through the
/// states `rs`; all of them passed, except that the verdict of the last one is `last`.
pub open spec fn conditions_ran_through<E, R: SystemRunner<E>>(
    a: Seq<SystemCondition<E>>,
    b: Seq<SystemCondition<E>>,
    k: int,
    t0: int,
    rs: Seq<R>,
    last: bool,
) -> bool {
    &&& conditions_ran(a, b, k, t0)
    &&& rs.len() == k + 1
    &&& forall|i: int|
        #![trigger b[i]]
        0 <= i < k ==> rs[i].runs(
            a[i].function.body,
            a[i].function.params_info@,
            a[i].function.exec_info,
            a[i].last_run,
            b[i].last_run,
            rs[i + 1],
            b[i].function.body,
            if i == k - 1 {
                last
            } else {
                true
            },
        )
}

/// A run of system `a` that made it `b`, took the world tick from `t0` to `t1` and the runner
/// from `r0` to `r1`, with `k` conditions run through the runner states `rs`: when the system ran
/// (`ran`), all its conditions passed and then its function ran at the next tick, which became
/// its last run; otherwise the `k`-th condition failed and the function was left alone.
pub open spec fn ran_through<E, R: SystemRunner<E>>(
    a: System<E>,
    b: System<E>,
    t0: int,
    t1: int,
    r0: R,
    r1: R,
    ran: bool,
    k: int,
    rs: Seq<R>,
) -> bool {
    &&& conditions_ran_through(a.conditions@, b.conditions@, k, t0, rs, ran)
    &&& rs[0] == r0
    &&& ran ==> {
        &&& k == a.conditions@.len()
        &&& t1 == t0 + k + 1
        &&& b.last_run.0 == t1
        &&& same_signature(b.function, a.function)
        &&& exists|v: bool|
            rs[k].runs(a.function.body, a.function.params_info@, a.function.exec_info, a.last_run, b.last_run, r1, b.function.body, v)
    }
    &&& !ran ==> {
        &&& k >= 1
        &&& t1 == t0 + k
        &&& r1 == rs[k]
        &&& b.function == a.function
        &&& b.last_run == a.last_run
    }
}

/// System `a` became `b` by one run as `ran_through` describes, for some conditions and runner
/// states.
pub open spec fn system_ran<E, R: SystemRunner<E>>(
    a: System<E>,
    b: System<E>,
    t0: int,
    t1: int,
    r0: R,
    r1: R,
    ran: bool,
) -> bool {
    exists|k: int, rs: Seq<R>| #[trigger] ran_through(a, b, t0, t1, r0, r1, ran, k, rs)
}

/// One initialisation (or, with `apply`, one application) of the function `f`, last run at
/// `last_run`: the runner goes from `r` to `next` and the payload becomes `body_after`.
pub open spec fn prepares<E, R: SystemRunner<E>>(
    r: R,
    f: SystemExec<E>,
    last_run: Tick,
    next: R,
    body_after: E,
    apply: bool,
) -> bool {
    if apply {
        r.applies(f.body, f.params_info@, f.exec_info, last_run, next, body_after)
    } else {
        r.inits(f.body, f.params_info@, f.exec_info, last_run, next, body_after)
    }
}

/// The conditions of `a` in order, and then its function, were initialised (or, with `apply`,
/// applied), the runner going through the states `rs`; `b` is `a` after that.
pub open spec fn prepared_through<E, R: SystemRunner<E>>(a: System<E>, b: System<E>, rs: Seq<R>, apply: bool) -> bool {
    let n = a.conditions@.len() as int;
    &&& rs.len() == n + 2
    &&& b.conditions@.len() == n
    &&& forall|i: int|
        #![trigger b.conditions@[i]]
        0 <= i < n ==> prepares(
            rs[i],
            a.conditions@[i].function,
            a.conditions@[i].last_run,
            rs[i + 1],
            b.conditions@[i].function.body,
            apply,
        )
    &&& prepares(rs[n], a.function, a.last_run, rs[n + 1], b.function.body, apply)
}

/// The runner went from `r0` to `r1` initialising (or, with `apply`, applying) the conditions of
/// `a` in order and then its function.
pub open spec fn system_prepared<E, R: SystemRunner<E>>(a: System<E>, b: System<E>, r0: R, r1: R, apply: bool) -> bool {
    exists|rs: Seq<R>|
        #[trigger] prepared_through(a, b, rs, apply) && rs[0] == r0 && rs[rs.len() - 1] == r1
}

/// Conditions `new` have the same signatures as `old` (payloads may differ).
pub open spec fn conditions_same_signatures<E>(
    old: Seq<SystemCondition<E>>,
    new: Seq<SystemCondition<E>>,
) -> bool {
    &&& new.len() == old.len()
    &&& forall|i: int|
        #![trigger new[i]]
        0 <= i < old.len() ==> new[i].last_run == old[i].last_run && same_signature(
            new[i].function,
            old[i].function,
        )
}

impl<E> SystemCondition<E> {
    /// A condition that has never run.
    pub fn new(function: SystemExec<E>) -> (r: Self)
        ensures
            r.last_run.0 == 0,
            r.function == function,
    {
        Self { last_run: Tick::default(), function }
    }

    /// Returns function's type name
    pub fn name(&self) -> (r: &'static str)
        ensures
            r == self.function.exec_info.name,
    {
        self.function.exec_info.name
    }

    /// Returns function's type id
    pub fn type_id(&self) -> (r: u64)
        ensures
            r == self.function.exec_info.id,
    {
        self.function.exec_info.id
    }

    /// Execute the condition function: the world tick advances first, the condition runs, and
    /// its last run becomes the advanced tick.
    pub fn run<R: SystemRunner<E>>(&mut self, world_tick: &mut Tick, runner: &mut R) -> (r: bool)
        requires
            old(world_tick).0 < u64::MAX,
        ensures
            final(world_tick).0 == old(world_tick).0 + 1,
            final(self).last_run == *final(world_tick),
            same_signature(final(self).function, old(self).function),
            old(runner).runs(
                old(self).function.body,
                old(self).function.params_info@,
                old(self).function.exec_info,
                old(self).last_run,
                *final(world_tick),
                *final(runner),
                final(self).function.body,
                r,
            ),
    {
        world_tick.tick();
        let result = self.function.run(runner, &self.last_run, *world_tick);
        self.last_run = *world_tick;
        result
    }

    /// Initializes the condition.
    pub fn init<R: SystemRunner<E>>(&mut self, runner: &mut R)
        ensures
            final(self).last_run == old(self).last_run,
            same_signature(final(self).function, old(self).function),
            prepares(*old(runner), old(self).function, old(self).last_run, *final(runner), final(self).function.body, false),
    {
        self.function.init(runner, &self.last_run);
    }

    /// Applies any changes to the world needed after condition execution by system parameters.
    pub fn apply<R: SystemRunner<E>>(&mut self, runner: &mut R)
        ensures
            final(self).last_run == old(self).last_run,
            same_signature(final(self).function, old(self).function),
            prepares(*old(runner), old(self).function, old(self).last_run, *final(runner), final(self).function.body, true),
    {
        self.function.apply(runner, &self.last_run);
    }
}

/// A system to be executed in the ECS world
pub struct System<E> {
    /// Tick of the last run, or `0`
    pub last_run: Tick,
    /// System execution
    pub function: SystemExec<E>,
    /// Run conditions
    pub conditions: Vec<SystemCondition<E>>,
}

impl<E> System<E> {
    /// A system that has never run and has no run conditions.
    pub fn new(function: SystemExec<E>) -> (r: Self)
        ensures
            r.last_run.0 == 0,
            r.function == function,
            r.conditions@ == Seq::<SystemCondition<E>>::empty(),
    {
        Self { last_run: Tick::default(), function, conditions: Vec::new() }
    }

    /// Adds a run condition, checked after the existing ones.
    fn internal_run_if(self, condition: SystemCondition<E>) -> (r: System<E>)
        ensures
            r.last_run == self.last_run,
            r.function == self.function,
            r.conditions@ == self.conditions@.push(condition),
    {
        let mut system = self;
        system.conditions.push(condition);
        system
    }

    /// Returns tick of the last run
    pub fn last_run(&self) -> (r: Tick)
        ensures
            r == self.last_run,
    {
        self.last_run
    }

    /// Returns function's type name
    pub fn name(&self) -> (r: &'static str)
        ensures
            r == self.function.exec_info.name,
    {
        self.function.exec_info.name
    }

    /// Execute system if all conditions are met.
    ///
    /// Conditions run in order and stop at the first that fails; each run advances the world
    /// tick. If all pass, the world tick advances once more, the system runs, and its last run
    /// becomes that tick, so that `last_run` is never behind the world tick it saw.
    pub fn run<R: SystemRunner<E>>(&mut self, world_tick: &mut Tick, runner: &mut R) -> (ran:
        bool)
        requires
            old(world_tick).0 + old(self).conditions@.len() < u64::MAX,
        ensures
            exists|k: int|
                {
                    &&& conditions_ran(
                        old(self).conditions@,
                        final(self).conditions@,
                        k,
                        old(world_tick).0 as int,
                    )
                    &&& ran ==> k == old(self).conditions@.len() && final(world_tick).0 == old(
                        world_tick,
                    ).0 + k + 1
                    &&& !ran ==> k >= 1 && final(world_tick).0 == old(world_tick).0 + k
                },
            ran ==> final(self).last_run == *final(world_tick),
            !ran ==> final(self).last_run == old(self).last_run,
            same_signature(final(self).function, old(self).function),
            system_ran(
                *old(self),
                *final(self),
                old(world_tick).0 as int,
                final(world_tick).0 as int,
                *old(runner),
                *final(runner),
                ran,
            ),
    {
        let ghost start = world_tick.0 as int;
        let ghost old_conditions = self.conditions@;
        let ghost old_self = *self;
        if self.satisfies_conditions(world_tick, runner) {
            let ghost (k, rs) = choose|k: int, rs: Seq<R>|
                #[trigger] conditions_ran_through(old_conditions, self.conditions@, k, start, rs, true)
                    && rs[0] == *old(runner) && rs[k] == *runner && world_tick.0 == start + k
                    && k == old_conditions.len();
            let ghost mid_runner = *runner;
            world_tick.tick();
            let v = self.function.run(runner, &self.last_run, *world_tick);
            self.last_run = *world_tick;
            assert(conditions_ran(old_conditions, self.conditions@, k, start));
            proof {
                assert(conditions_ran_through(old_conditions, self.conditions@, k, start, rs, true));
                assert(ran_through(old_self, *self, start, world_tick.0 as int, *old(runner), *runner, true, k, rs));
            }
            true
        } else {
            proof {
                let (k, rs) = choose|k: int, rs: Seq<R>|
                    #[trigger] conditions_ran_through(old_conditions, self.conditions@, k, start, rs, false)
                        && rs[0] == *old(runner) && rs[k] == *runner && world_tick.0 == start + k && k >= 1;
                assert(ran_through(old_self, *self, start, world_tick.0 as int, *old(runner), *runner, false, k, rs));
            }
            false
        }
    }

    /// Initializes the system: its conditions first, then the system function.
    pub fn init<R: SystemRunner<E>>(&mut self, runner: &mut R)
        ensures
            final(self).last_run == old(self).last_run,
            same_signature(final(self).function, old(self).function),
            conditions_same_signatures(old(self).conditions@, final(self).conditions@),
            system_prepared(*old(self), *final(self), *old(runner), *final(runner), false),
    {
        let n = self.conditions.len();
        let ghost mut rs: Seq<R> = seq![*runner];
        let mut i: usize = 0;
        while i < n
            invariant
                n == old(self).conditions@.len(),
                i <= n,
                self.last_run == old(self).last_run,
                self.function == old(self).function,
                conditions_same_signatures(old(self).conditions@, self.conditions@),
                rs.len() == i + 1,
                rs[0] == *old(runner),
                rs[i as int] == *runner,
                forall|k: int|
                    #![trigger self.conditions@[k]]
                    0 <= k < i ==> prepares(
                        rs[k],
                        old(self).conditions@[k].function,
                        old(self).conditions@[k].last_run,
                        rs[k + 1],
                        self.conditions@[k].function.body,
                        false,
                    ),
                forall|k: int| i <= k < n ==> #[trigger] self.conditions@[k] == old(self).conditions@[k],
            decreases n - i,
        {
            let ghost before = self.conditions@;
            self.conditions[i].init(runner);
            proof {
                rs = rs.push(*runner);
                assert forall|k: int|
                    #![trigger self.conditions@[k]]
                    0 <= k < i + 1 implies prepares(
                        rs[k],
                        old(self).conditions@[k].function,
                        old(self).conditions@[k].last_run,
                        rs[k + 1],
                        self.conditions@[k].function.body,
                        false,
                    ) by {
                    if k < i {
                        assert(self.conditions@[k] == before[k]);
                    }
                }
                assert forall|k: int| i + 1 <= k < n implies #[trigger] self.conditions@[k] == old(self).conditions@[k] by {
                    assert(self.conditions@[k] == before[k]);
                }
            }
            i += 1;
        }
        self.function.init(runner, &self.last_run);
        proof {
            rs = rs.push(*runner);
            assert(prepared_through(*old(self), *self, rs, false));
        }
    }

    /// Applies any changes to the world needed after system execution by system parameters:
    /// the conditions' first, then the system function's.
    /// This is run on the main thread after all parallel systems have finished executing.
    pub fn apply<R: SystemRunner<E>>(&mut self, runner: &mut R)
        ensures
            final(self).last_run == old(self).last_run,
            same_signature(final(self).function, old(self).function),
            conditions_same_signatures(old(self).conditions@, final(self).conditions@),
            system_prepared(*old(self), *final(self), *old(runner), *final(runner), true),
    {
        let n = self.conditions.len();
        let ghost mut rs: Seq<R> = seq![*runner];
        let mut i: usize = 0;
        while i < n
            invariant
                n == old(self).conditions@.len(),
                i <= n,
                self.last_run == old(self).last_run,
                self.function == old(self).function,
                conditions_same_signatures(old(self).conditions@, self.conditions@),
                rs.len() == i + 1,
                rs[0] == *old(runner),
                rs[i as int] == *runner,
                forall|k: int|
                    #![trigger self.conditions@[k]]
                    0 <= k < i ==> prepares(
                        rs[k],
                        old(self).conditions@[k].function,
                        old(self).conditions@[k].last_run,
                        rs[k + 1],
                        self.conditions@[k].function.body,
                        true,
                    ),
                forall|k: int| i <= k < n ==> #[trigger] self.conditions@[k] == old(self).conditions@[k],
            decreases n - i,
        {
            let ghost before = self.conditions@;
            self.conditions[i].apply(runner);
            proof {
                rs = rs.push(*runner);
                assert forall|k: int|
                    #![trigger self.conditions@[k]]
                    0 <= k < i + 1 implies prepares(
                        rs[k],
                        old(self).conditions@[k].function,
                        old(self).conditions@[k].last_run,
                        rs[k + 1],
                        self.conditions@[k].function.body,
                        true,
                    ) by {
                    if k < i {
                        assert(self.conditions@[k] == before[k]);
                    }
                }
                assert forall|k: int| i + 1 <= k < n implies #[trigger] self.conditions@[k] == old(self).conditions@[k] by {
                    assert(self.conditions@[k] == before[k]);
                }
            }
            i += 1;
        }
        self.function.apply(runner, &self.last_run);
        proof {
            rs = rs.push(*runner);
            assert(prepared_through(*old(self), *self, rs, true));
        }
    }

    /// Check if all run conditions are satisfied, running them in order until one fails.
    fn satisfies_conditions<R: SystemRunner<E>>(&mut self, world_tick: &mut Tick, runner: &mut R) -> (r: bool)
        requires
            old(world_tick).0 + old(self).conditions@.len() < u64::MAX,
        ensures
            exists|k: int|
                {
                    &&& conditions_ran(
                        old(self).conditions@,
                        final(self).conditions@,
                        k,
                        old(world_tick).0 as int,
                    )
                    &&& final(world_tick).0 == old(world_tick).0 + k
                    &&& r ==> k == old(self).conditions@.len()
                    &&& !r ==> k >= 1
                },
            exists|k: int, rs: Seq<R>|
                {
                    &&& #[trigger] conditions_ran_through(
                        old(self).conditions@,
                        final(self).conditions@,
                        k,
                        old(world_tick).0 as int,
                        rs,
                        r,
                    )
                    &&& rs[0] == *old(runner)
                    &&& rs[k] == *final(runner)
                    &&& final(world_tick).0 == old(world_tick).0 + k
                    &&& r ==> k == old(self).conditions@.len()
                    &&& !r ==> k >= 1
                },
            final(self).last_run == old(self).last_run,
            final(self).function == old(self).function,
    {
        let n = self.conditions.len();
        let ghost t0 = world_tick.0 as int;
        let ghost mut rs: Seq<R> = seq![*runner];
        let mut i: usize = 0;
        while i < n
            invariant
                n == old(self).conditions@.len(),
                i <= n,
                t0 == old(world_tick).0,
                conditions_ran(old(self).conditions@, self.conditions@, i as int, old(world_tick).0 as int),
                conditions_ran_through(old(self).conditions@, self.conditions@, i as int, t0, rs, true),
                rs[0] == *old(runner),
                rs[i as int] == *runner,
                world_tick.0 == old(world_tick).0 + i,
                old(world_tick).0 + n < u64::MAX,
                self.last_run == old(self).last_run,
                self.function == old(self).function,
            decreases n - i,
        {
            let ghost before = self.conditions@;
            let ok = self.conditions[i].run(world_tick, runner);
            proof {
                rs = rs.push(*runner);
                assert forall|j: int|
                    #![trigger self.conditions@[j]]
                    0 <= j < i + 1 implies rs[j].runs(
                        old(self).conditions@[j].function.body,
                        old(self).conditions@[j].function.params_info@,
                        old(self).conditions@[j].function.exec_info,
                        old(self).conditions@[j].last_run,
                        self.conditions@[j].last_run,
                        rs[j + 1],
                        self.conditions@[j].function.body,
                        if j == i {
                            ok
                        } else {
                            true
                        },
                    ) by {
                    if j < i {
                        assert(self.conditions@[j] == before[j]);
                    } else {
                        assert(before[j] == old(self).conditions@[j]);
                    }
                }
                assert(conditions_ran(old(self).conditions@, self.conditions@, i + 1, old(world_tick).0 as int));
                assert(conditions_ran_through(old(self).conditions@, self.conditions@, i + 1, t0, rs, ok));
            }
            if !ok {
                return false;
            }
            i += 1;
        }
        true
    }
}

} // verus!

//! Systems that run as nodes of the render graph.
use vstd::prelude::*;
use crate::tick::Tick;

verus! {

/// Executes render graph system payloads; `G` is the graph context a node hands its system.
/// Each runner says, by `runs`, what running a payload does to it and to the payload; a runner
/// that does not define it promises nothing of its runs.
pub trait GraphSystemRunner<E, G>: Sized {
    /// Running payload `body` with `graph_ctx` takes the runner from `self` to `next` and the
    /// payload to `body_after`.
    closed spec fn runs(&self, body: E, graph_ctx: G, next: Self, body_after: E) -> bool {
        true
    }

    /// Runs the system function with the node's graph context.
    fn execute(&mut self, body: &mut E, graph_ctx: G)
        ensures
            old(self).runs(*old(body), graph_ctx, *final(self), *final(body)),
    ;
}

/// A system run by a node of the render graph.
pub struct GraphSystem<E> {
    pub name: String,
    /// Tick of the last run, or `0`
    pub last_run: Tick,
    pub function: E,
}

impl<E> GraphSystem<E> {
    /// A graph system that has never run.
    pub fn new(name: &str, function: E) -> (r: Self)
        ensures
            r.name@ == name@,
            r.last_run.0 == 0,
            r.function == function,
    {
        Self { name: name.to_owned(), last_run: Tick::default(), function }
    }

    /// Runs the system: the world tick advances first, so that the system's last run is never
    /// behind the tick it saw, then the system runs and its last run becomes that tick.
    pub fn run<G, R: GraphSystemRunner<E, G>>(
        &mut self,
        graph_ctx: G,
        world_tick: &mut Tick,
        runner: &mut R,
    )
        requires
            old(world_tick).0 < u64::MAX,
        ensures
            final(world_tick).0 == old(world_tick).0 + 1,
            final(self).last_run == *final(world_tick),
            final(self).name@ == old(self).name@,
            old(runner).runs(old(self).function, graph_ctx, *final(runner), final(self).function),
    {
        world_tick.tick();
        runner.execute(&mut self.function, graph_ctx);
        self.last_run = *world_tick;
    }
}

/// A system run by a custom node of the render graph.
pub struct CustomGraphSystem<E> {
    pub name: String,
    /// Tick of the last run, or `0`
    pub last_run: Tick,
    pub function: E,
}

impl<E> CustomGraphSystem<E> {
    /// A custom graph system that has never run.
    pub fn new(name: &str, function: E) -> (r: Self)
        ensures
            r.name@ == name@,
            r.last_run.0 == 0,
            r.function == function,
    {
        Self { name: name.to_owned(), last_run: Tick::default(), function }
    }

    /// Runs the system: the world tick advances first, then the system runs and its last run
    /// becomes that tick.
    pub fn run<G, R: GraphSystemRunner<E, G>>(
        &mut self,
        graph_ctx: G,
        world_tick: &mut Tick,
        runner: &mut R,
    )
        requires
            old(world_tick).0 < u64::MAX,
        ensures
            final(world_tick).0 == old(world_tick).0 + 1,
            final(self).last_run == *final(world_tick),
            final(self).name@ == old(self).name@,
            old(runner).runs(old(self).function, graph_ctx, *final(runner), final(self).function),
    {
        world_tick.tick();
        runner.execute(&mut self.function, graph_ctx);
        self.last_run = *world_tick;
    }
}

} // verus!

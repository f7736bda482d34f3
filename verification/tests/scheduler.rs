use vavo::system::execute::{PhaseRunner, TickOverflow};
use vavo::system::graph::{CustomGraphSystem, GraphSystem, GraphSystemRunner};
use vavo::system::handler::{SystemHandler, SystemStage};
use vavo::system::into::IntoSystem;
use vavo::system::label::{
    SchedulerLocation, END, FIXED_UPDATE, MAIN, POST_RENDER, PRE_STARTUP, START, STARTUP, UPDATE,
};
use vavo::system::params::{ParamInfo, TypeInfo};
use vavo::system::phase::{
    Batch, Layer, Phase, PhaseExecutionPolicy, PhaseExecutionType,
};
use vavo::system::scheduler::{Scheduler, SchedulerChanges};
use vavo::system::{System, SystemCondition, SystemContext, SystemExec, SystemRunner};
use vavo::tick::Tick;

/// A system function: its name, and the verdict it gives when run as a condition.
#[derive(Debug, Clone, Copy)]
struct Job {
    name: &'static str,
    verdict: bool,
}

/// Fixed timestep clock: how many steps are due each time it is asked.
struct Clock {
    due: usize,
}

#[derive(Default)]
struct Log {
    ran: Vec<&'static str>,
    ticks: Vec<u64>,
    inits: Vec<&'static str>,
    applied: Vec<&'static str>,
    batches: usize,
    flushes: usize,
}

impl SystemRunner<Job> for Log {
    fn execute(&mut self, body: &mut Job, _context: SystemContext<'_>, world_tick: Tick) -> bool {
        self.ran.push(body.name);
        self.ticks.push(world_tick.get());
        body.verdict
    }

    fn init(&mut self, body: &mut Job, _context: SystemContext<'_>) {
        self.inits.push(body.name);
    }

    fn apply(&mut self, body: &mut Job, _context: SystemContext<'_>) {
        self.applied.push(body.name);
    }
}

impl PhaseRunner<Job, Clock> for Log {
    fn fixed_iterations(&mut self, clock: &mut Clock) -> usize {
        clock.due
    }

    fn finish_batch(&mut self) {
        self.batches += 1;
    }

    fn flush_commands(&mut self) {
        self.flushes += 1;
    }
}

fn access(is_mutable: bool, id: u64) -> ParamInfo {
    ParamInfo::new(is_mutable, TypeInfo::new("T", id))
}

fn job(name: &'static str, params: Vec<ParamInfo>) -> System<Job> {
    System::new(SystemExec::new(params, TypeInfo::new(name, 1000), Job { name, verdict: true }))
}

fn condition(name: &'static str, verdict: bool) -> SystemCondition<Job> {
    SystemCondition::new(SystemExec::new(vec![], TypeInfo::new(name, 2000), Job { name, verdict }))
}

fn at(phase: &'static str, layer: &'static str) -> SchedulerLocation {
    SchedulerLocation { phase, layer }
}

fn phase_order(s: &Scheduler<Job, Clock>) -> Vec<&'static str> {
    s.phases.iter().map(|p| p.label).collect()
}

#[test]
fn new_scheduler_has_builtin_phases_and_policies() {
    let s: Scheduler<Job, Clock> = Scheduler::new(Clock { due: 3 });
    assert_eq!(
        phase_order(&s),
        vec![
            "PreStartup", "Startup", "First", "PreUpdate", "FixedUpdate", "Update", "PostUpdate",
            "Last", "PreRender", "Render", "PostRender", "FrameEnd"
        ]
    );
    assert!(matches!(s.phases[0].execution_policy, PhaseExecutionPolicy::Finite(1)));
    assert!(matches!(s.phases[1].execution_policy, PhaseExecutionPolicy::Finite(1)));
    assert!(matches!(s.phases[4].execution_policy, PhaseExecutionPolicy::FixedTimestep(Clock { due: 3 })));
    assert!(s.phases[5].execution_policy.is_normal());
    assert_eq!(s.phases[5].layers.iter().map(|l| l.label).collect::<Vec<_>>(), vec!["Pre", "Start", "Main", "End", "Post"]);
    assert!(s.pending_changes.changes.is_empty());
    assert_eq!(s.find_phase(UPDATE), Some(5));
    assert_eq!(s.find_phase("Missing"), None);
}

#[test]
fn queued_phase_changes_are_applied_in_order() {
    let mut s: Scheduler<Job, Clock> = Scheduler::new(Clock { due: 1 });
    s.pending_changes
        .phase_add("Physics")
        .phase_before("Physics", UPDATE)
        .phase_add("Audio")
        .phase_after("Audio", "Last");
    s.apply_changes();
    let order = phase_order(&s);
    assert_eq!(order[5], "Physics");
    assert_eq!(order[6], "Update");
    assert_eq!(order[9], "Audio");
    assert_eq!(order[8], "Last");
    assert_eq!(order.len(), 14);
    assert!(s.pending_changes.changes.is_empty());

    s.pending_changes.phase_remove("Audio");
    s.apply_changes();
    assert_eq!(s.find_phase("Audio"), None);
    assert_eq!(s.phases.len(), 13);
}

#[test]
fn layers_can_be_added_reordered_and_moved() {
    let mut s: Scheduler<Job, Clock> = Scheduler::new(Clock { due: 1 });
    s.pending_changes
        .layer_add(at(UPDATE, "Input"))
        .layer_before(at(UPDATE, "Input"), START)
        .layer_after(at(UPDATE, START), END);
    s.apply_changes();
    let update = &s.phases[s.find_phase(UPDATE).unwrap()];
    let layers: Vec<_> = update.layers.iter().map(|l| l.label).collect();
    assert_eq!(layers, vec!["Pre", "Input", "Main", "End", "Start", "Post"]);

    s.pending_changes.move_layer(at(UPDATE, "Input"), "Last");
    s.apply_changes();
    let update = &s.phases[s.find_phase(UPDATE).unwrap()];
    assert!(update.find_layer("Input").is_none());
    let last = &s.phases[s.find_phase("Last").unwrap()];
    // it keeps its constraint to run before `Start`
    assert_eq!(last.find_layer("Input"), Some(1));
}

#[test]
fn policy_and_type_changes_reach_the_phase() {
    let mut s: Scheduler<Job, Clock> = Scheduler::new(Clock { due: 1 });
    s.pending_changes
        .policy(UPDATE, PhaseExecutionPolicy::Finite(3))
        .set_type(UPDATE, PhaseExecutionType::Parallel);
    s.apply_changes();
    let update = &s.phases[5];
    assert!(matches!(update.execution_policy, PhaseExecutionPolicy::Finite(3)));
    assert!(matches!(update.execution_type, PhaseExecutionType::Parallel));
}

#[test]
fn systems_land_in_batches_without_conflicts() {
    let mut layer: Layer<Job> = Layer::new("L");
    layer.add_system(job("writer", vec![access(true, 1)]));
    layer.add_system(job("reader", vec![access(false, 1)]));
    layer.add_system(job("other", vec![access(false, 2)]));
    layer.add_system(job("other_writer", vec![access(true, 2)]));
    assert_eq!(layer.batches.len(), 2);
    let names = |b: &Batch<Job>| b.systems.iter().map(|s| s.name()).collect::<Vec<_>>();
    assert_eq!(names(&layer.batches[0]), vec!["writer", "other"]);
    assert_eq!(names(&layer.batches[1]), vec!["reader", "other_writer"]);

    let mut batch: Batch<Job> = Batch::new();
    assert!(batch.can_accept(&job("a", vec![access(true, 3)])));
    batch.add_system(job("a", vec![access(true, 3)]));
    assert!(!batch.can_accept(&job("b", vec![access(false, 3)])));
    assert!(batch.can_accept(&job("c", vec![access(false, 4)])));
}

#[test]
fn pipeline_runs_phases_in_order_and_startup_once() {
    let mut s: Scheduler<Job, Clock> = Scheduler::new(Clock { due: 2 });
    s.add_system(job("update", vec![]), SchedulerLocation::default());
    s.add_system(job("fixed", vec![]), at(FIXED_UPDATE, MAIN));
    s.add_system(job("startup", vec![]), at(STARTUP, MAIN));
    s.add_system(job("late", vec![]), at(POST_RENDER, MAIN));
    let mut log = Log::default();
    let mut tick = Tick::new();

    assert!(s.execute_pipeline(&mut tick, &mut log).is_ok());
    assert_eq!(log.ran, vec!["startup", "fixed", "fixed", "update", "late"]);
    assert_eq!(log.ticks, vec![1, 2, 3, 4, 5]);
    assert_eq!(tick.get(), 5);
    assert_eq!(log.applied, vec!["startup", "fixed", "update", "late"]);
    assert_eq!(log.flushes, 12);
    // both one-shot phases are done; their removal waits in the queue
    assert_eq!(s.pending_changes.changes.len(), 2);

    log.ran.clear();
    assert!(s.execute_pipeline(&mut tick, &mut log).is_ok());
    assert_eq!(log.ran, vec!["fixed", "fixed", "update", "late"]);
    assert_eq!(s.find_phase(STARTUP), None);
    assert_eq!(s.find_phase(PRE_STARTUP), None);
    assert_eq!(s.phases.len(), 10);

    // and it keeps running: nothing else is removed
    log.ran.clear();
    assert!(s.execute_pipeline(&mut tick, &mut log).is_ok());
    assert_eq!(log.ran, vec!["fixed", "fixed", "update", "late"]);
    assert_eq!(s.phases.len(), 10);
    assert!(s.pending_changes.changes.is_empty());
}

#[test]
fn execute_phase_runs_only_that_phase() {
    let mut s: Scheduler<Job, Clock> = Scheduler::new(Clock { due: 1 });
    s.add_system(job("update", vec![]), SchedulerLocation::default());
    s.add_system(job("startup", vec![]), at(STARTUP, MAIN));
    let mut log = Log::default();
    let mut tick = Tick::new();
    assert!(s.execute_phase(&mut tick, &mut log, UPDATE).is_ok());
    assert_eq!(log.ran, vec!["update"]);
    assert_eq!(tick.get(), 1);
}

#[test]
fn conditions_gate_a_system_and_advance_the_tick() {
    let mut log = Log::default();
    let mut tick = Tick::new();

    let mut gated = job("gated", vec![]).run_if(condition("no", false));
    assert!(!gated.run(&mut tick, &mut log));
    assert_eq!(log.ran, vec!["no"]);
    assert_eq!(tick.get(), 1);
    assert_eq!(gated.last_run().get(), 0);
    assert_eq!(gated.conditions[0].last_run.get(), 1);

    let mut open = job("open", vec![]).run_if(condition("yes", true)).run_if(condition("also", true));
    assert!(open.run(&mut tick, &mut log));
    assert_eq!(log.ran, vec!["no", "yes", "also", "open"]);
    assert_eq!(tick.get(), 4);
    assert_eq!(open.last_run().get(), 4);

    // a failing condition stops the checks
    let mut stopped = job("stopped", vec![]).run_if(condition("first", false)).run_if(condition("second", true));
    assert!(!stopped.run(&mut tick, &mut log));
    assert_eq!(log.ran.last(), Some(&"first"));
    assert_eq!(tick.get(), 5);
}

#[test]
fn init_and_apply_visit_conditions_first() {
    let mut log = Log::default();
    let mut s = job("main", vec![]).run_if(condition("c1", true));
    s.init(&mut log);
    s.apply(&mut log);
    assert_eq!(log.inits, vec!["c1", "main"]);
    assert_eq!(log.applied, vec!["c1", "main"]);
}

#[test]
fn custom_policy_skips_phase_when_condition_fails() {
    let mut phase: Phase<Job, Clock> = Phase::new("Gate");
    phase.add_system_to_layer(MAIN, job("inside", vec![]));
    phase.execution_policy = PhaseExecutionPolicy::Custom(condition("closed", false));
    let mut log = Log::default();
    let mut tick = Tick::new();
    let mut changes: SchedulerChanges<Job, Clock> = SchedulerChanges::default();
    assert!(phase.execute(&mut tick, &mut log, &mut changes).is_ok());
    assert_eq!(log.ran, vec!["closed"]);
    assert_eq!(log.flushes, 0);

    phase.execution_policy = PhaseExecutionPolicy::Custom(condition("open", true));
    assert!(phase.execute(&mut tick, &mut log, &mut changes).is_ok());
    assert_eq!(log.ran, vec!["closed", "open", "inside"]);
    assert_eq!(log.flushes, 1);
    assert!(changes.changes.is_empty());
}

#[test]
fn finite_policy_counts_down_and_queues_removal() {
    let mut phase: Phase<Job, Clock> = Phase::new("Twice");
    phase.add_system_to_layer(MAIN, job("s", vec![]));
    phase.execution_policy = PhaseExecutionPolicy::Finite(2);
    let mut log = Log::default();
    let mut tick = Tick::new();
    let mut changes: SchedulerChanges<Job, Clock> = SchedulerChanges::default();
    assert!(phase.execute(&mut tick, &mut log, &mut changes).is_ok());
    assert!(changes.changes.is_empty());
    assert!(matches!(phase.execution_policy, PhaseExecutionPolicy::Finite(1)));
    assert!(phase.execute(&mut tick, &mut log, &mut changes).is_ok());
    assert_eq!(changes.changes.len(), 1);
    assert_eq!(log.ran, vec!["s", "s"]);
}

#[test]
fn parallel_phase_waits_per_batch() {
    let mut phase: Phase<Job, Clock> = Phase::new("Par");
    phase.execution_type = PhaseExecutionType::Parallel;
    phase.add_system_to_layer(MAIN, job("w1", vec![access(true, 1)]));
    phase.add_system_to_layer(MAIN, job("w2", vec![access(true, 1)]));
    phase.add_system_to_layer(END, job("r", vec![access(false, 2)]));
    let mut log = Log::default();
    let mut tick = Tick::new();
    let mut changes: SchedulerChanges<Job, Clock> = SchedulerChanges::default();
    assert!(phase.execute(&mut tick, &mut log, &mut changes).is_ok());
    assert_eq!(log.ran, vec!["w1", "w2", "r"]);
    assert_eq!(log.batches, 3);
}

#[test]
fn tick_overflow_stops_the_run() {
    let mut phase: Phase<Job, Clock> = Phase::new("Full");
    phase.add_system_to_layer(MAIN, job("s", vec![]));
    let mut log = Log::default();
    let mut tick = Tick(u64::MAX - 1);
    let mut changes: SchedulerChanges<Job, Clock> = SchedulerChanges::default();
    let result: Result<(), TickOverflow> = phase.execute(&mut tick, &mut log, &mut changes);
    assert!(result.is_err());
    assert!(log.ran.is_empty());
    assert_eq!(tick.get(), u64::MAX - 1);
}

#[test]
fn handler_keeps_systems_by_stage() {
    let mut h: SystemHandler<&'static str> = SystemHandler::new();
    h.register_system("a", SystemStage::Update);
    h.register_system("b", SystemStage::Update);
    h.register_system("c", SystemStage::FrameEnd);
    assert_eq!(*h.get_systems(&SystemStage::Update), vec!["a", "b"]);
    assert_eq!(*h.get_systems(&SystemStage::FrameEnd), vec!["c"]);
    assert!(h.get_systems(&SystemStage::PostRender).is_empty());
    assert!(SystemStage::FixedUpdate.has_fixed_time());
    assert!(!SystemStage::Update.has_fixed_time());
}

struct GraphLog(Vec<(&'static str, u32)>);

impl GraphSystemRunner<Job, u32> for GraphLog {
    fn execute(&mut self, body: &mut Job, graph_ctx: u32) {
        self.0.push((body.name, graph_ctx));
    }
}

#[test]
fn graph_systems_advance_the_tick_before_running() {
    let mut g = GraphSystem::new("draw", Job { name: "draw", verdict: true });
    let mut c = CustomGraphSystem::new("custom", Job { name: "custom", verdict: true });
    assert_eq!(g.name, "draw");
    assert_eq!(g.last_run.get(), 0);
    let mut log = GraphLog(vec![]);
    let mut tick = Tick(10);
    g.run(7u32, &mut tick, &mut log);
    c.run(8u32, &mut tick, &mut log);
    assert_eq!(g.last_run.get(), 11);
    assert_eq!(c.last_run.get(), 12);
    assert_eq!(log.0, vec![("draw", 7), ("custom", 8)]);
}

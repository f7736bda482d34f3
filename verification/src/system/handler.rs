//! Systems registered by stage.
use vstd::prelude::*;

verus! {

/// Stages of the frame at which systems are registered.
#[derive(Debug, Clone, Copy)]
pub enum SystemStage {
    PreStartup,
    Startup,
    First,
    PreUpdate,
    FixedUpdate,
    Update,
    PostUpdate,
    Last,
    PreRender,
    Render,
    PostRender,
    FrameEnd,
}

impl SystemStage {
    /// True for any stage that has a fixed time schedule
    pub fn has_fixed_time(&self) -> (r: bool)
        ensures
            r == (*self is FixedUpdate),
    {
        match self {
            SystemStage::FixedUpdate => true,
            _ => false,
        }
    }
}

/// Systems of each stage, in registration order.
pub struct SystemHandler<S> {
    pub pre_startup: Vec<S>,
    pub startup: Vec<S>,
    pub first: Vec<S>,
    pub pre_update: Vec<S>,
    pub fixed_update: Vec<S>,
    pub update: Vec<S>,
    pub post_update: Vec<S>,
    pub last: Vec<S>,
    pub pre_render: Vec<S>,
    pub render: Vec<S>,
    pub post_render: Vec<S>,
    pub frame_end: Vec<S>,
}

/// The systems of a stage.
pub open spec fn stage_systems<S>(h: SystemHandler<S>, stage: SystemStage) -> Seq<S> {
    match stage {
        SystemStage::PreStartup => h.pre_startup@,
        SystemStage::Startup => h.startup@,
        SystemStage::First => h.first@,
        SystemStage::PreUpdate => h.pre_update@,
        SystemStage::FixedUpdate => h.fixed_update@,
        SystemStage::Update => h.update@,
        SystemStage::PostUpdate => h.post_update@,
        SystemStage::Last => h.last@,
        SystemStage::PreRender => h.pre_render@,
        SystemStage::Render => h.render@,
        SystemStage::PostRender => h.post_render@,
        SystemStage::FrameEnd => h.frame_end@,
    }
}

impl<S> SystemHandler<S> {
    /// A handler without systems
    pub fn new() -> (r: Self)
        ensures
            forall|stage: SystemStage| stage_systems(r, stage).len() == 0,
    {
        SystemHandler {
            pre_startup: Vec::new(),
            startup: Vec::new(),
            first: Vec::new(),
            pre_update: Vec::new(),
            fixed_update: Vec::new(),
            update: Vec::new(),
            post_update: Vec::new(),
            last: Vec::new(),
            pre_render: Vec::new(),
            render: Vec::new(),
            post_render: Vec::new(),
            frame_end: Vec::new(),
        }
    }

    /// Register a system to a specific stage
    pub fn register_system(&mut self, system: S, stage: SystemStage)
        ensures
            stage_systems(*final(self), stage) == stage_systems(*old(self), stage).push(system),
            forall|other: SystemStage|
                other != stage ==> stage_systems(*final(self), other) == stage_systems(*old(self), other),
    {
        match stage {
            SystemStage::PreStartup => self.pre_startup.push(system),
            SystemStage::Startup => self.startup.push(system),
            SystemStage::First => self.first.push(system),
            SystemStage::PreUpdate => self.pre_update.push(system),
            SystemStage::FixedUpdate => self.fixed_update.push(system),
            SystemStage::Update => self.update.push(system),
            SystemStage::PostUpdate => self.post_update.push(system),
            SystemStage::Last => self.last.push(system),
            SystemStage::PreRender => self.pre_render.push(system),
            SystemStage::Render => self.render.push(system),
            SystemStage::PostRender => self.post_render.push(system),
            SystemStage::FrameEnd => self.frame_end.push(system),
        }
    }

    /// Get the systems for the given stage
    pub fn get_systems(&mut self, stage: &SystemStage) -> (r: &mut Vec<S>)
        ensures
            r@ == stage_systems(*old(self), *stage),
            stage_systems(*final(self), *stage) == final(r)@,
            forall|other: SystemStage|
                other != *stage ==> stage_systems(*final(self), other) == stage_systems(*old(self), other),
    {
        match stage {
            SystemStage::PreStartup => &mut self.pre_startup,
            SystemStage::Startup => &mut self.startup,
            SystemStage::First => &mut self.first,
            SystemStage::PreUpdate => &mut self.pre_update,
            SystemStage::FixedUpdate => &mut self.fixed_update,
            SystemStage::Update => &mut self.update,
            SystemStage::PostUpdate => &mut self.post_update,
            SystemStage::Last => &mut self.last,
            SystemStage::PreRender => &mut self.pre_render,
            SystemStage::Render => &mut self.render,
            SystemStage::PostRender => &mut self.post_render,
            SystemStage::FrameEnd => &mut self.frame_end,
        }
    }
}

/// A registered system is the last of its stage's systems, which grew by one.
pub proof fn lemma_registered_system_is_found<S>(before: SystemHandler<S>, after: SystemHandler<S>, system: S, stage: SystemStage)
    requires
        stage_systems(after, stage) == stage_systems(before, stage).push(system),
    ensures
        stage_systems(after, stage).last() == system,
        stage_systems(after, stage).len() == stage_systems(before, stage).len() + 1,
{
}

} // verus!

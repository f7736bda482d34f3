use vstd::prelude::*;
use super::SystemContext;
use super::commands::CommandQueue;

verus! {

/// Type information for system functions and parameters.
///
/// `id` identifies the type (a digest of its `TypeId`, computed where the type is known).
#[derive(Debug, Clone, Copy, PartialEq, Eq)]
pub struct TypeInfo {
    pub name: &'static str,
    pub id: u64,
}

impl TypeInfo {
    /// Create new type information
    pub fn new(name: &'static str, id: u64) -> (r: Self)
        ensures
            r.name == name,
            r.id == id,
    {
        Self { name, id }
    }

    /// Returns the type name
    pub fn name(&self) -> (r: &'static str)
        ensures
            r == self.name,
    {
        self.name
    }

    /// Returns the type id
    pub fn type_id(&self) -> (r: u64)
        ensures
            r == self.id,
    {
        self.id
    }
}

/// Access information for system function parameters
#[derive(Debug, Clone, Copy, PartialEq, Eq)]
pub struct ParamInfo {
    pub is_mutable: bool,
    pub type_info: TypeInfo,
}

impl ParamInfo {
    /// Create new parameter information
    pub fn new(is_mutable: bool, type_info: TypeInfo) -> (r: Self)
        ensures
            r.is_mutable == is_mutable,
            r.type_info == type_info,
    {
        Self { is_mutable, type_info }
    }

    /// Returns `true` if the access is mutable
    pub fn is_mutable(&self) -> (r: bool)
        ensures
            r == self.is_mutable,
    {
        self.is_mutable
    }

    /// Returns the parameter's type information
    pub fn type_info(&self) -> (r: TypeInfo)
        ensures
            r == self.type_info,
    {
        self.type_info
    }
}

/// Parameter information list for a single accessed type.
pub fn param_info(is_mutable: bool, type_info: TypeInfo) -> (r: Vec<ParamInfo>)
    ensures
        r@ == seq![ParamInfo { is_mutable, type_info }],
{
    let mut v = Vec::new();
    v.push(ParamInfo::new(is_mutable, type_info));
    v
}


/// Types that can describe their parameter types and access patterns.
pub trait IntoParamInfo {
    /// Information about the parameter types and their access patterns.
    fn params_info() -> Vec<ParamInfo>;
}

/// A type usable as a system parameter (tuples of parameters included), extracted from the world
/// `W` for each run.
pub trait SystemParam<W>: IntoParamInfo + Sized {
    /// The state stored between system runs.
    type State;

    /// Extract the parameter from the world.
    fn extract(world: &mut W, state: &mut Self::State, context: &SystemContext) -> Self;

    /// Apply any changes to the world after system execution on the main thread.
    fn apply(world: &mut W, state: &mut Self::State, context: &SystemContext) {
    }

    /// Initialize the parameter state.
    fn init_state() -> Self::State;

    /// Initialize the parameter state with access to the world; unless a parameter says
    /// otherwise, the state is the one `init_state` gives.
    fn init_state_world(world: &mut W) -> (r: Self::State)
        default_ensures
            call_ensures(Self::init_state, (), r),
    {
        Self::init_state()
    }
}

/// State of the `Commands` system parameter: the commands it queued, not yet moved to the world.
pub struct CommandsState<P>(pub CommandQueue<P>);

impl<P> Default for CommandsState<P> {
    fn default() -> (r: Self)
        ensures
            r.0.internal@.len() == 0,
    {
        CommandsState(CommandQueue::new())
    }
}

/// State of the `Query` system parameter (queries keep none).
#[derive(Debug, Clone, Copy)]
pub struct QueryCache;

} // verus!

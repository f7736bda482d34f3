//! Application states and the conditions that test them.
use vstd::prelude::*;
use vstd::std_specs::cmp::PartialEqSpec;

verus! {

/// Trait representing a state.
pub trait States: Copy + PartialEq {}

/// Current app state
#[derive(Debug, Clone, Copy)]
pub struct State<S: States>(pub S);

/// State to transition to in the next frame
#[derive(Debug, Clone, Copy)]
pub struct NextState<S: States>(pub Option<S>);

impl<S: States + Default> State<S> {
    /// The default state
    pub fn new() -> (r: Self)
        ensures
            call_ensures(S::default, (), r.0),
    {
        Self(S::default())
    }
}

impl<S: States> State<S> {
    /// Apply the next state
    pub fn update(&mut self, value: S)
        ensures
            final(self).0 == value,
    {
        self.0 = value;
    }

    /// Get the state value
    pub fn get(&self) -> (r: S)
        ensures
            r == self.0,
    {
        self.0
    }
}

impl<S: States> NextState<S> {
    /// No transition queued
    pub fn new() -> (r: Self)
        ensures
            r.0 is None,
    {
        Self(None)
    }

    /// Take out the next state value
    pub fn take(&mut self) -> (r: Option<S>)
        ensures
            r == old(self).0,
            final(self).0 is None,
    {
        self.0.take()
    }

    /// Queue a state transition for the next frame
    pub fn set(&mut self, value: S)
        ensures
            final(self).0 == Some(value),
    {
        self.0 = Some(value);
    }

    /// Get the next state value
    pub fn get(&self) -> (r: Option<S>)
        ensures
            r == self.0,
    {
        self.0
    }
}

/// A transition between states, as sent when the next state is applied.
#[derive(Debug, Clone, Copy)]
pub struct StateTransitionEvent<S: States> {
    /// The state left, if there was one
    pub exited: Option<S>,
    /// The state entered, if there is one
    pub entered: Option<S>,
}

/// `side` is `Some` of a state equal to `state`.
pub open spec fn is_state<S: States>(side: Option<S>, state: S) -> bool {
    match side {
        Some(s) => s.eq_spec(&state),
        None => false,
    }
}

fn matches_state<S: States>(side: Option<S>, state: S) -> (r: bool)
    ensures
        S::obeys_eq_spec() ==> r == is_state(side, state),
        side is None ==> !r,
{
    match side {
        Some(s) => s == state,
        None => false,
    }
}

impl<S: States> StateTransitionEvent<S> {
    /// The transition leaves `state`
    pub fn exiting(&self, state: S) -> (r: bool)
        ensures
            S::obeys_eq_spec() ==> r == is_state(self.exited, state),
            self.exited is None ==> !r,
    {
        matches_state(self.exited, state)
    }

    /// The transition enters `state`
    pub fn entering(&self, state: S) -> (r: bool)
        ensures
            S::obeys_eq_spec() ==> r == is_state(self.entered, state),
            self.entered is None ==> !r,
    {
        matches_state(self.entered, state)
    }
}

/// Evaluates to true if one of this frame's transitions exits `state`.
pub fn on_exit<S: States>(events: &[StateTransitionEvent<S>], state: S) -> (r: bool)
    ensures
        S::obeys_eq_spec() ==> (r <==> exists|i: int|
            0 <= i < events@.len() && #[trigger] is_state(events@[i].exited, state)),
        events@.len() == 0 ==> !r,
{
    let mut i: usize = 0;
    while i < events.len()
        invariant
            i <= events@.len(),
            S::obeys_eq_spec() ==> forall|j: int|
                0 <= j < i ==> !#[trigger] is_state(events@[j].exited, state),
        decreases events@.len() - i,
    {
        if events[i].exiting(state) {
            return true;
        }
        i += 1;
    }
    false
}

/// Evaluates to true if one of this frame's transitions enters `state`.
pub fn on_enter<S: States>(events: &[StateTransitionEvent<S>], state: S) -> (r: bool)
    ensures
        S::obeys_eq_spec() ==> (r <==> exists|i: int|
            0 <= i < events@.len() && #[trigger] is_state(events@[i].entered, state)),
        events@.len() == 0 ==> !r,
{
    let mut i: usize = 0;
    while i < events.len()
        invariant
            i <= events@.len(),
            S::obeys_eq_spec() ==> forall|j: int|
                0 <= j < i ==> !#[trigger] is_state(events@[j].entered, state),
        decreases events@.len() - i,
    {
        if events[i].entering(state) {
            return true;
        }
        i += 1;
    }
    false
}

/// Evaluates to true if any state transition happened this frame.
pub fn on_transition<S: States>(events: &[StateTransitionEvent<S>]) -> (r: bool)
    ensures
        r == (events@.len() > 0),
{
    events.len() > 0
}

/// There is a current state and it is `state`.
pub open spec fn current_is<S: States>(current: Option<&State<S>>, state: S) -> bool {
    match current {
        Some(s) => s.0.eq_spec(&state),
        None => false,
    }
}

/// There is a current state and it is not `state`.
pub open spec fn current_is_not<S: States>(current: Option<&State<S>>, state: S) -> bool {
    match current {
        Some(s) => !s.0.eq_spec(&state),
        None => false,
    }
}

/// Evaluates to true if the current state is `state`; false when there is no current state.
pub fn in_state<S: States>(current: Option<&State<S>>, state: S) -> (r: bool)
    ensures
        S::obeys_eq_spec() ==> r == current_is(current, state),
        current is None ==> !r,
{
    match current {
        Some(s) => s.get() == state,
        None => false,
    }
}

/// Evaluates to true if the current state is not `state`; false when there is no current state.
pub fn not_in_state<S: States>(current: Option<&State<S>>, state: S) -> (r: bool)
    ensures
        S::obeys_eq_spec() ==> r == current_is_not(current, state),
        current is None ==> !r,
{
    match current {
        Some(s) => s.get() != state,
        None => false,
    }
}

/// With a current state, exactly one of `in_state` and `not_in_state` holds for any state;
/// without one, neither does.
pub proof fn lemma_in_state_exclusive<S: States>(current: Option<&State<S>>, state: S)
    ensures
        current is Some ==> current_is(current, state) != current_is_not(current, state),
        current is None ==> !current_is(current, state) && !current_is_not(current, state),
{
}

} // verus!

use vavo::state::{
    in_state, not_in_state, on_enter, on_exit, on_transition, NextState, State, StateTransitionEvent,
    States,
};

#[derive(Debug, Clone, Copy, PartialEq, Eq)]
enum Game {
    Paused,
    Playing,
    Over,
}

impl States for Game {}

impl Default for Game {
    fn default() -> Self {
        Game::Paused
    }
}

fn transition(from: Option<Game>, to: Option<Game>) -> StateTransitionEvent<Game> {
    StateTransitionEvent { exited: from, entered: to }
}

#[test]
fn state_starts_at_default_and_updates() {
    let mut s: State<Game> = State::new();
    assert_eq!(s.get(), Game::Paused);
    s.update(Game::Playing);
    assert_eq!(s.get(), Game::Playing);
}

#[test]
fn queued_transition_is_taken_once() {
    let mut next: NextState<Game> = NextState::new();
    assert_eq!(next.get(), None);
    next.set(Game::Over);
    assert_eq!(next.get(), Some(Game::Over));
    assert_eq!(next.take(), Some(Game::Over));
    assert_eq!(next.take(), None);
}

#[test]
fn in_state_and_not_in_state_exclude_each_other() {
    let current = State(Game::Playing);
    assert!(in_state(Some(&current), Game::Playing));
    assert!(!not_in_state(Some(&current), Game::Playing));
    assert!(!in_state(Some(&current), Game::Paused));
    assert!(not_in_state(Some(&current), Game::Paused));
    // without a current state neither holds
    assert!(!in_state::<Game>(None, Game::Playing));
    assert!(!not_in_state::<Game>(None, Game::Playing));
}

#[test]
fn transition_events_drive_enter_and_exit() {
    let events = vec![transition(Some(Game::Paused), Some(Game::Playing))];
    assert!(on_exit(&events, Game::Paused));
    assert!(!on_exit(&events, Game::Playing));
    assert!(on_enter(&events, Game::Playing));
    assert!(!on_enter(&events, Game::Over));
    assert!(on_transition(&events));
    let exits = events[0];
    assert!(exits.exiting(Game::Paused));
    assert!(exits.entering(Game::Playing));

    let none: Vec<StateTransitionEvent<Game>> = vec![];
    assert!(!on_exit(&none, Game::Paused));
    assert!(!on_enter(&none, Game::Paused));
    assert!(!on_transition(&none));

    // a first transition with no previous state exits nothing
    let first = vec![transition(None, Some(Game::Paused)), transition(Some(Game::Paused), Some(Game::Over))];
    assert!(on_exit(&first, Game::Paused));
    assert!(on_enter(&first, Game::Over));
    assert!(!on_exit(&first, Game::Over));
}

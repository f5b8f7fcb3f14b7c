use vstd::prelude::*;

verus! {

/// The game's top-level modes.
#[derive(Clone, Copy, Debug, PartialEq, Eq, Structural)]
pub enum GameState {
    Startup,
    Menu,
    Play,
}

/// What moves the game between modes.
#[derive(Clone, Copy, Debug, PartialEq, Eq, Structural)]
pub enum GameEvent {
    /// The shared assets are in place.
    StartupDone,
    /// A map was requested for play.
    PlayRequested,
    /// The map being played has ended.
    PlayFinished,
}

/// The mode after `e` in mode `s`: startup leads to the menu, a play
/// request leads to play, and the end of a map back to the menu; other
/// events leave the mode as it is.
pub open spec fn next_state(s: GameState, e: GameEvent) -> GameState {
    match (s, e) {
        (GameState::Startup, GameEvent::StartupDone) => GameState::Menu,
        (_, GameEvent::PlayRequested) => GameState::Play,
        (GameState::Play, GameEvent::PlayFinished) => GameState::Menu,
        _ => s,
    }
}

/// Holds the game's mode.
pub struct StatePlugin {
    state: GameState,
}

impl StatePlugin {
    /// The current mode.
    pub closed spec fn current(&self) -> GameState {
        self.state
    }

    /// The game at startup.
    pub fn new() -> (p: StatePlugin)
        ensures
            p.current() == GameState::Startup,
    {
        StatePlugin { state: GameState::Startup }
    }

    /// The current mode.
    pub fn state(&self) -> (r: GameState)
        ensures
            r == self.current(),
    {
        self.state
    }

    /// Applies `e` and returns the new mode.
    pub fn handle(&mut self, e: GameEvent) -> (r: GameState)
        ensures
            final(self).current() == next_state(old(self).current(), e),
            r == final(self).current(),
    {
        let next = match (self.state, e) {
            (GameState::Startup, GameEvent::StartupDone) => GameState::Menu,
            (_, GameEvent::PlayRequested) => GameState::Play,
            (GameState::Play, GameEvent::PlayFinished) => GameState::Menu,
            (s, _) => s,
        };
        self.state = next;
        next
    }
}

} // verus!

//! The game's screens and the moves between them.

use vstd::prelude::*;

verus! {

/// Which screen the game shows.
#[derive(Clone, Copy, Debug, PartialEq, Eq, Hash, Structural)]
pub enum GameState {
    Loading,
    Menu,
    Game,
    Pause,
    GameOver,
}

/// What can move the game from one screen to another.
#[derive(Clone, Copy, Debug, PartialEq, Eq, Structural)]
pub enum FlowEvent {
    /// Every asset has finished loading.
    AssetsLoaded,
    /// The menu's play button was clicked.
    PlayClicked,
    EscapePressed,
    SpacePressed,
    /// A tick of play ended with no ball left.
    BallsGone,
}

/// The screen after `event` on screen `state`. Loading ends in the menu; play
/// starts from the menu; escape leaves a round (playing, paused or over) for
/// the menu; space pauses play and resumes it; a round with no ball left is
/// over. Any other event leaves the screen as it is.
pub open spec fn transition(state: GameState, event: FlowEvent) -> GameState {
    match (state, event) {
        (GameState::Loading, FlowEvent::AssetsLoaded) => GameState::Menu,
        (GameState::Menu, FlowEvent::PlayClicked) => GameState::Game,
        (GameState::Game, FlowEvent::EscapePressed) => GameState::Menu,
        (GameState::Pause, FlowEvent::EscapePressed) => GameState::Menu,
        (GameState::GameOver, FlowEvent::EscapePressed) => GameState::Menu,
        (GameState::Game, FlowEvent::SpacePressed) => GameState::Pause,
        (GameState::Pause, FlowEvent::SpacePressed) => GameState::Game,
        (GameState::Game, FlowEvent::BallsGone) => GameState::GameOver,
        _ => state,
    }
}

/// A round belongs to this screen: it is played, paused or over.
pub open spec fn in_round(state: GameState) -> bool {
    state == GameState::Game || state == GameState::Pause || state == GameState::GameOver
}

/// Moves between screens (see [`transition`]).
pub fn next_state(state: GameState, event: FlowEvent) -> (r: GameState)
    ensures
        r == transition(state, event),
{
    match (state, event) {
        (GameState::Loading, FlowEvent::AssetsLoaded) => GameState::Menu,
        (GameState::Menu, FlowEvent::PlayClicked) => GameState::Game,
        (GameState::Game, FlowEvent::EscapePressed) => GameState::Menu,
        (GameState::Pause, FlowEvent::EscapePressed) => GameState::Menu,
        (GameState::GameOver, FlowEvent::EscapePressed) => GameState::Menu,
        (GameState::Game, FlowEvent::SpacePressed) => GameState::Pause,
        (GameState::Pause, FlowEvent::SpacePressed) => GameState::Game,
        (GameState::Game, FlowEvent::BallsGone) => GameState::GameOver,
        _ => state,
    }
}

/// Whether a move from `from` to `to` starts a new round.
pub fn starts_round(from: GameState, to: GameState) -> (r: bool)
    ensures
        r == (from == GameState::Menu && to == GameState::Game),
{
    from == GameState::Menu && to == GameState::Game
}

/// Whether a move from `from` to `to` ends the round, whose entities are then
/// all torn down together.
pub fn ends_round(from: GameState, to: GameState) -> (r: bool)
    ensures
        r == (in_round(from) && !in_round(to)),
{
    let was = from == GameState::Game || from == GameState::Pause || from == GameState::GameOver;
    let is = to == GameState::Game || to == GameState::Pause || to == GameState::GameOver;
    was && !is
}

} // verus!

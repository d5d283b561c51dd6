use vstd::prelude::*;

verus! {

/// The screens of the game.
#[derive(Clone, Copy, Debug, PartialEq, Eq, Hash, Structural)]
pub enum GameState {
    MainMenu,
    Playing,
    GameOver,
    Victory,
}

impl GameState {
    /// The game starts at the main menu.
    pub fn default() -> (r: GameState)
        ensures
            r == GameState::MainMenu,
    {
        GameState::MainMenu
    }
}

/// What the game's systems react to.
#[derive(Clone, Copy, Debug, PartialEq, Eq, Structural)]
pub enum GameEvent {
    /// The Enter key went down.
    EnterPressed,
    /// The R key went down.
    RestartPressed,
    /// The player's health reached zero.
    PlayerDied,
}

pub open spec fn transition(state: GameState, event: GameEvent) -> Option<GameState> {
    match (state, event) {
        (GameState::MainMenu, GameEvent::EnterPressed) => Some(GameState::Playing),
        (GameState::GameOver, GameEvent::RestartPressed) => Some(GameState::MainMenu),
        (GameState::Victory, GameEvent::RestartPressed) => Some(GameState::MainMenu),
        (GameState::Playing, GameEvent::PlayerDied) => Some(GameState::GameOver),
        _ => None,
    }
}

/// The state the game moves to on an event, if it moves: Enter starts play
/// from the menu, R returns from game over or victory to the menu, and dying
/// during play ends the game.
pub fn next_state(state: GameState, event: GameEvent) -> (r: Option<GameState>)
    ensures
        r == transition(state, event),
{
    match (state, event) {
        (GameState::MainMenu, GameEvent::EnterPressed) => Some(GameState::Playing),
        (GameState::GameOver, GameEvent::RestartPressed) => Some(GameState::MainMenu),
        (GameState::Victory, GameEvent::RestartPressed) => Some(GameState::MainMenu),
        (GameState::Playing, GameEvent::PlayerDied) => Some(GameState::GameOver),
        _ => None,
    }
}

/// From every screen some sequence of at most three events leads back to
/// the main menu, and the menu is left only for play.
pub proof fn lemma_menu_reachable(s: GameState)
    ensures
        s == GameState::MainMenu
            || transition(s, GameEvent::RestartPressed) == Some(GameState::MainMenu)
            || (transition(s, GameEvent::PlayerDied) == Some(GameState::GameOver)
                && transition(GameState::GameOver, GameEvent::RestartPressed) == Some(GameState::MainMenu)),
        forall|e: GameEvent| #[trigger] transition(GameState::MainMenu, e) is Some ==> transition(GameState::MainMenu, e) == Some(GameState::Playing),
{
}

} // verus!

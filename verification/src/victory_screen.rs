//! The screen that is shown when the game is won.

use crate::state::{Entity, State};
use vstd::prelude::*;

verus! {

/// What the player has asked for and the screen has not yet done.
#[derive(Clone, Copy, PartialEq, Eq, Structural, Debug)]
pub struct GameState {
    pub transition_game: bool,
    pub transition_menu: bool,
    pub terminate: bool,
}

impl GameState {
    pub open spec fn spec_new() -> GameState {
        GameState { transition_game: false, transition_menu: false, terminate: false }
    }

    /// Nothing is asked for.
    #[verifier::when_used_as_spec(spec_new)]
    pub fn new() -> (g: GameState)
        ensures
            g == GameState::spec_new(),
    {
        GameState { transition_game: false, transition_menu: false, terminate: false }
    }
}

/// What follows the screen.
#[derive(Clone, Copy, PartialEq, Eq, Structural, Debug)]
pub enum SceneChange {
    /// The screen stays.
    Continue,
    /// A new game begins.
    ToGame,
    /// The main menu is shown.
    ToMenu,
    /// The program ends.
    Exit,
}

/// The world at the moment of victory, and what the player asks for next.
pub struct VictoryScreen {
    pub state: State,
    pub game_state: GameState,
}

/// The change that the requests in `game_state` lead to: a new game before
/// the menu, and the menu before the end.
pub open spec fn requested_change(game_state: GameState) -> SceneChange {
    if game_state.transition_game {
        SceneChange::ToGame
    } else if game_state.transition_menu {
        SceneChange::ToMenu
    } else if game_state.terminate {
        SceneChange::Exit
    } else {
        SceneChange::Continue
    }
}

/// The requests that are left when the change was made: the request for
/// the scene that follows is done with, the others stay.
pub open spec fn served(game_state: GameState) -> GameState {
    if game_state.transition_game {
        GameState {
            transition_game: false,
            transition_menu: game_state.transition_menu,
            terminate: game_state.terminate,
        }
    } else if game_state.transition_menu {
        GameState {
            transition_game: false,
            transition_menu: false,
            terminate: game_state.terminate,
        }
    } else {
        game_state
    }
}

/// The game is won when no zombie lives.
pub open spec fn won(entities: Seq<Entity>) -> bool {
    forall|i: int| 0 <= i < entities.len() ==> !(#[trigger] entities[i]).status.spec_is_zombie()
}

/// Whether the game is won.
pub fn is_won(state: &State) -> (r: bool)
    ensures
        r == won(state.entities@),
{
    let count: usize = state.entities.len();
    let mut i: usize = 0;
    while i < count
        invariant
            i <= count,
            count == state.entities@.len(),
            forall|k: int| 0 <= k < i ==> !(#[trigger] state.entities@[k]).status.spec_is_zombie(),
        decreases count - i,
    {
        if state.entities[i].status.is_zombie() {
            return false;
        }
        i += 1;
    }
    true
}

impl VictoryScreen {
    /// The screen over the world `state`, with nothing asked for.
    pub fn new(state: State) -> (screen: VictoryScreen)
        ensures
            screen.state == state,
            screen.game_state == GameState::spec_new(),
    {
        let game_state = GameState::new();
        VictoryScreen { state, game_state }
    }

    /// Decides, at the start of a frame, what follows the screen, and takes
    /// back the request that it serves. The world stays as it is.
    pub fn update(&mut self) -> (change: SceneChange)
        ensures
            change == requested_change(old(self).game_state),
            final(self).game_state == served(old(self).game_state),
            final(self).state == old(self).state,
    {
        if self.game_state.transition_game {
            self.game_state.transition_game = false;
            return SceneChange::ToGame;
        }
        if self.game_state.transition_menu {
            self.game_state.transition_menu = false;
            return SceneChange::ToMenu;
        }
        if self.game_state.terminate {
            return SceneChange::Exit;
        }
        SceneChange::Continue
    }
}

} // verus!

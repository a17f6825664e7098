use zombie_sim::initial_state::initial_state;
use zombie_sim::scalar::Scalar;
use zombie_sim::state::Status;
use zombie_sim::victory_screen::{is_won, GameState, SceneChange, VictoryScreen};

fn screen() -> VictoryScreen {
    let tenth = Scalar::from_raw(6554);
    VictoryScreen::new(initial_state(10, tenth, tenth, 42).unwrap())
}

fn asked(transition_game: bool, transition_menu: bool, terminate: bool) -> GameState {
    GameState { transition_game, transition_menu, terminate }
}

#[test]
fn new_screen_holds_the_world_and_asks_for_nothing() {
    let s = screen();
    assert_eq!(s.state.entities.len(), 10);
    assert_eq!(s.state.buildings.len(), 32);
    assert_eq!(s.state.money, 20);
    assert_eq!(s.game_state, GameState::new());
    assert_eq!(GameState::new(), asked(false, false, false));
}

#[test]
fn screen_stays_while_nothing_is_asked_for() {
    let mut s = screen();
    assert_eq!(s.update(), SceneChange::Continue);
    assert_eq!(s.update(), SceneChange::Continue);
    assert_eq!(s.game_state, GameState::new());
    assert_eq!(s.state.entities.len(), 10);
}

#[test]
fn new_game_is_served_once() {
    let mut s = screen();
    s.game_state.transition_game = true;
    assert_eq!(s.update(), SceneChange::ToGame);
    assert_eq!(s.game_state, GameState::new());
    assert_eq!(s.update(), SceneChange::Continue);
}

#[test]
fn menu_is_served_once() {
    let mut s = screen();
    s.game_state.transition_menu = true;
    assert_eq!(s.update(), SceneChange::ToMenu);
    assert_eq!(s.game_state, GameState::new());
    assert_eq!(s.update(), SceneChange::Continue);
}

#[test]
fn end_is_asked_for_until_it_comes() {
    let mut s = screen();
    s.game_state.terminate = true;
    assert_eq!(s.update(), SceneChange::Exit);
    assert_eq!(s.game_state, asked(false, false, true));
    assert_eq!(s.update(), SceneChange::Exit);
}

#[test]
fn new_game_comes_before_the_menu_and_the_menu_before_the_end() {
    let mut s = screen();
    s.game_state = asked(true, true, true);
    assert_eq!(s.update(), SceneChange::ToGame);
    assert_eq!(s.game_state, asked(false, true, true));
    assert_eq!(s.update(), SceneChange::ToMenu);
    assert_eq!(s.game_state, asked(false, false, true));
    assert_eq!(s.update(), SceneChange::Exit);
    assert_eq!(s.game_state, asked(false, false, true));
}

#[test]
fn game_is_won_when_no_zombie_lives() {
    let tenth = Scalar::from_raw(6554);
    let mut state = initial_state(10, tenth, tenth, 42).unwrap();
    assert!(!is_won(&state));
    state.entities[0].status = Status::Dead;
    assert!(is_won(&state));
    let last = state.entities[9].status;
    state.entities[0].status = last;
    assert!(is_won(&state));
    state.entities.clear();
    assert!(is_won(&state));
}

#[test]
fn game_is_not_won_while_the_last_zombie_lives() {
    let half = Scalar::from_raw(32768);
    let mut state = initial_state(4, half, half, 3).unwrap();
    assert!(!is_won(&state));
    state.entities[0].status = Status::Dead;
    assert!(!is_won(&state));
    state.entities[1].status = Status::Dead;
    assert!(is_won(&state));
}

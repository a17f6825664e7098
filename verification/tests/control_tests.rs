use zombie_sim::control::{issue_police_order, under_click, update_selected, PoliceOrder};
use zombie_sim::initial_state::initial_state;
use zombie_sim::scalar::Scalar;
use zombie_sim::state::{Affiliation, CopState, Entity, Role, State, Status, ZombieState};
use zombie_sim::vector2::Vector2;

fn v(x: i32, y: i32) -> Vector2 {
    Vector2::new(Scalar::from_int(x), Scalar::from_int(y))
}

fn raw(x: i32, y: i32) -> Vector2 {
    Vector2::new(Scalar::from_raw(x), Scalar::from_raw(y))
}

fn entity(position: Vector2, status: Status) -> Entity {
    Entity { position, velocity: Vector2::zero(), facing: v(0, 1), status }
}

fn zombie(x: i32, y: i32) -> Entity {
    let affiliation = Affiliation::Zombie { state: ZombieState::Roaming };
    entity(v(x, y), Status::Alive { health: Scalar::from_int(100), affiliation })
}

fn civilian(x: i32, y: i32) -> Entity {
    let affiliation = Affiliation::Human { infection: Scalar::zero(), role: Role::Civilian };
    entity(v(x, y), Status::Alive { health: Scalar::from_int(100), affiliation })
}

fn cop(x: i32, y: i32, rounds_in_magazine: u32, state: CopState) -> Entity {
    let role = Role::Cop { rounds_in_magazine, state };
    let affiliation = Affiliation::Human { infection: Scalar::zero(), role };
    entity(v(x, y), Status::Alive { health: Scalar::from_int(100), affiliation })
}

fn dead(x: i32, y: i32) -> Entity {
    entity(v(x, y), Status::Dead)
}

fn world(entities: Vec<Entity>) -> State {
    let mut state = initial_state(2, Scalar::zero(), Scalar::zero(), 1).unwrap();
    state.entities = entities;
    state
}

fn selected(state: &State) -> Vec<usize> {
    let mut s: Vec<usize> = state.selection.iter().copied().collect();
    s.sort();
    s
}

#[test]
fn click_falls_on_the_living_inside_their_circle() {
    assert!(under_click(civilian(3, 3), v(3, 3)));
    assert!(under_click(civilian(3, 3), raw(3 * 65536 + 32767, 3 * 65536)));
    assert!(!under_click(civilian(3, 3), raw(3 * 65536 + 32768, 3 * 65536)));
    assert!(!under_click(civilian(3, 3), raw(3 * 65536 + 30000, 3 * 65536 + 30000)));
    assert!(!under_click(dead(3, 3), v(3, 3)));
    assert!(!under_click(zombie(0, 0), raw(i32::MAX, i32::MIN)));
}

#[test]
fn click_selects_whom_it_falls_on() {
    let mut state = world(vec![civilian(0, 0), cop(5, 5, 6, CopState::Idle), zombie(9, 0)]);
    update_selected(&mut state, raw(5 * 65536 + 100, 5 * 65536 - 100));
    assert_eq!(selected(&state), vec![1]);
    update_selected(&mut state, v(9, 0));
    assert_eq!(selected(&state), vec![2]);
    assert_eq!(state.entities.len(), 3);
}

#[test]
fn click_selects_all_that_stand_under_it() {
    let mut state = world(vec![
        cop(5, 5, 6, CopState::Idle),
        civilian(0, 0),
        cop(5, 5, 6, CopState::Idle),
        dead(5, 5),
    ]);
    update_selected(&mut state, v(5, 5));
    assert_eq!(selected(&state), vec![0, 2]);
}

#[test]
fn click_on_the_ground_selects_nobody() {
    let mut state = world(vec![civilian(0, 0), cop(5, 5, 6, CopState::Idle)]);
    update_selected(&mut state, v(5, 5));
    assert_eq!(selected(&state), vec![1]);
    update_selected(&mut state, v(50, 50));
    assert!(state.selection.is_empty());
    let mut empty = world(vec![]);
    update_selected(&mut empty, v(0, 0));
    assert!(empty.selection.is_empty());
}

#[test]
fn selected_cops_go_where_they_are_sent() {
    let reloading = CopState::Reloading { reload_time_remaining: Scalar::from_int(2) };
    let mut state = world(vec![
        cop(0, 0, 6, CopState::Idle),
        cop(5, 5, 0, reloading),
        cop(9, 9, 6, CopState::Idle),
        civilian(1, 1),
        zombie(2, 2),
        dead(3, 3),
    ]);
    for i in [0, 1, 3, 4, 5] {
        state.selection.insert(i);
    }
    issue_police_order(PoliceOrder::Move, &mut state, v(7, -7));
    let moving = CopState::Moving { waypoint: v(7, -7) };
    assert_eq!(state.entities[0], cop(0, 0, 6, moving));
    assert_eq!(state.entities[1], cop(5, 5, 0, moving));
    assert_eq!(state.entities[2], cop(9, 9, 6, CopState::Idle));
    assert_eq!(state.entities[3], civilian(1, 1));
    assert_eq!(state.entities[4], zombie(2, 2));
    assert_eq!(state.entities[5], dead(3, 3));
    assert_eq!(selected(&state), vec![0, 1, 3, 4, 5]);
}

#[test]
fn selected_cops_aim_at_the_zombie_nearest_to_the_click() {
    let moving = CopState::Moving { waypoint: v(1, 1) };
    let mut state = world(vec![
        zombie(0, 9),
        cop(0, 0, 6, CopState::Idle),
        zombie(8, 8),
        cop(5, 5, 1, moving),
        cop(6, 6, 6, CopState::Idle),
    ]);
    state.selection.insert(1);
    state.selection.insert(3);
    issue_police_order(PoliceOrder::Attack, &mut state, v(9, 9));
    let aiming = CopState::Aiming { aim_time_remaining: Scalar::from_int(1), target_index: 2 };
    assert_eq!(state.entities[1], cop(0, 0, 6, aiming));
    assert_eq!(state.entities[3], cop(5, 5, 1, aiming));
    assert_eq!(state.entities[4], cop(6, 6, 6, CopState::Idle));
}

#[test]
fn cop_without_a_round_cannot_be_told_to_shoot() {
    let reloading = CopState::Reloading { reload_time_remaining: Scalar::from_int(2) };
    let mut state = world(vec![zombie(0, 9), cop(0, 0, 0, reloading)]);
    state.selection.insert(1);
    issue_police_order(PoliceOrder::Attack, &mut state, v(0, 9));
    assert_eq!(state.entities[1], cop(0, 0, 0, reloading));
}

#[test]
fn without_zombies_there_is_nobody_to_shoot() {
    let moving = CopState::Moving { waypoint: v(1, 1) };
    let mut state = world(vec![civilian(0, 9), cop(0, 0, 6, moving), dead(1, 1)]);
    state.selection.insert(1);
    issue_police_order(PoliceOrder::Attack, &mut state, v(0, 9));
    assert_eq!(state.entities[1], cop(0, 0, 6, moving));
}

#[test]
fn order_without_selection_changes_nothing() {
    let mut state = world(vec![zombie(0, 9), cop(0, 0, 6, CopState::Idle)]);
    issue_police_order(PoliceOrder::Move, &mut state, v(3, 3));
    issue_police_order(PoliceOrder::Attack, &mut state, v(3, 3));
    assert_eq!(state.entities, vec![zombie(0, 9), cop(0, 0, 6, CopState::Idle)]);
}

#[test]
fn selection_of_what_is_no_entity_is_passed_over() {
    let mut state = world(vec![cop(0, 0, 6, CopState::Idle)]);
    state.selection.insert(7);
    state.selection.insert(0);
    issue_police_order(PoliceOrder::Move, &mut state, v(3, 3));
    assert_eq!(state.entities, vec![cop(0, 0, 6, CopState::Moving { waypoint: v(3, 3) })]);
}

use rand::RngCore;
use zombie_sim::behaviour::Draw;
use zombie_sim::constants::COP_MAGAZINE_CAPACITY;
use zombie_sim::initial_state::initial_state;
use zombie_sim::motion::integrate;
use zombie_sim::scalar::Scalar;
use zombie_sim::state::{
    Affiliation, CopState, Entity, Projectile, Role, SoundEffect, State, Status, ZombieState,
};
use zombie_sim::update::{update, UpdateArgs};
use zombie_sim::vector2::{Rotation, Vector2};

fn v(x: i32, y: i32) -> Vector2 {
    Vector2::new(Scalar::from_int(x), Scalar::from_int(y))
}

fn raw(x: i32, y: i32) -> Vector2 {
    Vector2::new(Scalar::from_raw(x), Scalar::from_raw(y))
}

fn entity(position: Vector2, status: Status) -> Entity {
    Entity { position, velocity: Vector2::zero(), facing: v(0, 1), status }
}

fn zombie(x: i32, y: i32) -> Entity {
    let affiliation = Affiliation::Zombie { state: ZombieState::Roaming };
    entity(v(x, y), Status::Alive { health: Scalar::from_int(100), affiliation })
}

fn civilian(x: i32, y: i32) -> Entity {
    let affiliation = Affiliation::Human { infection: Scalar::zero(), role: Role::Civilian };
    entity(v(x, y), Status::Alive { health: Scalar::from_int(100), affiliation })
}

fn cop_status(rounds_in_magazine: u32, state: CopState) -> Status {
    let role = Role::Cop { rounds_in_magazine, state };
    Status::Alive {
        health: Scalar::from_int(100),
        affiliation: Affiliation::Human { infection: Scalar::zero(), role },
    }
}

fn cop(x: i32, y: i32, rounds: u32, state: CopState) -> Entity {
    entity(v(x, y), cop_status(rounds, state))
}

fn dead(x: i32, y: i32) -> Entity {
    entity(v(x, y), Status::Dead)
}

fn tenth() -> Scalar {
    Scalar::from_raw(6554)
}

fn world(entities: Vec<Entity>) -> State {
    let mut state = initial_state(2, Scalar::zero(), Scalar::zero(), 1).unwrap();
    state.entities = entities;
    state
}

fn args(dt: Scalar) -> UpdateArgs {
    UpdateArgs { dt, draws: vec![] }
}

fn magazine(status: Status) -> Option<u32> {
    match status {
        Status::Alive {
            affiliation: Affiliation::Human { role: Role::Cop { rounds_in_magazine, .. }, .. },
            ..
        } => Some(rounds_in_magazine),
        _ => None,
    }
}

#[test]
fn entity_moves_by_its_velocity_before_the_damping() {
    let mut e = civilian(3, 4);
    e.velocity = v(2, -1);
    let half = Scalar::from_raw(32768);
    let moved = e.integrated(half);
    // the offset is v * dt = (1, -0.5)
    assert_eq!(moved.position, raw(4 * 65536, 4 * 65536 - 32768));
    // the velocity is v - 0.5 * v * dt = (1.5, -0.75)
    assert_eq!(moved.velocity, raw(98304, -49152));
    assert_eq!(moved.facing, e.facing);
    assert_eq!(moved.status, e.status);
}

#[test]
fn entity_at_rest_stays() {
    let e = civilian(3, 4);
    assert_eq!(e.integrated(tenth()), e);
    let mut far = civilian(0, 0);
    far.position = raw(i32::MIN, i32::MAX);
    assert_eq!(far.integrated(tenth()), far);
}

#[test]
fn offset_and_damping_round_toward_zero() {
    let mut e = civilian(0, 0);
    e.velocity = raw(-3, 3);
    let moved = e.integrated(Scalar::from_int(1));
    assert_eq!(moved.position, raw(-3, 3));
    assert_eq!(moved.velocity, raw(-2, 2));
    let mut e = civilian(0, 0);
    e.velocity = raw(1, -1);
    let moved = e.integrated(Scalar::from_raw(65535));
    assert_eq!(moved.position, raw(0, 0));
    assert_eq!(moved.velocity, raw(1, -1));
}

#[test]
fn position_saturates_at_the_edge_of_the_plane() {
    let mut e = civilian(0, 0);
    e.position = raw(i32::MAX - 10, i32::MIN + 10);
    e.velocity = v(1, -1);
    let moved = e.integrated(Scalar::from_int(1));
    assert_eq!(moved.position, raw(i32::MAX, i32::MIN));
    assert_eq!(moved.velocity, raw(32768, -32768));
}

#[test]
fn every_entity_moves_in_the_third_pass() {
    let mut a = civilian(0, 0);
    a.velocity = v(1, 0);
    let mut b = dead(5, 5);
    b.velocity = v(0, -2);
    let c = zombie(9, 9);
    let mut es = vec![a, b, c];
    integrate(Scalar::from_raw(32768), &mut es);
    assert_eq!(es[0].position, raw(32768, 0));
    assert_eq!(es[0].velocity, raw(65536 - 16384, 0));
    assert_eq!(es[1].position, raw(5 * 65536, 4 * 65536));
    assert_eq!(es[1].velocity, raw(0, -2 * 65536 + 32768));
    assert_eq!(es[2], c);
    let mut none: Vec<Entity> = vec![];
    integrate(tenth(), &mut none);
    assert!(none.is_empty());
}

#[test]
fn the_dead_lie_still_through_any_number_of_ticks() {
    let mut state = world(vec![dead(0, 0), zombie(0, 0), civilian(3, 0), dead(3, 0)]);
    state.entities[3].facing = v(1, 0);
    for _ in 0..50 {
        update(&args(tenth()), &mut state);
        assert_eq!(state.entities[0], dead(0, 0));
        let mut lying = dead(3, 0);
        lying.facing = v(1, 0);
        assert_eq!(state.entities[3], lying);
    }
}

#[test]
fn the_dead_only_drift() {
    let mut corpse = dead(0, 0);
    corpse.velocity = v(2, -1);
    let mut state = world(vec![corpse, zombie(0, 0), civilian(0, 0)]);
    let half = Scalar::from_raw(32768);
    update(&args(half), &mut state);
    assert_eq!(state.entities[0], corpse.integrated(half));
    assert_eq!(state.entities[0].position, raw(65536, -32768));
    update(&args(half), &mut state);
    assert_eq!(state.entities[0], corpse.integrated(half).integrated(half));
    assert!(state.entities[0].status.is_dead());
}

#[test]
fn the_dead_are_no_targets() {
    let aiming = CopState::Aiming { aim_time_remaining: tenth(), target_index: 1 };
    let mut state = world(vec![cop(0, 0, 6, aiming), dead(5, 0), zombie(50, 50), dead(9, 9)]);
    state.projectiles = vec![Projectile { position: v(9, 5), velocity: v(0, 40) }];
    let signals = update(&args(tenth()), &mut state);
    // the cop gives up its dead target, the zombie does not run to the dead
    // and the bullet flies through the dead
    assert_eq!(state.entities[0].status, cop_status(6, CopState::Idle));
    assert_eq!(state.entities[2].velocity.x.raw < 0, true);
    assert_eq!(state.entities[3], dead(9, 9));
    assert_eq!(state.entities[1], dead(5, 0));
    assert_eq!(state.projectiles.len(), 1);
    assert_eq!(state.projectiles[0].velocity, v(0, 40));
    assert!(signals.is_empty());
}

#[test]
fn zombies_never_turn_human() {
    let mut state = world(vec![zombie(0, 0), civilian(2, 0), cop(0, 3, 6, CopState::Idle), zombie(40, 40)]);
    let mut was_zombie = vec![false; 4];
    let mut was_dead = vec![false; 4];
    for _ in 0..300 {
        update(&args(tenth()), &mut state);
        for i in 0..4 {
            let s = state.entities[i].status;
            if was_zombie[i] {
                assert!(s.is_zombie() || s.is_dead());
            }
            if was_dead[i] {
                assert!(s.is_dead());
            }
            was_zombie[i] = was_zombie[i] || s.is_zombie();
            was_dead[i] = was_dead[i] || s.is_dead();
        }
    }
}

#[test]
fn touch_of_a_zombie_turns_a_human_within_the_tick() {
    let mut state = world(vec![zombie(0, 0), civilian(0, 0)]);
    state.entities[1].position = raw(0, 40000);
    let signals = update(&args(tenth()), &mut state);
    assert!(state.entities[0].status.is_zombie());
    assert!(state.entities[1].status.is_zombie());
    assert_eq!(signals, vec![SoundEffect::PersonInfected]);
    let signals = update(&args(tenth()), &mut state);
    assert!(signals.is_empty());
}

#[test]
fn passes_run_one_after_the_other() {
    // In one tick the cop fires, the bullet flies and kills the zombie
    // that stands in its way; the displacement of every entity is that of
    // the velocity it has after deciding and meeting.
    let aiming = CopState::Aiming { aim_time_remaining: tenth(), target_index: 1 };
    let mut state = world(vec![cop(0, 0, 3, aiming), zombie(2, 0)]);
    let signals = update(&args(tenth()), &mut state);
    assert_eq!(signals, vec![SoundEffect::Gunshot, SoundEffect::ZombieDead]);
    assert_eq!(state.entities[0].status, cop_status(2, CopState::Idle));
    assert!(state.entities[1].status.is_dead());
    // the zombie ran toward the cop for a tick before it died
    assert_eq!(state.entities[1].velocity, raw(-13108 + 655, 0));
    assert_eq!(state.entities[1].position, raw(2 * 65536 - 1310, 0));
    assert_eq!(state.projectiles.len(), 1);
    assert_eq!(state.projectiles[0].velocity, Vector2::zero());
    assert_eq!(state.projectiles[0].position, raw(36864 + 262160, 0));
    let signals = update(&args(tenth()), &mut state);
    assert!(state.projectiles.is_empty());
    assert!(signals.is_empty());
}

#[test]
fn tick_keeps_buildings_selection_generator_and_money() {
    let mut state = initial_state(10, tenth(), tenth(), 42).unwrap();
    state.selection.insert(1);
    let twin = initial_state(10, tenth(), tenth(), 42).unwrap();
    for _ in 0..5 {
        update(&args(tenth()), &mut state);
    }
    assert_eq!(state.entities.len(), 10);
    assert_eq!(state.buildings.len(), 32);
    for k in 0..32 {
        assert_eq!(state.buildings[k].0, twin.buildings[k].0);
        assert_eq!(state.building_outlines[k].0, twin.building_outlines[k].0);
    }
    assert_eq!(state.building_type, twin.building_type);
    assert_eq!(state.selection.len(), 1);
    assert!(state.selection.contains(&1));
    assert_eq!(state.money, 20);
    let mut a = state.rng;
    let mut b = twin.rng;
    assert_eq!(a.next_u64(), b.next_u64());
}

#[test]
fn tick_of_an_empty_world_does_nothing() {
    let mut state = world(vec![]);
    let signals = update(&args(tenth()), &mut state);
    assert!(signals.is_empty());
    assert!(state.entities.is_empty());
    assert!(state.projectiles.is_empty());
}

#[test]
fn draws_reach_the_cops_by_their_index() {
    let mut state = world(vec![zombie(20, 0), cop(0, 0, 6, CopState::Idle), cop(0, 5, 6, CopState::Idle)]);
    let long = Draw { aim_time: Scalar::from_int(7), deviation: Rotation::identity() };
    let short = Draw { aim_time: Scalar::from_raw(99), deviation: Rotation::identity() };
    let a = UpdateArgs { dt: tenth(), draws: vec![Draw::certain(), long, short] };
    update(&a, &mut state);
    let first = CopState::Aiming { aim_time_remaining: Scalar::from_int(7), target_index: 0 };
    let second = CopState::Aiming { aim_time_remaining: Scalar::from_raw(99), target_index: 0 };
    assert_eq!(state.entities[1].status, cop_status(6, first));
    assert_eq!(state.entities[2].status, cop_status(6, second));
}

#[test]
fn cop_without_a_draw_aims_for_the_mean_time() {
    let mut state = world(vec![zombie(20, 0), cop(0, 0, 6, CopState::Idle)]);
    update(&args(tenth()), &mut state);
    let aiming = CopState::Aiming { aim_time_remaining: Scalar::from_int(1), target_index: 0 };
    assert_eq!(state.entities[1].status, cop_status(6, aiming));
}

#[test]
fn empty_magazine_is_reloaded_in_the_world() {
    // alone in the world, an idle cop without a round reloads for three
    // seconds and is idle again with a full magazine
    let mut state = world(vec![cop(0, 0, 0, CopState::Idle)]);
    let half = Scalar::from_raw(32768);
    update(&args(half), &mut state);
    let reloading = CopState::Reloading { reload_time_remaining: Scalar::from_int(3) };
    assert_eq!(state.entities[0].status, cop_status(0, reloading));
    for _ in 0..5 {
        update(&args(half), &mut state);
        assert_eq!(magazine(state.entities[0].status), Some(0));
    }
    update(&args(half), &mut state);
    assert_eq!(state.entities[0].status, cop_status(COP_MAGAZINE_CAPACITY, CopState::Idle));
}

#[test]
fn ten_entities_for_a_hundred_ticks() {
    let mut state = initial_state(10, tenth(), tenth(), 42).unwrap();
    let cops = state.entities.iter().filter(|e| e.status.is_cop()).count();
    let zombies = state.entities.iter().filter(|e| e.status.is_zombie()).count();
    let humans = state.entities.iter().filter(|e| e.status.is_human()).count();
    assert_eq!((cops, zombies, humans), (1, 1, 9));
    let mut infected = zombies;
    let mut humans_before = humans;
    let mut was_zombie = vec![false; 10];
    for _ in 0..100 {
        update(&args(tenth()), &mut state);
        assert_eq!(state.entities.len(), 10);
        let mut now_infected = 0;
        let mut now_humans = 0;
        for i in 0..10 {
            let s = state.entities[i].status;
            if let Some(rounds) = magazine(s) {
                assert!(rounds <= COP_MAGAZINE_CAPACITY);
            }
            // who was ever a zombie counts as infected, dead or alive
            was_zombie[i] = was_zombie[i] || s.is_zombie();
            if was_zombie[i] {
                assert!(!s.is_human());
                now_infected += 1;
            }
            if s.is_human() {
                now_humans += 1;
            }
        }
        assert!(now_infected >= infected);
        assert!(now_humans <= humans_before);
        infected = now_infected;
        humans_before = now_humans;
    }
}

#[test]
fn a_thousand_ticks_in_a_crowd() {
    let mut state = initial_state(60, Scalar::from_raw(13107), tenth(), 7).unwrap();
    let quarter = Rotation { cos: Scalar::from_raw(63302), sin: Scalar::from_raw(-16962) };
    let draws: Vec<Draw> = (0..60)
        .map(|k| Draw { aim_time: Scalar::from_raw(2000 * k), deviation: quarter })
        .collect();
    let a = UpdateArgs { dt: Scalar::from_raw(1092), draws };
    let mut shots = 0;
    let mut deaths = 0;
    for _ in 0..1000 {
        let signals = update(&a, &mut state);
        shots += signals.iter().filter(|s| **s == SoundEffect::Gunshot).count();
        deaths += signals.iter().filter(|s| **s == SoundEffect::ZombieDead).count();
        for e in &state.entities {
            if let Some(rounds) = magazine(e.status) {
                assert!(rounds <= COP_MAGAZINE_CAPACITY);
            }
        }
    }
    let dead = state.entities.iter().filter(|e| e.status.is_dead()).count();
    assert_eq!(dead, deaths);
    assert!(shots >= deaths);
    assert!(shots > 0);
}

use zombie_sim::collision::{handle_collision, resolve_collisions, separation_impulse};
use zombie_sim::scalar::Scalar;
use zombie_sim::state::{
    Affiliation, CopState, Entity, Role, SoundEffect, Status, ZombieState,
};
use zombie_sim::vector2::Vector2;

fn v(x: i32, y: i32) -> Vector2 {
    Vector2::new(Scalar::from_int(x), Scalar::from_int(y))
}

fn raw(x: i32, y: i32) -> Vector2 {
    Vector2::new(Scalar::from_raw(x), Scalar::from_raw(y))
}

fn entity(position: Vector2, status: Status) -> Entity {
    Entity { position, velocity: Vector2::zero(), facing: v(0, 1), status }
}

fn zombie_status(health: i32) -> Status {
    Status::Alive {
        health: Scalar::from_int(health),
        affiliation: Affiliation::Zombie { state: ZombieState::Roaming },
    }
}

fn zombie(position: Vector2) -> Entity {
    entity(position, zombie_status(100))
}

fn civilian(position: Vector2) -> Entity {
    let affiliation = Affiliation::Human { infection: Scalar::zero(), role: Role::Civilian };
    entity(position, Status::Alive { health: Scalar::from_int(100), affiliation })
}

fn cop(position: Vector2) -> Entity {
    let role = Role::Cop { rounds_in_magazine: 4, state: CopState::Idle };
    let affiliation = Affiliation::Human { infection: Scalar::zero(), role };
    entity(position, Status::Alive { health: Scalar::from_int(80), affiliation })
}

fn dead(position: Vector2) -> Entity {
    entity(position, Status::Dead)
}

fn tenth() -> Scalar {
    Scalar::from_raw(6554)
}

#[test]
fn push_is_offset_times_time_over_distance_squared() {
    // 0.5 * 0.1 / 0.25 = 0.2
    assert_eq!(separation_impulse(raw(32768, 0), tenth()), raw(13108, 0));
    assert_eq!(separation_impulse(raw(0, -32768), tenth()), raw(0, -13108));
    // (0.3, 0.4) * 0.1 / 0.25 = (0.12, 0.16)
    assert_eq!(separation_impulse(raw(19661, 26214), tenth()), raw(7864, 10486));
}

#[test]
fn push_in_one_place_is_nothing() {
    assert_eq!(separation_impulse(Vector2::zero(), tenth()), Vector2::zero());
}

#[test]
fn push_at_the_least_distance_saturates() {
    assert_eq!(separation_impulse(raw(1, 0), Scalar::from_int(1)), raw(i32::MAX, 0));
    assert_eq!(separation_impulse(raw(0, -1), Scalar::from_int(1)), raw(0, i32::MIN));
}

#[test]
fn zombie_turns_the_human_it_touches() {
    let mut es = vec![civilian(v(0, 0)), zombie(raw(32768, 0))];
    let mut signals = vec![];
    handle_collision(tenth(), &mut es, &mut signals, 0, 1);
    assert_eq!(es[0].status, zombie_status(100));
    assert_eq!(es[1].status, zombie_status(100));
    assert_eq!(signals, vec![SoundEffect::PersonInfected]);

    let mut es = vec![zombie(v(0, 0)), cop(raw(32768, 0))];
    let mut signals = vec![SoundEffect::Gunshot];
    handle_collision(tenth(), &mut es, &mut signals, 0, 1);
    assert_eq!(es[0].status, zombie_status(100));
    // the cop keeps its health and loses its role
    assert_eq!(es[1].status, zombie_status(80));
    assert_eq!(signals, vec![SoundEffect::Gunshot, SoundEffect::PersonInfected]);
}

#[test]
fn those_that_touch_are_pushed_apart_alike() {
    let mut es = vec![civilian(v(0, 0)), civilian(raw(32768, 0))];
    es[0].velocity = v(1, 1);
    es[1].velocity = v(-1, 1);
    let mut signals = vec![];
    handle_collision(tenth(), &mut es, &mut signals, 0, 1);
    assert_eq!(es[0].velocity, raw(65536 - 13108, 65536));
    assert_eq!(es[1].velocity, raw(-65536 + 13108, 65536));
    assert_eq!(es[0].position, v(0, 0));
    assert_eq!(es[1].position, raw(32768, 0));
    assert!(signals.is_empty());
    assert!(es[0].status.is_human() && es[1].status.is_human());
}

#[test]
fn humans_do_not_infect_and_zombies_stay_zombies() {
    let mut es = vec![zombie(v(0, 0)), zombie(raw(32768, 0)), cop(v(0, 0)), civilian(raw(1, 1))];
    let mut signals = vec![];
    handle_collision(tenth(), &mut es, &mut signals, 0, 1);
    handle_collision(tenth(), &mut es, &mut signals, 2, 3);
    assert!(es[0].status.is_zombie() && es[1].status.is_zombie());
    assert!(es[2].status.is_cop() && es[3].status.is_human());
    assert!(signals.is_empty());
}

#[test]
fn pass_looks_at_every_pair_once() {
    for n in 0..8usize {
        let mut es: Vec<Entity> = (0..n).map(|k| civilian(v(10 * k as i32, 0))).collect();
        let before = es.clone();
        let mut signals = vec![];
        let examined = resolve_collisions(tenth(), &mut es, &mut signals);
        assert_eq!(examined, (n * n.saturating_sub(1) / 2) as u128);
        assert_eq!(es, before);
        assert!(signals.is_empty());
    }
}

#[test]
fn every_pair_that_touches_meets_once() {
    // three in a row, each a quarter from the next: every pair touches
    let mut es = vec![civilian(v(0, 0)), civilian(raw(16384, 0)), civilian(raw(32768, 0))];
    let mut signals = vec![];
    let examined = resolve_collisions(tenth(), &mut es, &mut signals);
    assert_eq!(examined, 3);
    let near = separation_impulse(raw(16384, 0), tenth());
    let far = separation_impulse(raw(32768, 0), tenth());
    assert_eq!(near, raw(26216, 0));
    assert_eq!(es[0].velocity, Vector2::zero().minus(near).minus(far));
    assert_eq!(es[1].velocity, Vector2::zero().plus(near).minus(near));
    assert_eq!(es[2].velocity, Vector2::zero().plus(far).plus(near));
}

#[test]
fn only_those_nearer_than_two_radii_meet() {
    let mut es = vec![zombie(v(0, 0)), civilian(v(1, 0)), civilian(raw(-65535, 0))];
    let mut signals = vec![];
    resolve_collisions(tenth(), &mut es, &mut signals);
    assert!(es[1].status.is_human());
    assert_eq!(es[1].velocity, Vector2::zero());
    assert!(es[2].status.is_zombie());
    assert_eq!(signals, vec![SoundEffect::PersonInfected]);
}

#[test]
fn infection_spreads_along_the_order_of_the_pairs() {
    // the zombie stands last: it turns the one in the middle, who has met
    // the first before and meets nobody after
    let mut es = vec![civilian(v(0, 0)), civilian(raw(49152, 0)), zombie(raw(98304, 0))];
    let mut signals = vec![];
    resolve_collisions(tenth(), &mut es, &mut signals);
    assert!(es[0].status.is_human());
    assert!(es[1].status.is_zombie());
    assert_eq!(signals, vec![SoundEffect::PersonInfected]);
    // the zombie stands first: it turns the one in the middle, who then
    // turns the last
    let mut es = vec![zombie(v(0, 0)), civilian(raw(49152, 0)), civilian(raw(98304, 0))];
    let mut signals = vec![];
    resolve_collisions(tenth(), &mut es, &mut signals);
    assert!(es[1].status.is_zombie());
    assert!(es[2].status.is_zombie());
    assert_eq!(signals, vec![SoundEffect::PersonInfected, SoundEffect::PersonInfected]);
}

#[test]
fn the_dead_meet_nobody() {
    let mut es = vec![dead(v(0, 0)), civilian(raw(100, 0)), zombie(raw(0, 100)), dead(raw(5, 5))];
    let before = vec![es[0], es[3]];
    let mut signals = vec![];
    resolve_collisions(tenth(), &mut es, &mut signals);
    assert_eq!(vec![es[0], es[3]], before);
    // the two living have met each other only
    let push = separation_impulse(es[2].position.minus(es[1].position), tenth());
    assert_eq!(es[1].velocity, Vector2::zero().minus(push));
    assert_eq!(es[2].velocity, push);
    assert!(es[1].status.is_zombie());
}

#[test]
fn those_in_one_place_infect_but_are_not_pushed() {
    let mut es = vec![zombie(v(3, 3)), cop(v(3, 3))];
    let mut signals = vec![];
    resolve_collisions(tenth(), &mut es, &mut signals);
    assert!(es[1].status.is_zombie());
    assert_eq!(es[0].velocity, Vector2::zero());
    assert_eq!(es[1].velocity, Vector2::zero());
}

use rand::{Rng, RngCore, SeedableRng};
use rand_xorshift::XorShiftRng;
use zombie_sim::constants::{COP_MAGAZINE_CAPACITY, ENTITY_HEALTH_MAX, SPAWN_AREA_SIDE};
use zombie_sim::geometry::Polygon;
use zombie_sim::initial_state::{
    at, building, building_type_of, direction, first_status, initial_state, share_of, spawn,
    GenerationError, BLOCK_COUNT, BUILDING_COUNT,
};
use zombie_sim::scalar::Scalar;
use zombie_sim::state::{Affiliation, CopState, Role, State, Status, ZombieState};
use zombie_sim::vector2::Vector2;

fn tenth() -> Scalar {
    Scalar::from_raw(6554)
}

fn make(entity_count: u32, seed: u32) -> State {
    initial_state(entity_count, tenth(), tenth(), seed).unwrap()
}

fn v(x: i32, y: i32) -> Vector2 {
    Vector2::new(Scalar::from_int(x), Scalar::from_int(y))
}

fn halves(x: i32, y: i32) -> Vector2 {
    Vector2::new(Scalar::from_raw(x * 32768), Scalar::from_raw(y * 32768))
}

#[test]
fn share_is_the_rounded_product() {
    assert_eq!(share_of(10, tenth()), 1);
    assert_eq!(share_of(100, tenth()), 10);
    assert_eq!(share_of(10, Scalar::from_raw(16384)), 3); // 2.5 rounds up
    assert_eq!(share_of(10, Scalar::from_raw(16383)), 2); // just under 2.5
    assert_eq!(share_of(10, Scalar::from_raw(9830)), 1); // 1.4999 rounds down
    assert_eq!(share_of(10, Scalar::from_int(1)), 10);
    assert_eq!(share_of(7, Scalar::from_int(3)), 21);
}

#[test]
fn share_is_one_at_the_least() {
    assert_eq!(share_of(10, Scalar::zero()), 1);
    assert_eq!(share_of(0, Scalar::from_int(1)), 1);
    assert_eq!(share_of(1000, Scalar::from_raw(1)), 1);
    assert_eq!(share_of(10, Scalar::from_int(-1)), 1);
    assert_eq!(share_of(u32::MAX, Scalar::from_raw(i32::MIN)), 1);
}

#[test]
fn share_of_the_largest_numbers() {
    // (2^31 - 1) * (2^32 - 1) / 2^16, rounded
    assert_eq!(share_of(u32::MAX, Scalar::from_raw(i32::MAX)), 140737488257024);
}

#[test]
fn ten_entities_are_one_zombie_one_cop_and_eight_civilians() {
    let state = make(10, 42);
    assert_eq!(state.entities.len(), 10);
    assert!(state.entities[0].status.is_zombie());
    assert!(state.entities[1].status.is_cop());
    for i in 2..10 {
        assert!(state.entities[i].status.is_human());
        assert!(!state.entities[i].status.is_cop());
    }
}

#[test]
fn the_infected_come_first_and_the_cops_next() {
    let state = initial_state(20, Scalar::from_raw(16384), tenth(), 7).unwrap();
    // a quarter of 20 are cops, a tenth are zombies
    for i in 0..20 {
        let s = state.entities[i].status;
        assert_eq!(s.is_zombie(), i < 2);
        assert_eq!(s.is_cop(), 2 <= i && i < 7);
        assert_eq!(s.is_human(), 2 <= i);
    }
}

#[test]
fn first_statuses_are_in_full_health() {
    let health = Scalar::from_raw(ENTITY_HEALTH_MAX);
    assert_eq!(
        first_status(0, 1, 1),
        Status::Alive { health, affiliation: Affiliation::Zombie { state: ZombieState::Roaming } }
    );
    assert_eq!(
        first_status(1, 1, 1),
        Status::Alive {
            health,
            affiliation: Affiliation::Human {
                infection: Scalar::zero(),
                role: Role::Cop {
                    rounds_in_magazine: COP_MAGAZINE_CAPACITY,
                    state: CopState::Idle
                },
            },
        }
    );
    assert_eq!(
        first_status(2, 1, 1),
        Status::Alive {
            health,
            affiliation: Affiliation::Human { infection: Scalar::zero(), role: Role::Civilian },
        }
    );
}

#[test]
fn first_status_does_not_overflow() {
    assert!(first_status(u32::MAX, u32::MAX, u32::MAX).is_human());
    assert!(first_status(u32::MAX - 1, u32::MAX, u32::MAX).is_zombie());
    assert!(first_status(5, 5, 0).is_human());
    assert!(!first_status(5, 5, 0).is_cop());
}

#[test]
fn too_many_cops_and_infected_are_refused() {
    let half = Scalar::from_raw(32768);
    let most = Scalar::from_raw(39322);
    assert_eq!(initial_state(10, most, half, 1).err(), Some(GenerationError::TooManyCopsAndInfected));
    assert_eq!(initial_state(1, tenth(), tenth(), 1).err(), Some(GenerationError::TooManyCopsAndInfected));
    assert_eq!(initial_state(0, tenth(), tenth(), 1).err(), Some(GenerationError::TooManyCopsAndInfected));
    assert_eq!(
        initial_state(10, Scalar::from_int(2), tenth(), 1).err(),
        Some(GenerationError::TooManyCopsAndInfected)
    );
}

#[test]
fn cops_and_infected_may_be_all_entities() {
    let half = Scalar::from_raw(32768);
    let state = initial_state(10, half, half, 1).unwrap();
    for i in 0..10 {
        assert_eq!(state.entities[i].status.is_zombie(), i < 5);
        assert_eq!(state.entities[i].status.is_cop(), i >= 5);
    }
    let two = initial_state(2, Scalar::zero(), Scalar::zero(), 1).unwrap();
    assert!(two.entities[0].status.is_zombie());
    assert!(two.entities[1].status.is_cop());
}

#[test]
fn entities_stand_still_inside_the_spawn_area() {
    let state = make(200, 5);
    for e in &state.entities {
        assert!(0 <= e.position.x.raw && e.position.x.raw < SPAWN_AREA_SIDE);
        assert!(0 <= e.position.y.raw && e.position.y.raw < SPAWN_AREA_SIDE);
        assert_eq!(e.velocity, Vector2::zero());
        let f = e.facing.norm2_wide();
        let one: u128 = 65536 * 65536;
        assert!(f < one + 4 * 65536 && f > one - 4 * 65536);
    }
}

#[test]
fn places_come_from_the_seeded_generator() {
    let state = make(10, 42);
    let mut rng = XorShiftRng::seed_from_u64(42);
    for e in &state.entities {
        let x: i32 = rng.gen_range(0, 6553600);
        let y: i32 = rng.gen_range(0, 6553600);
        let first: i32 = rng.gen_range(-65536, 65536);
        let second: i32 = rng.gen_range(-65536, 65536);
        assert_eq!(e.position, Vector2::new(Scalar::from_raw(x), Scalar::from_raw(y)));
        assert_eq!(e.facing, direction(first, second));
    }
    let mut kept = state.rng;
    assert_eq!(kept.next_u32(), rng.next_u32());
    assert_eq!(kept.next_u64(), rng.next_u64());
}

#[test]
fn spawn_draws_place_and_facing() {
    let mut rng = XorShiftRng::seed_from_u64(9);
    let mut twin = XorShiftRng::seed_from_u64(9);
    let e = spawn(&mut rng, 3, 1, 1);
    let x: i32 = twin.gen_range(0, 6553600);
    let y: i32 = twin.gen_range(0, 6553600);
    let first: i32 = twin.gen_range(-65536, 65536);
    let second: i32 = twin.gen_range(-65536, 65536);
    assert_eq!(e.position, Vector2::new(Scalar::from_raw(x), Scalar::from_raw(y)));
    assert_eq!(e.facing, direction(first, second));
    assert_eq!(e.velocity, Vector2::zero());
    assert_eq!(e.status, first_status(3, 1, 1));
    assert_eq!(rng.next_u32(), twin.next_u32());
}

#[test]
fn entities_differ_in_their_places() {
    let state = make(50, 3);
    for i in 0..50 {
        for j in 0..i {
            assert_ne!(state.entities[i].position, state.entities[j].position);
        }
    }
}

#[test]
fn same_seed_same_world() {
    let a = make(50, 42);
    let b = make(50, 42);
    assert_eq!(a.entities, b.entities);
    assert_eq!(a.projectiles, b.projectiles);
    assert_eq!(a.building_type, b.building_type);
    assert_eq!(a.selection, b.selection);
    assert_eq!(a.money, b.money);
    for k in 0..a.buildings.len() {
        assert_eq!(a.buildings[k].0, b.buildings[k].0);
        assert_eq!(a.building_outlines[k].0, b.building_outlines[k].0);
    }
    let mut ra = a.rng;
    let mut rb = b.rng;
    assert_eq!(ra.next_u64(), rb.next_u64());
}

#[test]
fn other_seed_other_places() {
    let a = make(10, 42);
    let b = make(10, 43);
    assert_ne!(a.entities, b.entities);
    assert_ne!(a.entities[0].position, a.entities[1].position);
}

#[test]
fn direction_has_length_one() {
    assert_eq!(direction(65535, 0), v(1, 0));
    assert_eq!(direction(0, -65536), v(0, -1));
    assert_eq!(direction(3, 0), v(1, 0));
    assert_eq!(
        direction(-65536, -65536),
        Vector2::new(Scalar::from_raw(-46340), Scalar::from_raw(-46340))
    );
    assert_eq!(
        direction(3 * 65536, -4 * 65536),
        Vector2::new(Scalar::from_raw(39321), Scalar::from_raw(-52428))
    );
}

#[test]
fn direction_of_the_middle_is_up() {
    assert_eq!(direction(0, 0), v(0, 1));
}

#[test]
fn direction_of_the_farthest_points_does_not_overflow() {
    assert_eq!(
        direction(i32::MIN, i32::MAX),
        Vector2::new(Scalar::from_raw(-46340), Scalar::from_raw(46340))
    );
}

#[test]
fn world_starts_without_projectiles_or_selection_and_with_money() {
    let state = make(10, 42);
    assert!(state.projectiles.is_empty());
    assert!(state.selection.is_empty());
    assert_eq!(state.money, 20);
}

#[test]
fn there_are_thirty_two_buildings_each_with_its_outline() {
    let state = make(10, 42);
    assert_eq!(BUILDING_COUNT, 32);
    assert_eq!(BLOCK_COUNT, 21);
    assert_eq!(state.buildings.len(), 32);
    assert_eq!(state.building_outlines.len(), 32);
    for k in 0..32 {
        assert_eq!(state.buildings[k].0, building(k).0);
        let margin = Scalar::from_raw(36045);
        assert_eq!(state.building_outlines[k].0, building(k).outline(margin).0);
        assert_eq!(state.building_outlines[k].num_sides(), state.buildings[k].num_sides());
    }
}

#[test]
fn blocks_stand_in_columns_of_three() {
    assert_eq!(building(0).0, vec![v(-20, -20), v(-10, -20), v(-10, -10), v(-20, -10)]);
    assert_eq!(building(1).0, vec![v(-20, 0), v(-10, 0), v(-10, 10), v(-20, 10)]);
    assert_eq!(building(2).0, vec![v(-20, 20), v(-10, 20), v(-10, 30), v(-20, 30)]);
    assert_eq!(building(3).0, vec![v(0, -20), v(10, -20), v(10, -10), v(0, -10)]);
    assert_eq!(building(20).0, vec![v(100, 20), v(110, 20), v(110, 30), v(100, 30)]);
}

#[test]
fn landmarks_stand_round_the_square() {
    assert_eq!(building(21).0, vec![v(10, 40), v(30, 40), v(30, 50), v(20, 60), v(10, 60)]);
    assert_eq!(building(22).0, vec![v(70, 40), v(70, 60), v(60, 60), v(50, 50), v(50, 40)]);
    assert_eq!(
        building(23).0,
        vec![
            halves(65, 125),
            halves(75, 115),
            halves(85, 115),
            halves(95, 125),
            halves(95, 135),
            halves(85, 145),
            halves(75, 145),
            halves(65, 135),
        ]
    );
    assert_eq!(building(24).0, vec![v(-20, 40), v(-5, 40), v(-5, 70), v(-20, 70)]);
    assert_eq!(building(25).0, vec![v(95, 40), v(95, 70), v(80, 70), v(80, 40)]);
    assert_eq!(building(26).0, vec![v(10, 70), v(20, 70), v(30, 80), v(30, 90), v(10, 90)]);
    assert_eq!(building(27).0, vec![v(70, 70), v(70, 90), v(50, 90), v(50, 80), v(60, 70)]);
}

#[test]
fn walls_enclose_the_world() {
    assert_eq!(
        building(28).0,
        vec![halves(-50, -50), halves(230, -50), halves(230, -49), halves(-50, -49)]
    );
    assert_eq!(
        building(29).0,
        vec![halves(229, -50), halves(230, -50), halves(230, 230), halves(229, 230)]
    );
    assert_eq!(
        building(30).0,
        vec![halves(-50, -50), halves(-49, -50), halves(-49, 230), halves(-50, 230)]
    );
    assert_eq!(
        building(31).0,
        vec![halves(-50, 229), halves(230, 229), halves(230, 230), halves(-50, 230)]
    );
}

#[test]
fn walls_lie_beyond_the_spawn_area_on_all_four_sides() {
    let side = SPAWN_AREA_SIDE;
    for j in 0..4 {
        assert!(building(28).0[j].y.raw < 0);
        assert!(building(29).0[j].x.raw >= side);
        assert!(building(30).0[j].x.raw < 0);
        assert!(building(31).0[j].y.raw >= side);
    }
    for k in [28, 31] {
        assert!(building(k).0[0].x.raw < 0 && building(k).0[1].x.raw >= side);
    }
    for k in [29, 30] {
        assert!(building(k).0[1].y.raw < 0 && building(k).0[2].y.raw >= side);
    }
}

fn cross(a: Vector2, b: Vector2) -> i128 {
    a.cross_wide(b)
}

#[test]
fn every_building_is_convex_and_runs_counter_clockwise() {
    for k in 0..32 {
        let b = building(k).0;
        let n = b.len();
        assert!(n >= 3);
        let mut area: i128 = 0;
        for j in 0..n {
            let before = b[(j + n - 1) % n];
            let here = b[j];
            let after = b[(j + 1) % n];
            let arriving = here.minus(before);
            let leaving = after.minus(here);
            // a turn to the left, by a right angle at the most
            assert!(cross(arriving, leaving) > 0);
            assert!(arriving.dot_wide(leaving) >= 0);
            area += cross(here, after);
        }
        assert!(area > 0);
    }
}

#[test]
fn every_outline_lies_outside_its_building() {
    let state = make(10, 42);
    for k in 0..32 {
        let b = &state.buildings[k].0;
        let o = &state.building_outlines[k].0;
        let n = b.len();
        assert_eq!(o.len(), n);
        for j in 0..n {
            let before = b[(j + n - 1) % n];
            let here = b[j];
            let after = b[(j + 1) % n];
            // to the right of both edges that meet at the vertex
            assert!(cross(after.minus(here), o[j].minus(here)) < 0);
            assert!(cross(here.minus(before), o[j].minus(before)) < 0);
            // and as far from the vertex as the margin, but for rounding
            let d = o[j].minus(here).norm2_wide();
            let margin: u128 = 36045;
            assert!(d <= margin * margin && d > (margin - 2) * (margin - 2));
        }
    }
}

#[test]
fn outline_of_the_west_building_lies_round_it() {
    let outline = building(24).outline(Scalar::from_raw(36045)).0;
    let raw = |x: i32, y: i32| Vector2::new(Scalar::from_raw(x), Scalar::from_raw(y));
    assert_eq!(
        outline,
        vec![
            raw(-20 * 65536 - 25487, 40 * 65536 - 25487),
            raw(-5 * 65536 + 25487, 40 * 65536 - 25487),
            raw(-5 * 65536 + 25487, 70 * 65536 + 25487),
            raw(-20 * 65536 - 25487, 70 * 65536 + 25487),
        ]
    );
}

#[test]
fn at_counts_in_halves() {
    assert_eq!(at(3, -1), Vector2::new(Scalar::from_raw(98304), Scalar::from_raw(-32768)));
    assert_eq!(at(230, 229), halves(230, 229));
    assert_eq!(at(65535, -65536), Vector2::new(Scalar::from_raw(2147450880), Scalar::from_raw(i32::MIN)));
}

#[test]
fn at_saturates() {
    assert_eq!(at(65536, -65537), Vector2::new(Scalar::from_raw(i32::MAX), Scalar::from_raw(i32::MIN)));
    assert_eq!(at(i32::MAX, i32::MIN), Vector2::new(Scalar::from_raw(i32::MAX), Scalar::from_raw(i32::MIN)));
}

#[test]
fn every_building_has_a_type() {
    let state = make(10, 42);
    assert_eq!(state.building_type.len(), 32);
    for k in 0..21 {
        assert_eq!(state.building_type.get(&k), Some(&0));
        assert_eq!(building_type_of(k), Some(0));
    }
    let landmarks = [1, 2, 3, 4, 4, 5, 6];
    for k in 0..7 {
        assert_eq!(state.building_type.get(&(21 + k)), Some(&landmarks[k]));
        assert_eq!(building_type_of(21 + k), Some(landmarks[k]));
    }
    for k in 28..32 {
        assert_eq!(state.building_type.get(&k), Some(&7));
        assert_eq!(building_type_of(k), Some(7));
    }
    for k in 0..state.buildings.len() {
        assert!(state.building_type.contains_key(&k));
    }
}

#[test]
fn what_is_no_building_has_no_type() {
    let state = make(10, 42);
    assert_eq!(state.building_type.get(&32), None);
    assert_eq!(building_type_of(32), None);
    assert_eq!(building_type_of(1000), None);
    assert_eq!(building_type_of(usize::MAX), None);
}

#[test]
fn outline_of_a_block_lies_round_the_block() {
    let block: Polygon = building(4);
    let outline = block.outline(Scalar::from_raw(36045));
    assert_eq!(
        outline.0,
        vec![
            Vector2::new(Scalar::from_raw(-25487), Scalar::from_raw(-25487)),
            Vector2::new(Scalar::from_raw(655360 + 25487), Scalar::from_raw(-25487)),
            Vector2::new(Scalar::from_raw(655360 + 25487), Scalar::from_raw(655360 + 25487)),
            Vector2::new(Scalar::from_raw(-25487), Scalar::from_raw(655360 + 25487)),
        ]
    );
}

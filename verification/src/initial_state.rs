//! The world at the start: who lives where, and what is built.

use crate::constants::{
    COP_MAGAZINE_CAPACITY, ENTITY_HEALTH_MAX, INFECTION_MIN, OUTLINE_MARGIN, SPAWN_AREA_SIDE,
    STARTING_MONEY,
};
use crate::geometry::{outline_vertices, Polygon};
use crate::layout::lemma_buildings_are_convex;
use crate::outline::is_gently_convex;
use crate::rng::{
    draw_in_range, generator_words, range_draw, seeded_generator, seeded_words, XorShiftWords,
};
use crate::scalar::{saturate, saturate_i128, Scalar, MINUS_ONE_RAW, ONE_RAW};
use crate::state::{
    Affiliation, CopState, Entity, Role, State, StateView, Status, ZombieState,
};
use crate::vector2::{is_unit, Vector2};
use rand_xorshift::XorShiftRng;
use std::collections::{HashMap, HashSet};
use vstd::prelude::*;

verus! {

/// Why no world can be made.
#[derive(Clone, Copy, PartialEq, Eq, Structural, Debug)]
pub enum GenerationError {
    /// The cops and the infected together are more than all entities.
    TooManyCopsAndInfected,
}

/// The number of entities that the share `fraction` of `entity_count`
/// stands for: the product, rounded to the nearest whole number, and one at
/// the least.
pub open spec fn share(entity_count: u32, fraction: Scalar) -> int {
    let rounded = (fraction.raw * entity_count + 32768) / 65536;
    if rounded < 1 {
        1
    } else {
        rounded
    }
}

/// Computes `share`.
pub fn share_of(entity_count: u32, fraction: Scalar) -> (n: i128)
    ensures
        n == share(entity_count, fraction),
        1 <= n <= 0x1_0000_0000_0000,
{
    assert(-0x8000_0000_0000_0000 <= fraction.raw * entity_count <= 0x8000_0000_0000_0000)
        by (nonlinear_arith)
        requires
            -0x8000_0000 <= fraction.raw <= 0x8000_0000,
            0 <= entity_count <= 0x1_0000_0000,
    ;
    let product: i128 = (fraction.raw as i128) * (entity_count as i128);
    if product + 32768 < 65536 {
        1
    } else {
        (product + 32768) / 65536
    }
}

/// Whether a place lies in the spawn area: the square from the origin with
/// the side `SPAWN_AREA_SIDE`, without its upper edges.
pub open spec fn in_spawn_area(place: Vector2) -> bool {
    0 <= place.x.raw < SPAWN_AREA_SIDE && 0 <= place.y.raw < SPAWN_AREA_SIDE
}

/// The facing that belongs to a point picked in the square from -1 to 1:
/// the direction of the point, and straight up where the point is the
/// middle.
pub open spec fn spec_direction(x: i32, y: i32) -> Vector2 {
    let picked = Vector2 { x: Scalar { raw: x }, y: Scalar { raw: y } };
    if picked.spec_normalized() == Vector2::spec_zero() {
        Vector2 { x: Scalar { raw: 0 }, y: Scalar { raw: 65536 } }
    } else {
        picked.spec_normalized()
    }
}

#[verifier::when_used_as_spec(spec_direction)]
pub fn direction(x: i32, y: i32) -> (d: Vector2)
    ensures
        d == spec_direction(x, y),
        is_unit(d),
{
    let picked = Vector2 { x: Scalar { raw: x }, y: Scalar { raw: y } };
    let unit = picked.normalized();
    if unit == Vector2::zero() {
        let up = Vector2 { x: Scalar { raw: 0 }, y: Scalar { raw: 65536 } };
        assert(up.norm2() == 0x1_0000_0000int);
        up
    } else {
        proof {
            assert(picked.norm2() > 0) by (nonlinear_arith)
                requires
                    picked.norm2() != 0,
                    picked.norm2() == picked.x.raw * picked.x.raw + picked.y.raw * picked.y.raw,
            ;
            picked.lemma_normalized_is_unit();
        }
        unit
    }
}

/// The status of entity `index` at the start: the first `infected` are
/// zombies, the next `cops` are idle cops with a full magazine, the others
/// civilians; all are in full health, and the humans are not infected.
pub open spec fn spec_first_status(index: int, infected: int, cops: int) -> Status {
    Status::Alive {
        health: Scalar { raw: ENTITY_HEALTH_MAX },
        affiliation: if index < infected {
            Affiliation::Zombie { state: ZombieState::Roaming }
        } else {
            Affiliation::Human {
                infection: Scalar { raw: INFECTION_MIN },
                role: if index < infected + cops {
                    Role::Cop { rounds_in_magazine: COP_MAGAZINE_CAPACITY, state: CopState::Idle }
                } else {
                    Role::Civilian
                },
            }
        },
    }
}

pub fn first_status(index: u32, infected: u32, cops: u32) -> (s: Status)
    ensures
        s == spec_first_status(index as int, infected as int, cops as int),
        s.wf(),
{
    let affiliation = if index < infected {
        Affiliation::Zombie { state: ZombieState::Roaming }
    } else {
        let role = if index - infected < cops {
            Role::Cop { rounds_in_magazine: COP_MAGAZINE_CAPACITY, state: CopState::Idle }
        } else {
            Role::Civilian
        };
        Affiliation::Human { infection: Scalar::from_raw(INFECTION_MIN), role }
    };
    Status::Alive { health: Scalar::from_raw(ENTITY_HEALTH_MAX), affiliation }
}

/// Entity `index` as it is made by a generator that holds `words`: it
/// stands still at a place drawn in the spawn area, one coordinate after
/// the other, and faces the direction of a point drawn next in the square
/// from -1 to 1.
pub open spec fn spawned_entity(words: XorShiftWords, index: int, infected: int, cops: int) -> Entity {
    let x = range_draw(words, 0, SPAWN_AREA_SIDE);
    let y = range_draw(x.words, 0, SPAWN_AREA_SIDE);
    let first = range_draw(y.words, MINUS_ONE_RAW, ONE_RAW);
    let second = range_draw(first.words, MINUS_ONE_RAW, ONE_RAW);
    Entity {
        position: Vector2 { x: Scalar { raw: x.value }, y: Scalar { raw: y.value } },
        velocity: Vector2::spec_zero(),
        facing: spec_direction(first.value, second.value),
        status: spec_first_status(index, infected, cops),
    }
}

/// The words of a generator that held `words` and has made an entity.
pub open spec fn words_after_spawn(words: XorShiftWords) -> XorShiftWords {
    let x = range_draw(words, 0, SPAWN_AREA_SIDE);
    let y = range_draw(x.words, 0, SPAWN_AREA_SIDE);
    let first = range_draw(y.words, MINUS_ONE_RAW, ONE_RAW);
    range_draw(first.words, MINUS_ONE_RAW, ONE_RAW).words
}

/// The words of a generator that held `words` and has made `n` entities.
pub open spec fn words_after_spawns(words: XorShiftWords, n: nat) -> XorShiftWords
    decreases n,
{
    if n == 0 {
        words
    } else {
        words_after_spawn(words_after_spawns(words, (n - 1) as nat))
    }
}

/// The entities that a generator makes that starts with `words`.
pub open spec fn spawned(words: XorShiftWords, count: int, infected: int, cops: int) -> Seq<Entity> {
    Seq::new(
        count as nat,
        |i: int| spawned_entity(words_after_spawns(words, i as nat), i, infected, cops),
    )
}

/// Makes the next entity.
pub fn spawn(rng: &mut XorShiftRng, index: u32, infected: u32, cops: u32) -> (e: Entity)
    ensures
        e == spawned_entity(generator_words(*old(rng)), index as int, infected as int, cops as int),
        generator_words(*final(rng)) == words_after_spawn(generator_words(*old(rng))),
        e.wf(),
        in_spawn_area(e.position),
{
    let x = draw_in_range(rng, 0, SPAWN_AREA_SIDE);
    let y = draw_in_range(rng, 0, SPAWN_AREA_SIDE);
    let first = draw_in_range(rng, MINUS_ONE_RAW, ONE_RAW);
    let second = draw_in_range(rng, MINUS_ONE_RAW, ONE_RAW);
    Entity {
        position: Vector2 { x: Scalar { raw: x }, y: Scalar { raw: y } },
        velocity: Vector2::zero(),
        facing: direction(first, second),
        status: first_status(index, infected, cops),
    }
}

/// Number of buildings: the blocks of the neighbourhood, the landmarks of
/// the square, and the four walls of the world.
pub const BUILDING_COUNT: usize = 32;

/// Number of blocks in the neighbourhood, three to a column.
pub const BLOCK_COUNT: usize = 21;

/// The point whose coordinates are `x` and `y` halves, each saturated to
/// the range of a scalar.
pub open spec fn spec_at(x: int, y: int) -> Vector2 {
    Vector2 {
        x: Scalar { raw: saturate(x * 32768) as i32 },
        y: Scalar { raw: saturate(y * 32768) as i32 },
    }
}

pub fn at(x: i32, y: i32) -> (p: Vector2)
    ensures
        p == spec_at(x as int, y as int),
{
    Vector2 {
        x: Scalar { raw: saturate_i128((x as i128) * 32768) },
        y: Scalar { raw: saturate_i128((y as i128) * 32768) },
    }
}

/// The vertices of building `k`, in halves, counter-clockwise.
///
/// The blocks are squares of side 10 that stand 20 apart, column by column
/// from the west and in each column from the south. The landmarks stand
/// round the square; the walls are thin rectangles that enclose the world.
pub open spec fn template(k: int) -> Seq<Vector2> {
    if 0 <= k < BLOCK_COUNT {
        let x = -40 + 40 * (k / 3);
        let y = -40 + 40 * (k % 3);
        seq![spec_at(x, y), spec_at(x + 20, y), spec_at(x + 20, y + 20), spec_at(x, y + 20)]
    } else if k == 21 {
        // Southwest building in the square
        seq![spec_at(20, 80), spec_at(60, 80), spec_at(60, 100), spec_at(40, 120), spec_at(20, 120)]
    } else if k == 22 {
        // Southeast building in the square
        seq![
            spec_at(140, 80),
            spec_at(140, 120),
            spec_at(120, 120),
            spec_at(100, 100),
            spec_at(100, 80),
        ]
    } else if k == 23 {
        // Octagonal building in the middle of the square
        seq![
            spec_at(65, 125),
            spec_at(75, 115),
            spec_at(85, 115),
            spec_at(95, 125),
            spec_at(95, 135),
            spec_at(85, 145),
            spec_at(75, 145),
            spec_at(65, 135),
        ]
    } else if k == 24 {
        seq![spec_at(-40, 80), spec_at(-10, 80), spec_at(-10, 140), spec_at(-40, 140)]
    } else if k == 25 {
        seq![spec_at(190, 80), spec_at(190, 140), spec_at(160, 140), spec_at(160, 80)]
    } else if k == 26 {
        // Northwest building in the square
        seq![
            spec_at(20, 140),
            spec_at(40, 140),
            spec_at(60, 160),
            spec_at(60, 180),
            spec_at(20, 180),
        ]
    } else if k == 27 {
        // Northeast building in the square
        seq![
            spec_at(140, 140),
            spec_at(140, 180),
            spec_at(100, 180),
            spec_at(100, 160),
            spec_at(120, 140),
        ]
    } else if k == 28 {
        // Lower boundary
        seq![spec_at(-50, -50), spec_at(230, -50), spec_at(230, -49), spec_at(-50, -49)]
    } else if k == 29 {
        // Right boundary
        seq![spec_at(229, -50), spec_at(230, -50), spec_at(230, 230), spec_at(229, 230)]
    } else if k == 30 {
        // Left boundary
        seq![spec_at(-50, -50), spec_at(-49, -50), spec_at(-49, 230), spec_at(-50, 230)]
    } else {
        // Upper boundary
        seq![spec_at(-50, 229), spec_at(230, 229), spec_at(230, 230), spec_at(-50, 230)]
    }
}

/// The type of building `k`: 0 for a block, 1 to 6 for the landmarks, and
/// 7 for a wall. What is no building has no type.
pub open spec fn template_type(k: int) -> Option<u32> {
    if 0 <= k < BLOCK_COUNT {
        Some(0u32)
    } else if k == 21 {
        Some(1u32)
    } else if k == 22 {
        Some(2u32)
    } else if k == 23 {
        Some(3u32)
    } else if k == 24 || k == 25 {
        Some(4u32)
    } else if k == 26 {
        Some(5u32)
    } else if k == 27 {
        Some(6u32)
    } else if 28 <= k < BUILDING_COUNT {
        Some(7u32)
    } else {
        None
    }
}

/// Builds `template(k)`.
pub fn building(k: usize) -> (p: Polygon)
    requires
        k < BUILDING_COUNT,
    ensures
        p@ == template(k as int),
{
    let mut v: Vec<Vector2> = Vec::new();
    if k < BLOCK_COUNT {
        let x: i32 = -40 + 40 * ((k / 3) as i32);
        let y: i32 = -40 + 40 * ((k % 3) as i32);
        v.push(at(x, y));
        v.push(at(x + 20, y));
        v.push(at(x + 20, y + 20));
        v.push(at(x, y + 20));
    } else if k == 21 {
        v.push(at(20, 80));
        v.push(at(60, 80));
        v.push(at(60, 100));
        v.push(at(40, 120));
        v.push(at(20, 120));
    } else if k == 22 {
        v.push(at(140, 80));
        v.push(at(140, 120));
        v.push(at(120, 120));
        v.push(at(100, 100));
        v.push(at(100, 80));
    } else if k == 23 {
        v.push(at(65, 125));
        v.push(at(75, 115));
        v.push(at(85, 115));
        v.push(at(95, 125));
        v.push(at(95, 135));
        v.push(at(85, 145));
        v.push(at(75, 145));
        v.push(at(65, 135));
    } else if k == 24 {
        v.push(at(-40, 80));
        v.push(at(-10, 80));
        v.push(at(-10, 140));
        v.push(at(-40, 140));
    } else if k == 25 {
        v.push(at(190, 80));
        v.push(at(190, 140));
        v.push(at(160, 140));
        v.push(at(160, 80));
    } else if k == 26 {
        v.push(at(20, 140));
        v.push(at(40, 140));
        v.push(at(60, 160));
        v.push(at(60, 180));
        v.push(at(20, 180));
    } else if k == 27 {
        v.push(at(140, 140));
        v.push(at(140, 180));
        v.push(at(100, 180));
        v.push(at(100, 160));
        v.push(at(120, 140));
    } else if k == 28 {
        v.push(at(-50, -50));
        v.push(at(230, -50));
        v.push(at(230, -49));
        v.push(at(-50, -49));
    } else if k == 29 {
        v.push(at(229, -50));
        v.push(at(230, -50));
        v.push(at(230, 230));
        v.push(at(229, 230));
    } else if k == 30 {
        v.push(at(-50, -50));
        v.push(at(-49, -50));
        v.push(at(-49, 230));
        v.push(at(-50, 230));
    } else {
        v.push(at(-50, 229));
        v.push(at(230, 229));
        v.push(at(230, 230));
        v.push(at(-50, 230));
    }
    assert(v@ =~= template(k as int));
    Polygon(v)
}

/// The type of building `k`.
pub fn building_type_of(k: usize) -> (t: Option<u32>)
    ensures
        t == template_type(k as int),
{
    if k < BLOCK_COUNT {
        Some(0)
    } else if k == 21 {
        Some(1)
    } else if k == 22 {
        Some(2)
    } else if k == 23 {
        Some(3)
    } else if k == 24 || k == 25 {
        Some(4)
    } else if k == 26 {
        Some(5)
    } else if k == 27 {
        Some(6)
    } else if k < BUILDING_COUNT {
        Some(7)
    } else {
        None
    }
}

/// The buildings of every world.
pub open spec fn layout() -> Seq<Seq<Vector2>> {
    Seq::new(BUILDING_COUNT as nat, |k: int| template(k))
}

/// The outlines of the buildings: each building, with every vertex moved
/// outward by the outline margin.
pub open spec fn layout_outlines() -> Seq<Seq<Vector2>> {
    Seq::new(
        BUILDING_COUNT as nat,
        |k: int| outline_vertices(template(k), Scalar { raw: OUTLINE_MARGIN }),
    )
}

/// The types of the buildings: every building has one.
pub open spec fn layout_types() -> Map<usize, u32> {
    Map::new(
        |k: usize| k < BUILDING_COUNT && template_type(k as int) is Some,
        |k: usize| template_type(k as int).unwrap(),
    )
}

/// The world that `initial_state` makes where the shares fit.
pub open spec fn generated(
    entity_count: u32,
    cop_entities: Scalar,
    infected_entities: Scalar,
    random_seed: u32,
) -> StateView {
    StateView {
        entities: spawned(
            seeded_words(random_seed as u64),
            entity_count as int,
            share(entity_count, infected_entities),
            share(entity_count, cop_entities),
        ),
        projectiles: Seq::empty(),
        buildings: layout(),
        building_outlines: layout_outlines(),
        building_type: layout_types(),
        selection: Set::empty(),
        rng: words_after_spawns(seeded_words(random_seed as u64), entity_count as nat),
        money: STARTING_MONEY,
    }
}

/// Makes the world at the start.
///
/// Of `entity_count` entities the first `share(entity_count,
/// infected_entities)` are zombies, the next `share(entity_count,
/// cop_entities)` are cops, and the others are civilians. Each is placed in
/// the spawn area by the generator that `random_seed` seeds, which the
/// world keeps. The world is made from these four numbers alone. No world
/// is made where the zombies and the cops together would be more than all
/// entities.
pub fn initial_state(
    entity_count: u32,
    cop_entities: Scalar,
    infected_entities: Scalar,
    random_seed: u32,
) -> (made: Result<State, GenerationError>)
    ensures
        match made {
            Ok(state) => share(entity_count, cop_entities) + share(entity_count, infected_entities)
                <= entity_count && state@ == generated(
                entity_count,
                cop_entities,
                infected_entities,
                random_seed,
            ) && state.wf() && forall|i: int|
                0 <= i < entity_count ==> in_spawn_area((#[trigger] state.entities@[i]).position),
            Err(e) => share(entity_count, cop_entities) + share(entity_count, infected_entities)
                > entity_count,
        },
{
    let cop_share: i128 = share_of(entity_count, cop_entities);
    let infected_share: i128 = share_of(entity_count, infected_entities);
    if cop_share + infected_share > entity_count as i128 {
        return Err(GenerationError::TooManyCopsAndInfected);
    }
    let cop_count: u32 = cop_share as u32;
    let infected_count: u32 = infected_share as u32;

    let mut rng = seeded_generator(random_seed as u64);
    let ghost seed = generator_words(rng);
    let mut entities: Vec<Entity> = Vec::new();
    let mut i: u32 = 0;
    while i < entity_count
        invariant
            i <= entity_count,
            entities@.len() == i,
            generator_words(rng) == words_after_spawns(seed, i as nat),
            forall|k: int|
                0 <= k < i ==> entities@[k] == spawned_entity(
                    words_after_spawns(seed, k as nat),
                    k,
                    infected_count as int,
                    cop_count as int,
                ),
            forall|k: int| 0 <= k < i ==> (#[trigger] entities@[k]).wf(),
            forall|k: int| 0 <= k < i ==> in_spawn_area((#[trigger] entities@[k]).position),
        decreases entity_count - i,
    {
        let e = spawn(&mut rng, i, infected_count, cop_count);
        entities.push(e);
        i += 1;
    }

    // Generate the buildings, and the outlines around them
    let mut buildings: Vec<Polygon> = Vec::new();
    let mut building_outlines: Vec<Polygon> = Vec::new();
    let mut building_type: HashMap<usize, u32> = HashMap::new();
    let mut k: usize = 0;
    while k < BUILDING_COUNT
        invariant
            k <= BUILDING_COUNT,
            buildings@.len() == k,
            building_outlines@.len() == k,
            forall|j: int| 0 <= j < k ==> (#[trigger] buildings@[j])@ == template(j),
            forall|j: int|
                0 <= j < k ==> (#[trigger] building_outlines@[j])@ == outline_vertices(
                    template(j),
                    Scalar { raw: OUTLINE_MARGIN },
                ),
            building_type@ == Map::new(
                |j: usize| j < k && template_type(j as int) is Some,
                |j: usize| template_type(j as int).unwrap(),
            ),
        decreases BUILDING_COUNT - k,
    {
        let polygon = building(k);
        let outline = polygon.outline(Scalar::from_raw(OUTLINE_MARGIN));
        let ghost types = building_type@;
        match building_type_of(k) {
            Some(t) => {
                building_type.insert(k, t);
            },
            None => {},
        }
        assert(building_type@ =~= Map::new(
            |j: usize| j < k + 1 && template_type(j as int) is Some,
            |j: usize| template_type(j as int).unwrap(),
        ));
        buildings.push(polygon);
        building_outlines.push(outline);
        k += 1;
    }

    let state = State {
        entities,
        projectiles: Vec::new(),
        buildings,
        building_outlines,
        building_type,
        selection: HashSet::new(),
        rng,
        money: STARTING_MONEY,
    };
    proof {
        let want = generated(entity_count, cop_entities, infected_entities, random_seed);
        assert(state@.entities =~= want.entities);
        assert(state@.buildings =~= want.buildings);
        assert(state@.building_outlines =~= want.building_outlines);
        assert(state@.building_type =~= want.building_type);
        assert forall|k: int| 0 <= k < state@.buildings.len() implies is_gently_convex(
            #[trigger] state@.buildings[k],
        ) by {
            assert(state@.buildings[k] == template(k));
            lemma_buildings_are_convex(k);
        }
        assert forall|k: int| 0 <= k < state@.buildings.len() implies #[trigger] state@.building_outlines[k]
            == outline_vertices(state@.buildings[k], Scalar { raw: OUTLINE_MARGIN }) by {
            assert(state@.buildings[k] == template(k));
        }
    }
    Ok(state)
}

} // verus!

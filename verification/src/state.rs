//! The world: entities, projectiles, buildings and what the player holds.

use crate::constants::{COP_MAGAZINE_CAPACITY, INFECTION_MAX, INFECTION_MIN, OUTLINE_MARGIN};
use crate::geometry::{outline_vertices, Polygon};
use crate::outline::is_gently_convex;
use crate::rng::{generator_words, XorShiftWords};
use crate::scalar::Scalar;
use crate::vector2::{is_unit, Vector2};
use rand_xorshift::XorShiftRng;
use std::collections::{HashMap, HashSet};
use vstd::prelude::*;

verus! {

/// What a zombie is doing.
#[derive(Clone, Copy, PartialEq, Eq, Structural, Debug)]
pub enum ZombieState {
    Roaming,
}

/// The task of a cop.
#[derive(Clone, Copy, PartialEq, Eq, Structural, Debug)]
pub enum CopState {
    Idle,
    Moving { waypoint: Vector2 },
    Aiming { aim_time_remaining: Scalar, target_index: usize },
    Reloading { reload_time_remaining: Scalar },
}

/// What a human does for a living.
#[derive(Clone, Copy, PartialEq, Eq, Structural, Debug)]
pub enum Role {
    Civilian,
    Cop { rounds_in_magazine: u32, state: CopState },
}

/// The side that an entity is on.
#[derive(Clone, Copy, PartialEq, Eq, Structural, Debug)]
pub enum Affiliation {
    Zombie { state: ZombieState },
    Human { infection: Scalar, role: Role },
}

/// Whether an entity lives.
#[derive(Clone, Copy, PartialEq, Eq, Structural, Debug)]
pub enum Status {
    Dead,
    Alive { health: Scalar, affiliation: Affiliation },
}

/// An agent of the simulation.
#[derive(Clone, Copy, PartialEq, Eq, Structural, Debug)]
pub struct Entity {
    pub position: Vector2,
    pub velocity: Vector2,
    /// The direction that the entity looks in, of length one.
    pub facing: Vector2,
    pub status: Status,
}

/// A bullet in flight.
#[derive(Clone, Copy, PartialEq, Eq, Structural, Debug)]
pub struct Projectile {
    pub position: Vector2,
    pub velocity: Vector2,
}

/// What a tick asks the sound player for.
#[derive(Clone, Copy, PartialEq, Eq, Structural, Debug)]
pub enum SoundEffect {
    Gunshot,
    PersonInfected,
    ZombieDead,
}

impl Status {
    pub open spec fn spec_is_dead(self) -> bool {
        self is Dead
    }

    #[verifier::when_used_as_spec(spec_is_dead)]
    pub fn is_dead(self) -> (r: bool)
        ensures
            r == self.spec_is_dead(),
    {
        match self {
            Status::Dead => true,
            Status::Alive { .. } => false,
        }
    }

    pub open spec fn spec_is_zombie(self) -> bool {
        self matches Status::Alive { affiliation: Affiliation::Zombie { .. }, .. }
    }

    /// Whether this is a living zombie.
    #[verifier::when_used_as_spec(spec_is_zombie)]
    pub fn is_zombie(self) -> (r: bool)
        ensures
            r == self.spec_is_zombie(),
    {
        match self {
            Status::Alive { affiliation: Affiliation::Zombie { .. }, .. } => true,
            _ => false,
        }
    }

    pub open spec fn spec_is_human(self) -> bool {
        self matches Status::Alive { affiliation: Affiliation::Human { .. }, .. }
    }

    /// Whether this is a living human, civilian or cop.
    #[verifier::when_used_as_spec(spec_is_human)]
    pub fn is_human(self) -> (r: bool)
        ensures
            r == self.spec_is_human(),
    {
        match self {
            Status::Alive { affiliation: Affiliation::Human { .. }, .. } => true,
            _ => false,
        }
    }

    pub open spec fn spec_is_cop(self) -> bool {
        self matches Status::Alive {
            affiliation: Affiliation::Human { role: Role::Cop { .. }, .. },
            ..
        }
    }

    /// Whether this is a living cop.
    #[verifier::when_used_as_spec(spec_is_cop)]
    pub fn is_cop(self) -> (r: bool)
        ensures
            r == self.spec_is_cop(),
    {
        match self {
            Status::Alive { affiliation: Affiliation::Human { role: Role::Cop { .. }, .. }, .. } => true,
            _ => false,
        }
    }

    /// What holds of the status of every entity of a world: the living have
    /// health, the infection of a human is at least the least and has not
    /// reached the one at which a human turns, a magazine is never fuller
    /// than full, and who aims has a round to fire and time left to aim.
    pub open spec fn wf(self) -> bool {
        match self {
            Status::Dead => true,
            Status::Alive { health, affiliation } => health.raw > 0 && match affiliation {
                Affiliation::Zombie { .. } => true,
                Affiliation::Human { infection, role } => INFECTION_MIN <= infection.raw
                    < INFECTION_MAX && match role {
                    Role::Civilian => true,
                    Role::Cop { rounds_in_magazine, state } => rounds_in_magazine
                        <= COP_MAGAZINE_CAPACITY && match state {
                        CopState::Aiming { aim_time_remaining, .. } => rounds_in_magazine >= 1
                            && aim_time_remaining.raw > 0,
                        _ => true,
                    },
                },
            },
        }
    }
}

impl Entity {
    /// What holds of every entity of a world: its status is well formed,
    /// and its facing has length one.
    pub open spec fn wf(self) -> bool {
        self.status.wf() && is_unit(self.facing)
    }
}

/// What a tick works on: the entities, the projectiles, and the signals
/// raised so far.
pub struct Tick {
    pub entities: Seq<Entity>,
    pub projectiles: Seq<Projectile>,
    pub signals: Seq<SoundEffect>,
}

/// The tick that works on the given lists.
pub open spec fn tick_of(
    entities: Seq<Entity>,
    projectiles: Seq<Projectile>,
    signals: Seq<SoundEffect>,
) -> Tick {
    Tick { entities, projectiles, signals }
}

/// A world and everything in it.
pub struct State {
    pub entities: Vec<Entity>,
    pub projectiles: Vec<Projectile>,
    pub buildings: Vec<Polygon>,
    pub building_outlines: Vec<Polygon>,
    pub building_type: HashMap<usize, u32>,
    pub selection: HashSet<usize>,
    pub rng: XorShiftRng,
    pub money: u32,
}

/// The vertex lists of a list of polygons.
pub open spec fn vertex_lists(polygons: Seq<Polygon>) -> Seq<Seq<Vector2>> {
    polygons.map_values(|p: Polygon| p@)
}

/// A world as plain values.
pub struct StateView {
    pub entities: Seq<Entity>,
    pub projectiles: Seq<Projectile>,
    pub buildings: Seq<Seq<Vector2>>,
    pub building_outlines: Seq<Seq<Vector2>>,
    pub building_type: Map<usize, u32>,
    pub selection: Set<usize>,
    pub rng: XorShiftWords,
    pub money: u32,
}

impl View for State {
    type V = StateView;

    open spec fn view(&self) -> StateView {
        StateView {
            entities: self.entities@,
            projectiles: self.projectiles@,
            buildings: vertex_lists(self.buildings@),
            building_outlines: vertex_lists(self.building_outlines@),
            building_type: self.building_type@,
            selection: self.selection@,
            rng: generator_words(self.rng),
            money: self.money,
        }
    }
}

impl StateView {
    /// What holds of every world that generation makes and that a tick or a
    /// command keeps: every entity is well formed, who aims aims at an
    /// entity of the world, every building is convex and runs
    /// counter-clockwise and has its outline at the outline margin, every
    /// building has a type and nothing else has one, and only entities are
    /// selected.
    pub open spec fn wf(self) -> bool {
        &&& forall|i: int| 0 <= i < self.entities.len() ==> (#[trigger] self.entities[i]).wf()
        &&& forall|i: int|
            0 <= i < self.entities.len() ==> aims_inside(
                (#[trigger] self.entities[i]).status,
                self.entities.len(),
            )
        &&& self.buildings.len() == self.building_outlines.len()
        &&& forall|k: int|
            0 <= k < self.buildings.len() ==> is_gently_convex(#[trigger] self.buildings[k])
        &&& forall|k: int|
            0 <= k < self.buildings.len() ==> #[trigger] self.building_outlines[k]
                == outline_vertices(self.buildings[k], Scalar { raw: OUTLINE_MARGIN })
        &&& forall|k: usize|
            #[trigger] self.building_type.contains_key(k) <==> k < self.buildings.len()
        &&& forall|k: usize| #[trigger] self.selection.contains(k) ==> k < self.entities.len()
    }
}

/// The target of an aiming cop is one of `count` entities.
pub open spec fn aims_inside(status: Status, count: nat) -> bool {
    match status {
        Status::Alive {
            affiliation: Affiliation::Human {
                role: Role::Cop { state: CopState::Aiming { target_index, .. }, .. },
                ..
            },
            ..
        } => target_index < count,
        _ => true,
    }
}

/// Whether two statuses are of one kind: both dead, both zombies, both
/// cops or both civilians.
pub open spec fn same_kind(first: Status, second: Status) -> bool {
    &&& first.spec_is_dead() == second.spec_is_dead()
    &&& first.spec_is_zombie() == second.spec_is_zombie()
    &&& first.spec_is_human() == second.spec_is_human()
    &&& first.spec_is_cop() == second.spec_is_cop()
}

/// What an entity can become in the course of time, in a world of `count`
/// entities: the dead stay dead, a zombie stays a zombie until it dies, and
/// what is well formed stays so.
pub open spec fn follows(before: Entity, after: Entity, count: nat) -> bool {
    &&& before.status.spec_is_dead() ==> after.status.spec_is_dead()
    &&& before.status.spec_is_zombie() ==> after.status.spec_is_zombie()
        || after.status.spec_is_dead()
    &&& before.status.wf() ==> after.status.wf()
    &&& is_unit(before.facing) ==> is_unit(after.facing)
    &&& aims_inside(before.status, count) ==> aims_inside(after.status, count)
}

/// A world stays well formed where its entities keep their places and each
/// follows what it was, where the buildings stay with their outlines and
/// types, and where only entities are selected.
pub proof fn lemma_wf_is_kept(before: StateView, after: StateView)
    requires
        before.wf(),
        after.entities.len() == before.entities.len(),
        forall|i: int|
            0 <= i < before.entities.len() ==> follows(
                before.entities[i],
                #[trigger] after.entities[i],
                before.entities.len(),
            ),
        after.buildings == before.buildings,
        after.building_outlines == before.building_outlines,
        after.building_type == before.building_type,
        forall|k: usize| #[trigger] after.selection.contains(k) ==> k < after.entities.len(),
    ensures
        after.wf(),
{
    assert forall|i: int| 0 <= i < after.entities.len() implies (#[trigger] after.entities[i]).wf()
        && aims_inside(after.entities[i].status, after.entities.len()) by {
        assert(before.entities[i].wf());
        assert(aims_inside(before.entities[i].status, before.entities.len()));
    }
    assert forall|k: int| 0 <= k < after.buildings.len() implies #[trigger] after.building_outlines[k]
        == outline_vertices(after.buildings[k], Scalar { raw: OUTLINE_MARGIN }) by {
        assert(before.building_outlines[k] == outline_vertices(
            before.buildings[k],
            Scalar { raw: OUTLINE_MARGIN },
        ));
    }
    assert forall|k: int| 0 <= k < after.buildings.len() implies is_gently_convex(
        #[trigger] after.buildings[k],
    ) by {
        assert(is_gently_convex(before.buildings[k]));
    }
    assert forall|k: usize| #[trigger] after.building_type.contains_key(k) <==> k
        < after.buildings.len() by {
        assert(before.building_type.contains_key(k) <==> k < before.buildings.len());
    }
}

impl State {
    /// Whether the world is well formed.
    pub open spec fn wf(&self) -> bool {
        self@.wf()
    }
}

} // verus!

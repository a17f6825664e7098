//! How projectiles fly, and whom they hit.

use crate::constants::{ENTITY_RADIUS, MIN_PROJECTILE_SPEED};
use crate::geometry::{hit_equation, segment_circle_min_positive_intersect_time, Circle, Segment2};
use crate::minimum::{
    first_minimum, holds_no_key, is_first_minimum, lemma_extend_new, lemma_extend_old,
    lemma_first_minimum_is, lemma_first_minimum_none,
};
use crate::scalar::Scalar;
use crate::state::{tick_of, Entity, Projectile, SoundEffect, Status, Tick};
use crate::vector2::Vector2;
use vstd::prelude::*;

verus! {

impl Projectile {
    /// Whether the projectile still flies: its squared speed has not
    /// fallen below the least one.
    pub open spec fn spec_is_live(self) -> bool {
        self.velocity.spec_length_squared().raw >= MIN_PROJECTILE_SPEED
    }

    #[verifier::when_used_as_spec(spec_is_live)]
    pub fn is_live(self) -> (r: bool)
        ensures
            r == self.spec_is_live(),
    {
        self.velocity.length_squared().raw >= MIN_PROJECTILE_SPEED
    }

    /// The path of the projectile in a tick of length `dt`.
    pub open spec fn spec_path(self, dt: Scalar) -> Segment2 {
        Segment2 { start: self.position, end: self.position.spec_plus(self.velocity.spec_scaled(dt)) }
    }

    #[verifier::when_used_as_spec(spec_path)]
    pub fn path(self, dt: Scalar) -> (s: Segment2)
        ensures
            s == self.spec_path(dt),
    {
        Segment2 { start: self.position, end: self.position.plus(self.velocity.scaled(dt)) }
    }
}

impl Entity {
    /// The circle that bounds the entity.
    pub open spec fn spec_bounds(self) -> Circle {
        Circle { center: self.position, radius: Scalar { raw: ENTITY_RADIUS } }
    }

    #[verifier::when_used_as_spec(spec_bounds)]
    pub fn bounds(self) -> (c: Circle)
        ensures
            c == self.spec_bounds(),
    {
        Circle { center: self.position, radius: Scalar::from_raw(ENTITY_RADIUS) }
    }
}

/// The projectiles that still fly, in their order.
pub open spec fn live(projectiles: Seq<Projectile>) -> Seq<Projectile> {
    projectiles.filter(|p: Projectile| p.spec_is_live())
}

/// Removes the projectiles that are spent.
pub fn remove_spent(projectiles: &mut Vec<Projectile>)
    ensures
        final(projectiles)@ == live(old(projectiles)@),
{
    let mut kept: Vec<Projectile> = Vec::new();
    let count: usize = projectiles.len();
    let mut k: usize = 0;
    proof {
        reveal(Seq::filter);
        assert(projectiles@.take(0) =~= Seq::<Projectile>::empty());
    }
    while k < count
        invariant
            k <= count,
            count == projectiles@.len(),
            projectiles@ == old(projectiles)@,
            kept@ == live(projectiles@.take(k as int)),
        decreases count - k,
    {
        let p = projectiles[k];
        proof {
            reveal(Seq::filter);
            assert(projectiles@.take(k + 1).drop_last() =~= projectiles@.take(k as int));
            assert(projectiles@.take(k + 1).last() == p);
        }
        if p.is_live() {
            kept.push(p);
        }
        k += 1;
    }
    assert(projectiles@.take(count as int) =~= projectiles@);
    *projectiles = kept;
}

/// For each living entity that the path meets, the time at which it does.
pub open spec fn hit_keys(entities: Seq<Entity>, path: Segment2) -> Seq<Option<int>> {
    Seq::new(
        entities.len(),
        |j: int|
            if entities[j].status.spec_is_dead() {
                None
            } else {
                match hit_equation(path, entities[j].spec_bounds()).time() {
                    Some(t) => Some(t.raw as int),
                    None => None,
                }
            },
    )
}

/// The index of the living entity that the path meets first; of several
/// met at the same time, the first in the list.
pub open spec fn first_hit(entities: Seq<Entity>, path: Segment2) -> Option<int> {
    first_minimum(hit_keys(entities, path))
}

/// Finds whom a projectile on `path` hits: of all living entities whose
/// circle the path meets, the one it meets first.
pub fn find_first_hit(entities: &Vec<Entity>, path: &Segment2) -> (found: Option<usize>)
    ensures
        match found {
            Some(i) => first_hit(entities@, *path) == Some(i as int) && i < entities@.len()
                && !entities@[i as int].status.spec_is_dead(),
            None => first_hit(entities@, *path) is None,
        },
{
    let ghost keys = hit_keys(entities@, *path);
    let mut found: Option<usize> = None;
    let mut least: i32 = 0;
    let mut j: usize = 0;
    while j < entities.len()
        invariant
            j <= entities@.len(),
            keys == hit_keys(entities@, *path),
            match found {
                Some(i) => is_first_minimum(keys.take(j as int), i as int) && keys[i as int]
                    == Some(least as int),
                None => holds_no_key(keys.take(j as int)),
            },
        decreases entities@.len() - j,
    {
        let entity = entities[j];
        let ghost before = keys.take(j as int);
        let ghost after = keys.take(j + 1);
        assert(after.drop_last() =~= before);
        assert(after.last() == keys[j as int]);
        // Dead entities don't collide with bullets
        let this: Option<Scalar> = if entity.status.is_dead() {
            None
        } else {
            segment_circle_min_positive_intersect_time(path, &entity.bounds())
        };
        match (found, this) {
            (None, Some(t)) => {
                assert(is_first_minimum(after, j as int)) by {
                    assert(forall|k: int| 0 <= k < j ==> after[k] == before[k]);
                }
                found = Some(j);
                least = t.raw;
            },
            (Some(i), Some(t)) => {
                if t.raw < least {
                    proof {
                        lemma_extend_new(after, i as int);
                    }
                    found = Some(j);
                    least = t.raw;
                } else {
                    proof {
                        lemma_extend_old(after, i as int);
                    }
                }
            },
            (Some(i), None) => {
                proof {
                    lemma_extend_old(after, i as int);
                }
            },
            (None, None) => {
                assert(holds_no_key(after)) by {
                    assert(forall|k: int| 0 <= k < j ==> after[k] == before[k]);
                }
            },
        }
        j += 1;
    }
    proof {
        assert(keys.take(j as int) =~= keys);
        match found {
            Some(i) => {
                lemma_first_minimum_is(keys, i as int);
            },
            None => {
                lemma_first_minimum_none(keys);
            },
        }
    }
    found
}

/// The entity, dead.
pub open spec fn killed(entity: Entity) -> Entity {
    Entity {
        position: entity.position,
        velocity: entity.velocity,
        facing: entity.facing,
        status: Status::Dead,
    }
}

/// The tick after projectile `k` has flown for `dt`. Whom it hits first
/// dies, and the projectile stops; hit or not, it is at the end of its path.
pub open spec fn fly_one(tick: Tick, k: int, dt: Scalar) -> Tick {
    let p = tick.projectiles[k];
    let path = p.spec_path(dt);
    match first_hit(tick.entities, path) {
        Some(i) => Tick {
            entities: tick.entities.update(i, killed(tick.entities[i])),
            projectiles: tick.projectiles.update(
                k,
                Projectile { position: path.end, velocity: Vector2::spec_zero() },
            ),
            signals: tick.signals.push(SoundEffect::ZombieDead),
        },
        None => Tick {
            entities: tick.entities,
            projectiles: tick.projectiles.update(
                k,
                Projectile { position: path.end, velocity: p.velocity },
            ),
            signals: tick.signals,
        },
    }
}

/// The tick after the first `count` projectiles have flown, one after the
/// other.
pub open spec fn flown_prefix(tick: Tick, dt: Scalar, count: int) -> Tick
    decreases count,
{
    if count <= 0 {
        tick
    } else {
        fly_one(flown_prefix(tick, dt, count - 1), count - 1, dt)
    }
}

/// The tick after the spent projectiles were removed and the others have
/// flown.
pub open spec fn flown(tick: Tick, dt: Scalar) -> Tick {
    flown_prefix(
        tick_of(tick.entities, live(tick.projectiles), tick.signals),
        dt,
        live(tick.projectiles).len() as int,
    )
}

/// Removes the spent projectiles and lets the others fly for `dt`, in the
/// order of the list.
pub fn simulate_projectiles(
    dt: Scalar,
    entities: &mut Vec<Entity>,
    projectiles: &mut Vec<Projectile>,
    signals: &mut Vec<SoundEffect>,
)
    ensures
        tick_of(final(entities)@, final(projectiles)@, final(signals)@) == flown(
            tick_of(old(entities)@, old(projectiles)@, old(signals)@),
            dt,
        ),
        final(entities)@.len() == old(entities)@.len(),
{
    // Remove motionless projectiles
    remove_spent(projectiles);
    let ghost start = tick_of(entities@, projectiles@, signals@);
    let count: usize = projectiles.len();
    let mut k: usize = 0;
    while k < count
        invariant
            k <= count,
            count == start.projectiles.len(),
            projectiles@.len() == count,
            entities@.len() == start.entities.len(),
            tick_of(entities@, projectiles@, signals@) == flown_prefix(start, dt, k as int),
        decreases count - k,
    {
        let ghost now = tick_of(entities@, projectiles@, signals@);
        let mut p = projectiles[k];
        let path = p.path(dt);
        match find_first_hit(entities, &path) {
            None => {},
            Some(i) => {
                let mut victim = entities[i];
                victim.status = Status::Dead;
                entities[i] = victim;
                p.velocity = Vector2::zero();
                signals.push(SoundEffect::ZombieDead);
            },
        }
        p.position = path.end;
        projectiles[k] = p;
        assert(tick_of(entities@, projectiles@, signals@) == fly_one(now, k as int, dt));
        k += 1;
    }
}

} // verus!

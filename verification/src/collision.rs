//! What happens where two living entities touch: zombies infect humans,
//! and the two are pushed apart.

use crate::constants::DOUBLE_ENTITY_RADIUS_SQUARED;
use crate::scalar::{saturate, saturate_i128, trunc_div, Scalar, ONE_RAW};
use crate::state::{tick_of, Affiliation, Entity, SoundEffect, Status, Tick, ZombieState};
use crate::vector2::{raw_product, Vector2};
use vstd::prelude::*;

verus! {

/// The change of velocity that pushes two entities apart whose offset is
/// `delta`: `delta · dt / |delta|²`, with each coordinate rounded once. Two
/// entities in one place have no direction to part in and are not pushed.
pub open spec fn separation(delta: Vector2, dt: Scalar) -> Vector2 {
    if delta.norm2() == 0 {
        Vector2::spec_zero()
    } else {
        Vector2 {
            x: Scalar {
                raw: saturate(trunc_div(delta.x.raw * dt.raw * ONE_RAW, delta.norm2())) as i32,
            },
            y: Scalar {
                raw: saturate(trunc_div(delta.y.raw * dt.raw * ONE_RAW, delta.norm2())) as i32,
            },
        }
    }
}

/// Computes `separation`.
pub fn separation_impulse(delta: Vector2, dt: Scalar) -> (push: Vector2)
    ensures
        push == separation(delta, dt),
{
    let n: u128 = delta.norm2_wide();
    if n == 0 {
        return Vector2::zero();
    }
    let x: i128 = raw_product(delta.x.raw, dt.raw) * 65536 / (n as i128);
    let y: i128 = raw_product(delta.y.raw, dt.raw) * 65536 / (n as i128);
    Vector2 { x: Scalar { raw: saturate_i128(x) }, y: Scalar { raw: saturate_i128(y) } }
}

impl Status {
    /// The status after a zombie's touch: a living human is a zombie from
    /// now on, with the health it had; any other status stays.
    pub open spec fn spec_bitten(self) -> Status {
        match self {
            Status::Alive { health, affiliation: Affiliation::Human { .. } } => Status::Alive {
                health,
                affiliation: Affiliation::Zombie { state: ZombieState::Roaming },
            },
            _ => self,
        }
    }

    #[verifier::when_used_as_spec(spec_bitten)]
    pub fn bitten(self) -> (r: Status)
        ensures
            r == self.spec_bitten(),
    {
        match self {
            Status::Alive { health, affiliation: Affiliation::Human { .. } } => Status::Alive {
                health,
                affiliation: Affiliation::Zombie { state: ZombieState::Roaming },
            },
            other => other,
        }
    }
}

/// Two living entities nearer to each other than two radii.
pub open spec fn touching(a: Entity, b: Entity) -> bool {
    &&& !a.status.spec_is_dead()
    &&& !b.status.spec_is_dead()
    &&& b.position.spec_minus(a.position).spec_length_squared().raw < DOUBLE_ENTITY_RADIUS_SQUARED
}

/// A zombie has touched a human.
pub open spec fn infects(a: Entity, b: Entity) -> bool {
    ||| a.status.spec_is_human() && b.status.spec_is_zombie()
    ||| a.status.spec_is_zombie() && b.status.spec_is_human()
}

/// The first of two entities after they have met: bitten where the other
/// is a zombie, and pushed away from the other.
pub open spec fn met_first(a: Entity, b: Entity, dt: Scalar) -> Entity {
    Entity {
        position: a.position,
        velocity: a.velocity.spec_minus(separation(b.position.spec_minus(a.position), dt)),
        facing: a.facing,
        status: if b.status.spec_is_zombie() {
            a.status.spec_bitten()
        } else {
            a.status
        },
    }
}

/// The second of two entities after they have met.
pub open spec fn met_second(a: Entity, b: Entity, dt: Scalar) -> Entity {
    Entity {
        position: b.position,
        velocity: b.velocity.spec_plus(separation(b.position.spec_minus(a.position), dt)),
        facing: b.facing,
        status: if a.status.spec_is_zombie() {
            b.status.spec_bitten()
        } else {
            b.status
        },
    }
}

/// The tick after entities `i` and `j` have met.
pub open spec fn handled(tick: Tick, i: int, j: int, dt: Scalar) -> Tick {
    let a = tick.entities[i];
    let b = tick.entities[j];
    Tick {
        entities: tick.entities.update(i, met_first(a, b, dt)).update(j, met_second(a, b, dt)),
        projectiles: tick.projectiles,
        signals: if infects(a, b) {
            tick.signals.push(SoundEffect::PersonInfected)
        } else {
            tick.signals
        },
    }
}

/// The tick after the pair `(i, j)` was looked at: the two have met if they
/// touch.
pub open spec fn collide_pair(tick: Tick, i: int, j: int, dt: Scalar) -> Tick {
    if touching(tick.entities[i], tick.entities[j]) {
        handled(tick, i, j, dt)
    } else {
        tick
    }
}

/// Spreads the infection between two entities that touch, and forces them
/// apart.
pub fn handle_collision(
    dt: Scalar,
    entities: &mut Vec<Entity>,
    signals: &mut Vec<SoundEffect>,
    i: usize,
    j: usize,
)
    requires
        i < old(entities)@.len(),
        j < old(entities)@.len(),
        i != j,
    ensures
        final(entities)@ == handled(
            tick_of(old(entities)@, Seq::empty(), old(signals)@),
            i as int,
            j as int,
            dt,
        ).entities,
        final(signals)@ == handled(
            tick_of(old(entities)@, Seq::empty(), old(signals)@),
            i as int,
            j as int,
            dt,
        ).signals,
{
    let mut a = entities[i];
    let mut b = entities[j];
    let a_is_zombie = a.status.is_zombie();
    let b_is_zombie = b.status.is_zombie();
    // Spread the infection from zombies to others
    if (a.status.is_human() && b_is_zombie) || (a_is_zombie && b.status.is_human()) {
        signals.push(SoundEffect::PersonInfected);
    }
    if b_is_zombie {
        a.status = a.status.bitten();
    }
    if a_is_zombie {
        b.status = b.status.bitten();
    }
    // Force entities apart that are overlapping
    let push = separation_impulse(b.position.minus(a.position), dt);
    a.velocity = a.velocity.minus(push);
    b.velocity = b.velocity.plus(push);
    entities[i] = a;
    entities[j] = b;
}

/// The pairs `(i, i + 1)` to `(i, upto - 1)`.
pub open spec fn row_pairs(i: int, upto: int) -> Seq<(int, int)> {
    Seq::new(
        if upto > i + 1 {
            (upto - i - 1) as nat
        } else {
            0
        },
        |k: int| (i, i + 1 + k),
    )
}

/// The pairs `(a, b)` with `a < b < count` and `a < i`, row by row.
pub open spec fn rows_before(i: int, count: int) -> Seq<(int, int)>
    decreases i,
{
    if i <= 0 {
        Seq::empty()
    } else {
        rows_before(i - 1, count) + row_pairs(i - 1, count)
    }
}

/// The order in which the pairs of `count` entities are looked at.
pub open spec fn all_pairs(count: int) -> Seq<(int, int)> {
    rows_before(count, count)
}

/// The tick after the given pairs were looked at, one after the other.
pub open spec fn collided_along(tick: Tick, pairs: Seq<(int, int)>, dt: Scalar) -> Tick
    decreases pairs.len(),
{
    if pairs.len() == 0 {
        tick
    } else {
        collide_pair(collided_along(tick, pairs.drop_last(), dt), pairs.last().0, pairs.last().1, dt)
    }
}

/// The tick after every pair of entities was looked at.
pub open spec fn collided(tick: Tick, dt: Scalar) -> Tick {
    collided_along(tick, all_pairs(tick.entities.len() as int), dt)
}

/// Every pair of the list is a pair `(a, b)` with `0 <= a < b < count`.
pub open spec fn pairs_inside(pairs: Seq<(int, int)>, count: int) -> bool {
    forall|k: int| 0 <= k < pairs.len() ==> 0 <= (#[trigger] pairs[k]).0 < pairs[k].1 < count
}

/// The rows before row `i` hold pairs `(a, b)` with `a < i` only, and
/// `i · count - i · (i + 1) / 2` of them.
pub proof fn lemma_rows_before(i: int, count: int)
    requires
        0 <= i <= count,
    ensures
        2 * rows_before(i, count).len() == 2 * (i * count) - i * (i + 1),
        rows_before(i, count).len() <= i * count,
        pairs_inside(rows_before(i, count), count),
        forall|k: int|
            0 <= k < rows_before(i, count).len() ==> (#[trigger] rows_before(i, count)[k]).0 < i,
    decreases i,
{
    if i > 0 {
        lemma_rows_before(i - 1, count);
        let front = rows_before(i - 1, count);
        let row = row_pairs(i - 1, count);
        assert(row.len() == count - i);
        assert(rows_before(i, count).len() == front.len() + (count - i));
        assert(2 * ((i - 1) * count) - (i - 1) * i + 2 * (count - i) == 2 * (i * count) - i * (i
            + 1)) by (nonlinear_arith);
        assert((i - 1) * count + (count - i) <= i * count) by (nonlinear_arith)
            requires
                0 < i <= count,
        ;
        assert forall|k: int| 0 <= k < rows_before(i, count).len() implies 0 <= (
        #[trigger] rows_before(i, count)[k]).0 < rows_before(i, count)[k].1 < count
            && rows_before(i, count)[k].0 < i by {
            if k < front.len() {
                assert(rows_before(i, count)[k] == front[k]);
            } else {
                assert(rows_before(i, count)[k] == row[k - front.len()]);
            }
        }
    } else {
        assert(i * count == 0) by (nonlinear_arith)
            requires
                i == 0,
        ;
    }
}

/// Looking at pairs neither reads nor changes the projectiles.
pub proof fn lemma_collided_along_frame(tick: Tick, pairs: Seq<(int, int)>, dt: Scalar)
    ensures
        collided_along(tick, pairs, dt) == tick_of(
            collided_along(tick_of(tick.entities, Seq::empty(), tick.signals), pairs, dt).entities,
            tick.projectiles,
            collided_along(tick_of(tick.entities, Seq::empty(), tick.signals), pairs, dt).signals,
        ),
    decreases pairs.len(),
{
    if pairs.len() > 0 {
        lemma_collided_along_frame(tick, pairs.drop_last(), dt);
    }
}

/// Looks at every pair of entities once, in the order of `all_pairs`, and
/// lets those meet that touch. Returns the number of pairs looked at.
pub fn resolve_collisions(dt: Scalar, entities: &mut Vec<Entity>, signals: &mut Vec<SoundEffect>) -> (examined:
    u128)
    ensures
        tick_of(final(entities)@, Seq::empty(), final(signals)@) == collided(
            tick_of(old(entities)@, Seq::empty(), old(signals)@),
            dt,
        ),
        final(entities)@.len() == old(entities)@.len(),
        examined == all_pairs(old(entities)@.len() as int).len(),
        2 * examined == old(entities)@.len() * (old(entities)@.len() - 1),
{
    let ghost start = tick_of(entities@, Seq::empty(), signals@);
    let ghost mut done: Seq<(int, int)> = Seq::empty();
    let count: usize = entities.len();
    let mut examined: u128 = 0;
    let mut i: usize = 0;
    while i < count
        invariant
            i <= count,
            count == start.entities.len(),
            entities@.len() == count,
            done == rows_before(i as int, count as int),
            examined == done.len(),
            tick_of(entities@, Seq::empty(), signals@) == collided_along(start, done, dt),
        decreases count - i,
    {
        let mut j: usize = i + 1;
        proof {
            assert(done + row_pairs(i as int, j as int) =~= done);
            lemma_rows_before(i as int, count as int);
            assert((i + 1) * count <= 0xffff_ffff_ffff_ffff * 0xffff_ffff_ffff_ffff)
                by (nonlinear_arith)
                requires
                    0 <= i < count <= 0xffff_ffff_ffff_ffff,
            ;
            assert((i + 1) * count == i * count + count) by (nonlinear_arith);
        }
        while j < count
            invariant
                i < count,
                i + 1 <= j <= count,
                count == start.entities.len(),
                entities@.len() == count,
                done == rows_before(i as int, count as int) + row_pairs(i as int, j as int),
                examined == done.len(),
                rows_before(i as int, count as int).len() <= i * count,
                i * count + count <= 0xffff_ffff_ffff_ffff * 0xffff_ffff_ffff_ffff,
                tick_of(entities@, Seq::empty(), signals@) == collided_along(start, done, dt),
            decreases count - j,
        {
            let ghost now = tick_of(entities@, Seq::empty(), signals@);
            let a = entities[i];
            let b = entities[j];
            if !a.status.is_dead() && !b.status.is_dead() && b.position.minus(
                a.position,
            ).length_squared().raw < DOUBLE_ENTITY_RADIUS_SQUARED {
                handle_collision(dt, entities, signals, i, j);
            }
            proof {
                let next = done.push((i as int, j as int));
                assert(next.drop_last() =~= done);
                assert(next.last() == (i as int, j as int));
                assert(tick_of(entities@, Seq::empty(), signals@) == collide_pair(
                    now,
                    i as int,
                    j as int,
                    dt,
                ));
                assert(next =~= rows_before(i as int, count as int) + row_pairs(i as int, j + 1));
                done = next;
            }
            examined = examined + 1;
            j += 1;
        }
        i += 1;
    }
    proof {
        lemma_rows_before(count as int, count as int);
        assert(2 * (count * count) - count * (count + 1) == count * (count - 1))
            by (nonlinear_arith);
    }
    examined
}

} // verus!

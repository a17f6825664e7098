//! What holds of every tick, whatever the world and whatever chance gives.

use crate::ballistics::{first_hit, flown_prefix, fly_one, hit_keys, live};
use crate::behaviour::{
    behave_one, behaved, behaved_prefix, bullet, cop_decision, cop_step, draws_agree, nearest,
    shot_direction, spec_draw_for, spec_draw_needed, spec_is_target, target_keys, with_task, Draw,
    TargetKind,
};
use crate::collision::{
    all_pairs, collide_pair, collided, collided_along, lemma_rows_before, met_first, met_second,
    pairs_inside, row_pairs, rows_before, separation,
};
use crate::constants::{COP_MAGAZINE_CAPACITY, COP_RELOAD_COOLDOWN, COP_TURN_RATE};
use crate::geometry::{hit_equation, Segment2};
use crate::initial_state::{
    generated, layout, layout_outlines, layout_types, share, BLOCK_COUNT, BUILDING_COUNT,
};
use crate::minimum::lemma_first_minimum_sound;
use crate::motion::moved;
use crate::scalar::{saturate, trunc_div, Scalar, MAX_RAW, MIN_RAW, ONE_RAW};
use crate::state::{
    follows, same_kind, tick_of, Affiliation, CopState, Entity, Role, StateView, Status, Tick,
};
use crate::update::ticked;
use crate::vector2::{is_unit, lemma_identity_is_turn, Rotation, Vector2};
use vstd::prelude::*;

verus! {

/// Who is found as the nearest of a kind is a living entity of that kind.
pub proof fn lemma_nearest_is_target(entities: Seq<Entity>, from: Vector2, kind: TargetKind)
    ensures
        match nearest(entities, from, kind) {
            Some(j) => 0 <= j < entities.len() && spec_is_target(entities[j], kind)
                && !entities[j].status.spec_is_dead(),
            None => forall|j: int|
                0 <= j < entities.len() ==> !spec_is_target(#[trigger] entities[j], kind),
        },
{
    let keys = target_keys(entities, from, kind);
    lemma_first_minimum_sound(keys);
    match nearest(entities, from, kind) {
        Some(j) => {
            assert(keys[j] is Some);
        },
        None => {
            assert forall|j: int| 0 <= j < entities.len() implies !spec_is_target(
                #[trigger] entities[j],
                kind,
            ) by {
                assert(keys[j] is None);
            }
        },
    }
}

/// Whom a projectile hits lives, and the projectile meets none of the
/// living earlier, and none that stands before it in the list as early.
pub proof fn lemma_first_hit_is_earliest(entities: Seq<Entity>, path: Segment2, j: int)
    requires
        first_hit(entities, path) is Some,
        0 <= j < entities.len(),
        !entities[j].status.spec_is_dead(),
        hit_equation(path, entities[j].spec_bounds()).time() is Some,
    ensures
        0 <= first_hit(entities, path).unwrap() < entities.len(),
        !entities[first_hit(entities, path).unwrap()].status.spec_is_dead(),
        hit_equation(
            path,
            entities[first_hit(entities, path).unwrap()].spec_bounds(),
        ).time() is Some,
        hit_equation(
            path,
            entities[first_hit(entities, path).unwrap()].spec_bounds(),
        ).time().unwrap().raw <= hit_equation(path, entities[j].spec_bounds()).time().unwrap().raw,
        j < first_hit(entities, path).unwrap() ==> hit_equation(
            path,
            entities[first_hit(entities, path).unwrap()].spec_bounds(),
        ).time().unwrap().raw < hit_equation(path, entities[j].spec_bounds()).time().unwrap().raw,
{
    let keys = hit_keys(entities, path);
    lemma_first_minimum_sound(keys);
    let i = first_hit(entities, path).unwrap();
    assert(keys[i] is Some);
    assert(keys[j] is Some);
}

/// A projectile hits nobody only where its path meets none of the living.
pub proof fn lemma_no_hit_means_no_meeting(entities: Seq<Entity>, path: Segment2, j: int)
    requires
        first_hit(entities, path) is None,
        0 <= j < entities.len(),
        !entities[j].status.spec_is_dead(),
    ensures
        hit_equation(path, entities[j].spec_bounds()).time() is None,
{
    let keys = hit_keys(entities, path);
    lemma_first_minimum_sound(keys);
    assert(keys[j] is None);
}

/// One decision: only the entity that decides changes, no entity changes
/// its place, the dead decide nothing, and every status follows the one
/// before.
pub proof fn lemma_behave_one(tick: Tick, dt: Scalar, draws: Seq<Draw>, k: int, i: int)
    requires
        0 <= k < tick.entities.len(),
        0 <= i < tick.entities.len(),
    ensures
        behave_one(tick, dt, draws, k).entities.len() == tick.entities.len(),
        behave_one(tick, dt, draws, k).entities[i].position == tick.entities[i].position,
        follows(
            tick.entities[i],
            behave_one(tick, dt, draws, k).entities[i],
            tick.entities.len(),
        ),
        tick.entities[i].status.spec_is_dead() || i != k ==> behave_one(
            tick,
            dt,
            draws,
            k,
        ).entities[i] == tick.entities[i],
        same_kind(tick.entities[i].status, behave_one(tick, dt, draws, k).entities[i].status),
{
    let me = tick.entities[k];
    lemma_nearest_is_target(tick.entities, me.position, TargetKind::Zombies);
    lemma_nearest_is_target(tick.entities, me.position, TargetKind::Humans);
    assert forall|direction: Vector2| is_unit(me.facing) implies is_unit(
        #[trigger] me.turned(direction, dt).facing,
    ) by {
        lemma_turned_keeps_unit(me, direction, dt);
    }
}

/// Who faces a direction of length one does so after it has turned.
pub proof fn lemma_turned_keeps_unit(entity: Entity, direction: Vector2, dt: Scalar)
    requires
        is_unit(entity.facing),
    ensures
        is_unit(entity.turned(direction, dt).facing),
{
    let wanted = direction.spec_normalized();
    let limit = Scalar { raw: COP_TURN_RATE }.spec_times(dt);
    let sideways = if entity.facing.cross_exact(wanted) >= 0 {
        entity.facing.spec_left()
    } else {
        entity.facing.spec_right()
    };
    let aside = entity.facing.spec_plus(sideways.spec_scaled(limit));
    if wanted != Vector2::spec_zero() {
        assert(direction.norm2() != 0);
        assert(direction.norm2() > 0) by (nonlinear_arith)
            requires
                direction.norm2() != 0,
                direction.norm2() == direction.x.raw * direction.x.raw + direction.y.raw
                    * direction.y.raw,
        ;
        direction.lemma_normalized_is_unit();
        if aside.spec_normalized() != Vector2::spec_zero() {
            assert(aside.norm2() != 0);
            assert(aside.norm2() > 0) by (nonlinear_arith)
                requires
                    aside.norm2() != 0,
                    aside.norm2() == aside.x.raw * aside.x.raw + aside.y.raw * aside.y.raw,
            ;
            aside.lemma_normalized_is_unit();
        }
    }
}

/// The decisions of the first `count` entities.
pub proof fn lemma_behaved_prefix(tick: Tick, dt: Scalar, draws: Seq<Draw>, count: int, i: int)
    requires
        count <= tick.entities.len(),
        0 <= i < tick.entities.len(),
    ensures
        behaved_prefix(tick, dt, draws, count).entities.len() == tick.entities.len(),
        behaved_prefix(tick, dt, draws, count).entities[i].position == tick.entities[i].position,
        follows(
            tick.entities[i],
            behaved_prefix(tick, dt, draws, count).entities[i],
            tick.entities.len(),
        ),
        tick.entities[i].status.spec_is_dead() || i >= count ==> behaved_prefix(
            tick,
            dt,
            draws,
            count,
        ).entities[i] == tick.entities[i],
        same_kind(
            tick.entities[i].status,
            behaved_prefix(tick, dt, draws, count).entities[i].status,
        ),
    decreases count,
{
    if count > 0 {
        lemma_behaved_prefix(tick, dt, draws, count - 1, i);
        lemma_behaved_prefix(tick, dt, draws, count - 1, count - 1);
        lemma_behave_one(behaved_prefix(tick, dt, draws, count - 1), dt, draws, count - 1, i);
    }
}

/// One meeting: no entity changes its place, the dead meet nobody, and
/// every status follows the one before.
pub proof fn lemma_collide_pair(tick: Tick, a: int, b: int, dt: Scalar, i: int)
    requires
        0 <= a < b < tick.entities.len(),
        0 <= i < tick.entities.len(),
    ensures
        collide_pair(tick, a, b, dt).entities.len() == tick.entities.len(),
        collide_pair(tick, a, b, dt).entities[i].position == tick.entities[i].position,
        follows(
            tick.entities[i],
            collide_pair(tick, a, b, dt).entities[i],
            tick.entities.len(),
        ),
        tick.entities[i].status.spec_is_dead() ==> collide_pair(tick, a, b, dt).entities[i]
            == tick.entities[i],
{
}

/// The meetings along a list of pairs.
pub proof fn lemma_collided_along(tick: Tick, pairs: Seq<(int, int)>, dt: Scalar, i: int)
    requires
        pairs_inside(pairs, tick.entities.len() as int),
        0 <= i < tick.entities.len(),
    ensures
        collided_along(tick, pairs, dt).entities.len() == tick.entities.len(),
        collided_along(tick, pairs, dt).projectiles == tick.projectiles,
        collided_along(tick, pairs, dt).entities[i].position == tick.entities[i].position,
        follows(
            tick.entities[i],
            collided_along(tick, pairs, dt).entities[i],
            tick.entities.len(),
        ),
        tick.entities[i].status.spec_is_dead() ==> collided_along(tick, pairs, dt).entities[i]
            == tick.entities[i],
    decreases pairs.len(),
{
    if pairs.len() > 0 {
        let front = pairs.drop_last();
        assert(forall|k: int| 0 <= k < front.len() ==> front[k] == pairs[k]);
        lemma_collided_along(tick, front, dt, i);
        assert(0 <= pairs.last().0 < pairs.last().1 < tick.entities.len());
        lemma_collide_pair(collided_along(tick, front, dt), pairs.last().0, pairs.last().1, dt, i);
    }
}

/// One flight: no entity changes its place or moves, the dead are not hit,
/// and every status follows the one before.
pub proof fn lemma_fly_one(tick: Tick, k: int, dt: Scalar, i: int)
    requires
        0 <= k < tick.projectiles.len(),
        0 <= i < tick.entities.len(),
    ensures
        fly_one(tick, k, dt).entities.len() == tick.entities.len(),
        fly_one(tick, k, dt).projectiles.len() == tick.projectiles.len(),
        fly_one(tick, k, dt).entities[i].position == tick.entities[i].position,
        fly_one(tick, k, dt).entities[i].velocity == tick.entities[i].velocity,
        follows(
            tick.entities[i],
            fly_one(tick, k, dt).entities[i],
            tick.entities.len(),
        ),
        tick.entities[i].status.spec_is_dead() ==> fly_one(tick, k, dt).entities[i]
            == tick.entities[i],
{
    let path = tick.projectiles[k].spec_path(dt);
    let keys = hit_keys(tick.entities, path);
    lemma_first_minimum_sound(keys);
    match first_hit(tick.entities, path) {
        Some(h) => {
            assert(keys[h] is Some);
        },
        None => {},
    }
}

/// The flights of the first `count` projectiles.
pub proof fn lemma_flown_prefix(tick: Tick, dt: Scalar, count: int, i: int)
    requires
        count <= tick.projectiles.len(),
        0 <= i < tick.entities.len(),
    ensures
        flown_prefix(tick, dt, count).entities.len() == tick.entities.len(),
        flown_prefix(tick, dt, count).projectiles.len() == tick.projectiles.len(),
        flown_prefix(tick, dt, count).entities[i].position == tick.entities[i].position,
        flown_prefix(tick, dt, count).entities[i].velocity == tick.entities[i].velocity,
        follows(
            tick.entities[i],
            flown_prefix(tick, dt, count).entities[i],
            tick.entities.len(),
        ),
        tick.entities[i].status.spec_is_dead() ==> flown_prefix(tick, dt, count).entities[i]
            == tick.entities[i],
    decreases count,
{
    if count > 0 {
        lemma_flown_prefix(tick, dt, count - 1, i);
        lemma_fly_one(flown_prefix(tick, dt, count - 1), count - 1, dt, i);
    }
}

/// A whole tick, seen from one entity: it keeps its place in the list, its
/// status follows the one before, it moves by the velocity that it has
/// when the third pass begins, and if it is dead it does nothing but
/// drift.
pub proof fn lemma_ticked(tick: Tick, dt: Scalar, draws: Seq<Draw>, i: int)
    requires
        0 <= i < tick.entities.len(),
    ensures
        ticked(tick, dt, draws).entities.len() == tick.entities.len(),
        follows(tick.entities[i], ticked(tick, dt, draws).entities[i], tick.entities.len()),
        ticked(tick, dt, draws).entities[i].position == tick.entities[i].position.spec_plus(
            collided(behaved(tick, dt, draws), dt).entities[i].velocity.spec_scaled(dt),
        ),
        tick.entities[i].status.spec_is_dead() ==> ticked(tick, dt, draws).entities[i]
            == tick.entities[i].spec_integrated(dt),
{
    let count = tick.entities.len() as int;
    lemma_behaved_prefix(tick, dt, draws, count, i);
    let decided = behaved(tick, dt, draws);
    lemma_rows_before(count, count);
    lemma_collided_along(decided, all_pairs(count), dt, i);
    let met = collided(decided, dt);
    let gone = moved(met, dt);
    let start = tick_of(gone.entities, live(gone.projectiles), gone.signals);
    lemma_flown_prefix(start, dt, start.projectiles.len() as int, i);
}

/// The dead stay dead: they decide nothing, meet nobody and are not hit;
/// a dead entity only drifts with the velocity it had, and one that lies
/// still never moves again.
pub proof fn lemma_dead_are_inert(tick: Tick, dt: Scalar, draws: Seq<Draw>, i: int)
    requires
        0 <= i < tick.entities.len(),
        tick.entities[i].status.spec_is_dead(),
    ensures
        ticked(tick, dt, draws).entities[i].status.spec_is_dead(),
        ticked(tick, dt, draws).entities[i] == tick.entities[i].spec_integrated(dt),
        tick.entities[i].velocity == Vector2::spec_zero() ==> ticked(
            tick,
            dt,
            draws,
        ).entities[i] == tick.entities[i],
{
    lemma_ticked(tick, dt, draws, i);
    assert(trunc_div(0 * dt.raw, ONE_RAW as int) == 0) by (nonlinear_arith);
}

/// Infection goes one way: who is a zombie before a tick is no human after
/// it, and who is no human before it is none after it.
pub proof fn lemma_zombies_never_revert(tick: Tick, dt: Scalar, draws: Seq<Draw>, i: int)
    requires
        0 <= i < tick.entities.len(),
        !tick.entities[i].status.spec_is_human(),
    ensures
        !ticked(tick, dt, draws).entities[i].status.spec_is_human(),
        tick.entities[i].status.spec_is_zombie() ==> ticked(tick, dt, draws).entities[i].status.spec_is_zombie()
            || ticked(tick, dt, draws).entities[i].status.spec_is_dead(),
{
    lemma_ticked(tick, dt, draws, i);
}

/// What a tick is given, for the ticks of a run.
pub struct TickInput {
    pub dt: Scalar,
    pub draws: Seq<Draw>,
}

/// The tick after a run of ticks, each of which starts with what the one
/// before it left and with no signals.
pub open spec fn ticked_through(tick: Tick, inputs: Seq<TickInput>) -> Tick
    decreases inputs.len(),
{
    if inputs.len() == 0 {
        tick
    } else {
        let before = ticked_through(tick, inputs.drop_last());
        ticked(
            tick_of(before.entities, before.projectiles, Seq::empty()),
            inputs.last().dt,
            inputs.last().draws,
        )
    }
}

/// After any number of ticks every entity has its place in the list, and
/// its status follows the one at the start: who was dead is dead, who was a
/// zombie is a zombie or dead, and who was no human is no human.
pub proof fn lemma_ticked_through(tick: Tick, inputs: Seq<TickInput>, i: int)
    requires
        0 <= i < tick.entities.len(),
    ensures
        ticked_through(tick, inputs).entities.len() == tick.entities.len(),
        follows(
            tick.entities[i],
            ticked_through(tick, inputs).entities[i],
            tick.entities.len(),
        ),
        !tick.entities[i].status.spec_is_human() ==> !ticked_through(
            tick,
            inputs,
        ).entities[i].status.spec_is_human(),
        tick.entities[i].status.spec_is_dead() && tick.entities[i].velocity
            == Vector2::spec_zero() ==> ticked_through(tick, inputs).entities[i]
            == tick.entities[i],
    decreases inputs.len(),
{
    if inputs.len() > 0 {
        lemma_ticked_through(tick, inputs.drop_last(), i);
        let before = ticked_through(tick, inputs.drop_last());
        let start = tick_of(before.entities, before.projectiles, Seq::empty());
        lemma_ticked(start, inputs.last().dt, inputs.last().draws, i);
        if start.entities[i].status.spec_is_dead() {
            lemma_dead_are_inert(start, inputs.last().dt, inputs.last().draws, i);
        }
    }
}

/// The place of the pair `(i, j)` in the order in which pairs are looked
/// at.
pub open spec fn pair_place(count: int, i: int, j: int) -> int {
    rows_before(i, count).len() + (j - i - 1)
}

/// The rows before row `i` are the start of the rows before any later row.
pub proof fn lemma_rows_before_prefix(i: int, m: int, count: int, k: int)
    requires
        0 <= i <= m <= count,
        0 <= k < rows_before(i, count).len(),
    ensures
        k < rows_before(m, count).len(),
        rows_before(m, count)[k] == rows_before(i, count)[k],
    decreases m - i,
{
    if i < m {
        lemma_rows_before_prefix(i, m - 1, count, k);
    }
}

/// Every unordered pair of entities is looked at exactly once in a tick:
/// the pair `(i, j)` with `i < j` stands in the order at its place and
/// nowhere else, and nothing stands in the order but such pairs.
pub proof fn lemma_each_pair_once(count: int, i: int, j: int)
    requires
        0 <= i < j < count,
    ensures
        pairs_inside(all_pairs(count), count),
        2 * all_pairs(count).len() == count * (count - 1),
        0 <= pair_place(count, i, j) < all_pairs(count).len(),
        all_pairs(count)[pair_place(count, i, j)] == (i, j),
        forall|k: int|
            0 <= k < all_pairs(count).len() && #[trigger] all_pairs(count)[k] == (i, j) ==> k
                == pair_place(count, i, j),
{
    lemma_rows_before(count, count);
    assert(2 * (count * count) - count * (count + 1) == count * (count - 1)) by (nonlinear_arith);
    lemma_rows_before(i, count);
    lemma_rows_before(i + 1, count);
    let place = pair_place(count, i, j);
    let upto = rows_before(i + 1, count);
    assert(upto == rows_before(i, count) + row_pairs(i, count));
    assert(upto[place] == row_pairs(i, count)[j - i - 1]);
    lemma_rows_before_prefix(i + 1, count, count, place);
    assert forall|k: int|
        0 <= k < all_pairs(count).len() && #[trigger] all_pairs(count)[k] == (i, j) implies k
        == place by {
        lemma_place_of_pair(count, count, k);
    }
}

/// The pair at place `k` of the rows before row `m` has `k` as its place.
pub proof fn lemma_place_of_pair(m: int, count: int, k: int)
    requires
        0 <= m <= count,
        0 <= k < rows_before(m, count).len(),
    ensures
        0 <= rows_before(m, count)[k].0 < rows_before(m, count)[k].1 < count,
        pair_place(count, rows_before(m, count)[k].0, rows_before(m, count)[k].1) == k,
    decreases m,
{
    if m > 0 {
        let front = rows_before(m - 1, count);
        let row = row_pairs(m - 1, count);
        lemma_rows_before(m - 1, count);
        if k < front.len() {
            lemma_place_of_pair(m - 1, count, k);
            assert(rows_before(m, count)[k] == front[k]);
        } else {
            assert(rows_before(m, count)[k] == row[k - front.len()]);
        }
    }
}

/// The task of a cop who reloads, after ticks of the lengths `dts`: as
/// long as time is left it reloads, and with the tick in which the time
/// runs out it is idle with a full magazine.
pub open spec fn reloading(rounds: u32, remaining: Scalar, dts: Seq<Scalar>) -> (u32, CopState)
    decreases dts.len(),
{
    if dts.len() == 0 {
        (rounds, CopState::Reloading { reload_time_remaining: remaining })
    } else if remaining.spec_minus(dts[0]).raw > 0 {
        reloading(rounds, remaining.spec_minus(dts[0]), dts.drop_first())
    } else {
        (COP_MAGAZINE_CAPACITY, CopState::Idle)
    }
}

/// The sum of the raw lengths of the ticks.
pub open spec fn total(dts: Seq<Scalar>) -> int
    decreases dts.len(),
{
    if dts.len() == 0 {
        0
    } else {
        dts[0].raw + total(dts.drop_first())
    }
}

/// An idle cop without a round starts to reload, for the whole reload
/// time, and fires nothing.
pub proof fn lemma_empty_magazine_reloads(entities: Seq<Entity>, index: int, dt: Scalar, draw: Draw)
    ensures
        cop_decision(entities, index, 0, CopState::Idle, dt, draw).entity == with_task(
            entities[index],
            0,
            CopState::Reloading { reload_time_remaining: Scalar { raw: COP_RELOAD_COOLDOWN } },
        ),
        cop_decision(entities, index, 0, CopState::Idle, dt, draw).shot is None,
{
}

/// A tick of a cop who reloads is one step of `reloading`, whatever the
/// world holds and whatever chance gives.
pub proof fn lemma_reload_step(
    entities: Seq<Entity>,
    index: int,
    rounds: u32,
    remaining: Scalar,
    dt: Scalar,
    draw: Draw,
)
    ensures
        cop_decision(
            entities,
            index,
            rounds,
            CopState::Reloading { reload_time_remaining: remaining },
            dt,
            draw,
        ).entity == with_task(
            entities[index],
            reloading(rounds, remaining, seq![dt]).0,
            reloading(rounds, remaining, seq![dt]).1,
        ),
        cop_decision(
            entities,
            index,
            rounds,
            CopState::Reloading { reload_time_remaining: remaining },
            dt,
            draw,
        ).shot is None,
{
    reveal_with_fuel(reloading, 2);
    assert(seq![dt][0] == dt);
    assert(seq![dt].drop_first().len() == 0);
}

/// Ticks of positive length that add up to the time that is left, or to
/// more, end the reloading: the cop is idle and its magazine is full.
pub proof fn lemma_reload_completes(rounds: u32, remaining: Scalar, dts: Seq<Scalar>)
    requires
        forall|k: int| 0 <= k < dts.len() ==> (#[trigger] dts[k]).raw > 0,
        dts.len() > 0,
        total(dts) >= remaining.raw,
    ensures
        reloading(rounds, remaining, dts) == (COP_MAGAZINE_CAPACITY, CopState::Idle),
    decreases dts.len(),
{
    let left = remaining.spec_minus(dts[0]);
    if left.raw > 0 {
        let rest = dts.drop_first();
        assert(forall|k: int| 0 <= k < rest.len() ==> rest[k] == dts[k + 1]);
        assert(left.raw <= remaining.raw - dts[0].raw);
        if rest.len() == 0 {
            assert(total(rest) == 0);
            assert(false);
        }
        lemma_reload_completes(rounds, left, rest);
    }
}

/// A cop decides the same whatever is drawn of what it does not need: two
/// draws that agree in what the entity needs give the same decision.
pub proof fn lemma_only_the_draw_needed_matters(
    entities: Seq<Entity>,
    index: int,
    dt: Scalar,
    first: Draw,
    second: Draw,
)
    requires
        0 <= index < entities.len(),
        draws_agree(spec_draw_needed(entities, index, dt), first, second),
    ensures
        cop_step(entities, index, dt, first) == cop_step(entities, index, dt, second),
{
}

/// Who is nearest depends on the places and the kinds of the entities
/// alone.
pub proof fn lemma_nearest_goes_by_place_and_kind(
    first: Seq<Entity>,
    second: Seq<Entity>,
    from: Vector2,
    kind: TargetKind,
)
    requires
        first.len() == second.len(),
        forall|i: int|
            0 <= i < first.len() ==> (#[trigger] first[i]).position == second[i].position
                && same_kind(first[i].status, second[i].status),
    ensures
        nearest(first, from, kind) == nearest(second, from, kind),
{
    assert(target_keys(first, from, kind) =~= target_keys(second, from, kind)) by {
        assert forall|i: int| 0 <= i < first.len() implies target_keys(first, from, kind)[i]
            == target_keys(second, from, kind)[i] by {
            assert(first[i].position == second[i].position);
        }
    }
}

/// While the entities decide, none changes what an entity that has not yet
/// decided needs of chance: the need can be told from the world as it is
/// before the tick.
pub proof fn lemma_need_is_that_before_the_tick(
    tick: Tick,
    dt: Scalar,
    draws: Seq<Draw>,
    count: int,
)
    requires
        0 <= count < tick.entities.len(),
    ensures
        spec_draw_needed(behaved_prefix(tick, dt, draws, count).entities, count, dt)
            == spec_draw_needed(tick.entities, count, dt),
{
    let now = behaved_prefix(tick, dt, draws, count).entities;
    lemma_behaved_prefix(tick, dt, draws, count, count);
    assert forall|i: int| 0 <= i < now.len() implies (#[trigger] now[i]).position
        == tick.entities[i].position && same_kind(now[i].status, tick.entities[i].status) by {
        lemma_behaved_prefix(tick, dt, draws, count, i);
    }
    lemma_nearest_goes_by_place_and_kind(
        now,
        tick.entities,
        tick.entities[count].position,
        TargetKind::Zombies,
    );
    match tick.entities[count].status {
        Status::Alive {
            affiliation: Affiliation::Human {
                role: Role::Cop {
                    state: CopState::Aiming { target_index, .. },
                    ..
                },
                ..
            },
            ..
        } => {
            if target_index < tick.entities.len() {
                lemma_behaved_prefix(tick, dt, draws, count, target_index as int);
            }
        },
        _ => {},
    }
}

/// The entities decide the same whatever is drawn of what they do not
/// need.
pub proof fn lemma_behaviour_goes_by_the_draws_needed(
    tick: Tick,
    dt: Scalar,
    first: Seq<Draw>,
    second: Seq<Draw>,
    count: int,
)
    requires
        count <= tick.entities.len(),
        forall|i: int|
            0 <= i < tick.entities.len() ==> draws_agree(
                #[trigger] spec_draw_needed(tick.entities, i, dt),
                spec_draw_for(first, i),
                spec_draw_for(second, i),
            ),
    ensures
        behaved_prefix(tick, dt, first, count) == behaved_prefix(tick, dt, second, count),
    decreases count,
{
    if count > 0 {
        lemma_behaviour_goes_by_the_draws_needed(tick, dt, first, second, count - 1);
        let before = behaved_prefix(tick, dt, first, count - 1);
        lemma_need_is_that_before_the_tick(tick, dt, first, count - 1);
        lemma_behaved_prefix(tick, dt, first, count - 1, count - 1);
        assert(draws_agree(
            spec_draw_needed(tick.entities, count - 1, dt),
            spec_draw_for(first, count - 1),
            spec_draw_for(second, count - 1),
        ));
        lemma_only_the_draw_needed_matters(
            before.entities,
            count - 1,
            dt,
            spec_draw_for(first, count - 1),
            spec_draw_for(second, count - 1),
        );
    }
}

/// A tick is the same whatever is drawn of what no entity needs: two lists
/// of draws that agree, for every entity, in what it needs of chance as the
/// world is before the tick, give the same tick.
pub proof fn lemma_tick_goes_by_the_draws_needed(
    tick: Tick,
    dt: Scalar,
    first: Seq<Draw>,
    second: Seq<Draw>,
)
    requires
        forall|i: int|
            0 <= i < tick.entities.len() ==> draws_agree(
                #[trigger] spec_draw_needed(tick.entities, i, dt),
                spec_draw_for(first, i),
                spec_draw_for(second, i),
            ),
    ensures
        ticked(tick, dt, first) == ticked(tick, dt, second),
{
    lemma_behaviour_goes_by_the_draws_needed(
        tick,
        dt,
        first,
        second,
        tick.entities.len() as int,
    );
}

/// A cop that is idle with a round in its magazine aims at the nearest
/// living zombie, the first of those equally near, for a positive time; it
/// never aims at the dead, at a human or at itself. Where no zombie lives
/// it stays idle. It fires nothing either way.
pub proof fn lemma_idle_cop_aims_at_the_nearest_zombie(
    entities: Seq<Entity>,
    index: int,
    rounds: u32,
    dt: Scalar,
    draw: Draw,
)
    requires
        0 <= index < entities.len(),
        entities[index].status.spec_is_cop(),
        rounds > 0,
    ensures
        cop_decision(entities, index, rounds, CopState::Idle, dt, draw).shot is None,
        match nearest(entities, entities[index].position, TargetKind::Zombies) {
            Some(m) => {
                &&& 0 <= m < entities.len()
                &&& m != index
                &&& entities[m].status.spec_is_zombie()
                &&& draw.spec_or_certain().aim_time.raw > 0
                &&& draw.spec_is_valid() ==> draw.spec_or_certain() == draw
                &&& cop_decision(entities, index, rounds, CopState::Idle, dt, draw).entity
                    == with_task(
                    entities[index],
                    rounds,
                    CopState::Aiming {
                        aim_time_remaining: draw.spec_or_certain().aim_time,
                        target_index: m as usize,
                    },
                )
                &&& forall|i: int|
                    0 <= i < entities.len() && (#[trigger] entities[i]).status.spec_is_zombie()
                        ==> entities[m].position.distance2(entities[index].position)
                        <= entities[i].position.distance2(entities[index].position)
                &&& forall|i: int|
                    0 <= i < m && (#[trigger] entities[i]).status.spec_is_zombie()
                        ==> entities[m].position.distance2(entities[index].position)
                        < entities[i].position.distance2(entities[index].position)
            },
            None => {
                &&& forall|i: int|
                    0 <= i < entities.len() ==> !(#[trigger] entities[i]).status.spec_is_zombie()
                &&& cop_decision(entities, index, rounds, CopState::Idle, dt, draw).entity
                    == with_task(entities[index], rounds, CopState::Idle)
            },
        },
{
    let from = entities[index].position;
    let keys = target_keys(entities, from, TargetKind::Zombies);
    lemma_first_minimum_sound(keys);
    lemma_nearest_is_target(entities, from, TargetKind::Zombies);
    lemma_identity_is_turn();
    match nearest(entities, from, TargetKind::Zombies) {
        Some(m) => {
            assert forall|i: int|
                0 <= i < entities.len() && (
                #[trigger] entities[i]).status.spec_is_zombie() implies entities[m].position.distance2(
                from,
            ) <= entities[i].position.distance2(from) by {
                assert(keys[i] is Some);
                assert(keys[m] is Some);
            }
            assert forall|i: int|
                0 <= i < m && (
                #[trigger] entities[i]).status.spec_is_zombie() implies entities[m].position.distance2(
                from,
            ) < entities[i].position.distance2(from) by {
                assert(keys[i] is Some);
                assert(keys[m] is Some);
            }
        },
        None => {
            assert forall|i: int| 0 <= i < entities.len() implies !(
            #[trigger] entities[i]).status.spec_is_zombie() by {
                assert(spec_is_target(entities[i], TargetKind::Zombies) == entities[i].status.spec_is_zombie());
            }
        },
    }
}

/// A rotation by an angle leaves something of a vector of length one.
pub proof fn lemma_turned_unit_is_not_zero(unit: Vector2, turn: Rotation)
    requires
        is_unit(unit),
        turn.spec_is_turn(),
    ensures
        unit.spec_rotated_by(turn).norm2() > 0,
{
    let (x, y, c, s) = (unit.x.raw as int, unit.y.raw as int, turn.cos.raw as int, turn.sin.raw as int);
    let u = x * x + y * y;
    let r = c * c + s * s;
    assert(u == unit.norm2());
    assert(r == Vector2 { x: turn.cos, y: turn.sin }.norm2());
    let (a, b, e, d) = (x * c, y * s, x * s, y * c);
    let p = a - b;
    let q = e + d;
    let turned = unit.spec_rotated_by(turn);
    if turned.x.raw == 0 && turned.y.raw == 0 {
        assert(-65536 < p < 65536);
        assert(-65536 < q < 65536);
        assert(p * p + q * q < 0x2_0000_0000) by (nonlinear_arith)
            requires
                -65536 < p < 65536,
                -65536 < q < 65536,
        ;
        assert(p * p == a * a - 2 * (a * b) + b * b) by (nonlinear_arith)
            requires
                p == a - b,
        ;
        assert(q * q == e * e + 2 * (e * d) + d * d) by (nonlinear_arith)
            requires
                q == e + d,
        ;
        assert(a * b == e * d) by (nonlinear_arith)
            requires
                a == x * c,
                b == y * s,
                e == x * s,
                d == y * c,
        ;
        let (xx, yy, cc, ss) = (x * x, y * y, c * c, s * s);
        assert(a * a == xx * cc) by (nonlinear_arith)
            requires
                a == x * c,
                xx == x * x,
                cc == c * c,
        ;
        assert(b * b == yy * ss) by (nonlinear_arith)
            requires
                b == y * s,
                yy == y * y,
                ss == s * s,
        ;
        assert(e * e == xx * ss) by (nonlinear_arith)
            requires
                e == x * s,
                xx == x * x,
                ss == s * s,
        ;
        assert(d * d == yy * cc) by (nonlinear_arith)
            requires
                d == y * c,
                yy == y * y,
                cc == c * c,
        ;
        assert(u * r == xx * cc + xx * ss + yy * cc + yy * ss) by (nonlinear_arith)
            requires
                u == xx + yy,
                r == cc + ss,
        ;
        assert(u * r >= 0x2_0000_0000) by (nonlinear_arith)
            requires
                u >= 0x8000_0000,
                r >= 0x8000_0000,
        ;
        assert(false);
    }
    assert(turned.x.raw * turned.x.raw + turned.y.raw * turned.y.raw > 0) by (nonlinear_arith)
        requires
            turned.x.raw != 0 || turned.y.raw != 0,
    ;
}

/// A shot that is aimed flies: where there is an aim and the deviation is
/// a rotation by an angle, the shot has a direction of length one, its
/// velocity is that direction times the bullet speed, and it is no spent
/// projectile.
pub proof fn lemma_shot_flies(position: Vector2, aim: Vector2, deviation: Rotation)
    requires
        aim.norm2() > 0,
        deviation.spec_is_turn(),
    ensures
        is_unit(shot_direction(aim, deviation)),
        bullet(position, aim, deviation).velocity.x.raw == 40 * shot_direction(
            aim,
            deviation,
        ).x.raw,
        bullet(position, aim, deviation).velocity.y.raw == 40 * shot_direction(
            aim,
            deviation,
        ).y.raw,
        bullet(position, aim, deviation).spec_is_live(),
{
    aim.lemma_normalized_is_unit();
    lemma_turned_unit_is_not_zero(aim.spec_normalized(), deviation);
    let turned = aim.spec_normalized().spec_rotated_by(deviation);
    turned.lemma_normalized_is_unit();
    let dir = shot_direction(aim, deviation);
    let v = bullet(position, aim, deviation).velocity;
    assert(v.x.raw == 40 * dir.x.raw);
    assert(v.y.raw == 40 * dir.y.raw);
    assert(v.norm2() == 1600 * dir.norm2()) by (nonlinear_arith)
        requires
            v.norm2() == v.x.raw * v.x.raw + v.y.raw * v.y.raw,
            dir.norm2() == dir.x.raw * dir.x.raw + dir.y.raw * dir.y.raw,
            v.x.raw == 40 * dir.x.raw,
            v.y.raw == 40 * dir.y.raw,
    ;
}

/// The shot of a cop flies, whatever was drawn: when the time of a cop is
/// up who aims at a living entity in another place, it fires a bullet that
/// is no spent projectile, in a direction of length one.
pub proof fn lemma_shot_of_a_cop_flies(
    entities: Seq<Entity>,
    index: int,
    rounds: u32,
    aim_time_remaining: Scalar,
    target_index: usize,
    dt: Scalar,
    draw: Draw,
)
    requires
        0 <= index < entities.len(),
        target_index < entities.len(),
        !entities[target_index as int].status.spec_is_dead(),
        aim_time_remaining.spec_minus(dt).raw <= 0,
        entities[target_index as int].position.spec_minus(entities[index].position).norm2() > 0,
    ensures
        cop_decision(
            entities,
            index,
            rounds,
            CopState::Aiming { aim_time_remaining, target_index },
            dt,
            draw,
        ).shot is Some,
        cop_decision(
            entities,
            index,
            rounds,
            CopState::Aiming { aim_time_remaining, target_index },
            dt,
            draw,
        ).shot.unwrap().spec_is_live(),
        cop_decision(
            entities,
            index,
            rounds,
            CopState::Aiming { aim_time_remaining, target_index },
            dt,
            draw,
        ).shot.unwrap() == bullet(
            entities[index].position,
            entities[target_index as int].position.spec_minus(entities[index].position),
            draw.spec_or_certain().deviation,
        ),
{
    lemma_identity_is_turn();
    lemma_shot_flies(
        entities[index].position,
        entities[target_index as int].position.spec_minus(entities[index].position),
        draw.spec_or_certain().deviation,
    );
}

/// An entity moves by its velocity times the length of the tick, taken
/// before the damping, and its velocity then loses half of that
/// displacement. Where nothing saturates, these are exact differences of
/// the raw numbers.
pub proof fn lemma_integration_order(entity: Entity, dt: Scalar)
    ensures
        entity.spec_integrated(dt).position == entity.position.spec_plus(
            entity.velocity.spec_scaled(dt),
        ),
        entity.spec_integrated(dt).velocity == entity.velocity.spec_minus(
            entity.velocity.spec_scaled(dt).spec_halved(),
        ),
        entity.spec_integrated(dt).position.x.raw == saturate(
            entity.position.x.raw + saturate(trunc_div(entity.velocity.x.raw * dt.raw, ONE_RAW as int)),
        ),
        entity.spec_integrated(dt).velocity.x.raw == saturate(
            entity.velocity.x.raw - trunc_div(
                saturate(trunc_div(entity.velocity.x.raw * dt.raw, ONE_RAW as int)),
                2,
            ),
        ),
        entity.spec_integrated(dt).position.y.raw == saturate(
            entity.position.y.raw + saturate(trunc_div(entity.velocity.y.raw * dt.raw, ONE_RAW as int)),
        ),
        entity.spec_integrated(dt).velocity.y.raw == saturate(
            entity.velocity.y.raw - trunc_div(
                saturate(trunc_div(entity.velocity.y.raw * dt.raw, ONE_RAW as int)),
                2,
            ),
        ),
{
}

/// The push points from the first of two that meet to the second, while
/// time runs forward: no coordinate of it has the sign opposite to that of
/// the offset.
pub proof fn lemma_push_points_apart(delta: Vector2, dt: Scalar)
    requires
        dt.raw >= 0,
    ensures
        delta.x.raw >= 0 ==> separation(delta, dt).x.raw >= 0,
        delta.x.raw <= 0 ==> separation(delta, dt).x.raw <= 0,
        delta.y.raw >= 0 ==> separation(delta, dt).y.raw >= 0,
        delta.y.raw <= 0 ==> separation(delta, dt).y.raw <= 0,
{
    let n = delta.norm2();
    if n != 0 {
        assert(n > 0) by (nonlinear_arith)
            requires
                n != 0,
                n == delta.x.raw * delta.x.raw + delta.y.raw * delta.y.raw,
        ;
        lemma_quotient_keeps_sign(delta.x.raw as int, dt.raw * ONE_RAW, n);
        lemma_quotient_keeps_sign(delta.y.raw as int, dt.raw * ONE_RAW, n);
        assert(delta.x.raw * dt.raw * ONE_RAW == delta.x.raw * (dt.raw * ONE_RAW))
            by (nonlinear_arith);
        assert(delta.y.raw * dt.raw * ONE_RAW == delta.y.raw * (dt.raw * ONE_RAW))
            by (nonlinear_arith);
    }
}

/// A quotient rounded toward zero has the sign of its numerator.
proof fn lemma_quotient_keeps_sign(v: int, k: int, n: int)
    requires
        k >= 0,
        n > 0,
    ensures
        v >= 0 ==> trunc_div(v * k, n) >= 0,
        v <= 0 ==> trunc_div(v * k, n) <= 0,
{
    if v >= 0 {
        assert(v * k >= 0 && (v * k) / n >= 0) by (nonlinear_arith)
            requires
                v >= 0,
                k >= 0,
                n > 0,
        ;
    }
    if v <= 0 {
        assert(v * k <= 0 && (-(v * k)) / n >= 0) by (nonlinear_arith)
            requires
                v <= 0,
                k >= 0,
                n > 0,
        ;
    }
}

/// Two that meet are pushed apart alike: what the one loses of its
/// velocity the other gains, unless a velocity saturates.
pub proof fn lemma_push_is_equal_and_opposite(a: Entity, b: Entity, dt: Scalar)
    ensures
        met_first(a, b, dt).velocity == a.velocity.spec_minus(
            separation(b.position.spec_minus(a.position), dt),
        ),
        met_second(a, b, dt).velocity == b.velocity.spec_plus(
            separation(b.position.spec_minus(a.position), dt),
        ),
        MIN_RAW < met_first(a, b, dt).velocity.x.raw < MAX_RAW && MIN_RAW < met_second(
            a,
            b,
            dt,
        ).velocity.x.raw < MAX_RAW ==> met_first(a, b, dt).velocity.x.raw + met_second(
            a,
            b,
            dt,
        ).velocity.x.raw == a.velocity.x.raw + b.velocity.x.raw,
        MIN_RAW < met_first(a, b, dt).velocity.y.raw < MAX_RAW && MIN_RAW < met_second(
            a,
            b,
            dt,
        ).velocity.y.raw < MAX_RAW ==> met_first(a, b, dt).velocity.y.raw + met_second(
            a,
            b,
            dt,
        ).velocity.y.raw == a.velocity.y.raw + b.velocity.y.raw,
{
}

/// A world is made from its four numbers alone: two worlds made from the
/// same numbers are the same world, entity by entity and word by word of
/// their generators.
pub proof fn lemma_same_seed_same_world(
    first: StateView,
    second: StateView,
    entity_count: u32,
    cop_entities: Scalar,
    infected_entities: Scalar,
    random_seed: u32,
)
    requires
        first == generated(entity_count, cop_entities, infected_entities, random_seed),
        second == generated(entity_count, cop_entities, infected_entities, random_seed),
    ensures
        first == second,
        first.entities == second.entities,
        first.buildings == second.buildings,
        first.building_outlines == second.building_outlines,
        first.rng == second.rng,
{
}

/// Every building of a world that is made has a type, and nothing else has
/// one: the blocks all have the type 0, the landmarks the types 1 to 6, and
/// the four walls the type 7.
pub proof fn lemma_every_building_has_a_type(
    entity_count: u32,
    cop_entities: Scalar,
    infected_entities: Scalar,
    random_seed: u32,
    k: usize,
)
    ensures
        generated(entity_count, cop_entities, infected_entities, random_seed).buildings.len()
            == BUILDING_COUNT,
        generated(
            entity_count,
            cop_entities,
            infected_entities,
            random_seed,
        ).building_type.contains_key(k) <==> k < BUILDING_COUNT,
        k < BLOCK_COUNT ==> generated(
            entity_count,
            cop_entities,
            infected_entities,
            random_seed,
        ).building_type[k] == 0,
        BLOCK_COUNT <= k < 28 ==> 1 <= generated(
            entity_count,
            cop_entities,
            infected_entities,
            random_seed,
        ).building_type[k] <= 6,
        28 <= k < BUILDING_COUNT ==> generated(
            entity_count,
            cop_entities,
            infected_entities,
            random_seed,
        ).building_type[k] == 7,
{
}

/// The buildings of a world are the same whatever it is made from.
pub proof fn lemma_every_world_has_the_same_buildings(
    entity_count: u32,
    cop_entities: Scalar,
    infected_entities: Scalar,
    random_seed: u32,
)
    ensures
        generated(entity_count, cop_entities, infected_entities, random_seed).buildings == layout(),
        generated(entity_count, cop_entities, infected_entities, random_seed).building_outlines
            == layout_outlines(),
        generated(entity_count, cop_entities, infected_entities, random_seed).building_type
            == layout_types(),
{
}

/// Every entity of a new world stands still, and is a zombie, a cop or a
/// civilian by its place in the list.
pub proof fn lemma_spawned_entities(
    entity_count: u32,
    cop_entities: Scalar,
    infected_entities: Scalar,
    random_seed: u32,
    i: int,
)
    requires
        0 <= i < entity_count,
    ensures
        generated(entity_count, cop_entities, infected_entities, random_seed).entities.len()
            == entity_count,
        generated(entity_count, cop_entities, infected_entities, random_seed).entities[i].velocity
            == Vector2::spec_zero(),
        generated(
            entity_count,
            cop_entities,
            infected_entities,
            random_seed,
        ).entities[i].status.spec_is_zombie() <==> i < share(entity_count, infected_entities),
        generated(
            entity_count,
            cop_entities,
            infected_entities,
            random_seed,
        ).entities[i].status.spec_is_cop() <==> share(entity_count, infected_entities) <= i < share(
            entity_count,
            infected_entities,
        ) + share(entity_count, cop_entities),
{
}

} // verus!

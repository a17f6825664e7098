//! What each entity decides in a tick: civilians flee, zombies chase, and
//! cops idle, walk, aim, fire and reload.

use crate::constants::{
    BULLET_SPAWN_DISTANCE, BULLET_SPEED, COP_AIM_TIME_MEAN, COP_MAGAZINE_CAPACITY,
    COP_MIN_DISTANCE_FROM_WAYPOINT_SQUARED, COP_RELOAD_COOLDOWN, COP_TURN_RATE, ENTITY_ACCELERATION,
};
use crate::minimum::{
    first_minimum, holds_no_key, is_first_minimum, lemma_extend_new, lemma_extend_old,
    lemma_first_minimum_is, lemma_first_minimum_none,
};
use crate::scalar::Scalar;
use crate::state::{
    tick_of, Affiliation, CopState, Entity, Projectile, Role, SoundEffect, Status, Tick,
};
use crate::vector2::{lemma_identity_is_turn, Rotation, Vector2};
use vstd::prelude::*;

verus! {

/// Whom an entity looks for.
#[derive(Clone, Copy, PartialEq, Eq, Structural, Debug)]
pub enum TargetKind {
    Zombies,
    Humans,
}

/// Whether `entity` is of the kind looked for. The dead are of no kind.
pub open spec fn spec_is_target(entity: Entity, kind: TargetKind) -> bool {
    match kind {
        TargetKind::Zombies => entity.status.spec_is_zombie(),
        TargetKind::Humans => entity.status.spec_is_human(),
    }
}

#[verifier::when_used_as_spec(spec_is_target)]
pub fn is_target(entity: Entity, kind: TargetKind) -> (r: bool)
    ensures
        r == spec_is_target(entity, kind),
{
    match kind {
        TargetKind::Zombies => entity.status.is_zombie(),
        TargetKind::Humans => entity.status.is_human(),
    }
}

/// For each entity of the kind looked for, the exact square of its distance
/// from `from`.
pub open spec fn target_keys(entities: Seq<Entity>, from: Vector2, kind: TargetKind) -> Seq<
    Option<int>,
> {
    Seq::new(
        entities.len(),
        |j: int|
            if spec_is_target(entities[j], kind) {
                Some(entities[j].position.distance2(from))
            } else {
                None
            },
    )
}

/// The index of the entity of the kind looked for that is nearest to
/// `from`; of several equally near, the first.
pub open spec fn nearest(entities: Seq<Entity>, from: Vector2, kind: TargetKind) -> Option<int> {
    first_minimum(target_keys(entities, from, kind))
}

/// Scans all entities for the nearest one of the kind looked for.
pub fn find_nearest(entities: &Vec<Entity>, from: Vector2, kind: TargetKind) -> (found: Option<
    usize,
>)
    ensures
        match found {
            Some(i) => nearest(entities@, from, kind) == Some(i as int) && i < entities@.len()
                && spec_is_target(entities@[i as int], kind),
            None => nearest(entities@, from, kind) is None,
        },
{
    let ghost keys = target_keys(entities@, from, kind);
    let mut found: Option<usize> = None;
    let mut least: u128 = 0;
    let mut j: usize = 0;
    while j < entities.len()
        invariant
            j <= entities@.len(),
            keys == target_keys(entities@, from, kind),
            match found {
                Some(i) => is_first_minimum(keys.take(j as int), i as int) && keys[i as int]
                    == Some(least as int),
                None => holds_no_key(keys.take(j as int)),
            },
        decreases entities@.len() - j,
    {
        let entity = entities[j];
        let ghost before = keys.take(j as int);
        let ghost after = keys.take(j + 1);
        assert(after.drop_last() =~= before);
        assert(after.last() == keys[j as int]);
        if is_target(entity, kind) {
            let distance: u128 = entity.position.distance2_wide(from);
            match found {
                Some(i) => {
                    if distance < least {
                        proof {
                            lemma_extend_new(after, i as int);
                        }
                        found = Some(j);
                        least = distance;
                    } else {
                        proof {
                            lemma_extend_old(after, i as int);
                        }
                    }
                },
                None => {
                    assert(is_first_minimum(after, j as int)) by {
                        assert(forall|k: int| 0 <= k < j ==> after[k] == before[k]);
                    }
                    found = Some(j);
                    least = distance;
                },
            }
        } else {
            match found {
                Some(i) => {
                    proof {
                        lemma_extend_old(after, i as int);
                    }
                },
                None => {
                    assert(holds_no_key(after)) by {
                        assert(forall|k: int| 0 <= k < j ==> after[k] == before[k]);
                    }
                },
            }
        }
        j += 1;
    }
    proof {
        assert(keys.take(j as int) =~= keys);
        match found {
            Some(i) => {
                lemma_first_minimum_is(keys, i as int);
            },
            None => {
                lemma_first_minimum_none(keys);
            },
        }
    }
    found
}

impl Entity {
    /// The entity after it has run for `dt` in the direction of
    /// `direction`. Without a direction it keeps its velocity.
    pub open spec fn accelerated(self, direction: Vector2, dt: Scalar) -> Entity {
        Entity {
            position: self.position,
            velocity: self.velocity.spec_plus(
                direction.spec_normalized().spec_scaled(
                    Scalar { raw: ENTITY_ACCELERATION }.spec_times(dt),
                ),
            ),
            facing: self.facing,
            status: self.status,
        }
    }

    /// Gains speed in the direction of `direction`.
    pub fn accelerate_along_vector(&mut self, direction: Vector2, dt: Scalar)
        ensures
            *final(self) == old(self).accelerated(direction, dt),
    {
        let gain = Scalar::from_raw(ENTITY_ACCELERATION).times(dt);
        self.velocity = self.velocity.plus(direction.normalized().scaled(gain));
    }

    /// The entity after it has turned for `dt` toward `direction`.
    ///
    /// In a tick the facing can move by `COP_TURN_RATE · dt`. Where the
    /// direction wanted is no farther from the facing than that, the entity
    /// faces it. Else the facing moves by that much sideways, to the side on
    /// which the direction wanted lies (to the left where it lies straight
    /// behind), and is brought back to length one. Without a direction the
    /// entity does not turn.
    pub open spec fn turned(self, direction: Vector2, dt: Scalar) -> Entity {
        let wanted = direction.spec_normalized();
        let limit = Scalar { raw: COP_TURN_RATE }.spec_times(dt);
        let sideways = if self.facing.cross_exact(wanted) >= 0 {
            self.facing.spec_left()
        } else {
            self.facing.spec_right()
        };
        let moved = self.facing.spec_plus(sideways.spec_scaled(limit)).spec_normalized();
        Entity {
            position: self.position,
            velocity: self.velocity,
            facing: if wanted == Vector2::spec_zero() {
                self.facing
            } else if wanted.spec_minus(self.facing).spec_length().raw <= limit.raw || moved
                == Vector2::spec_zero() {
                wanted
            } else {
                moved
            },
            status: self.status,
        }
    }

    /// Turns toward `direction`, by no more than the turn rate allows.
    pub fn look_along_vector(&mut self, direction: Vector2, dt: Scalar)
        ensures
            *final(self) == old(self).turned(direction, dt),
    {
        let wanted = direction.normalized();
        if wanted == Vector2::zero() {
            return ;
        }
        let limit = Scalar::from_raw(COP_TURN_RATE).times(dt);
        if wanted.minus(self.facing).length().raw <= limit.raw {
            self.facing = wanted;
        } else {
            let sideways = if self.facing.cross_wide(wanted) >= 0 {
                self.facing.left()
            } else {
                self.facing.right()
            };
            let moved = self.facing.plus(sideways.scaled(limit)).normalized();
            if moved == Vector2::zero() {
                self.facing = wanted;
            } else {
                self.facing = moved;
            }
        }
    }
}

/// A civilian after its decision: it runs straight away from the nearest
/// zombie, if there is one.
pub open spec fn fled(entities: Seq<Entity>, index: int, dt: Scalar) -> Entity {
    let me = entities[index];
    match nearest(entities, me.position, TargetKind::Zombies) {
        Some(j) => me.accelerated(entities[j].position.spec_minus(me.position).spec_negated(), dt),
        None => me,
    }
}

/// A zombie after its decision: it runs straight toward the nearest human,
/// if there is one.
pub open spec fn chased(entities: Seq<Entity>, index: int, dt: Scalar) -> Entity {
    let me = entities[index];
    match nearest(entities, me.position, TargetKind::Humans) {
        Some(j) => me.accelerated(entities[j].position.spec_minus(me.position), dt),
        None => me,
    }
}

/// Run from zombies.
pub fn simulate_human(dt: Scalar, entities: &mut Vec<Entity>, index: usize)
    requires
        index < old(entities)@.len(),
    ensures
        final(entities)@ == old(entities)@.update(index as int, fled(old(entities)@, index as int, dt)),
{
    let mut me = entities[index];
    match find_nearest(entities, me.position, TargetKind::Zombies) {
        Some(j) => {
            let delta = entities[j].position.minus(me.position);
            me.accelerate_along_vector(delta.negated(), dt);
            entities[index] = me;
        },
        None => {
            assert(entities@ =~= old(entities)@.update(index as int, me));
        },
    }
}

/// Chase humans and cops.
pub fn simulate_zombie(dt: Scalar, entities: &mut Vec<Entity>, index: usize)
    requires
        index < old(entities)@.len(),
    ensures
        final(entities)@ == old(entities)@.update(
            index as int,
            chased(old(entities)@, index as int, dt),
        ),
{
    let mut me = entities[index];
    match find_nearest(entities, me.position, TargetKind::Humans) {
        Some(j) => {
            let delta = entities[j].position.minus(me.position);
            me.accelerate_along_vector(delta, dt);
            entities[index] = me;
        },
        None => {
            assert(entities@ =~= old(entities)@.update(index as int, me));
        },
    }
}

/// What chance gives a cop in a tick.
#[derive(Clone, Copy, PartialEq, Eq, Structural, Debug)]
pub struct Draw {
    /// How long the cop aims, if it starts to aim in this tick.
    pub aim_time: Scalar,
    /// By how much its shot goes astray, if it fires in this tick.
    pub deviation: Rotation,
}

impl Draw {
    pub open spec fn spec_certain() -> Draw {
        Draw { aim_time: Scalar { raw: COP_AIM_TIME_MEAN }, deviation: Rotation::spec_identity() }
    }

    /// The draw without chance: the mean aim time and a straight shot.
    #[verifier::when_used_as_spec(spec_certain)]
    pub fn certain() -> (d: Draw)
        ensures
            d == Draw::spec_certain(),
            d.spec_is_valid(),
    {
        let d = Draw {
            aim_time: Scalar::from_raw(COP_AIM_TIME_MEAN),
            deviation: Rotation::identity(),
        };
        proof {
            lemma_identity_is_turn();
        }
        d
    }

    /// Whether the draw can be used: the aim time is positive, and the
    /// deviation is a rotation by an angle.
    pub open spec fn spec_is_valid(self) -> bool {
        self.aim_time.raw > 0 && self.deviation.spec_is_turn()
    }

    #[verifier::when_used_as_spec(spec_is_valid)]
    pub fn is_valid(self) -> (r: bool)
        ensures
            r == self.spec_is_valid(),
    {
        self.aim_time.raw > 0 && self.deviation.is_turn()
    }

    pub open spec fn spec_or_certain(self) -> Draw {
        if self.spec_is_valid() {
            self
        } else {
            Draw::spec_certain()
        }
    }

    /// The draw itself where it can be used, and the draw without chance
    /// in place of one that cannot.
    #[verifier::when_used_as_spec(spec_or_certain)]
    pub fn or_certain(self) -> (d: Draw)
        ensures
            d == self.spec_or_certain(),
            d.spec_is_valid(),
    {
        if self.is_valid() {
            self
        } else {
            Draw::certain()
        }
    }
}

/// The draw for entity `index`: the one at its place in `draws`, and the
/// draw without chance where `draws` is too short.
pub open spec fn spec_draw_for(draws: Seq<Draw>, index: int) -> Draw {
    if 0 <= index < draws.len() {
        draws[index]
    } else {
        Draw::spec_certain()
    }
}

pub fn draw_for(draws: &Vec<Draw>, index: usize) -> (d: Draw)
    ensures
        d == spec_draw_for(draws@, index as int),
{
    if index < draws.len() {
        draws[index]
    } else {
        Draw::certain()
    }
}

/// What a cop has decided: what it is now, and the bullet it fired, if any.
#[derive(Clone, Copy, PartialEq, Eq, Structural, Debug)]
pub struct CopOutcome {
    pub entity: Entity,
    pub shot: Option<Projectile>,
}

/// The entity `me`, alive as a cop with the given magazine and task.
pub open spec fn with_task(me: Entity, rounds_in_magazine: u32, state: CopState) -> Entity {
    Entity {
        position: me.position,
        velocity: me.velocity,
        facing: me.facing,
        status: match me.status {
            Status::Alive { health, affiliation: Affiliation::Human { infection, .. } } => Status::Alive {
                health,
                affiliation: Affiliation::Human {
                    infection,
                    role: Role::Cop { rounds_in_magazine, state },
                },
            },
            _ => me.status,
        },
    }
}

/// The direction in which a shot leaves that is aimed along `aim`: that
/// of the aim, turned by the deviation, of length one. Without an aim
/// there is no direction.
pub open spec fn shot_direction(aim: Vector2, deviation: Rotation) -> Vector2 {
    aim.spec_normalized().spec_rotated_by(deviation).spec_normalized()
}

/// The bullet that leaves a cop at `position` who aims along `aim`, after
/// the deviation has turned the aim: it starts outside the cop and flies at
/// bullet speed.
pub open spec fn bullet(position: Vector2, aim: Vector2, deviation: Rotation) -> Projectile {
    let direction = shot_direction(aim, deviation);
    Projectile {
        position: position.spec_plus(direction.spec_scaled(Scalar { raw: BULLET_SPAWN_DISTANCE })),
        velocity: direction.spec_scaled(Scalar { raw: BULLET_SPEED }),
    }
}

/// One less round, and none less than none.
pub open spec fn one_round_less(rounds: u32) -> u32 {
    if rounds > 0 {
        (rounds - 1) as u32
    } else {
        0
    }
}

/// The decision of the cop at `index`, whose magazine holds `rounds` and
/// whose task is `state`.
///
/// * Idle: with an empty magazine it starts to reload. Else it looks for
///   the nearest zombie and aims at it for the time drawn, or stays idle
///   where there is none.
/// * Aiming: where the target is dead or is no entity of the world, it
///   gives up. Else it turns toward the target while the time runs; when the
///   time is up it fires one round, and is idle.
/// * Moving: within reach of the waypoint it is idle, else it runs toward
///   the waypoint.
/// * Reloading: when the time is up the magazine is full and it is idle.
///
/// A draw that cannot be used counts as the draw without chance.
pub open spec fn cop_decision(
    entities: Seq<Entity>,
    index: int,
    rounds: u32,
    state: CopState,
    dt: Scalar,
    given: Draw,
) -> CopOutcome {
    let me = entities[index];
    let draw = given.spec_or_certain();
    match state {
        CopState::Idle => {
            if rounds == 0 {
                CopOutcome {
                    entity: with_task(
                        me,
                        rounds,
                        CopState::Reloading {
                            reload_time_remaining: Scalar { raw: COP_RELOAD_COOLDOWN },
                        },
                    ),
                    shot: None,
                }
            } else {
                match nearest(entities, me.position, TargetKind::Zombies) {
                    Some(j) => CopOutcome {
                        entity: with_task(
                            me,
                            rounds,
                            CopState::Aiming {
                                aim_time_remaining: draw.aim_time,
                                target_index: j as usize,
                            },
                        ),
                        shot: None,
                    },
                    None => CopOutcome { entity: with_task(me, rounds, CopState::Idle), shot: None },
                }
            }
        },
        CopState::Aiming { aim_time_remaining, target_index } => {
            if target_index >= entities.len() || entities[target_index as int].status.spec_is_dead() {
                CopOutcome { entity: with_task(me, rounds, CopState::Idle), shot: None }
            } else {
                let aim = entities[target_index as int].position.spec_minus(me.position);
                let left = aim_time_remaining.spec_minus(dt);
                if left.raw > 0 {
                    CopOutcome {
                        entity: with_task(
                            me.turned(aim, dt),
                            rounds,
                            CopState::Aiming { aim_time_remaining: left, target_index },
                        ),
                        shot: None,
                    }
                } else {
                    CopOutcome {
                        entity: with_task(me.turned(aim, dt), one_round_less(rounds), CopState::Idle),
                        shot: Some(bullet(me.position, aim, draw.deviation)),
                    }
                }
            }
        },
        CopState::Moving { waypoint } => {
            let delta = waypoint.spec_minus(me.position);
            if delta.spec_length_squared().raw < COP_MIN_DISTANCE_FROM_WAYPOINT_SQUARED {
                CopOutcome { entity: with_task(me, rounds, CopState::Idle), shot: None }
            } else {
                CopOutcome {
                    entity: with_task(me.accelerated(delta, dt), rounds, CopState::Moving { waypoint }),
                    shot: None,
                }
            }
        },
        CopState::Reloading { reload_time_remaining } => {
            let left = reload_time_remaining.spec_minus(dt);
            if left.raw > 0 {
                CopOutcome {
                    entity: with_task(
                        me,
                        rounds,
                        CopState::Reloading { reload_time_remaining: left },
                    ),
                    shot: None,
                }
            } else {
                CopOutcome {
                    entity: with_task(me, COP_MAGAZINE_CAPACITY, CopState::Idle),
                    shot: None,
                }
            }
        },
    }
}

/// The decision of the entity at `index`, which is a cop; an entity that is
/// no cop decides nothing here.
pub open spec fn cop_step(entities: Seq<Entity>, index: int, dt: Scalar, draw: Draw) -> CopOutcome {
    match entities[index].status {
        Status::Alive {
            affiliation: Affiliation::Human { role: Role::Cop { rounds_in_magazine, state }, .. },
            ..
        } => cop_decision(entities, index, rounds_in_magazine, state, dt, draw),
        _ => CopOutcome { entity: entities[index], shot: None },
    }
}

/// What a cop needs of chance in a tick.
#[derive(Clone, Copy, PartialEq, Eq, Structural, Debug)]
pub enum DrawNeed {
    /// Nothing: the entity decides without chance.
    Nothing,
    /// An aim time: the cop starts to aim.
    AimTime,
    /// A deviation: the cop fires.
    Deviation,
}

/// What the entity at `index` needs of chance in a tick of length `dt`. A
/// cop that is idle with a round in its magazine needs an aim time where a
/// zombie lives; a cop whose time to aim at a living entity runs out needs a
/// deviation; nobody else needs anything.
pub open spec fn spec_draw_needed(entities: Seq<Entity>, index: int, dt: Scalar) -> DrawNeed {
    if 0 <= index < entities.len() {
        match entities[index].status {
            Status::Alive {
                affiliation: Affiliation::Human {
                    role: Role::Cop { rounds_in_magazine, state },
                    ..
                },
                ..
            } => match state {
                CopState::Idle => if rounds_in_magazine > 0 && nearest(
                    entities,
                    entities[index].position,
                    TargetKind::Zombies,
                ) is Some {
                    DrawNeed::AimTime
                } else {
                    DrawNeed::Nothing
                },
                CopState::Aiming { aim_time_remaining, target_index } => if target_index
                    < entities.len() && !entities[target_index as int].status.spec_is_dead()
                    && aim_time_remaining.spec_minus(dt).raw <= 0 {
                    DrawNeed::Deviation
                } else {
                    DrawNeed::Nothing
                },
                _ => DrawNeed::Nothing,
            },
            _ => DrawNeed::Nothing,
        }
    } else {
        DrawNeed::Nothing
    }
}

/// Says what the entity at `index` needs of chance in the tick to come, so
/// that no more is drawn than is used.
pub fn draw_needed(dt: Scalar, entities: &Vec<Entity>, index: usize) -> (need: DrawNeed)
    ensures
        need == spec_draw_needed(entities@, index as int, dt),
{
    if index >= entities.len() {
        return DrawNeed::Nothing;
    }
    let me = entities[index];
    match me.status {
        Status::Alive {
            affiliation: Affiliation::Human { role: Role::Cop { rounds_in_magazine, state }, .. },
            ..
        } => match state {
            CopState::Idle => {
                if rounds_in_magazine > 0 {
                    match find_nearest(entities, me.position, TargetKind::Zombies) {
                        Some(_) => DrawNeed::AimTime,
                        None => DrawNeed::Nothing,
                    }
                } else {
                    DrawNeed::Nothing
                }
            },
            CopState::Aiming { aim_time_remaining, target_index } => {
                if target_index < entities.len() && !entities[target_index].status.is_dead()
                    && aim_time_remaining.minus(dt).raw <= 0 {
                    DrawNeed::Deviation
                } else {
                    DrawNeed::Nothing
                }
            },
            _ => DrawNeed::Nothing,
        },
        _ => DrawNeed::Nothing,
    }
}

/// Whether two draws give a cop with the need `need` the same: they agree
/// in what it needs, once a draw that cannot be used is replaced.
pub open spec fn draws_agree(need: DrawNeed, first: Draw, second: Draw) -> bool {
    match need {
        DrawNeed::Nothing => true,
        DrawNeed::AimTime => first.spec_or_certain().aim_time == second.spec_or_certain().aim_time,
        DrawNeed::Deviation => first.spec_or_certain().deviation
            == second.spec_or_certain().deviation,
    }
}

/// Gives the cop `me` the magazine and the task named; an entity that is no
/// living human stays as it is.
pub fn assign_task(me: Entity, rounds: u32, state: CopState) -> (e: Entity)
    ensures
        e == with_task(me, rounds, state),
{
    let status = match me.status {
        Status::Alive { health, affiliation: Affiliation::Human { infection, .. } } => Status::Alive {
            health,
            affiliation: Affiliation::Human {
                infection,
                role: Role::Cop { rounds_in_magazine: rounds, state },
            },
        },
        other => other,
    };
    Entity { position: me.position, velocity: me.velocity, facing: me.facing, status }
}

/// Builds `bullet(position, aim, deviation)`.
fn fire(position: Vector2, aim: Vector2, deviation: Rotation) -> (p: Projectile)
    ensures
        p == bullet(position, aim, deviation),
{
    let direction = aim.normalized().rotated_by(deviation).normalized();
    Projectile {
        position: position.plus(direction.scaled(Scalar::from_raw(BULLET_SPAWN_DISTANCE))),
        velocity: direction.scaled(Scalar::from_raw(BULLET_SPEED)),
    }
}

/// One step of the machine that drives the cop at `index`. The entity there
/// must be a living cop.
pub fn update_cop(dt: Scalar, draw: Draw, entities: &Vec<Entity>, index: usize) -> (outcome:
    CopOutcome)
    requires
        index < entities@.len(),
        entities@[index as int].status.spec_is_cop(),
    ensures
        outcome == cop_step(entities@, index as int, dt, draw),
{
    let me = entities[index];
    let draw = draw.or_certain();
    match me.status {
        Status::Alive {
            affiliation: Affiliation::Human { role: Role::Cop { rounds_in_magazine, state }, .. },
            ..
        } => {
            match state {
                CopState::Idle => {
                    if rounds_in_magazine == 0 {
                        // Reload if you don't have ammo
                        let task = CopState::Reloading {
                            reload_time_remaining: Scalar::from_raw(COP_RELOAD_COOLDOWN),
                        };
                        CopOutcome { entity: assign_task(me, rounds_in_magazine, task), shot: None }
                    } else {
                        // Look for a target if you do have ammo
                        match find_nearest(entities, me.position, TargetKind::Zombies) {
                            Some(j) => {
                                let task = CopState::Aiming {
                                    aim_time_remaining: draw.aim_time,
                                    target_index: j,
                                };
                                CopOutcome {
                                    entity: assign_task(me, rounds_in_magazine, task),
                                    shot: None,
                                }
                            },
                            None => CopOutcome {
                                entity: assign_task(me, rounds_in_magazine, CopState::Idle),
                                shot: None,
                            },
                        }
                    }
                },
                CopState::Aiming { aim_time_remaining, target_index } => {
                    if target_index >= entities.len() || entities[target_index].status.is_dead() {
                        // Stop aiming if the target is already dead
                        return CopOutcome {
                            entity: assign_task(me, rounds_in_magazine, CopState::Idle),
                            shot: None,
                        };
                    }
                    let aim = entities[target_index].position.minus(me.position);
                    let mut turned = me;
                    turned.look_along_vector(aim, dt);
                    let left = aim_time_remaining.minus(dt);
                    if left.raw > 0 {
                        // Taking aim, do nothing
                        let task = CopState::Aiming { aim_time_remaining: left, target_index };
                        CopOutcome {
                            entity: assign_task(turned, rounds_in_magazine, task),
                            shot: None,
                        }
                    } else {
                        // Finished aiming, take the shot
                        let rounds: u32 = if rounds_in_magazine > 0 {
                            rounds_in_magazine - 1
                        } else {
                            0
                        };
                        CopOutcome {
                            entity: assign_task(turned, rounds, CopState::Idle),
                            shot: Some(fire(me.position, aim, draw.deviation)),
                        }
                    }
                },
                CopState::Moving { waypoint } => {
                    let delta = waypoint.minus(me.position);
                    if delta.length_squared().raw < COP_MIN_DISTANCE_FROM_WAYPOINT_SQUARED {
                        CopOutcome {
                            entity: assign_task(me, rounds_in_magazine, CopState::Idle),
                            shot: None,
                        }
                    } else {
                        let mut running = me;
                        running.accelerate_along_vector(delta, dt);
                        CopOutcome {
                            entity: assign_task(
                                running,
                                rounds_in_magazine,
                                CopState::Moving { waypoint },
                            ),
                            shot: None,
                        }
                    }
                },
                CopState::Reloading { reload_time_remaining } => {
                    let left = reload_time_remaining.minus(dt);
                    if left.raw > 0 {
                        // Reloading, do nothing
                        let task = CopState::Reloading { reload_time_remaining: left };
                        CopOutcome { entity: assign_task(me, rounds_in_magazine, task), shot: None }
                    } else {
                        // Finished reloading, replenish rounds
                        CopOutcome {
                            entity: assign_task(me, COP_MAGAZINE_CAPACITY, CopState::Idle),
                            shot: None,
                        }
                    }
                },
            }
        },
        _ => CopOutcome { entity: me, shot: None },
    }
}

/// The tick after the entity at `index` has decided. The dead decide
/// nothing.
pub open spec fn behave_one(tick: Tick, dt: Scalar, draws: Seq<Draw>, index: int) -> Tick {
    let me = tick.entities[index];
    if me.status.spec_is_cop() {
        let outcome = cop_step(tick.entities, index, dt, spec_draw_for(draws, index));
        match outcome.shot {
            Some(shot) => Tick {
                entities: tick.entities.update(index, outcome.entity),
                projectiles: tick.projectiles.push(shot),
                signals: tick.signals.push(SoundEffect::Gunshot),
            },
            None => Tick {
                entities: tick.entities.update(index, outcome.entity),
                projectiles: tick.projectiles,
                signals: tick.signals,
            },
        }
    } else if me.status.spec_is_human() {
        Tick {
            entities: tick.entities.update(index, fled(tick.entities, index, dt)),
            projectiles: tick.projectiles,
            signals: tick.signals,
        }
    } else if me.status.spec_is_zombie() {
        Tick {
            entities: tick.entities.update(index, chased(tick.entities, index, dt)),
            projectiles: tick.projectiles,
            signals: tick.signals,
        }
    } else {
        tick
    }
}

/// The tick after the first `count` entities have decided, one after the
/// other.
pub open spec fn behaved_prefix(tick: Tick, dt: Scalar, draws: Seq<Draw>, count: int) -> Tick
    decreases count,
{
    if count <= 0 {
        tick
    } else {
        behave_one(behaved_prefix(tick, dt, draws, count - 1), dt, draws, count - 1)
    }
}

/// The tick after every entity has decided.
pub open spec fn behaved(tick: Tick, dt: Scalar, draws: Seq<Draw>) -> Tick {
    behaved_prefix(tick, dt, draws, tick.entities.len() as int)
}

/// Lets every entity decide, in the order of the list.
pub fn apply_behaviours(
    dt: Scalar,
    draws: &Vec<Draw>,
    entities: &mut Vec<Entity>,
    projectiles: &mut Vec<Projectile>,
    signals: &mut Vec<SoundEffect>,
)
    ensures
        tick_of(final(entities)@, final(projectiles)@, final(signals)@) == behaved(
            tick_of(old(entities)@, old(projectiles)@, old(signals)@),
            dt,
            draws@,
        ),
        final(entities)@.len() == old(entities)@.len(),
{
    let ghost start = tick_of(entities@, projectiles@, signals@);
    let count: usize = entities.len();
    let mut i: usize = 0;
    while i < count
        invariant
            i <= count,
            count == start.entities.len(),
            entities@.len() == count,
            tick_of(entities@, projectiles@, signals@) == behaved_prefix(start, dt, draws@, i as int),
        decreases count - i,
    {
        let ghost now = tick_of(entities@, projectiles@, signals@);
        let status = entities[i].status;
        if status.is_cop() {
            let outcome = update_cop(dt, draw_for(draws, i), entities, i);
            entities[i] = outcome.entity;
            match outcome.shot {
                Some(shot) => {
                    projectiles.push(shot);
                    signals.push(SoundEffect::Gunshot);
                },
                None => {},
            }
        } else if status.is_human() {
            // Run from zombies!
            simulate_human(dt, entities, i);
        } else if status.is_zombie() {
            // Chase humans and cops!
            simulate_zombie(dt, entities, i);
        }
        assert(tick_of(entities@, projectiles@, signals@) == behave_one(now, dt, draws@, i as int));
        i += 1;
    }
}

} // verus!

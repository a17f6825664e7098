//! What the player commands: whom to select, and where the selected cops
//! are to go or whom they are to shoot.

use crate::behaviour::{assign_task, find_nearest, nearest, with_task, TargetKind};
use crate::constants::{COP_AIM_TIME_MEAN, ENTITY_RADIUS};
use crate::scalar::Scalar;
use crate::state::{
    follows, lemma_wf_is_kept, Affiliation, CopState, Entity, Role, State, Status,
};
use crate::vector2::Vector2;
use std::collections::HashSet;
use vstd::prelude::*;

verus! {

/// What the selected cops are told to do.
#[derive(Clone, Copy, PartialEq, Eq, Structural, Debug)]
pub enum PoliceOrder {
    /// Walk to the place named.
    Move,
    /// Shoot the zombie nearest to the place named.
    Attack,
}

/// Whether a click at `click` falls on the living entity `entity`: inside
/// the circle that bounds it.
pub open spec fn spec_under_click(entity: Entity, click: Vector2) -> bool {
    &&& !entity.status.spec_is_dead()
    &&& entity.position.spec_minus(click).norm2() < ENTITY_RADIUS * ENTITY_RADIUS
}

#[verifier::when_used_as_spec(spec_under_click)]
pub fn under_click(entity: Entity, click: Vector2) -> (r: bool)
    ensures
        r == spec_under_click(entity, click),
{
    let radius: u128 = ENTITY_RADIUS as u128;
    !entity.status.is_dead() && entity.position.minus(click).norm2_wide() < radius * radius
}

/// The entities that a click at `click` selects.
pub open spec fn clicked(entities: Seq<Entity>, click: Vector2) -> Set<usize> {
    Set::new(|i: usize| i < entities.len() && spec_under_click(entities[i as int], click))
}

/// Selects the living entities under the click, and nobody else: a click
/// on the ground selects nobody.
pub fn update_selected(state: &mut State, click: Vector2)
    ensures
        final(state).selection@ == clicked(old(state).entities@, click),
        final(state).entities == old(state).entities,
        final(state).projectiles == old(state).projectiles,
        final(state).buildings == old(state).buildings,
        final(state).building_outlines == old(state).building_outlines,
        final(state).building_type == old(state).building_type,
        final(state).rng == old(state).rng,
        final(state).money == old(state).money,
        old(state).wf() ==> final(state).wf(),
{
    let mut selection: HashSet<usize> = HashSet::new();
    let count: usize = state.entities.len();
    let mut i: usize = 0;
    while i < count
        invariant
            i <= count,
            count == state.entities@.len(),
            state.entities == old(state).entities,
            selection@ == Set::new(
                |k: usize| k < i && spec_under_click(state.entities@[k as int], click),
            ),
        decreases count - i,
    {
        if under_click(state.entities[i], click) {
            selection.insert(i);
        }
        assert(selection@ =~= Set::new(
            |k: usize| k < i + 1 && spec_under_click(state.entities@[k as int], click),
        ));
        i += 1;
    }
    assert(selection@ =~= clicked(state.entities@, click));
    state.selection = selection;
    proof {
        if old(state).wf() {
            lemma_wf_is_kept(old(state)@, state@);
        }
    }
}

/// The task that `order` gives a cop with `rounds` rounds, where
/// `zombie` is the zombie nearest to the place named, if there is one. A cop
/// can always be sent somewhere; it can be told to shoot only while it has a
/// round and there is a zombie, and aims for the mean aim time then.
pub open spec fn commanded_task(
    order: PoliceOrder,
    target: Vector2,
    zombie: Option<int>,
    rounds: u32,
    state: CopState,
) -> CopState {
    match order {
        PoliceOrder::Move => CopState::Moving { waypoint: target },
        PoliceOrder::Attack => match zombie {
            Some(j) => if rounds >= 1 {
                CopState::Aiming {
                    aim_time_remaining: Scalar { raw: COP_AIM_TIME_MEAN },
                    target_index: j as usize,
                }
            } else {
                state
            },
            None => state,
        },
    }
}

/// The entity after the order: a living cop has the task commanded, anyone
/// else is as before.
pub open spec fn commanded(
    entity: Entity,
    order: PoliceOrder,
    target: Vector2,
    zombie: Option<int>,
) -> Entity {
    match entity.status {
        Status::Alive {
            affiliation: Affiliation::Human { role: Role::Cop { rounds_in_magazine, state }, .. },
            ..
        } => with_task(
            entity,
            rounds_in_magazine,
            commanded_task(order, target, zombie, rounds_in_magazine, state),
        ),
        _ => entity,
    }
}

/// The entities after `order` was given for the place `target` to those of
/// them that are selected.
pub open spec fn ordered(
    entities: Seq<Entity>,
    selection: Set<usize>,
    order: PoliceOrder,
    target: Vector2,
) -> Seq<Entity> {
    Seq::new(
        entities.len(),
        |i: int|
            if selection.contains(i as usize) {
                commanded(entities[i], order, target, nearest(entities, target, TargetKind::Zombies))
            } else {
                entities[i]
            },
    )
}

/// Gives `order` for the place `target` to every selected cop that lives.
pub fn issue_police_order(order: PoliceOrder, state: &mut State, target: Vector2)
    ensures
        final(state).entities@ == ordered(
            old(state).entities@,
            old(state).selection@,
            order,
            target,
        ),
        final(state).selection == old(state).selection,
        final(state).projectiles == old(state).projectiles,
        final(state).buildings == old(state).buildings,
        final(state).building_outlines == old(state).building_outlines,
        final(state).building_type == old(state).building_type,
        final(state).rng == old(state).rng,
        final(state).money == old(state).money,
        old(state).wf() ==> final(state).wf(),
        forall|i: int|
            0 <= i < old(state).entities@.len() ==> follows(
                old(state).entities@[i],
                #[trigger] final(state).entities@[i],
                old(state).entities@.len(),
            ),
{
    let zombie = find_nearest(&state.entities, target, TargetKind::Zombies);
    let ghost near = nearest(state.entities@, target, TargetKind::Zombies);
    let count: usize = state.entities.len();
    let mut i: usize = 0;
    while i < count
        invariant
            i <= count,
            count == old(state).entities@.len(),
            state.entities@.len() == count,
            state.selection == old(state).selection,
            state.projectiles == old(state).projectiles,
            state.buildings == old(state).buildings,
            state.building_outlines == old(state).building_outlines,
            state.building_type == old(state).building_type,
            state.rng == old(state).rng,
            state.money == old(state).money,
            near == nearest(old(state).entities@, target, TargetKind::Zombies),
            match zombie {
                Some(j) => near == Some(j as int) && j < count,
                None => near is None,
            },
            forall|k: int|
                0 <= k < i ==> state.entities@[k] == ordered(
                    old(state).entities@,
                    old(state).selection@,
                    order,
                    target,
                )[k],
            forall|k: int| i <= k < count ==> state.entities@[k] == old(state).entities@[k],
        decreases count - i,
    {
        if state.selection.contains(&i) {
            let entity = state.entities[i];
            match entity.status {
                Status::Alive {
                    affiliation: Affiliation::Human {
                        role: Role::Cop { rounds_in_magazine, state: task },
                        ..
                    },
                    ..
                } => {
                    let next = match order {
                        PoliceOrder::Move => CopState::Moving { waypoint: target },
                        PoliceOrder::Attack => match zombie {
                            Some(j) => if rounds_in_magazine >= 1 {
                                CopState::Aiming {
                                    aim_time_remaining: Scalar::from_raw(COP_AIM_TIME_MEAN),
                                    target_index: j,
                                }
                            } else {
                                task
                            },
                            None => task,
                        },
                    };
                    state.entities[i] = assign_task(entity, rounds_in_magazine, next);
                },
                _ => {},
            }
        }
        i += 1;
    }
    assert(state.entities@ =~= ordered(
        old(state).entities@,
        old(state).selection@,
        order,
        target,
    ));
    proof {
        assert forall|k: int| 0 <= k < count implies follows(
            old(state).entities@[k],
            #[trigger] state.entities@[k],
            count as nat,
        ) by {
            assert(state.entities@[k] == ordered(
                old(state).entities@,
                old(state).selection@,
                order,
                target,
            )[k]);
        }
        if old(state).wf() {
            assert forall|k: usize| #[trigger] state@.selection.contains(k) implies k
                < state@.entities.len() by {
                assert(old(state)@.selection.contains(k));
            }
            lemma_wf_is_kept(old(state)@, state@);
        }
    }
}

} // verus!

//! One tick of the simulation.

use crate::ballistics::{flown, simulate_projectiles};
use crate::behaviour::{apply_behaviours, behaved, Draw};
use crate::collision::{all_pairs, collided, lemma_collided_along_frame, resolve_collisions};
use crate::motion::{integrate, moved};
use crate::scalar::Scalar;
use crate::laws::lemma_ticked;
use crate::state::{follows, lemma_wf_is_kept, tick_of, SoundEffect, State, Tick};
use vstd::prelude::*;

verus! {

/// What a tick is given: its length, and for each entity what chance gives
/// it, should it be a cop that needs it in this tick. `draw_needed` says
/// before the tick who needs what; a draw that is missing or cannot be
/// used counts as the draw without chance.
pub struct UpdateArgs {
    pub dt: Scalar,
    pub draws: Vec<Draw>,
}

/// A tick, as four passes of which each has ended before the next begins:
/// every entity decides, the entities that touch meet, every entity moves,
/// and the projectiles fly.
pub open spec fn ticked(tick: Tick, dt: Scalar, draws: Seq<Draw>) -> Tick {
    flown(moved(collided(behaved(tick, dt, draws), dt), dt), dt)
}

/// Advances the world by one tick and returns the signals that it raised,
/// in their order. Buildings, selection, generator and money stay. No
/// entity is added or removed: the dead stay dead, zombies stay zombies
/// until they die, and a well-formed world stays well formed.
pub fn update(args: &UpdateArgs, state: &mut State) -> (signals: Vec<SoundEffect>)
    ensures
        tick_of(final(state).entities@, final(state).projectiles@, signals@) == ticked(
            tick_of(old(state).entities@, old(state).projectiles@, Seq::empty()),
            args.dt,
            args.draws@,
        ),
        final(state).entities@.len() == old(state).entities@.len(),
        final(state).buildings == old(state).buildings,
        final(state).building_outlines == old(state).building_outlines,
        final(state).building_type == old(state).building_type,
        final(state).selection == old(state).selection,
        final(state).rng == old(state).rng,
        final(state).money == old(state).money,
        old(state).wf() ==> final(state).wf(),
        forall|i: int|
            0 <= i < old(state).entities@.len() ==> follows(
                old(state).entities@[i],
                #[trigger] final(state).entities@[i],
                old(state).entities@.len(),
            ),
{
    let mut signals: Vec<SoundEffect> = Vec::new();
    // Apply individual behaviours
    apply_behaviours(
        args.dt,
        &args.draws,
        &mut state.entities,
        &mut state.projectiles,
        &mut signals,
    );
    // Check for collisions
    proof {
        lemma_collided_along_frame(
            tick_of(state.entities@, state.projectiles@, signals@),
            all_pairs(state.entities@.len() as int),
            args.dt,
        );
    }
    resolve_collisions(args.dt, &mut state.entities, &mut signals);
    // Apply acceleration
    integrate(args.dt, &mut state.entities);
    // Simulate projectiles
    simulate_projectiles(args.dt, &mut state.entities, &mut state.projectiles, &mut signals);
    proof {
        let start = tick_of(old(state).entities@, old(state).projectiles@, Seq::empty());
        assert forall|i: int| 0 <= i < old(state).entities@.len() implies follows(
            old(state).entities@[i],
            #[trigger] state.entities@[i],
            old(state).entities@.len(),
        ) by {
            lemma_ticked(start, args.dt, args.draws@, i);
        }
        if old(state).wf() {
            assert forall|k: usize| #[trigger] state@.selection.contains(k) implies k
                < state@.entities.len() by {
                assert(old(state)@.selection.contains(k));
            }
            lemma_wf_is_kept(old(state)@, state@);
        }
    }
    signals
}

} // verus!

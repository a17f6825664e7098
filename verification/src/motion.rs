//! How entities move in a tick.

use crate::scalar::Scalar;
use crate::state::{Entity, Tick};
use vstd::prelude::*;

verus! {

impl Entity {
    /// The entity after `dt` of motion: it is displaced by its velocity
    /// times `dt`, and only then the velocity loses half of that
    /// displacement.
    pub open spec fn spec_integrated(self, dt: Scalar) -> Entity {
        Entity {
            position: self.position.spec_plus(self.velocity.spec_scaled(dt)),
            velocity: self.velocity.spec_minus(self.velocity.spec_scaled(dt).spec_halved()),
            facing: self.facing,
            status: self.status,
        }
    }

    /// Moves the entity for `dt`, then damps its velocity.
    #[verifier::when_used_as_spec(spec_integrated)]
    pub fn integrated(self, dt: Scalar) -> (moved: Entity)
        ensures
            moved == self.spec_integrated(dt),
    {
        let displacement = self.velocity.scaled(dt);
        Entity {
            position: self.position.plus(displacement),
            velocity: self.velocity.minus(displacement.halved()),
            facing: self.facing,
            status: self.status,
        }
    }
}

/// The tick after every entity has moved for `dt`.
pub open spec fn moved(tick: Tick, dt: Scalar) -> Tick {
    Tick {
        entities: tick.entities.map_values(|e: Entity| e.spec_integrated(dt)),
        projectiles: tick.projectiles,
        signals: tick.signals,
    }
}

/// Moves every entity for `dt`.
pub fn integrate(dt: Scalar, entities: &mut Vec<Entity>)
    ensures
        final(entities)@ == old(entities)@.map_values(|e: Entity| e.spec_integrated(dt)),
{
    let count: usize = entities.len();
    let mut i: usize = 0;
    while i < count
        invariant
            i <= count,
            entities@.len() == count,
            old(entities)@.len() == count,
            forall|k: int| 0 <= k < i ==> entities@[k] == old(entities)@[k].spec_integrated(dt),
            forall|k: int| i <= k < count ==> entities@[k] == old(entities)@[k],
        decreases count - i,
    {
        let e = entities[i];
        entities[i] = e.integrated(dt);
        i += 1;
    }
    assert(entities@ =~= old(entities)@.map_values(|e: Entity| e.spec_integrated(dt)));
}

} // verus!

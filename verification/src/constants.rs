//! The numbers that the simulation runs on.
//!
//! Quantities are raw fixed-point numbers, in units of `1 / 65536`; wrap one
//! in `Scalar::from_raw` to compute with it.

use vstd::prelude::*;

verus! {

/// Radius of the circle that bounds every entity: 0.5.
pub const ENTITY_RADIUS: i32 = 32768;

/// Square of the distance under which two entities touch: (2 · 0.5)² = 1.
pub const DOUBLE_ENTITY_RADIUS_SQUARED: i32 = 65536;

/// Acceleration of an entity that runs: 2 per second per second.
pub const ENTITY_ACCELERATION: i32 = 131072;

/// Health of a new entity: 100.
pub const ENTITY_HEALTH_MAX: i32 = 6553600;

/// Infection of a healthy human: 0.
pub const INFECTION_MIN: i32 = 0;

/// Infection at which a human turns: 1.
pub const INFECTION_MAX: i32 = 65536;

/// Rounds in a full magazine.
pub const COP_MAGAZINE_CAPACITY: u32 = 6;

/// Time that reloading takes: 3 seconds.
pub const COP_RELOAD_COOLDOWN: i32 = 196608;

/// Aim time of a cop for whom no time was drawn: 1 second.
pub const COP_AIM_TIME_MEAN: i32 = 65536;

/// Square of the distance under which a cop has reached its waypoint:
/// 0.5² = 0.25.
pub const COP_MIN_DISTANCE_FROM_WAYPOINT_SQUARED: i32 = 16384;

/// Length by which the facing of an aiming cop may change: 4 per second.
pub const COP_TURN_RATE: i32 = 262144;

/// Speed of a bullet: 40 per second.
pub const BULLET_SPEED: i32 = 2621440;

/// Distance from the shooter at which a bullet starts: 1.125 · 0.5.
pub const BULLET_SPAWN_DISTANCE: i32 = 36864;

/// Squared speed below which a projectile is spent: 1.
pub const MIN_PROJECTILE_SPEED: i32 = 65536;

/// Side of the square in which entities are placed: 100.
pub const SPAWN_AREA_SIDE: i32 = 6553600;

/// Distance of a building's outline from the building: 0.5 · 1.1.
pub const OUTLINE_MARGIN: i32 = 36045;

/// Money at the start.
pub const STARTING_MONEY: u32 = 20;

} // verus!

//! A simulation of an outbreak: civilians, cops and zombies in a town.
//!
//! The world is advanced tick by tick. In a tick every entity decides,
//! those that touch meet, everything moves, and the projectiles fly. All
//! numbers are fixed-point, so that a tick is a function of the world, the
//! length of the tick and what chance gives, and is the same function on
//! every machine.

pub mod ballistics;
pub mod behaviour;
pub mod collision;
pub mod constants;
pub mod control;
pub mod display;
pub mod geometry;
pub mod initial_state;
pub mod laws;
pub mod layout;
pub mod minimum;
pub mod motion;
pub mod outline;
pub mod rng;
pub mod scalar;
pub mod state;
pub mod update;
pub mod vector2;
pub mod victory_screen;

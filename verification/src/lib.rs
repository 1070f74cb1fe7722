//! Fixed-point physics and interaction engine of a brick-breaking arcade game.
//!
//! Lengths are integers counted in millionths of a pixel, times in
//! microseconds and angles in binary fractions of a half turn, so that a tick
//! of the simulation is an exact function of its inputs and of the random
//! draws it makes. The simulation holds no global state: every stage of a
//! tick takes the entities it works on, and `game::game_update` runs the
//! stages in their order.

pub mod consts;
pub mod fixed;
pub mod direction;
pub mod timer;
pub mod random;
pub mod animation;
pub mod collisions;
pub mod game;
pub mod stages;
pub mod paddle;
pub mod balls_and_bullets;
pub mod barrels;
pub mod countdown_and_portal;
pub mod meanies;
pub mod codes;
pub mod shop;
pub mod menu;
pub mod transition;

//! Simulation core of a 2D physical puzzle-platformer.
//!
//! A player-controlled body moves over terrain with a contact-aware
//! jump/fall state machine; detachable robot parts can be picked up,
//! stacked and mounted onto powered bases; an activation signal
//! propagates through the chain of carried parts and drives
//! per-part behaviors (hovering, periodic laser fire, periodic
//! direction flip).
//!
//! The physics engine, rendering, input devices and level tooling are
//! external collaborators: they hand this library plain values (contact
//! sets, input axes, frame timings) and apply the velocity writes,
//! joint changes and spawn/despawn requests it computes.  All scalar
//! quantities are fixed-point integers (see [`fixed`]), so every rule
//! in here is verified exactly.

pub mod behavior_types;
pub mod door;
pub mod fixed;
pub mod part_activation;
pub mod part_behavior;
pub mod parts_manipulation;
pub mod physics_utils;
pub mod global_types;
pub mod laser;
pub mod player_control;
pub mod robot_part;
pub mod timer;
pub mod world;

pub use fixed::FX_ONE;

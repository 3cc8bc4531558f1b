//! Authoritative server core for a tick-based multiplayer action game.
//!
//! The crate models the simulation runtime: typed id allocation, the entity
//! and actor model, the per-map instance with its fixed-tick pipeline, the
//! coordinator that routes clients among instances, and the binary codec for
//! outbound notifications.  World-space quantities are fixed-point integers:
//! positions in nano-units, speeds in milli-units per second, durations in
//! microseconds.

pub mod actor;
pub mod authentication;
pub mod ai;
pub mod codec;
pub mod data;
pub mod entity;
pub mod game;
pub mod geometry;
pub mod id;
pub mod instance;
pub mod messages;
pub mod pathfinding;
pub mod resource;
pub mod rng;
pub mod store;
pub mod update;

//! Core of a fireworks display animation.
//!
//! Timed shell particles launch, transition into procedurally generated
//! explosion patterns, and their fragments may schedule further transitions,
//! all driven by a per-frame physics update. The crate holds the entity
//! store, the fuse queue, the behaviour state machine with its explosion
//! generators, and the physics integrator, over a fixed-point numeric model;
//! drawing and the host's random capability stay outside.

pub mod components;
pub mod draws;
pub mod queue;
pub mod store;
pub mod units;
pub mod world;

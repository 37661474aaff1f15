//! Authoritative state engine for a tile-based multiplayer world.
//!
//! The library owns the game truth: the map grid, the per-tile occupancy
//! index, the unit registry, the connection registry and the monotonic unit id
//! counter. Command handling, the movement tick and the liveness check are
//! pure state transitions here; the network transport, the clock and the
//! on-disk configuration live outside and hand in plain values.

pub mod commands;
pub mod map;
pub mod msg;
pub mod tick;
pub mod world;

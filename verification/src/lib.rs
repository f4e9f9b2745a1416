//! Core of an Asteroids-style game with a LAN multicast side channel.
//!
//! The crate holds the deterministic fixed-step simulation kernel — actors,
//! physics integration with velocity clamping and toroidal wrap-around, shot
//! lifetime, collision resolution, scoring, level respawn, the input snapshot
//! and the game-mode state machine — together with the length-prefixed binary
//! codec used to exchange key/number maps between peers.
//!
//! All quantities are exact integers:
//! - lengths are in units of 1/3600 pixel,
//! - time is in ticks of 1/60 s (the fixed simulation step),
//! - velocities are in length units per tick,
//! - angles are in microradians, normalised to [0, 2*pi).
//! The windowing, audio, randomness and socket collaborators live outside the
//! crate and exchange plain integer values with it.

pub mod actor;
pub mod geometry;
pub mod hash_map_codec;
pub mod input;
pub mod physics;
pub mod spawn;
pub mod world;

pub use hash_map_codec::HashMapCodec;
pub use world::MainState;

//! Spritz: a sponge-like stream cipher and hash built around one mutable
//! 256-cell permutation table and six one-byte registers.
//!
//! The engine offers a keyed keystream (drawn byte by byte, or combined
//! with data by exclusive-or) and a fixed-length digest of an arbitrary
//! message. `model` holds the mathematical image of the state machine,
//! `engine` the executable code proved against it, and `laws` the proofs
//! that the table stays a permutation and that keystreams and digests are
//! deterministic and stream cleanly across split draws.

pub mod engine;
pub mod laws;
pub mod model;

pub use engine::Spritz;
pub use engine::SpritzError;

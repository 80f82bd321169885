//! An exact three-dimensional vector library.
//!
//! The vector type carries three signed 64-bit integer components and is
//! specified against an unbounded mathematical model, so every operation's
//! result is pinned down exactly. Operations whose exact result may not be
//! representable (division, normalization) return `Option` and state
//! precisely when they succeed.

pub mod laws;
pub mod vector;

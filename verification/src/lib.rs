//! Arranging the objects of a scene by constraint solving.
//!
//! A script, run from outside, registers the names of the objects it wants
//! (`script`, `registry`). Each name is made into an entity with the
//! bounding box of its mesh (`geometry`, `entity`). The entities are
//! encoded as a set of facts (`facts`) for a solver, which is driven step
//! by step (`session`), and the first model it finds is written back as
//! positions (`placement`).
//!
//! Coordinates are binary32 numbers held by their bit pattern (`scalar`,
//! `rounding`): the library computes on the patterns and never with
//! machine floating point.
pub mod entity;
pub mod error;
pub mod facts;
pub mod geometry;
pub mod placement;
pub mod registry;
pub mod rounding;
pub mod scalar;
pub mod script;
pub mod session;
pub mod text;

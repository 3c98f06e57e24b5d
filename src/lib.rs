//! Geometric state spaces for sampling-based motion planning.
//!
//! A state space is a metric space over integer coordinates (one unit is the
//! space's resolution), with an interpolation operator along the canonical
//! path between two states and a policy for cutting that path into
//! segments. Leaf spaces cover one axis each; a compound space is the
//! product of an ordered list of leaf spaces. A fraction of a path is a
//! `Step`, the ratio of two integers in `[0, 1]`.

pub mod error;
pub mod leaf;
pub mod space;
pub mod compound;
pub mod laws;

//! Charged point bodies that move under each other's field, approximated
//! with a Barnes-Hut quadtree, and under the field of rectangular plates.
//!
//! Every quantity is a fixed-point number with sixteen fractional bits (see
//! [`fixed`]): a step is exact integer arithmetic, the same on every
//! machine, and what it computes is stated and proved.
//!
//! - [`quadtree`] builds the tree over the bodies and evaluates their field.
//! - [`plate`] holds the plates; the integrals behind the field of a
//!   plate's charge are the caller's to evaluate.
//! - [`simulation`] takes one time step.
//! - [`handoff`] passes bodies and plates between the simulation and an
//!   editor, and [`editor`] is that editor: what the pointer and the keys
//!   do to a selection of plates.
//! - [`utils`] makes bodies and plates to start with.

pub mod body;
pub mod editor;
pub mod fixed;
pub mod handoff;
pub mod plate;
pub mod quadtree;
pub mod simulation;
pub mod utils;
pub mod vec2;

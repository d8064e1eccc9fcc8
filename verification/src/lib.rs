//! A deterministic particle-and-link simulator for ropes, cloth and spring
//! networks.
//!
//! Point masses are joined by distance constraints, pushed by gravity, drag
//! and pointer impulses, advanced in fixed time steps and pulled back toward
//! their rest distances by repeated relaxation passes. Links snap when they
//! are stretched too far and can be cut with a drawn segment.
//!
//! All quantities are fixed-point numbers held in `i64`, so that every step
//! is an exact function of the state and the sampled input.

pub mod fixed;
pub mod vec2;
pub mod error;
pub mod node;
pub mod constraint;
pub mod config;
pub mod model;
pub mod main_state;
pub mod grid;
pub mod laws;

//! Special-relativistic kinematics for a two-dimensional world seen from an
//! accelerating observer.
//!
//! All physical quantities are fixed-point numbers with 32 fractional bits,
//! held in `i128`, in units where the speed of light is one.
pub mod fixed;
pub mod vector;
pub mod kinematics;
pub mod world;
pub mod render;
pub mod engines;

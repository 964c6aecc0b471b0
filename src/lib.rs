//! Directional radar for a multi-agent vehicle simulation.
//!
//! The model works on integers: positions are bounded `i64` vectors, angles
//! are millidegrees, and sector edges are direction vectors whose exact
//! cross products decide containment. Trigonometry and the drawing of
//! Gaussian samples are left to the caller, which hands in the resulting
//! direction vectors and scaled samples.
pub mod geometry;
pub mod radar;
pub mod lemmas;

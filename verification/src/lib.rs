//! A verified core for a planar slider-crank-like linkage visualizer.
//!
//! Two rigid links OA and AB are joined at A; O is fixed at the origin and B
//! slides on the horizontal axis. Given the link lengths, an interpolation
//! ratio AM/AB and a normalized progress value (one full revolution per unit),
//! the library solves for the instantaneous points A, B and M, tabulates the
//! path traced by M, advances progress over time, and binds free-text numeric
//! entry to validated parameter values.
//!
//! All scalars are fixed-point: an `i64` counts millionths, so a raw value of
//! `SCALE` stands for 1.0. Rendering (a GUI canvas in a typical consumer) is a
//! pure downstream reader of the geometry this crate returns and lives outside
//! of it.

pub mod fixed;
pub mod trig;
pub mod mechanism;
pub mod animation;
pub mod input;
pub mod session;

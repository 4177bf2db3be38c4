//! Simulation core of a two-player wave-field arcade game: a damped
//! discrete wave field, the kinematics of the ships that disturb it, and
//! the per-frame step that couples the two.
//!
//! All quantities are fixed-point integers: field values in millionths
//! (`field::UNIT`), lengths in thousandths of a pixel (`ship::SHIP_UNIT`),
//! angles in microradians (`ship::ANGLE_UNIT`), sprite scales in
//! ten-thousandths (`ship::SCALE_UNIT`).

pub mod fixed;
pub mod field;
pub mod ship;
pub mod game;

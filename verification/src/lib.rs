//! Core simulation engine of a lane-based tower-defense game: a fixed grid of
//! rows and columns holds defending plants, attacking zombies advance along the
//! rows, projectiles fly back at them, and falling suns fund new placements.
//!
//! All coordinates are integers in milli-pixels of a 1280x720 frame, and all
//! durations are integers in milliseconds; the tuning table in [`units`] fixes
//! one canonical set of speeds, costs and sizes.

pub mod units;

pub mod board;

pub mod sun;

pub mod projectile;

pub mod zombie;

pub mod plants;

pub mod collision;

pub mod wave;

pub mod level;

pub mod updates;

pub mod config;

pub mod save;

mod rng;

//! The canonical tuning table: every speed, size, cost and interval of the
//! simulation, in one place.
//!
//! Positions and sizes are in milli-pixels (mpx) of a 1280x720 frame, so the
//! playfield is `FRAME_W` = 1_280_000 mpx wide and `FRAME_H` = 720_000 mpx
//! high. Times are in milliseconds; speeds in mpx per millisecond.

use vstd::prelude::*;

verus! {

/// Width of the whole frame, in milli-pixels.
pub const FRAME_W: i64 = 1_280_000;

/// Height of the whole frame, in milli-pixels.
pub const FRAME_H: i64 = 720_000;

/// Width of a zombie sprite.
pub const ZOMBIE_W: i64 = 55_000;

/// Offset of a zombie's hit-box from the left of its sprite.
pub const ZOMBIE_HITBOX_OFF: i64 = 16_000;

/// Width of a zombie's hit-box (narrower than the sprite).
pub const ZOMBIE_HITBOX_W: i64 = 39_000;

/// Zombie walking speed, mpx per millisecond (17 px/s).
pub const ZOMBIE_SPEED: i64 = 17;

/// How long an ice hit keeps a zombie frozen, in milliseconds.
pub const FREEZE_MS: u64 = 10_000;

/// Health pool of the bare zombie variant.
pub const ZOMBIE_HEALTH_NORMAL: u32 = 200;

/// Health pool of the cone-armored zombie variant.
pub const ZOMBIE_HEALTH_CONE: u32 = 640;

/// Width of a pea projectile.
pub const PEA_W: i64 = 50_000;

/// Pea projectile speed, mpx per millisecond (200 px/s).
pub const PEA_SPEED: i64 = 200;

/// Damage dealt by one pea, whatever its damage type.
pub const PEA_DAMAGE: u32 = 20;

/// Horizontal offset of a freshly fired pea, left of the muzzle point.
pub const PEA_X_OFF: i64 = 25_000;

/// Width of a plant sprite.
pub const PLANT_W: i64 = 70_000;

/// Height of a plant sprite.
pub const PLANT_H: i64 = 100_000;

/// Initial health of every plant, in milliseconds of being eaten.
pub const PLANT_HEALTH_MS: u64 = 3_000;

/// Charge a shooter must accumulate between shots, in milliseconds.
pub const SHOOT_INTERVAL_MS: u64 = 1_500;

/// Charge a sunflower must accumulate between suns, in milliseconds.
pub const SUNFLOWER_INTERVAL_MS: u64 = 24_000;

/// Charge a sunflower starts with, so its first sun comes early.
pub const SUNFLOWER_INITIAL_CHARGE_MS: u64 = 19_000;

/// Vertical offset between a sunflower's sun spawn point and its rest point.
pub const SUN_SPAWN_OFF: i64 = 50_000;

/// Width of a sun pickup.
pub const SUN_W: i64 = 60_000;

/// Height of a sun pickup.
pub const SUN_H: i64 = 90_000;

/// Falling speed of a sun, mpx per millisecond (34 px/s).
pub const SUN_FALL_SPEED: i64 = 34;

/// Money granted when a sun is picked up.
pub const SUN_VALUE: u32 = 25;

/// Interval between sky-dropped suns, in milliseconds.
pub const SUN_INTERVAL_MS: u64 = 5_000;

/// Lowest resting height of a sky-dropped sun (200 px).
pub const SKY_SUN_MIN_DIST: i64 = 200_000;

/// One above the highest resting height of a sky-dropped sun (420 px).
pub const SKY_SUN_MAX_DIST: i64 = 420_000;

/// Horizontal stagger between zombies spawned into the same row by one wave
/// batch (7.68 px, 0.6% of the frame width).
pub const STACK_STEP: i64 = 7_680;

/// Cost of a lily pad.
pub const COST_NENUPHAR: u32 = 25;

/// Cost of a sunflower.
pub const COST_SUNFLOWER: u32 = 50;

/// Cost of a normal pea shooter.
pub const COST_SHOOTER_NORMAL: u32 = 100;

/// Cost of a fire pea shooter.
pub const COST_SHOOTER_FIRE: u32 = 175;

/// Cost of an ice pea shooter.
pub const COST_SHOOTER_ICE: u32 = 175;

/// Cost of a triple shooter.
pub const COST_TRIPLE: u32 = 325;

/// Ceiling on every stored horizontal position. A wave batch holds at most
/// 255 entries of at most 255 zombies, so stacked spawn offsets stay below
/// `FRAME_W + 255 * 255 * STACK_STEP` = 500_672_000 mpx.
pub const X_MAX: i64 = 1_000_000_000;

/// Floor on every stored horizontal position: one tick of walking, even a
/// `u32::MAX`-millisecond one, cannot push a zombie that was still on the
/// field below `0 - ZOMBIE_W - ZOMBIE_SPEED * u32::MAX`.
pub const X_MIN: i64 = -100_000_000_000;

} // verus!

//! Sun pickups: they fall from their spawn point to a resting height and wait
//! to be collected for money.

use vstd::prelude::*;

use crate::units::{FRAME_H, FRAME_W, PLANT_W, SUN_FALL_SPEED, SUN_H, SUN_SPAWN_OFF, SUN_W};

verus! {

/// One sun: top-left corner of its sprite and the height it settles at.
#[derive(Clone, Copy, PartialEq, Eq, Debug)]
pub struct Sun {
    pub x: i64,
    pub y: i64,
    /// Resting height: `y` grows toward `dist` and never past it.
    pub dist: i64,
}

impl Sun {
    /// A sun stays horizontally inside the frame; vertically it starts at most
    /// a spawn offset above the frame and settles at most a spawn offset below
    /// it.
    pub open spec fn wf(self) -> bool {
        &&& 0 <= self.x <= FRAME_W + PLANT_W
        &&& -SUN_SPAWN_OFF <= self.y <= self.dist
        &&& self.dist <= FRAME_H + SUN_SPAWN_OFF
    }

    pub fn new(x: i64, y: i64, dist: i64) -> (r: Sun)
        ensures
            r == (Sun { x, y, dist }),
    {
        Sun { x, y, dist }
    }

    /// Where one tick of falling puts the sun: down at the falling speed, but
    /// never below its resting height.
    pub open spec fn spec_step_y(self, elapsed: u32) -> int {
        if self.y + SUN_FALL_SPEED * elapsed <= self.dist {
            self.y + SUN_FALL_SPEED * elapsed
        } else {
            self.dist as int
        }
    }

    /// Advance the sun by one tick of falling.
    pub fn update(&mut self, elapsed: u32)
        requires
            old(self).wf(),
        ensures
            final(self).y as int == old(self).spec_step_y(elapsed),
            final(self).x == old(self).x,
            final(self).dist == old(self).dist,
            final(self).wf(),
    {
        let fallen = self.y + SUN_FALL_SPEED * (elapsed as i64);
        self.y = if fallen <= self.dist {
            fallen
        } else {
            self.dist
        };
    }

    /// Whether the point lies on the sun's sprite (used for pickup).
    pub open spec fn spec_contains(self, px: int, py: int) -> bool {
        &&& self.x <= px < self.x + SUN_W
        &&& self.y <= py < self.y + SUN_H
    }

    /// Whether the point lies on the sun's sprite.
    pub fn contains(&self, px: i64, py: i64) -> (r: bool)
        requires
            self.wf(),
        ensures
            r == self.spec_contains(px as int, py as int),
    {
        self.x <= px && px < self.x + SUN_W && self.y <= py && py < self.y + SUN_H
    }
}

} // verus!

//! Projectiles: a pea flying rightward along one row, carrying a fixed damage
//! amount and a damage type.

use vstd::prelude::*;

use crate::units::{FRAME_W, PEA_DAMAGE, PEA_SPEED, PEA_W};

verus! {

/// What kind of damage a projectile (or a hit) carries.
#[derive(Clone, Copy, PartialEq, Eq, Debug)]
pub enum DamageType {
    Normal,
    Fire,
    Ice,
}

/// A pea projectile: its left edge, and the damage type it carries.
#[derive(Clone, Copy, PartialEq, Eq, Debug)]
pub struct Pea {
    pub x: i64,
    pub damage_type: DamageType,
}

impl Pea {
    /// A pea at rest between ticks sits inside the frame or less than its own
    /// width past the right edge (any further and the last update removed it).
    pub open spec fn wf(self) -> bool {
        0 <= self.x < FRAME_W + PEA_W
    }

    /// A pea expires once it has left the frame by at least its own width.
    pub open spec fn spec_expired(self) -> bool {
        self.x >= FRAME_W + PEA_W
    }

    /// Where one tick of flight puts the pea's left edge.
    pub open spec fn spec_step_x(self, elapsed: u32) -> int {
        self.x + PEA_SPEED * elapsed
    }

    /// Advance the pea by one tick of flight.
    pub fn update(&mut self, elapsed: u32)
        requires
            old(self).wf(),
        ensures
            final(self).x as int == old(self).spec_step_x(elapsed),
            final(self).damage_type == old(self).damage_type,
    {
        self.x = self.x + PEA_SPEED * (elapsed as i64);
    }

    /// Whether the pea has left the playfield and should be removed.
    pub fn to_remove(&self) -> (r: bool)
        ensures
            r == self.spec_expired(),
    {
        self.x >= FRAME_W + PEA_W
    }

    /// Damage dealt on a hit: the same amount for every damage type.
    pub fn damage_amount(&self) -> (r: u32)
        ensures
            r == PEA_DAMAGE,
    {
        PEA_DAMAGE
    }

    /// The damage type this pea carries.
    pub fn damage_type(&self) -> (r: DamageType)
        ensures
            r == self.damage_type,
    {
        self.damage_type
    }
}

} // verus!

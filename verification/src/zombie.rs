//! Zombies: horizontal position, a numeric health pool, and a freeze timer.
//!
//! A hit carries a damage amount, a damage type and a flag saying whether it
//! was propagated from a neighboring hit. Fire clears the freeze, ice applies
//! it; both ask to be propagated when they are original hits. An original ice
//! hit is a pure status application: it leaves the health pool untouched and
//! only propagated ice hits subtract damage.

use vstd::prelude::*;

use crate::projectile::DamageType;
use crate::units::{
    FRAME_W, FREEZE_MS, X_MAX, X_MIN, ZOMBIE_HEALTH_CONE, ZOMBIE_HEALTH_NORMAL, ZOMBIE_HITBOX_OFF,
    ZOMBIE_HITBOX_W, ZOMBIE_SPEED,
};

verus! {

/// One zombie walking leftward along a row.
#[derive(Clone, Copy, PartialEq, Eq, Debug)]
pub struct Zombie {
    /// Left edge of the sprite, in milli-pixels; decreases as it advances.
    pub x: i64,
    /// Remaining health pool; a zombie at rest is alive (health > 0).
    pub health: u32,
    /// Remaining freeze time in milliseconds; zero means not frozen.
    pub freeze: u64,
}

/// Discrete armor tier a zombie's health pool maps to, from bare to
/// cone-armored.
#[derive(Clone, Copy, PartialEq, Eq, Debug)]
pub enum ZombieTier {
    MissingHead,
    Normal,
    HalfCone,
    Cone,
}

/// Whether a zombie type identifier is one the simulation knows.
pub fn valide_zombie_id(id: u8) -> (r: bool)
    ensures
        r == (id == 0 || id == 1),
{
    id <= 1
}

/// Health pool a freshly spawned zombie of the given type starts with.
pub open spec fn spec_zombie_health(id: u8) -> u32 {
    if id == 0 {
        ZOMBIE_HEALTH_NORMAL
    } else {
        ZOMBIE_HEALTH_CONE
    }
}

/// A fresh zombie of the given type, standing at the right edge of the frame.
pub fn zombie_from_id(id: u8) -> (z: Zombie)
    requires
        id == 0 || id == 1,
    ensures
        z.x == FRAME_W,
        z.health == spec_zombie_health(id),
        z.freeze == 0,
        z.wf(),
{
    Zombie {
        x: FRAME_W,
        health: if id == 0 {
            ZOMBIE_HEALTH_NORMAL
        } else {
            ZOMBIE_HEALTH_CONE
        },
        freeze: 0,
    }
}

/// The rows of zombies as plain sequences.
pub open spec fn spec_rows(zs: Seq<Vec<Zombie>>) -> Seq<Seq<Zombie>> {
    zs.map_values(|v: Vec<Zombie>| v@)
}

impl Zombie {
    pub open spec fn wf(self) -> bool {
        &&& X_MIN <= self.x <= X_MAX
        &&& 1 <= self.health <= ZOMBIE_HEALTH_CONE
        &&& self.freeze <= FREEZE_MS
    }

    /// Left edge of the hit-box used for all collision tests.
    pub open spec fn hitbox_lo(self) -> int {
        self.x + ZOMBIE_HITBOX_OFF
    }

    /// Right edge of the hit-box used for all collision tests.
    pub open spec fn hitbox_hi(self) -> int {
        self.x + ZOMBIE_HITBOX_OFF + ZOMBIE_HITBOX_W
    }

    pub open spec fn spec_freezed(self) -> bool {
        self.freeze > 0
    }

    /// Whether the zombie is currently frozen (and so moves and eats at half
    /// speed).
    pub fn freezed(&self) -> (r: bool)
        ensures
            r == self.spec_freezed(),
    {
        self.freeze > 0
    }

    /// Armor tier shown for the current health pool.
    pub fn tier(&self) -> (r: ZombieTier)
        requires
            self.health <= ZOMBIE_HEALTH_CONE,
        ensures
            r is MissingHead <==> self.health <= 100,
            r is Normal <==> 101 <= self.health <= 200,
            r is HalfCone <==> 201 <= self.health <= 420,
            r is Cone <==> 421 <= self.health <= 640,
    {
        if self.health <= 100 {
            ZombieTier::MissingHead
        } else if self.health <= 200 {
            ZombieTier::Normal
        } else if self.health <= 420 {
            ZombieTier::HalfCone
        } else {
            ZombieTier::Cone
        }
    }

    /// Where one tick of walking puts the zombie's left edge: full speed, or
    /// half speed while frozen.
    pub open spec fn spec_step_x(self, elapsed: u32) -> int {
        if self.freeze > 0 {
            self.x - ZOMBIE_SPEED * elapsed / 2
        } else {
            self.x - ZOMBIE_SPEED * elapsed
        }
    }

    /// What is left of the freeze timer after one tick.
    pub open spec fn spec_step_freeze(self, elapsed: u32) -> int {
        if self.freeze > elapsed {
            self.freeze - elapsed
        } else {
            0
        }
    }

    /// The whole zombie after one tick of walking: position stepped, freeze
    /// decayed, health untouched.
    pub open spec fn spec_stepped(self, elapsed: u32) -> Zombie {
        Zombie {
            x: self.spec_step_x(elapsed) as i64,
            health: self.health,
            freeze: self.spec_step_freeze(elapsed) as u64,
        }
    }

    /// Advance the zombie by one tick of walking and decay its freeze timer.
    /// The health pool never changes here.
    pub fn update(&mut self, elapsed: u32)
        requires
            old(self).wf(),
        ensures
            final(self).x as int == old(self).spec_step_x(elapsed),
            final(self).freeze as int == old(self).spec_step_freeze(elapsed),
            final(self).health == old(self).health,
            final(self).x <= old(self).x,
            *final(self) == old(self).spec_stepped(elapsed),
    {
        let full = ZOMBIE_SPEED * (elapsed as i64);
        let dx = if self.freeze > 0 {
            full / 2
        } else {
            full
        };
        self.x = self.x - dx;
        if self.freeze > elapsed as u64 {
            self.freeze = self.freeze - elapsed as u64;
        } else {
            self.freeze = 0;
        }
    }

    /// Move the zombie to the given horizontal position.
    pub fn set_x(&mut self, x: i64)
        ensures
            *final(self) == (Zombie { x, ..*old(self) }),
    {
        self.x = x;
    }

    /// Whether a hit asks to be propagated to overlapping neighbors: only
    /// original (non-propagated) fire and ice hits do.
    pub open spec fn spec_hit_propagates(damage_type: DamageType, propagated: bool) -> bool {
        !propagated && (damage_type is Fire || damage_type is Ice)
    }

    /// Whether a hit subtracts from the health pool: every hit does except an
    /// original ice hit, which only applies the freeze status.
    pub open spec fn spec_hit_applies(damage_type: DamageType, propagated: bool) -> bool {
        !(damage_type is Ice && !propagated)
    }

    /// Freeze timer after a hit: fire thaws, ice freezes, normal leaves it.
    pub open spec fn spec_hit_freeze(self, damage_type: DamageType) -> int {
        match damage_type {
            DamageType::Normal => self.freeze as int,
            DamageType::Fire => 0,
            DamageType::Ice => FREEZE_MS as int,
        }
    }

    /// Whether the hit kills: only a damage-applying hit can, and it does
    /// exactly when the pool does not exceed the damage.
    pub open spec fn spec_hit_dead(self, damage: u32, damage_type: DamageType, propagated: bool) -> bool {
        Zombie::spec_hit_applies(damage_type, propagated) && self.health <= damage
    }

    /// Health pool after a hit: unchanged for a non-applying hit, zeroed on a
    /// kill, decremented by exactly the damage otherwise.
    pub open spec fn spec_hit_health(self, damage: u32, damage_type: DamageType, propagated: bool) -> int {
        if !Zombie::spec_hit_applies(damage_type, propagated) {
            self.health as int
        } else if self.health <= damage {
            0
        } else {
            self.health - damage
        }
    }

    /// The whole zombie after a hit; its position never changes.
    pub open spec fn spec_hit_outcome(self, damage: u32, damage_type: DamageType, propagated: bool) -> Zombie {
        Zombie {
            x: self.x,
            health: self.spec_hit_health(damage, damage_type, propagated) as u32,
            freeze: self.spec_hit_freeze(damage_type) as u64,
        }
    }

    /// Land one hit on the zombie. Returns `(dead, propagate)`: whether the
    /// hit emptied the health pool (the caller removes the zombie), and
    /// whether the hit should be propagated to overlapping neighbors.
    ///
    /// An original ice hit freezes the target, asks for propagation, and
    /// leaves the health pool untouched; a propagated ice hit applies its
    /// damage like any other.
    pub fn hit(&mut self, damage_amount: u32, damage_type: DamageType, propagated: bool) -> (r: (
        bool,
        bool,
    ))
        requires
            old(self).wf(),
        ensures
            r.0 == old(self).spec_hit_dead(damage_amount, damage_type, propagated),
            r.1 == Zombie::spec_hit_propagates(damage_type, propagated),
            *final(self) == old(self).spec_hit_outcome(damage_amount, damage_type, propagated),
            final(self).health <= old(self).health,
            final(self).x == old(self).x,
    {
        let mut propagate = false;
        match damage_type {
            DamageType::Normal => {},
            DamageType::Fire => {
                self.freeze = 0;
                propagate = !propagated;
            },
            DamageType::Ice => {
                self.freeze = FREEZE_MS;
                propagate = !propagated;
                if propagate {
                    return (false, propagate);
                }
            },
        }
        if self.health <= damage_amount {
            self.health = 0;
            return (true, propagate);
        }
        self.health = self.health - damage_amount;
        (false, propagate)
    }
}

/// One hit, as the collision resolver hands it out.
#[derive(Clone, Copy, PartialEq, Eq, Debug)]
pub struct HitEvent {
    pub damage: u32,
    pub damage_type: DamageType,
    pub propagated: bool,
}

/// The zombie left after a sequence of hits, applied in order.
pub open spec fn spec_apply_hits(z: Zombie, hits: Seq<HitEvent>) -> Zombie
    decreases hits.len(),
{
    if hits.len() == 0 {
        z
    } else {
        spec_apply_hits(
            z.spec_hit_outcome(hits[0].damage, hits[0].damage_type, hits[0].propagated),
            hits.drop_first(),
        )
    }
}

/// Total damage carried by a sequence of hits.
pub open spec fn spec_total_damage(hits: Seq<HitEvent>) -> int
    decreases hits.len(),
{
    if hits.len() == 0 {
        0
    } else {
        hits[0].damage + spec_total_damage(hits.drop_first())
    }
}

/// Law: a zombie's health pool never increases, whatever sequence of hits it
/// takes.
pub proof fn lemma_health_monotonic(z: Zombie, hits: Seq<HitEvent>)
    ensures
        spec_apply_hits(z, hits).health <= z.health,
    decreases hits.len(),
{
    if hits.len() > 0 {
        let z1 = z.spec_hit_outcome(hits[0].damage, hits[0].damage_type, hits[0].propagated);
        lemma_health_monotonic(z1, hits.drop_first());
    }
}

/// Law: hits that all apply damage and together stay below the health pool
/// subtract exactly their total: no damage is lost, created, or clamped while
/// the zombie survives.
pub proof fn lemma_hits_subtract_exactly(z: Zombie, hits: Seq<HitEvent>)
    requires
        forall|i: int|
            0 <= i < hits.len() ==> Zombie::spec_hit_applies(
                hits[i].damage_type,
                hits[i].propagated,
            ),
        spec_total_damage(hits) < z.health,
    ensures
        spec_apply_hits(z, hits).health == z.health - spec_total_damage(hits),
    decreases hits.len(),
{
    if hits.len() > 0 {
        let z1 = z.spec_hit_outcome(hits[0].damage, hits[0].damage_type, hits[0].propagated);
        lemma_total_damage_nonneg(hits.drop_first());
        assert(forall|i: int|
            0 <= i < hits.drop_first().len() ==> Zombie::spec_hit_applies(
                #[trigger] hits.drop_first()[i].damage_type,
                hits.drop_first()[i].propagated,
            ));
        lemma_hits_subtract_exactly(z1, hits.drop_first());
    }
}

/// The total damage of any hit sequence is nonnegative.
pub proof fn lemma_total_damage_nonneg(hits: Seq<HitEvent>)
    ensures
        spec_total_damage(hits) >= 0,
    decreases hits.len(),
{
    if hits.len() > 0 {
        lemma_total_damage_nonneg(hits.drop_first());
    }
}

} // verus!


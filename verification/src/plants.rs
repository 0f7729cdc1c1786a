//! The plant variants and their per-tick behavior.
//!
//! Every plant carries a charge accumulator and a health pool measured in
//! milliseconds of being eaten. Shooters fire a pea into their row once their
//! charge crosses the shot interval, but only while a zombie is present; while
//! their rows are clear the charge is clamped at the interval instead of
//! banking up. The triple shooter fires into its own row and every existing
//! adjacent row. The sunflower emits a sun on a longer interval, and the lily
//! pad (nenuphar) does nothing but occupy a water cell.

use vstd::prelude::*;

use crate::projectile::{DamageType, Pea};
use crate::sun::Sun;
use crate::units::{
    COST_NENUPHAR, COST_SHOOTER_FIRE, COST_SHOOTER_ICE, COST_SHOOTER_NORMAL, COST_SUNFLOWER,
    COST_TRIPLE, FRAME_H, FRAME_W, PEA_X_OFF, PLANT_HEALTH_MS, PLANT_W, SHOOT_INTERVAL_MS,
    SUNFLOWER_INITIAL_CHARGE_MS, SUNFLOWER_INTERVAL_MS, SUN_SPAWN_OFF,
};
use crate::zombie::Zombie;

verus! {

/// A single-row shooter; its damage type tells normal, fire and ice shooters
/// apart.
#[derive(Clone, Copy, PartialEq, Eq, Debug)]
pub struct PeaShooter {
    pub charge: u64,
    pub damage_type: DamageType,
    pub health: u64,
}

impl PeaShooter {
    pub fn new(damage_type: DamageType) -> (r: PeaShooter)
        ensures
            r == (PeaShooter { charge: 0, damage_type, health: PLANT_HEALTH_MS }),
    {
        PeaShooter { charge: 0, damage_type, health: PLANT_HEALTH_MS }
    }
}

/// The shooter that also fires into existing adjacent rows.
#[derive(Clone, Copy, PartialEq, Eq, Debug)]
pub struct PlantTriple {
    pub charge: u64,
    pub health: u64,
}

impl PlantTriple {
    pub fn new() -> (r: PlantTriple)
        ensures
            r == (PlantTriple { charge: 0, health: PLANT_HEALTH_MS }),
    {
        PlantTriple { charge: 0, health: PLANT_HEALTH_MS }
    }
}

/// The resource plant: emits a sun on a long interval, starting mostly
/// charged.
#[derive(Clone, Copy, PartialEq, Eq, Debug)]
pub struct Sunflower {
    pub charge: u64,
    pub health: u64,
}

impl Sunflower {
    pub fn new() -> (r: Sunflower)
        ensures
            r == (Sunflower { charge: SUNFLOWER_INITIAL_CHARGE_MS, health: PLANT_HEALTH_MS }),
    {
        Sunflower { charge: SUNFLOWER_INITIAL_CHARGE_MS, health: PLANT_HEALTH_MS }
    }
}

/// The lily pad: the only water-capable plant; never fires.
#[derive(Clone, Copy, PartialEq, Eq, Debug)]
pub struct Nenuphar {
    pub health: u64,
}

impl Nenuphar {
    pub fn new() -> (r: Nenuphar)
        ensures
            r == (Nenuphar { health: PLANT_HEALTH_MS }),
    {
        Nenuphar { health: PLANT_HEALTH_MS }
    }
}

/// Any plant, as one closed sum.
#[derive(Clone, Copy, PartialEq, Eq, Debug)]
pub enum Plant {
    PeaShooter(PeaShooter),
    PlantTriple(PlantTriple),
    Sunflower(Sunflower),
    Nenuphar(Nenuphar),
}

/// Whether row `r` of the playfield currently holds any zombie.
pub open spec fn spec_row_clear(zombies: Seq<Seq<Zombie>>, r: int) -> bool {
    zombies[r].len() == 0
}

/// The rows of plant cells as plain sequences.
pub open spec fn spec_prows(ps: Seq<Vec<Option<Plant>>>) -> Seq<Seq<Option<Plant>>> {
    ps.map_values(|v: Vec<Option<Plant>>| v@)
}

impl Plant {
    pub open spec fn spec_health(self) -> u64 {
        match self {
            Plant::PeaShooter(p) => p.health,
            Plant::PlantTriple(p) => p.health,
            Plant::Sunflower(p) => p.health,
            Plant::Nenuphar(p) => p.health,
        }
    }

    pub open spec fn spec_charge(self) -> u64 {
        match self {
            Plant::PeaShooter(p) => p.charge,
            Plant::PlantTriple(p) => p.charge,
            Plant::Sunflower(p) => p.charge,
            Plant::Nenuphar(_) => 0,
        }
    }

    /// The same plant with its health pool replaced.
    pub open spec fn spec_with_health(self, h: u64) -> Plant {
        match self {
            Plant::PeaShooter(p) => Plant::PeaShooter(PeaShooter { health: h, ..p }),
            Plant::PlantTriple(p) => Plant::PlantTriple(PlantTriple { health: h, ..p }),
            Plant::Sunflower(p) => Plant::Sunflower(Sunflower { health: h, ..p }),
            Plant::Nenuphar(_) => Plant::Nenuphar(Nenuphar { health: h }),
        }
    }

    /// The same plant with its charge accumulator replaced (the lily pad has
    /// none).
    pub open spec fn spec_with_charge(self, c: u64) -> Plant {
        match self {
            Plant::PeaShooter(p) => Plant::PeaShooter(PeaShooter { charge: c, ..p }),
            Plant::PlantTriple(p) => Plant::PlantTriple(PlantTriple { charge: c, ..p }),
            Plant::Sunflower(p) => Plant::Sunflower(Sunflower { charge: c, ..p }),
            Plant::Nenuphar(p) => Plant::Nenuphar(p),
        }
    }

    pub open spec fn spec_cost(self) -> u32 {
        match self {
            Plant::PeaShooter(p) => match p.damage_type {
                DamageType::Normal => COST_SHOOTER_NORMAL,
                DamageType::Fire => COST_SHOOTER_FIRE,
                DamageType::Ice => COST_SHOOTER_ICE,
            },
            Plant::PlantTriple(_) => COST_TRIPLE,
            Plant::Sunflower(_) => COST_SUNFLOWER,
            Plant::Nenuphar(_) => COST_NENUPHAR,
        }
    }

    pub open spec fn wf(self) -> bool {
        self.spec_health() <= PLANT_HEALTH_MS
    }

    /// Placement cost of this plant.
    pub fn cost(&self) -> (r: u32)
        ensures
            r == self.spec_cost(),
    {
        match self {
            Plant::PeaShooter(p) => match p.damage_type {
                DamageType::Normal => COST_SHOOTER_NORMAL,
                DamageType::Fire => COST_SHOOTER_FIRE,
                DamageType::Ice => COST_SHOOTER_ICE,
            },
            Plant::PlantTriple(_) => COST_TRIPLE,
            Plant::Sunflower(_) => COST_SUNFLOWER,
            Plant::Nenuphar(_) => COST_NENUPHAR,
        }
    }

    /// Whether the plant may stand directly on a water row.
    pub fn can_go_in_water(&self) -> (r: bool)
        ensures
            r == (self is Nenuphar),
    {
        match self {
            Plant::Nenuphar(_) => true,
            _ => false,
        }
    }

    /// Whether the plant is the lily pad.
    pub fn is_nenuphar(&self) -> (r: bool)
        ensures
            r == (self is Nenuphar),
    {
        match self {
            Plant::Nenuphar(_) => true,
            _ => false,
        }
    }

    /// Remaining health pool, in milliseconds of being eaten.
    pub fn health(&self) -> (r: u64)
        ensures
            r == self.spec_health(),
    {
        match self {
            Plant::PeaShooter(p) => p.health,
            Plant::PlantTriple(p) => p.health,
            Plant::Sunflower(p) => p.health,
            Plant::Nenuphar(p) => p.health,
        }
    }

    /// Replace the health pool (the eating rule decrements it).
    pub fn set_health(&mut self, h: u64)
        ensures
            *final(self) == old(self).spec_with_health(h),
    {
        match self {
            Plant::PeaShooter(p) => p.health = h,
            Plant::PlantTriple(p) => p.health = h,
            Plant::Sunflower(p) => p.health = h,
            Plant::Nenuphar(p) => p.health = h,
        }
    }

    /// Charge accumulated by one tick: the accumulator grows by the elapsed
    /// time, saturating instead of wrapping.
    pub open spec fn spec_step_charge(self, elapsed: u32) -> u64 {
        if self.spec_charge() + elapsed <= u64::MAX {
            (self.spec_charge() + elapsed) as u64
        } else {
            u64::MAX
        }
    }

    /// Advance the charge accumulator by one tick; health is untouched and the
    /// lily pad stays inert.
    pub fn update(&mut self, elapsed: u32)
        ensures
            *final(self) == old(self).spec_with_charge(old(self).spec_step_charge(elapsed)),
    {
        match self {
            Plant::PeaShooter(p) => p.charge = add_charge(p.charge, elapsed),
            Plant::PlantTriple(p) => p.charge = add_charge(p.charge, elapsed),
            Plant::Sunflower(p) => p.charge = add_charge(p.charge, elapsed),
            Plant::Nenuphar(_) => {},
        }
    }

    /// Whether the plant is idle-clamped this tick: every row it watches is
    /// clear of zombies, so its charge must not bank past the shot interval.
    pub open spec fn spec_idle(
        self,
        zombies: Seq<Seq<Zombie>>,
        row: int,
        max_row: int,
    ) -> bool {
        match self {
            Plant::PeaShooter(_) => spec_row_clear(zombies, row),
            Plant::PlantTriple(_) => (row == 0 || spec_row_clear(zombies, row - 1))
                && spec_row_clear(zombies, row) && (row == max_row || spec_row_clear(
                zombies,
                row + 1,
            )),
            Plant::Sunflower(_) => false,
            Plant::Nenuphar(_) => false,
        }
    }

    /// Whether the plant emits anything this tick.
    pub open spec fn spec_fires(
        self,
        zombies: Seq<Seq<Zombie>>,
        row: int,
        max_row: int,
    ) -> bool {
        match self {
            Plant::PeaShooter(p) => !self.spec_idle(zombies, row, max_row) && p.charge
                >= SHOOT_INTERVAL_MS,
            Plant::PlantTriple(p) => !self.spec_idle(zombies, row, max_row) && p.charge
                >= SHOOT_INTERVAL_MS,
            Plant::Sunflower(p) => p.charge >= SUNFLOWER_INTERVAL_MS,
            Plant::Nenuphar(_) => false,
        }
    }

    /// Charge left after a spawn query: clamped at the interval while idle,
    /// reduced by the interval on a shot (keeping any overcharge), otherwise
    /// unchanged.
    pub open spec fn spec_charge_after_query(
        self,
        zombies: Seq<Seq<Zombie>>,
        row: int,
        max_row: int,
    ) -> u64 {
        match self {
            Plant::PeaShooter(p) => if self.spec_idle(zombies, row, max_row) {
                if p.charge <= SHOOT_INTERVAL_MS {
                    p.charge
                } else {
                    SHOOT_INTERVAL_MS
                }
            } else if p.charge >= SHOOT_INTERVAL_MS {
                (p.charge - SHOOT_INTERVAL_MS) as u64
            } else {
                p.charge
            },
            Plant::PlantTriple(p) => if self.spec_idle(zombies, row, max_row) {
                if p.charge <= SHOOT_INTERVAL_MS {
                    p.charge
                } else {
                    SHOOT_INTERVAL_MS
                }
            } else if p.charge >= SHOOT_INTERVAL_MS {
                (p.charge - SHOOT_INTERVAL_MS) as u64
            } else {
                p.charge
            },
            Plant::Sunflower(p) => if p.charge >= SUNFLOWER_INTERVAL_MS {
                (p.charge - SUNFLOWER_INTERVAL_MS) as u64
            } else {
                p.charge
            },
            Plant::Nenuphar(_) => 0,
        }
    }

    /// Suns a firing query emits: one, from the sunflower, spawned a fixed
    /// offset above its cell and resting the same offset below it.
    pub open spec fn spec_spawn_suns(
        self,
        x: i64,
        y: i64,
        zombies: Seq<Seq<Zombie>>,
        row: int,
        max_row: int,
    ) -> Seq<Sun> {
        if self is Sunflower && self.spec_fires(zombies, row, max_row) {
            seq![Sun { x, y: (y - SUN_SPAWN_OFF) as i64, dist: (y + SUN_SPAWN_OFF) as i64 }]
        } else {
            Seq::empty()
        }
    }

    /// Peas a firing query emits, each paired with its target row: one for the
    /// plain shooter, one per existing adjacent row plus the own row for the
    /// triple shooter.
    pub open spec fn spec_spawn_peas(
        self,
        x: i64,
        zombies: Seq<Seq<Zombie>>,
        row: usize,
        max_row: usize,
    ) -> Seq<(usize, Pea)> {
        if !self.spec_fires(zombies, row as int, max_row as int) {
            Seq::empty()
        } else {
            match self {
                Plant::PeaShooter(p) => seq![
                    (row, Pea { x: (x - PEA_X_OFF) as i64, damage_type: p.damage_type }),
                ],
                Plant::PlantTriple(_) => {
                    let pea = Pea { x: (x - PEA_X_OFF) as i64, damage_type: DamageType::Normal };
                    if row == 0 && row == max_row {
                        seq![(row, pea)]
                    } else if row == 0 {
                        seq![(row, pea), ((row + 1) as usize, pea)]
                    } else if row == max_row {
                        seq![((row - 1) as usize, pea), (row, pea)]
                    } else {
                        seq![((row - 1) as usize, pea), (row, pea), ((row + 1) as usize, pea)]
                    }
                },
                _ => Seq::empty(),
            }
        }
    }

    /// Ask the plant what it spawns this tick. `x` is the muzzle point
    /// (horizontal center of its cell), `y` the top of its cell, `row` its row
    /// and `max_row` the last row of the playfield. Returns the suns to add
    /// and the peas to add, each pea paired with its target row.
    pub fn should_spawn(
        &mut self,
        x: i64,
        y: i64,
        row: usize,
        max_row: usize,
        zombies: &Vec<Vec<Zombie>>,
    ) -> (r: (Vec<Sun>, Vec<(usize, Pea)>))
        requires
            row < zombies@.len(),
            max_row == zombies@.len() - 1,
            PEA_X_OFF <= x <= FRAME_W + PLANT_W,
            0 <= y <= FRAME_H,
        ensures
            *final(self) == old(self).spec_with_charge(
                old(self).spec_charge_after_query(
                    crate::zombie::spec_rows(zombies@),
                    row as int,
                    max_row as int,
                ),
            ),
            r.0@ == old(self).spec_spawn_suns(
                x,
                y,
                crate::zombie::spec_rows(zombies@),
                row as int,
                max_row as int,
            ),
            r.1@ == old(self).spec_spawn_peas(x, crate::zombie::spec_rows(zombies@), row, max_row),
    {
        let mut suns: Vec<Sun> = Vec::new();
        let mut peas: Vec<(usize, Pea)> = Vec::new();
        match self {
            Plant::PeaShooter(p) => {
                if zombies[row].is_empty() {
                    if p.charge > SHOOT_INTERVAL_MS {
                        p.charge = SHOOT_INTERVAL_MS;
                    }
                } else if p.charge >= SHOOT_INTERVAL_MS {
                    p.charge = p.charge - SHOOT_INTERVAL_MS;
                    peas.push((row, Pea { x: x - PEA_X_OFF, damage_type: p.damage_type }));
                }
            },
            Plant::PlantTriple(p) => {
                let clear = (row == 0 || zombies[row - 1].is_empty()) && zombies[row].is_empty()
                    && (row == max_row || zombies[row + 1].is_empty());
                if clear {
                    if p.charge > SHOOT_INTERVAL_MS {
                        p.charge = SHOOT_INTERVAL_MS;
                    }
                } else if p.charge >= SHOOT_INTERVAL_MS {
                    p.charge = p.charge - SHOOT_INTERVAL_MS;
                    let pea = Pea { x: x - PEA_X_OFF, damage_type: DamageType::Normal };
                    if row > 0 {
                        peas.push((row - 1, pea));
                    }
                    peas.push((row, pea));
                    if row < max_row {
                        peas.push((row + 1, pea));
                    }
                }
            },
            Plant::Sunflower(p) => {
                if p.charge >= SUNFLOWER_INTERVAL_MS {
                    p.charge = p.charge - SUNFLOWER_INTERVAL_MS;
                    suns.push(Sun { x, y: y - SUN_SPAWN_OFF, dist: y + SUN_SPAWN_OFF });
                }
            },
            Plant::Nenuphar(_) => {},
        }
        (suns, peas)
    }
}

/// Grow a charge accumulator by one tick, saturating at the top instead of
/// wrapping.
fn add_charge(charge: u64, elapsed: u32) -> (r: u64)
    ensures
        r == if charge + elapsed <= u64::MAX {
            (charge + elapsed) as u64
        } else {
            u64::MAX
        },
{
    if charge <= u64::MAX - elapsed as u64 {
        charge + elapsed as u64
    } else {
        u64::MAX
    }
}

} // verus!

//! The level state: the board, every entity on it, the wave queue, the money
//! counter and the win/lose state, plus the player-facing operations (placing
//! a plant, picking up suns).
//!
//! The per-tick update pipeline lives in the neighboring update module.

use vstd::prelude::*;

use crate::board::{Board, RowType};
use crate::plants::Plant;
use crate::projectile::Pea;
use crate::sun::Sun;
use crate::units::{FRAME_W, PEA_W, PLANT_W, SUN_INTERVAL_MS, SUN_VALUE, ZOMBIE_W};
use crate::zombie::Zombie;

verus! {

/// The authoritative simulation state of one level.
pub struct Level {
    pub id: u8,
    pub board: Board,
    /// One entry per cell: `plants[row][col]`.
    pub plants: Vec<Vec<Option<Plant>>>,
    /// One list per row.
    pub zombies: Vec<Vec<Zombie>>,
    /// One list per row.
    pub projectiles: Vec<Vec<Pea>>,
    pub suns: Vec<Sun>,
    /// Countdown to the next sky-dropped sun, in milliseconds.
    pub next_sun: u64,
    /// Waits of the pending waves, in order; paired with `spawn_zombies`.
    pub spawn_waits: Vec<u64>,
    /// Batches of the pending waves, in order: (zombie type, count) pairs.
    pub spawn_zombies: Vec<Vec<(u8, u8)>>,
    pub money: u32,
    /// None while playing, Some(true) once won, Some(false) once lost.
    pub end: Option<bool>,
    /// False until the level is started; while false the whole tick pipeline
    /// is paused: timers and positions are frozen.
    pub started: bool,
}

impl Level {
    pub open spec fn rows(self) -> int {
        self.board.rows@.len() as int
    }

    pub open spec fn cols(self) -> int {
        self.board.cols as int
    }

    pub open spec fn zombies_wf(self) -> bool {
        &&& self.zombies@.len() == self.rows()
        &&& forall|r: int, k: int|
            0 <= r < self.rows() && 0 <= k < self.zombies@[r]@.len() ==> (
            #[trigger] self.zombies@[r]@[k]).wf()
    }

    /// While the level is not lost, no zombie has crossed the defended edge.
    pub open spec fn on_field(self) -> bool {
        forall|r: int, k: int|
            0 <= r < self.rows() && 0 <= k < self.zombies@[r]@.len() ==> (
            #[trigger] self.zombies@[r]@[k]).x + ZOMBIE_W >= self.board.left
    }

    pub open spec fn plants_wf(self) -> bool {
        &&& self.plants@.len() == self.rows()
        &&& forall|r: int| 0 <= r < self.rows() ==> (#[trigger] self.plants@[r])@.len() == self.cols()
        &&& forall|r: int, c: int|
            0 <= r < self.rows() && 0 <= c < self.cols() && (#[trigger] self.plants@[r]@[c])
                is Some ==> self.plants@[r]@[c]->Some_0.wf()
    }

    pub open spec fn projectiles_wf(self) -> bool {
        &&& self.projectiles@.len() == self.rows()
        &&& forall|r: int, k: int|
            0 <= r < self.rows() && 0 <= k < self.projectiles@[r]@.len() ==> (
            #[trigger] self.projectiles@[r]@[k]).wf()
    }

    pub open spec fn suns_wf(self) -> bool {
        forall|k: int| 0 <= k < self.suns@.len() ==> (#[trigger] self.suns@[k]).wf()
    }

    pub open spec fn waves_wf(self) -> bool {
        &&& self.spawn_waits@.len() == self.spawn_zombies@.len()
        &&& forall|i: int|
            0 <= i < self.spawn_zombies@.len() ==> (#[trigger] self.spawn_zombies@[i])@.len()
                <= 255
        &&& forall|i: int|
            0 <= i < self.spawn_zombies@.len() ==> crate::wave::spec_batch_ids_valid(
                (#[trigger] self.spawn_zombies@[i])@,
            )
    }

    pub open spec fn wf(self) -> bool {
        &&& self.board.wf()
        &&& self.zombies_wf()
        &&& self.plants_wf()
        &&& self.projectiles_wf()
        &&& self.suns_wf()
        &&& self.waves_wf()
        &&& self.next_sun <= SUN_INTERVAL_MS
        &&& self.end != Some(false) ==> self.on_field()
    }

    /// Whether no zombie stands anywhere on the board.
    pub open spec fn spec_board_clear(self) -> bool {
        forall|r: int| 0 <= r < self.rows() ==> (#[trigger] self.zombies@[r])@.len() == 0
    }

    /// Build a level from its parts: empty rows, full money, the wave queue
    /// still pending. Returns none when the parts do not fit together.
    pub fn new(
        id: u8,
        board: Board,
        money: u32,
        spawn_waits: Vec<u64>,
        spawn_zombies: Vec<Vec<(u8, u8)>>,
    ) -> (r: Option<Level>)
        requires
            board.wf(),
        ensures
            r is Some <==> {
                &&& spawn_waits@.len() == spawn_zombies@.len()
                &&& forall|i: int|
                    0 <= i < spawn_zombies@.len() ==> (#[trigger] spawn_zombies@[i])@.len() <= 255
                        && crate::wave::spec_batch_ids_valid(spawn_zombies@[i]@)
            },
            r matches Some(l) ==> {
                &&& l.wf()
                &&& l.id == id
                &&& l.board == board
                &&& l.money == money
                &&& l.spawn_waits@ == spawn_waits@
                &&& l.spawn_zombies@ == spawn_zombies@
                &&& l.end is None
                &&& !l.started
                &&& l.next_sun == SUN_INTERVAL_MS
                &&& l.suns@.len() == 0
                &&& l.spec_board_clear()
                &&& forall|r2: int, c: int|
                    0 <= r2 < l.rows() && 0 <= c < l.cols() ==> (#[trigger] l.plants@[r2]@[c])
                        is None
                &&& forall|r2: int|
                    0 <= r2 < l.rows() ==> (#[trigger] l.projectiles@[r2])@.len() == 0
            },
    {
        if spawn_waits.len() != spawn_zombies.len() {
            return None;
        }
        let mut i: usize = 0;
        let n = spawn_zombies.len();
        while i < n
            invariant
                n == spawn_zombies@.len(),
                i <= n,
                forall|j: int|
                    0 <= j < i ==> (#[trigger] spawn_zombies@[j])@.len() <= 255
                        && crate::wave::spec_batch_ids_valid(spawn_zombies@[j]@),
            decreases n - i,
        {
            let batch = &spawn_zombies[i];
            if batch.len() > 255 {
                return None;
            }
            let m = batch.len();
            let mut j: usize = 0;
            while j < m
                invariant
                    m == batch@.len(),
                    batch@ == spawn_zombies@[i as int]@,
                    0 <= i < spawn_zombies@.len(),
                    j <= m,
                    forall|k: int| 0 <= k < j ==> (#[trigger] batch@[k]).0 == 0 || batch@[k].0 == 1,
                decreases m - j,
            {
                if batch[j].0 > 1 {
                    proof {
                        assert(!crate::wave::spec_batch_ids_valid(spawn_zombies@[i as int]@)) by {
                            assert(spawn_zombies@[i as int]@[j as int].0 > 1);
                        }
                    }
                    return None;
                }
                j = j + 1;
            }
            i = i + 1;
        }
        let rows = board.rows.len();
        let cols = board.cols as usize;
        let mut plants: Vec<Vec<Option<Plant>>> = Vec::new();
        let mut zombies: Vec<Vec<Zombie>> = Vec::new();
        let mut projectiles: Vec<Vec<Pea>> = Vec::new();
        let mut r: usize = 0;
        while r < rows
            invariant
                r <= rows,
                plants@.len() == r,
                zombies@.len() == r,
                projectiles@.len() == r,
                forall|r2: int| 0 <= r2 < r ==> (#[trigger] plants@[r2])@.len() == cols,
                forall|r2: int, c: int|
                    0 <= r2 < r && 0 <= c < cols ==> (#[trigger] plants@[r2]@[c]) is None,
                forall|r2: int| 0 <= r2 < r ==> (#[trigger] zombies@[r2])@.len() == 0,
                forall|r2: int| 0 <= r2 < r ==> (#[trigger] projectiles@[r2])@.len() == 0,
            decreases rows - r,
        {
            let mut row_plants: Vec<Option<Plant>> = Vec::new();
            let mut c: usize = 0;
            while c < cols
                invariant
                    c <= cols,
                    row_plants@.len() == c,
                    forall|k: int| 0 <= k < c ==> (#[trigger] row_plants@[k]) is None,
                decreases cols - c,
            {
                row_plants.push(None);
                c = c + 1;
            }
            plants.push(row_plants);
            zombies.push(Vec::new());
            projectiles.push(Vec::new());
            r = r + 1;
        }
        Some(
            Level {
                id,
                board,
                plants,
                zombies,
                projectiles,
                suns: Vec::new(),
                next_sun: SUN_INTERVAL_MS,
                spawn_waits,
                spawn_zombies,
                money,
                end: None,
                started: false,
            },
        )
    }

    /// Start the level: until this is called every tick is skipped.
    pub fn start(&mut self)
        ensures
            *final(self) == (Level { started: true, ..*old(self) }),
    {
        self.started = true;
    }

    /// Whether the given plant may land in the given cell: on grass the cell
    /// must be empty and the plant must not be a lily pad; on water an empty
    /// cell takes only a water-capable plant, while a cell holding a lily pad
    /// takes any plant in its place.
    pub open spec fn spec_cell_takes(self, plant: Plant, col: int, row: int) -> bool {
        match self.board.rows@[row] {
            RowType::Grass => !(plant is Nenuphar) && self.plants@[row]@[col] is None,
            RowType::Water => (plant is Nenuphar && self.plants@[row]@[col] is None) || (
            self.plants@[row]@[col] matches Some(q) && q is Nenuphar),
        }
    }

    /// Whether a drop of `plant` at the playfield coordinates `(x, y)` is
    /// accepted: the money covers the cost, the point lies on the board, and
    /// the cell takes the plant.
    pub open spec fn spec_placement_ok(self, plant: Plant, x: int, y: int) -> bool {
        &&& plant.spec_cost() <= self.money
        &&& self.board.in_x_range(x)
        &&& self.board.in_y_range(y)
        &&& self.spec_cell_takes(plant, self.board.spec_col_of(x), self.board.spec_row_of(y))
    }

    /// Drop a dragged plant at the playfield coordinates `(x, y)`. A rejected
    /// drop (not enough money, off the board, or an incompatible cell) changes
    /// nothing and returns false; an accepted drop pays the cost and puts the
    /// plant in exactly the targeted cell.
    pub fn drop_plant(&mut self, x: i64, y: i64, plant: Plant) -> (placed: bool)
        requires
            old(self).wf(),
            plant.wf(),
        ensures
            placed == old(self).spec_placement_ok(plant, x as int, y as int),
            !placed ==> *final(self) == *old(self),
            placed ==> {
                let row = old(self).board.spec_row_of(y as int);
                let col = old(self).board.spec_col_of(x as int);
                &&& final(self).money == old(self).money - plant.spec_cost()
                &&& final(self).plants@.len() == old(self).plants@.len()
                &&& forall|r: int|
                    0 <= r < old(self).rows() && r != row ==> #[trigger] final(self).plants@[r]
                        == old(self).plants@[r]
                &&& final(self).plants@[row]@ == old(self).plants@[row]@.update(col, Some(plant))
                &&& final(self).board == old(self).board
                &&& final(self).zombies@ == old(self).zombies@
                &&& final(self).projectiles@ == old(self).projectiles@
                &&& final(self).suns@ == old(self).suns@
                &&& final(self).next_sun == old(self).next_sun
                &&& final(self).spawn_waits@ == old(self).spawn_waits@
                &&& final(self).spawn_zombies@ == old(self).spawn_zombies@
                &&& final(self).end == old(self).end
                &&& final(self).started == old(self).started
                &&& final(self).id == old(self).id
            },
            final(self).wf(),
    {
        let cost = plant.cost();
        if self.money < cost {
            return false;
        }
        let col = match self.board.coord_to_pos_x(x) {
            Option::Some(c) => c,
            Option::None => {
                return false;
            },
        };
        let row = match self.board.coord_to_pos_y(y) {
            Option::Some(r) => r,
            Option::None => {
                return false;
            },
        };
        let takes = match self.board.rows[row] {
            RowType::Grass => !plant.is_nenuphar() && self.plants[row][col].is_none(),
            RowType::Water => {
                if plant.is_nenuphar() && self.plants[row][col].is_none() {
                    true
                } else {
                    match &self.plants[row][col] {
                        Option::Some(q) => q.is_nenuphar(),
                        Option::None => false,
                    }
                }
            },
        };
        if !takes {
            return false;
        }
        self.money = self.money - cost;
        self.plants[row].set(col, Some(plant));
        true
    }

    /// Suns left after a pickup at `(x, y)`: everyone not under the point.
    pub open spec fn spec_suns_kept(suns: Seq<Sun>, x: int, y: int) -> Seq<Sun>
        decreases suns.len(),
    {
        if suns.len() == 0 {
            Seq::empty()
        } else if suns.last().spec_contains(x, y) {
            Self::spec_suns_kept(suns.drop_last(), x, y)
        } else {
            Self::spec_suns_kept(suns.drop_last(), x, y) + seq![suns.last()]
        }
    }

    /// Pick up every sun lying under the point `(x, y)`: each one collected
    /// grants its fixed value, saturating at the top of the counter.
    pub fn collect_suns_at(&mut self, x: i64, y: i64)
        requires
            old(self).wf(),
        ensures
            final(self).suns@ == Self::spec_suns_kept(old(self).suns@, x as int, y as int),
            final(self).money as int == if old(self).money + SUN_VALUE * (old(self).suns@.len()
                - final(self).suns@.len()) <= u32::MAX {
                old(self).money + SUN_VALUE * (old(self).suns@.len() - final(self).suns@.len())
            } else {
                u32::MAX as int
            },
            *final(self) == (Level {
                suns: final(self).suns,
                money: final(self).money,
                ..*old(self)
            }),
            final(self).wf(),
    {
        let ghost suns0 = self.suns@;
        let mut kept: Vec<Sun> = Vec::new();
        let mut removed: usize = 0;
        let n = self.suns.len();
        let mut i: usize = 0;
        while i < n
            invariant
                n == self.suns@.len(),
                self.suns@ == suns0,
                forall|k: int| 0 <= k < n ==> (#[trigger] suns0[k]).wf(),
                i <= n,
                kept@ == Self::spec_suns_kept(suns0.take(i as int), x as int, y as int),
                removed == i - kept@.len(),
                kept@.len() <= i,
                forall|k: int| 0 <= k < kept@.len() ==> (#[trigger] kept@[k]).wf(),
            decreases n - i,
        {
            let s = self.suns[i];
            proof {
                assert(suns0.take(i + 1).drop_last() =~= suns0.take(i as int));
                assert(suns0.take(i + 1).last() == suns0[i as int]);
            }
            if s.contains(x, y) {
                removed = removed + 1;
            } else {
                kept.push(s);
            }
            i = i + 1;
        }
        proof {
            assert(suns0.take(n as int) =~= suns0);
        }
        self.suns = kept;
        let gain = (SUN_VALUE as u128) * (removed as u128);
        let total = (self.money as u128) + gain;
        self.money = if total <= u32::MAX as u128 {
            total as u32
        } else {
            u32::MAX
        };
    }

    /// Current money counter.
    pub fn money(&self) -> (r: u32)
        ensures
            r == self.money,
    {
        self.money
    }
}

} // verus!

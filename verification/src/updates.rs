//! The per-tick update pipeline of a level: plants charge, zombies advance and
//! eat, projectiles fly and land, suns fall and drop, waves spawn, and the
//! win/lose state machine advances — in exactly that order.

use vstd::prelude::*;

use crate::board::{Board, RowType};
use crate::collision::{lemma_resolve_row_preserves, resolve_row, spec_resolve_row};
use crate::level::Level;
use crate::plants::{Nenuphar, Plant};
use crate::projectile::Pea;
use crate::rng::rand_below;
use crate::units::{
    FRAME_W, PEA_SPEED, PLANT_HEALTH_MS, PLANT_W, SKY_SUN_MAX_DIST, SKY_SUN_MIN_DIST,
    SUN_INTERVAL_MS, X_MAX, X_MIN, ZOMBIE_SPEED, ZOMBIE_W,
};
use crate::sun::Sun;
use crate::wave::{spawn_batch, spec_batch_total, spec_spawned_zombie, spec_total_len};
use crate::zombie::Zombie;

verus! {

/// Milliseconds of health one tick of eating takes from a plant: halved while
/// the zombie is frozen.
pub open spec fn spec_eat_damage(z: Zombie, elapsed: u32) -> int {
    if z.freeze > 0 {
        elapsed as int / 2
    } else {
        elapsed as int
    }
}

/// What a destroyed plant leaves behind: a fresh lily pad when it stood on a
/// water row without being water-capable itself, nothing otherwise.
pub open spec fn spec_destroyed_cell(rt: RowType, p: Plant) -> Option<Plant> {
    if rt is Water && !(p is Nenuphar) {
        Some(Plant::Nenuphar(Nenuphar { health: PLANT_HEALTH_MS }))
    } else {
        None
    }
}

/// Whether the moved zombie `z` standing in column `col` is blocked by a plant
/// whose sprite it overlaps.
pub open spec fn spec_blocked_by(board: Board, col: int, z: Zombie) -> bool {
    board.spec_cell_x(col) <= z.x + ZOMBIE_W && z.x <= board.spec_cell_x(col) + PLANT_W
}

/// The zombie and the plant row after one zombie's eating-or-blocking step,
/// taken right after its movement: `zm` is the moved zombie, `prev_x` where it
/// stood before moving.
///
/// If the previous position lay in a cell holding a plant, the zombie snaps
/// back to it and eats: the plant loses one tick of health, and when that
/// empties it, the plant is destroyed (leaving a lily pad on a water row).
/// Otherwise, if no plant stood at the previous position but the new position
/// lies in an occupied cell whose plant's sprite the zombie overlaps, the
/// zombie is clamped flush against that plant's right edge.
pub open spec fn spec_eat_outcome(
    board: Board,
    row_type: RowType,
    zm: Zombie,
    prev_x: i64,
    cells: Seq<Option<Plant>>,
    elapsed: u32,
) -> (Zombie, Seq<Option<Plant>>) {
    let col = board.spec_col_of(prev_x as int);
    let col2 = board.spec_col_of(zm.x as int);
    if board.in_x_range(prev_x as int) && cells[col] is Some {
        let p = cells[col]->Some_0;
        let dmg = spec_eat_damage(zm, elapsed);
        let ze = Zombie { x: prev_x, ..zm };
        if p.spec_health() < dmg {
            (ze, cells.update(col, spec_destroyed_cell(row_type, p)))
        } else {
            (ze, cells.update(col, Some(p.spec_with_health((p.spec_health() - dmg) as u64))))
        }
    } else if board.in_x_range(zm.x as int) && cells[col2] is Some && spec_blocked_by(
        board,
        col2,
        zm,
    ) {
        (Zombie { x: (board.spec_cell_x(col2) + PLANT_W) as i64, ..zm }, cells)
    } else {
        (zm, cells)
    }
}

/// A coordinate on the board maps to a column of the board.
pub proof fn lemma_col_in_range(board: Board, x: int)
    requires
        board.wf(),
        board.in_x_range(x),
    ensures
        0 <= board.spec_col_of(x) < board.cols,
{
    let diff = x - board.left;
    let w = board.width as int;
    let cc = board.cols as int;
    assert(0 <= diff * cc < w * cc) by (nonlinear_arith)
        requires
            0 <= diff < w,
            0 < cc,
    ;
    vstd::arithmetic::div_mod::lemma_div_pos_is_pos(diff * cc, w);
    vstd::arithmetic::div_mod::lemma_multiply_divide_lt(diff * cc, w, cc);
}

/// One zombie's eating-or-blocking step (see [`spec_eat_outcome`]), performed
/// in place on the zombie and its row's plant cells.
pub fn eat_or_block(
    z: &mut Zombie,
    prev_x: i64,
    board: &Board,
    row_type: RowType,
    cells: &mut Vec<Option<Plant>>,
    elapsed: u32,
)
    requires
        board.wf(),
        old(cells)@.len() == board.cols as int,
        forall|c: int|
            0 <= c < old(cells)@.len() && (#[trigger] old(cells)@[c]) is Some
                ==> old(cells)@[c]->Some_0.wf(),
        X_MIN <= old(z).x <= X_MAX,
        X_MIN <= prev_x <= X_MAX,
    ensures
        *final(z) == spec_eat_outcome(*board, row_type, *old(z), prev_x, old(cells)@, elapsed).0,
        final(cells)@ == spec_eat_outcome(*board, row_type, *old(z), prev_x, old(cells)@, elapsed).1,
        final(cells)@.len() == old(cells)@.len(),
        forall|c: int|
            0 <= c < final(cells)@.len() && (#[trigger] final(cells)@[c]) is Some
                ==> final(cells)@[c]->Some_0.wf(),
        final(z).health == old(z).health,
        final(z).freeze == old(z).freeze,
        final(z).x == prev_x || final(z).x == old(z).x || old(z).x <= final(z).x
            <= board.left + board.width + PLANT_W,
{
    let mut ate = false;
    match board.coord_to_pos_x(prev_x) {
        Option::Some(col) => {
            match cells[col] {
                Option::Some(p) => {
                    ate = true;
                    z.set_x(prev_x);
                    let dmg = if z.freezed() {
                        (elapsed / 2) as u64
                    } else {
                        elapsed as u64
                    };
                    if p.health() < dmg {
                        let replacement = match row_type {
                            RowType::Water => {
                                if p.is_nenuphar() {
                                    None
                                } else {
                                    Some(Plant::Nenuphar(Nenuphar::new()))
                                }
                            },
                            RowType::Grass => None,
                        };
                        cells.set(col, replacement);
                    } else {
                        let mut q = p;
                        let h = p.health();
                        q.set_health(h - dmg);
                        cells.set(col, Some(q));
                    }
                },
                Option::None => {},
            }
        },
        Option::None => {},
    }
    if !ate {
        match board.coord_to_pos_x(z.x) {
            Option::Some(col2) => {
                match cells[col2] {
                    Option::Some(_) => {
                        let px = board.pos_to_coord_x(col2);
                        if px <= z.x + ZOMBIE_W && z.x <= px + PLANT_W {
                            z.set_x(px + PLANT_W);
                        }
                    },
                    Option::None => {},
                }
            },
            Option::None => {},
        }
    }
}

/// How one plant cell may change over a zombie phase: left alone, eaten down
/// (same plant, lower health), destroyed, or — on a water row — replaced by a
/// lily pad that may itself have been eaten since.
pub open spec fn spec_cell_evolved(
    rt: RowType,
    before: Option<Plant>,
    after: Option<Plant>,
) -> bool {
    match before {
        Option::None => after is None,
        Option::Some(p) => {
            ||| after is None
            ||| (after matches Some(q) && q == p.spec_with_health(q.spec_health())
                && q.spec_health() <= p.spec_health())
            ||| {
                &&& rt is Water
                &&& !(p is Nenuphar)
                &&& after matches Some(q)
                &&& q is Nenuphar
                &&& q.spec_health() <= PLANT_HEALTH_MS
            }
        },
    }
}

/// Cell evolution is transitive: two zombie phases in a row still relate the
/// first and last cell states.
pub proof fn lemma_cell_evolved_trans(
    rt: RowType,
    a: Option<Plant>,
    b: Option<Plant>,
    c: Option<Plant>,
)
    requires
        spec_cell_evolved(rt, a, b),
        spec_cell_evolved(rt, b, c),
    ensures
        spec_cell_evolved(rt, a, c),
{
}

/// Whether the zombie's one tick of walking takes it past the defended edge.
pub open spec fn spec_zombie_crossed(board: Board, z: Zombie, elapsed: u32) -> bool {
    z.spec_step_x(elapsed) + ZOMBIE_W < board.left
}

/// One row's whole zombie phase: each zombie in order takes one tick of
/// walking. The moment a zombie's step crosses the defended edge the phase
/// stops: the moved zombie is written back and everyone after it stays put.
/// Otherwise the moved zombie eats or is blocked (see [`spec_eat_outcome`])
/// and the phase continues over the plant row it left behind.
pub open spec fn spec_zombie_phase(
    board: Board,
    row_type: RowType,
    zombies: Seq<Zombie>,
    cells: Seq<Option<Plant>>,
    elapsed: u32,
) -> (Seq<Zombie>, Seq<Option<Plant>>, bool)
    decreases zombies.len(),
{
    if zombies.len() == 0 {
        (zombies, cells, false)
    } else {
        let zm = zombies[0].spec_stepped(elapsed);
        if spec_zombie_crossed(board, zombies[0], elapsed) {
            (seq![zm] + zombies.drop_first(), cells, true)
        } else {
            let eaten = spec_eat_outcome(board, row_type, zm, zombies[0].x, cells, elapsed);
            let rest = spec_zombie_phase(board, row_type, zombies.drop_first(), eaten.1, elapsed);
            (seq![eaten.0] + rest.0, rest.1, rest.2)
        }
    }
}

/// The phase reports a crossing exactly when some zombie's step crosses.
pub proof fn lemma_phase_crossed_iff(
    board: Board,
    row_type: RowType,
    zombies: Seq<Zombie>,
    cells: Seq<Option<Plant>>,
    elapsed: u32,
)
    ensures
        spec_zombie_phase(board, row_type, zombies, cells, elapsed).2 <==> exists|k: int|
            0 <= k < zombies.len() && spec_zombie_crossed(board, #[trigger] zombies[k], elapsed),
    decreases zombies.len(),
{
    if zombies.len() > 0 {
        if spec_zombie_crossed(board, zombies[0], elapsed) {
        } else {
            let zm = zombies[0].spec_stepped(elapsed);
            let eaten = spec_eat_outcome(board, row_type, zm, zombies[0].x, cells, elapsed);
            lemma_phase_crossed_iff(board, row_type, zombies.drop_first(), eaten.1, elapsed);
            let rest = zombies.drop_first();
            if spec_zombie_phase(board, row_type, zombies, cells, elapsed).2 {
                let k = choose|k: int|
                    0 <= k < rest.len() && spec_zombie_crossed(board, #[trigger] rest[k], elapsed);
                assert(spec_zombie_crossed(board, zombies[k + 1], elapsed));
            } else if exists|k: int|
                0 <= k < zombies.len() && spec_zombie_crossed(
                    board,
                    #[trigger] zombies[k],
                    elapsed,
                ) {
                let k = choose|k: int|
                    0 <= k < zombies.len() && spec_zombie_crossed(
                        board,
                        #[trigger] zombies[k],
                        elapsed,
                    );
                assert(k > 0);
                assert(spec_zombie_crossed(board, rest[k - 1], elapsed));
            }
        }
    }
}

/// The zombie phase keeps every zombie well formed and (when nobody crossed)
/// on the field, and every plant cell well formed and evolved by the eating
/// rules.
pub proof fn lemma_zombie_phase_preserves(
    board: Board,
    row_type: RowType,
    zombies: Seq<Zombie>,
    cells: Seq<Option<Plant>>,
    elapsed: u32,
)
    requires
        board.wf(),
        cells.len() == board.cols as int,
        forall|c: int| 0 <= c < cells.len() && (#[trigger] cells[c]) is Some ==> cells[c]->Some_0.wf(),
        forall|k: int| 0 <= k < zombies.len() ==> (#[trigger] zombies[k]).wf(),
        forall|k: int|
            0 <= k < zombies.len() ==> (#[trigger] zombies[k]).x + ZOMBIE_W >= board.left,
    ensures
        ({
            let phase = spec_zombie_phase(board, row_type, zombies, cells, elapsed);
            &&& phase.0.len() == zombies.len()
            &&& phase.1.len() == cells.len()
            &&& forall|k: int| 0 <= k < phase.0.len() ==> (#[trigger] phase.0[k]).wf()
            &&& !phase.2 ==> forall|k: int|
                0 <= k < phase.0.len() ==> (#[trigger] phase.0[k]).x + ZOMBIE_W >= board.left
            &&& forall|c: int|
                0 <= c < phase.1.len() && (#[trigger] phase.1[c]) is Some
                    ==> phase.1[c]->Some_0.wf()
            &&& forall|c: int|
                0 <= c < cells.len() ==> spec_cell_evolved(row_type, cells[c], #[trigger] phase.1[c])
        }),
    decreases zombies.len(),
{
    let phase = spec_zombie_phase(board, row_type, zombies, cells, elapsed);
    if zombies.len() == 0 {
        assert forall|c: int| 0 <= c < cells.len() implies spec_cell_evolved(
            row_type,
            cells[c],
            #[trigger] phase.1[c],
        ) by {
            if cells[c] is Some {
                let p = cells[c]->Some_0;
                assert(p == p.spec_with_health(p.spec_health()));
            }
        }
    } else {
        let z0 = zombies[0];
        let zm = z0.spec_stepped(elapsed);
        assert(zm.wf()) by {
            assert(z0.x >= board.left - ZOMBIE_W);
            assert(ZOMBIE_SPEED * elapsed <= ZOMBIE_SPEED * 0xffff_ffffu32) by (nonlinear_arith)
                requires
                    elapsed <= 0xffff_ffffu32,
            ;
        }
        if spec_zombie_crossed(board, z0, elapsed) {
            assert(phase.0 == seq![zm] + zombies.drop_first());
            assert forall|k: int| 0 <= k < phase.0.len() implies (#[trigger] phase.0[k]).wf() by {
                if k == 0 {
                    assert(phase.0[k] == zm);
                } else {
                    assert(phase.0[k] == zombies[k]);
                }
            }
            assert forall|c: int| 0 <= c < cells.len() implies spec_cell_evolved(
                row_type,
                cells[c],
                #[trigger] phase.1[c],
            ) by {
                if cells[c] is Some {
                    let p = cells[c]->Some_0;
                    assert(p == p.spec_with_health(p.spec_health()));
                }
            }
        } else {
            let eaten = spec_eat_outcome(board, row_type, zm, z0.x, cells, elapsed);
            let ze = eaten.0;
            let colp = board.spec_col_of(z0.x as int);
            assert(ze.wf() && ze.x + ZOMBIE_W >= board.left && eaten.1.len() == cells.len()
                && (forall|c: int|
                0 <= c < eaten.1.len() && (#[trigger] eaten.1[c]) is Some
                    ==> eaten.1[c]->Some_0.wf()) && (forall|c: int|
                0 <= c < cells.len() ==> spec_cell_evolved(
                    row_type,
                    cells[c],
                    #[trigger] eaten.1[c],
                ))) by {
                if board.in_x_range(z0.x as int) && cells[colp] is Some {
                    lemma_col_in_range(board, z0.x as int);
                    let p = cells[colp]->Some_0;
                    let dmg = spec_eat_damage(zm, elapsed);
                    assert forall|c: int| 0 <= c < cells.len() implies spec_cell_evolved(
                        row_type,
                        cells[c],
                        #[trigger] eaten.1[c],
                    ) by {
                        if c == colp {
                            if p.spec_health() < dmg {
                                assert(eaten.1[c] == spec_destroyed_cell(row_type, p));
                            } else {
                                let q = p.spec_with_health((p.spec_health() - dmg) as u64);
                                assert(eaten.1[c] == Some(q));
                                assert(q == p.spec_with_health(q.spec_health()));
                            }
                        } else {
                            assert(eaten.1[c] == cells[c]);
                            if cells[c] is Some {
                                let p2 = cells[c]->Some_0;
                                assert(p2 == p2.spec_with_health(p2.spec_health()));
                            }
                        }
                    }
                } else {
                    assert(eaten.1 == cells);
                    assert forall|c: int| 0 <= c < cells.len() implies spec_cell_evolved(
                        row_type,
                        cells[c],
                        #[trigger] eaten.1[c],
                    ) by {
                        if cells[c] is Some {
                            let p2 = cells[c]->Some_0;
                            assert(p2 == p2.spec_with_health(p2.spec_health()));
                        }
                    }
                    if board.in_x_range(zm.x as int) && cells[board.spec_col_of(zm.x as int)]
                        is Some && spec_blocked_by(board, board.spec_col_of(zm.x as int), zm) {
                        assert(ze.x == board.spec_cell_x(board.spec_col_of(zm.x as int)) + PLANT_W);
                        assert(board.spec_cell_x(board.spec_col_of(zm.x as int))
                            <= board.left + board.width) by {
                            lemma_col_in_range(board, zm.x as int);
                            crate::board::lemma_cell_x_bounds(
                                board,
                                board.spec_col_of(zm.x as int),
                            );
                        }
                    }
                }
            }
            lemma_zombie_phase_preserves(board, row_type, zombies.drop_first(), eaten.1, elapsed);
            let rest = spec_zombie_phase(board, row_type, zombies.drop_first(), eaten.1, elapsed);
            assert(phase.0 == seq![ze] + rest.0);
            assert forall|k: int| 0 <= k < phase.0.len() implies (#[trigger] phase.0[k]).wf() && (
            !phase.2 ==> phase.0[k].x + ZOMBIE_W >= board.left) by {
                if k == 0 {
                    assert(phase.0[k] == ze);
                } else {
                    assert(phase.0[k] == rest.0[k - 1]);
                }
            }
            assert forall|c: int| 0 <= c < cells.len() implies spec_cell_evolved(
                row_type,
                cells[c],
                #[trigger] phase.1[c],
            ) by {
                assert(spec_cell_evolved(row_type, cells[c], eaten.1[c]));
                assert(spec_cell_evolved(row_type, eaten.1[c], rest.1[c]));
                lemma_cell_evolved_trans(row_type, cells[c], eaten.1[c], rest.1[c]);
            }
        }
    }
}

/// One row's zombie phase, performed in place: exactly [`spec_zombie_phase`]
/// over the row and its plant cells. Returns whether a zombie's step crossed
/// the defended edge (in which case the zombies after it were not touched).
pub fn update_zombie_row(
    row: &mut Vec<Zombie>,
    cells: &mut Vec<Option<Plant>>,
    board: &Board,
    row_type: RowType,
    elapsed: u32,
) -> (crossed: bool)
    requires
        board.wf(),
        old(cells)@.len() == board.cols as int,
        forall|c: int|
            0 <= c < old(cells)@.len() && (#[trigger] old(cells)@[c]) is Some
                ==> old(cells)@[c]->Some_0.wf(),
        forall|k: int| 0 <= k < old(row)@.len() ==> (#[trigger] old(row)@[k]).wf(),
        forall|k: int|
            0 <= k < old(row)@.len() ==> (#[trigger] old(row)@[k]).x + ZOMBIE_W >= board.left,
    ensures
        final(row)@ == spec_zombie_phase(*board, row_type, old(row)@, old(cells)@, elapsed).0,
        final(cells)@ == spec_zombie_phase(*board, row_type, old(row)@, old(cells)@, elapsed).1,
        crossed == spec_zombie_phase(*board, row_type, old(row)@, old(cells)@, elapsed).2,
        crossed == exists|k: int|
            0 <= k < old(row)@.len() && spec_zombie_crossed(*board, #[trigger] old(row)@[k], elapsed),
{
    proof {
        lemma_phase_crossed_iff(*board, row_type, old(row)@, old(cells)@, elapsed);
    }
    let ghost row0 = row@;
    let ghost cells0 = cells@;
    proof {
        assert(row0.skip(0) =~= row0);
        assert(row@.take(0) =~= Seq::<Zombie>::empty());
        assert(row@.take(0) + spec_zombie_phase(*board, row_type, row0, cells0, elapsed).0
            =~= spec_zombie_phase(*board, row_type, row0, cells0, elapsed).0);
    }
    let n = row.len();
    let mut k: usize = 0;
    while k < n
        invariant
            board.wf(),
            row0 == old(row)@,
            cells0 == old(cells)@,
            n == row0.len(),
            row@.len() == n,
            cells@.len() == cells0.len() == board.cols as int,
            k <= n,
            forall|k2: int| 0 <= k2 < n ==> (#[trigger] row0[k2]).wf(),
            forall|k2: int| 0 <= k2 < n ==> (#[trigger] row0[k2]).x + ZOMBIE_W >= board.left,
            forall|k2: int| k <= k2 < n ==> #[trigger] row@[k2] == row0[k2],
            forall|c: int|
                0 <= c < cells@.len() && (#[trigger] cells@[c]) is Some
                    ==> cells@[c]->Some_0.wf(),
            ({
                let total = spec_zombie_phase(*board, row_type, row0, cells0, elapsed);
                let rest = spec_zombie_phase(
                    *board,
                    row_type,
                    row0.skip(k as int),
                    cells@,
                    elapsed,
                );
                &&& total.0 == row@.take(k as int) + rest.0
                &&& total.1 == rest.1
                &&& total.2 == rest.2
            }),
        decreases n - k,
    {
        let mut z = row[k];
        proof {
            assert(z == row0[k as int]);
            assert(row0[k as int].wf());
            assert(row0.skip(k as int)[0] == row0[k as int]);
            assert(row0.skip(k as int).drop_first() =~= row0.skip(k + 1));
        }
        let prev_x = z.x;
        z.update(elapsed);
        if z.x + ZOMBIE_W < board.left {
            let ghost row_pre = row@;
            row.set(k, z);
            proof {
                assert(spec_zombie_crossed(*board, row0[k as int], elapsed));
                let rest = spec_zombie_phase(
                    *board,
                    row_type,
                    row0.skip(k as int),
                    cells@,
                    elapsed,
                );
                assert(rest.0 =~= seq![z] + row0.skip(k + 1));
                assert(row@.take(k as int) =~= row_pre.take(k as int));
                assert(row@ =~= row_pre.take(k as int) + rest.0);
                assert(exists|k2: int|
                    0 <= k2 < row0.len() && spec_zombie_crossed(
                        *board,
                        #[trigger] row0[k2],
                        elapsed,
                    ));
            }
            return true;
        }
        let ghost zm = z;
        eat_or_block(&mut z, prev_x, board, row_type, cells, elapsed);
        let ghost row_pre = row@;
        row.set(k, z);
        proof {
            let rest_old = spec_zombie_phase(
                *board,
                row_type,
                row0.skip(k as int),
                cells@,
                elapsed,
            );
            assert(row@.take(k + 1) =~= row_pre.take(k as int).push(z));
            assert(row_pre.take(k as int).push(z) + spec_zombie_phase(
                *board,
                row_type,
                row0.skip(k + 1),
                cells@,
                elapsed,
            ).0 =~= row_pre.take(k as int) + (seq![z] + spec_zombie_phase(
                *board,
                row_type,
                row0.skip(k + 1),
                cells@,
                elapsed,
            ).0));
            assert(row@.take(k + 1) =~= row_pre.take(k as int).push(z));
        }
        k = k + 1;
    }
    proof {
        assert(row0.skip(n as int) =~= Seq::<Zombie>::empty());
        assert(spec_zombie_phase(*board, row_type, row0, cells0, elapsed).0 =~= row@);
    }
    false
}

/// The zombie phase of row `r`, over the raw rows.
pub open spec fn spec_phase_raw(
    board: Board,
    zs: Seq<Vec<Zombie>>,
    ps: Seq<Vec<Option<Plant>>>,
    r: int,
    elapsed: u32,
) -> (Seq<Zombie>, Seq<Option<Plant>>, bool) {
    spec_zombie_phase(board, board.rows@[r], zs[r]@, ps[r]@, elapsed)
}

/// The zombie phase of row `r` of `pre`, as a function of `pre` alone.
pub open spec fn spec_phase_of(pre: Level, r: int, elapsed: u32) -> (
    Seq<Zombie>,
    Seq<Option<Plant>>,
    bool,
) {
    spec_phase_raw(pre.board, pre.zombies@, pre.plants@, r, elapsed)
}

/// Row `r` of `post` holds the completed zombie phase of row `r` of `pre`.
pub open spec fn spec_row_phased(pre: Level, post: Level, r: int, elapsed: u32) -> bool {
    &&& post.zombies@[r]@ == spec_phase_of(pre, r, elapsed).0
    &&& post.plants@[r]@ == spec_phase_of(pre, r, elapsed).1
}

/// Whether row `r`'s zombie phase reports a crossing.
pub open spec fn spec_row_crossing(pre: Level, r: int, elapsed: u32) -> bool {
    spec_phase_of(pre, r, elapsed).2
}

/// A level state whose first `upto` rows went through the zombie phase and
/// whose remaining rows are untouched keeps every zombie and plant well
/// formed, keeps every row's shape, and — where no phase crossed — keeps every
/// zombie on the field.
pub proof fn lemma_phased_rows_wf(
    pre: Level,
    zs: Seq<Vec<Zombie>>,
    ps: Seq<Vec<Option<Plant>>>,
    upto: int,
    elapsed: u32,
)
    requires
        pre.wf(),
        pre.end is None,
        zs.len() == pre.rows(),
        ps.len() == pre.rows(),
        0 <= upto <= pre.rows(),
        forall|r: int| 0 <= r < upto ==> (#[trigger] zs[r])@ == spec_phase_of(pre, r, elapsed).0,
        forall|r: int| 0 <= r < upto ==> (#[trigger] ps[r])@ == spec_phase_of(pre, r, elapsed).1,
        forall|r: int| upto <= r < pre.rows() ==> #[trigger] zs[r] == pre.zombies@[r],
        forall|r: int| upto <= r < pre.rows() ==> #[trigger] ps[r] == pre.plants@[r],
    ensures
        forall|r: int, k: int|
            0 <= r < pre.rows() && 0 <= k < zs[r]@.len() ==> (#[trigger] zs[r]@[k]).wf(),
        forall|r: int, c: int|
            0 <= r < pre.rows() && 0 <= c < ps[r]@.len() && (#[trigger] ps[r]@[c]) is Some
                ==> ps[r]@[c]->Some_0.wf(),
        forall|r: int| 0 <= r < pre.rows() ==> (#[trigger] zs[r])@.len() == pre.zombies@[r]@.len(),
        forall|r: int| 0 <= r < pre.rows() ==> (#[trigger] ps[r])@.len() == pre.plants@[r]@.len(),
        (forall|r: int| 0 <= r < upto ==> !spec_phase_of(pre, r, elapsed).2) ==> forall|
            r: int,
            k: int,
        |
            0 <= r < pre.rows() && 0 <= k < zs[r]@.len() ==> (#[trigger] zs[r]@[k]).x + ZOMBIE_W
                >= pre.board.left,
{
    assert forall|r: int, k: int|
        0 <= r < pre.rows() && 0 <= k < zs[r]@.len() implies (#[trigger] zs[r]@[k]).wf() by {
        if r < upto {
            assert((zs[r])@ == spec_phase_of(pre, r, elapsed).0);
            lemma_zombie_phase_preserves(
                pre.board,
                pre.board.rows@[r],
                pre.zombies@[r]@,
                pre.plants@[r]@,
                elapsed,
            );
        } else {
            assert(zs[r] == pre.zombies@[r]);
            assert(pre.zombies@[r]@[k].wf());
        }
    }
    assert forall|r: int, c: int|
        0 <= r < pre.rows() && 0 <= c < ps[r]@.len() && (#[trigger] ps[r]@[c]) is Some implies
        ps[r]@[c]->Some_0.wf() by {
        if r < upto {
            assert((ps[r])@ == spec_phase_of(pre, r, elapsed).1);
            lemma_zombie_phase_preserves(
                pre.board,
                pre.board.rows@[r],
                pre.zombies@[r]@,
                pre.plants@[r]@,
                elapsed,
            );
        } else {
            assert(ps[r] == pre.plants@[r]);
        }
    }
    assert forall|r: int| 0 <= r < pre.rows() implies (#[trigger] zs[r])@.len()
        == pre.zombies@[r]@.len() by {
        if r < upto {
            assert((zs[r])@ == spec_phase_of(pre, r, elapsed).0);
            lemma_zombie_phase_preserves(
                pre.board,
                pre.board.rows@[r],
                pre.zombies@[r]@,
                pre.plants@[r]@,
                elapsed,
            );
        } else {
            assert(zs[r] == pre.zombies@[r]);
        }
    }
    assert forall|r: int| 0 <= r < pre.rows() implies (#[trigger] ps[r])@.len()
        == pre.plants@[r]@.len() by {
        if r < upto {
            assert((ps[r])@ == spec_phase_of(pre, r, elapsed).1);
            lemma_zombie_phase_preserves(
                pre.board,
                pre.board.rows@[r],
                pre.zombies@[r]@,
                pre.plants@[r]@,
                elapsed,
            );
        } else {
            assert(ps[r] == pre.plants@[r]);
        }
    }
    if forall|r: int| 0 <= r < upto ==> !spec_phase_of(pre, r, elapsed).2 {
        assert forall|r: int, k: int|
            0 <= r < pre.rows() && 0 <= k < zs[r]@.len() implies (#[trigger] zs[r]@[k]).x
            + ZOMBIE_W >= pre.board.left by {
            if r < upto {
                assert((zs[r])@ == spec_phase_of(pre, r, elapsed).0);
                assert(!spec_phase_of(pre, r, elapsed).2);
                lemma_zombie_phase_preserves(
                    pre.board,
                    pre.board.rows@[r],
                    pre.zombies@[r]@,
                    pre.plants@[r]@,
                    elapsed,
                );
            } else {
                assert(zs[r] == pre.zombies@[r]);
                assert(pre.on_field());
                assert(pre.zombies@[r]@[k].x + ZOMBIE_W >= pre.board.left);
            }
        }
    }
}

/// Run the zombie phase over every row in order (see [`spec_zombie_phase`]),
/// stopping after the first row whose phase crosses the defended edge.
/// Returns whether that happened, and (as ghost information) the crossing
/// row's index.
fn run_zombie_phase(
    zombies: &mut Vec<Vec<Zombie>>,
    plants: &mut Vec<Vec<Option<Plant>>>,
    board: &Board,
    elapsed: u32,
) -> (res: (bool, Ghost<int>))
    requires
        board.wf(),
        old(zombies)@.len() == board.rows@.len(),
        old(plants)@.len() == board.rows@.len(),
        forall|r: int|
            0 <= r < old(plants)@.len() ==> (#[trigger] old(plants)@[r])@.len()
                == board.cols as int,
        forall|r: int, c: int|
            0 <= r < old(plants)@.len() && 0 <= c < old(plants)@[r]@.len() && (
            #[trigger] old(plants)@[r]@[c]) is Some ==> old(plants)@[r]@[c]->Some_0.wf(),
        forall|r: int, k: int|
            0 <= r < old(zombies)@.len() && 0 <= k < old(zombies)@[r]@.len() ==> (
            #[trigger] old(zombies)@[r]@[k]).wf(),
        forall|r: int, k: int|
            0 <= r < old(zombies)@.len() && 0 <= k < old(zombies)@[r]@.len() ==> (
            #[trigger] old(zombies)@[r]@[k]).x + ZOMBIE_W >= board.left,
    ensures
        final(zombies)@.len() == old(zombies)@.len(),
        final(plants)@.len() == old(plants)@.len(),
        res.0 == exists|r: int, k: int|
            0 <= r < old(zombies)@.len() && 0 <= k < old(zombies)@[r]@.len()
                && spec_zombie_crossed(*board, #[trigger] old(zombies)@[r]@[k], elapsed),
        !res.0 ==> forall|r: int|
            #![trigger spec_phase_raw(*board, old(zombies)@, old(plants)@, r, elapsed)]
            #![trigger final(zombies)@[r]]
            0 <= r < old(zombies)@.len() ==> !spec_phase_raw(
                *board,
                old(zombies)@,
                old(plants)@,
                r,
                elapsed,
            ).2 && (final(zombies)@[r])@ == spec_phase_raw(
                *board,
                old(zombies)@,
                old(plants)@,
                r,
                elapsed,
            ).0,
        !res.0 ==> forall|r: int|
            #![trigger spec_phase_raw(*board, old(zombies)@, old(plants)@, r, elapsed)]
            #![trigger final(plants)@[r]]
            0 <= r < old(zombies)@.len() ==> (final(plants)@[r])@ == spec_phase_raw(
                *board,
                old(zombies)@,
                old(plants)@,
                r,
                elapsed,
            ).1,
        res.0 ==> {
            let cut = res.1@;
            &&& 0 <= cut < old(zombies)@.len()
            &&& spec_phase_raw(*board, old(zombies)@, old(plants)@, cut, elapsed).2
            &&& (final(zombies)@[cut])@ == spec_phase_raw(
                *board,
                old(zombies)@,
                old(plants)@,
                cut,
                elapsed,
            ).0
            &&& (final(plants)@[cut])@ == spec_phase_raw(
                *board,
                old(zombies)@,
                old(plants)@,
                cut,
                elapsed,
            ).1
            &&& forall|r: int|
                #![trigger spec_phase_raw(*board, old(zombies)@, old(plants)@, r, elapsed)]
                #![trigger final(zombies)@[r]]
                0 <= r < cut ==> !spec_phase_raw(*board, old(zombies)@, old(plants)@, r, elapsed).2
                    && (final(zombies)@[r])@ == spec_phase_raw(
                    *board,
                    old(zombies)@,
                    old(plants)@,
                    r,
                    elapsed,
                ).0
            &&& forall|r: int|
                #![trigger spec_phase_raw(*board, old(zombies)@, old(plants)@, r, elapsed)]
                #![trigger final(plants)@[r]]
                0 <= r < cut ==> (final(plants)@[r])@ == spec_phase_raw(
                    *board,
                    old(zombies)@,
                    old(plants)@,
                    r,
                    elapsed,
                ).1
            &&& forall|r: int| cut < r < old(zombies)@.len() ==> #[trigger] final(zombies)@[r] == old(zombies)@[r]
            &&& forall|r: int| cut < r < old(zombies)@.len() ==> #[trigger] final(plants)@[r] == old(plants)@[r]
        },
{
    let ghost zs0 = zombies@;
    let ghost ps0 = plants@;
    let rows = zombies.len();
    let mut r: usize = 0;
    while r < rows
        invariant
            board.wf(),
            zs0 == old(zombies)@,
            ps0 == old(plants)@,
            rows == zs0.len(),
            rows == board.rows@.len(),
            zombies@.len() == rows,
            plants@.len() == rows,
            ps0.len() == rows,
            r <= rows,
            forall|r2: int|
                0 <= r2 < rows ==> (#[trigger] ps0[r2])@.len() == board.cols as int,
            forall|r2: int, c: int|
                0 <= r2 < rows && 0 <= c < ps0[r2]@.len() && (#[trigger] ps0[r2]@[c]) is Some
                    ==> ps0[r2]@[c]->Some_0.wf(),
            forall|r2: int, k: int|
                0 <= r2 < rows && 0 <= k < zs0[r2]@.len() ==> (#[trigger] zs0[r2]@[k]).wf(),
            forall|r2: int, k: int|
                0 <= r2 < rows && 0 <= k < zs0[r2]@.len() ==> (#[trigger] zs0[r2]@[k]).x
                    + ZOMBIE_W >= board.left,
            forall|r2: int| r <= r2 < rows ==> #[trigger] zombies@[r2] == zs0[r2],
            forall|r2: int| r <= r2 < rows ==> #[trigger] plants@[r2] == ps0[r2],
            forall|r2: int|
                #![trigger spec_phase_raw(*board, zs0, ps0, r2, elapsed)]
                #![trigger zombies@[r2]]
                0 <= r2 < r ==> !spec_phase_raw(*board, zs0, ps0, r2, elapsed).2 && (
                zombies@[r2])@ == spec_phase_raw(*board, zs0, ps0, r2, elapsed).0,
            forall|r2: int|
                #![trigger spec_phase_raw(*board, zs0, ps0, r2, elapsed)]
                #![trigger plants@[r2]]
                0 <= r2 < r ==> (plants@[r2])@ == spec_phase_raw(*board, zs0, ps0, r2, elapsed).1,
        decreases rows - r,
    {
        let ghost zs_at = zombies@;
        let ghost ps_at = plants@;
        let rt = board.rows[r];
        let crossed = update_zombie_row(&mut zombies[r], &mut plants[r], board, rt, elapsed);
        proof {
            assert(zombies@[r as int]@ == spec_phase_raw(*board, zs0, ps0, r as int, elapsed).0);
            assert(plants@[r as int]@ == spec_phase_raw(*board, zs0, ps0, r as int, elapsed).1);
            assert(crossed == spec_phase_raw(*board, zs0, ps0, r as int, elapsed).2);
            assert forall|r2: int| 0 <= r2 < rows && r2 != r implies #[trigger] zombies@[r2]
                == zs_at[r2] && plants@[r2] == ps_at[r2] by {}
        }
        if crossed {
            proof {
                let k = choose|k: int|
                    0 <= k < zs0[r as int]@.len() && spec_zombie_crossed(
                        *board,
                        zs0[r as int]@[k],
                        elapsed,
                    );
                assert(0 <= r < zs0.len() && 0 <= k < zs0[r as int]@.len()
                    && spec_zombie_crossed(*board, zs0[r as int]@[k], elapsed));
            }
            return (true, Ghost(r as int));
        }
        proof {
            assert forall|r2: int|
                #![trigger spec_phase_raw(*board, zs0, ps0, r2, elapsed)]
                #![trigger zombies@[r2]]
                0 <= r2 < r + 1 implies !spec_phase_raw(*board, zs0, ps0, r2, elapsed).2 && (
                zombies@[r2])@ == spec_phase_raw(*board, zs0, ps0, r2, elapsed).0 by {
                if r2 != r as int {
                    assert(zombies@[r2] == zs_at[r2]);
                    assert((zs_at[r2])@ == spec_phase_raw(*board, zs0, ps0, r2, elapsed).0);
                }
            }
            assert forall|r2: int|
                #![trigger spec_phase_raw(*board, zs0, ps0, r2, elapsed)]
                #![trigger plants@[r2]]
                0 <= r2 < r + 1 implies (plants@[r2])@ == spec_phase_raw(
                *board,
                zs0,
                ps0,
                r2,
                elapsed,
            ).1 by {
                if r2 != r as int {
                    assert(plants@[r2] == ps_at[r2]);
                    assert((ps_at[r2])@ == spec_phase_raw(*board, zs0, ps0, r2, elapsed).1);
                }
            }
        }
        r = r + 1;
        proof {
            assert(forall|r2: int|
                0 <= r2 < r ==> !spec_phase_raw(*board, zs0, ps0, r2, elapsed).2 && (
                #[trigger] zombies@[r2])@ == spec_phase_raw(*board, zs0, ps0, r2, elapsed).0);
            assert(forall|r2: int|
                0 <= r2 < r ==> (#[trigger] plants@[r2])@ == spec_phase_raw(
                    *board,
                    zs0,
                    ps0,
                    r2,
                    elapsed,
                ).1);
        }
    }
    proof {
        assert forall|r2: int, k2: int|
            0 <= r2 < rows && 0 <= k2 < zs0[r2]@.len() implies !spec_zombie_crossed(
            *board,
            #[trigger] zs0[r2]@[k2],
            elapsed,
        ) by {
            assert(!spec_phase_raw(*board, zs0, ps0, r2, elapsed).2);
            lemma_phase_crossed_iff(
                *board,
                board.rows@[r2],
                zs0[r2]@,
                ps0[r2]@,
                elapsed,
            );
        }
    }
    (false, Ghost(rows as int))
}

impl Level {
    /// Whether the zombie's one tick of walking takes it past the defended
    /// edge.
    pub open spec fn spec_crossed(self, z: Zombie, elapsed: u32) -> bool {
        spec_zombie_crossed(self.board, z, elapsed)
    }

    /// Whether any zombie on the board crosses the defended edge this tick.
    pub open spec fn spec_any_crossing(self, elapsed: u32) -> bool {
        exists|r: int, k: int|
            0 <= r < self.rows() && 0 <= k < self.zombies@[r]@.len() && self.spec_crossed(
                #[trigger] self.zombies@[r]@[k],
                elapsed,
            )
    }

    /// The zombie phase: rows are processed in order, each exactly by
    /// [`spec_zombie_phase`]. The moment a zombie's step crosses the defended
    /// edge the level is lost: the rows before its row and its own row are
    /// processed, and the rows after it are untouched. The returned ghost
    /// value is the crossing row (meaningful only when the level was lost).
    pub fn update_zombies(&mut self, elapsed: u32) -> (cutoff: Ghost<int>)
        requires
            old(self).wf(),
            old(self).end is None,
        ensures
            final(self).wf(),
            *final(self) == (Level {
                zombies: final(self).zombies,
                plants: final(self).plants,
                end: final(self).end,
                ..*old(self)
            }),
            final(self).end == (if old(self).spec_any_crossing(elapsed) {
                Some(false)
            } else {
                Option::<bool>::None
            }),
            final(self).zombies@.len() == old(self).zombies@.len(),
            final(self).plants@.len() == old(self).plants@.len(),
            !old(self).spec_any_crossing(elapsed) ==> forall|r: int|
                0 <= r < old(self).rows() ==> #[trigger] spec_row_phased(
                    *old(self),
                    *final(self),
                    r,
                    elapsed,
                ),
            old(self).spec_any_crossing(elapsed) ==> {
                &&& 0 <= cutoff@ < old(self).rows()
                &&& spec_row_crossing(*old(self), cutoff@, elapsed)
                &&& spec_row_phased(*old(self), *final(self), cutoff@, elapsed)
                &&& forall|r: int|
                    0 <= r < cutoff@ ==> !spec_row_crossing(*old(self), r, elapsed)
                        && #[trigger] spec_row_phased(*old(self), *final(self), r, elapsed)
                &&& forall|r: int|
                    cutoff@ < r < old(self).rows() ==> #[trigger] final(self).zombies@[r] == old(self).zombies@[r]
                &&& forall|r: int|
                    cutoff@ < r < old(self).rows() ==> #[trigger] final(self).plants@[r] == old(self).plants@[r]
            },
    {
        let res = run_zombie_phase(&mut self.zombies, &mut self.plants, &self.board, elapsed);
        if res.0 {
            self.end = Some(false);
        }
        proof {
            if res.0 {
                assert(old(self).spec_any_crossing(elapsed));
                assert(spec_row_phased(*old(self), *self, res.1@, elapsed));
                assert forall|r: int|
                    0 <= r < res.1@ implies !spec_row_crossing(*old(self), r, elapsed)
                    && #[trigger] spec_row_phased(*old(self), *self, r, elapsed) by {
                    assert((self.zombies@[r])@ == spec_phase_raw(
                        old(self).board,
                        old(self).zombies@,
                        old(self).plants@,
                        r,
                        elapsed,
                    ).0);
                    assert((self.plants@[r])@ == spec_phase_raw(
                        old(self).board,
                        old(self).zombies@,
                        old(self).plants@,
                        r,
                        elapsed,
                    ).1);
                }
                lemma_phased_rows_wf(
                    *old(self),
                    self.zombies@,
                    self.plants@,
                    res.1@ + 1,
                    elapsed,
                );
            } else {
                assert(!old(self).spec_any_crossing(elapsed));
                assert forall|r: int|
                    0 <= r < old(self).rows() implies #[trigger] spec_row_phased(
                    *old(self),
                    *self,
                    r,
                    elapsed,
                ) by {
                    assert((self.zombies@[r])@ == spec_phase_raw(
                        old(self).board,
                        old(self).zombies@,
                        old(self).plants@,
                        r,
                        elapsed,
                    ).0);
                    assert((self.plants@[r])@ == spec_phase_raw(
                        old(self).board,
                        old(self).zombies@,
                        old(self).plants@,
                        r,
                        elapsed,
                    ).1);
                }
                lemma_phased_rows_wf(
                    *old(self),
                    self.zombies@,
                    self.plants@,
                    old(self).rows(),
                    elapsed,
                );
            }
        }
        res.1
    }
}


impl Level {
    /// Whether no zombie stands on the board (checked before the win rule).
    pub fn no_zombies(&self) -> (r: bool)
        requires
            self.wf(),
        ensures
            r == self.spec_board_clear(),
    {
        let rows = self.zombies.len();
        let mut r: usize = 0;
        while r < rows
            invariant
                self.wf(),
                rows == self.zombies@.len(),
                r <= rows,
                forall|r2: int| 0 <= r2 < r ==> (#[trigger] self.zombies@[r2])@.len() == 0,
            decreases rows - r,
        {
            if self.zombies[r].len() > 0 {
                proof {
                    assert(self.zombies@[r as int]@.len() > 0);
                }
                return false;
            }
            r = r + 1;
        }
        true
    }

    /// Advance every plant's charge accumulator by one tick.
    pub fn charge_plants(&mut self, elapsed: u32)
        requires
            old(self).wf(),
        ensures
            final(self).wf(),
            final(self).plants@.len() == old(self).plants@.len(),
            forall|r: int|
                0 <= r < old(self).rows()
                    ==> (#[trigger] final(self).plants@[r])@.len() == old(self).plants@[r]@.len(),
            forall|r: int, c: int|
                0 <= r < old(self).rows() && 0 <= c < old(self).cols()
                    ==> #[trigger] final(self).plants@[r]@[c] == match old(self).plants@[r]@[c] {
                    Option::None => Option::<Plant>::None,
                    Option::Some(p) => Some(p.spec_with_charge(p.spec_step_charge(elapsed))),
                },
            *final(self) == (Level { plants: final(self).plants, ..*old(self) }),
    {
        let rows = self.plants.len();
        let mut r: usize = 0;
        while r < rows
            invariant
                old(self).wf(),
                rows == old(self).plants@.len(),
                self.plants@.len() == rows,
                r <= rows,
                *self == (Level { plants: self.plants, ..*old(self) }),
                forall|r2: int|
                    0 <= r2 < rows
                        ==> (#[trigger] self.plants@[r2])@.len() == old(self).plants@[r2]@.len(),
                forall|r2: int, c: int|
                    0 <= r2 < rows && 0 <= c < old(self).plants@[r2]@.len() && r2 >= r
                        ==> #[trigger] self.plants@[r2]@[c] == old(self).plants@[r2]@[c],
                forall|r2: int, c: int|
                    0 <= r2 < r && 0 <= c < old(self).plants@[r2]@.len() ==> #[trigger] self.plants@[r2]@[c]
                        == match old(self).plants@[r2]@[c] {
                        Option::None => Option::<Plant>::None,
                        Option::Some(p) => Some(p.spec_with_charge(p.spec_step_charge(elapsed))),
                    },
            decreases rows - r,
        {
            let cols = self.plants[r].len();
            let mut c: usize = 0;
            while c < cols
                invariant
                    old(self).wf(),
                    rows == old(self).plants@.len(),
                    self.plants@.len() == rows,
                    0 <= r < rows,
                    cols == old(self).plants@[r as int]@.len(),
                    c <= cols,
                    *self == (Level { plants: self.plants, ..*old(self) }),
                    forall|r2: int|
                        0 <= r2 < rows
                            ==> (#[trigger] self.plants@[r2])@.len() == old(self).plants@[r2]@.len(),
                    forall|r2: int, c2: int|
                        0 <= r2 < rows && 0 <= c2 < old(self).plants@[r2]@.len() && (r2 > r || (r2
                            == r && c2 >= c))
                            ==> #[trigger] self.plants@[r2]@[c2] == old(self).plants@[r2]@[c2],
                    forall|r2: int, c2: int|
                        0 <= r2 < rows && 0 <= c2 < old(self).plants@[r2]@.len() && (r2 < r || (r2
                            == r && c2 < c))
                            ==> #[trigger] self.plants@[r2]@[c2] == match old(self).plants@[r2]@[c2] {
                            Option::None => Option::<Plant>::None,
                            Option::Some(p) => Some(
                                p.spec_with_charge(p.spec_step_charge(elapsed)),
                            ),
                        },
                decreases cols - c,
            {
                match self.plants[r][c] {
                    Option::Some(p) => {
                        let mut q = p;
                        q.update(elapsed);
                        self.plants[r].set(c, Some(q));
                    },
                    Option::None => {},
                }
                c = c + 1;
            }
            r = r + 1;
        }
    }

    /// Let every sun fall one tick, and run the sky-drop countdown: when it
    /// expires a new sun starts falling at a random horizontal position toward
    /// a random resting height, and the countdown restarts carrying over any
    /// overshoot.
    pub fn update_suns(&mut self, elapsed: u32)
        requires
            old(self).wf(),
        ensures
            final(self).wf(),
            *final(self) == (Level {
                suns: final(self).suns,
                next_sun: final(self).next_sun,
                ..*old(self)
            }),
            forall|k: int|
                0 <= k < old(self).suns@.len() ==> #[trigger] final(self).suns@[k] == (Sun {
                    x: old(self).suns@[k].x,
                    y: old(self).suns@[k].spec_step_y(elapsed) as i64,
                    dist: old(self).suns@[k].dist,
                }),
            old(self).next_sun > elapsed ==> {
                &&& final(self).next_sun == old(self).next_sun - elapsed
                &&& final(self).suns@.len() == old(self).suns@.len()
            },
            old(self).next_sun <= elapsed ==> {
                &&& final(self).next_sun as int == if SUN_INTERVAL_MS + old(self).next_sun
                    >= elapsed {
                    SUN_INTERVAL_MS + old(self).next_sun - elapsed
                } else {
                    0
                }
                &&& final(self).suns@.len() == old(self).suns@.len() + 1
                &&& final(self).suns@.last().y == 0
                &&& 0 <= final(self).suns@.last().x < FRAME_W
                &&& SKY_SUN_MIN_DIST <= final(self).suns@.last().dist < SKY_SUN_MAX_DIST
            },
    {
        let n = self.suns.len();
        let mut k: usize = 0;
        while k < n
            invariant
                old(self).wf(),
                n == old(self).suns@.len(),
                self.suns@.len() == n,
                k <= n,
                *self == (Level { suns: self.suns, ..*old(self) }),
                forall|j: int| k <= j < n ==> #[trigger] self.suns@[j] == old(self).suns@[j],
                forall|j: int|
                    0 <= j < k ==> #[trigger] self.suns@[j] == (Sun {
                        x: old(self).suns@[j].x,
                        y: old(self).suns@[j].spec_step_y(elapsed) as i64,
                        dist: old(self).suns@[j].dist,
                    }),
                forall|j: int| 0 <= j < n ==> (#[trigger] self.suns@[j]).wf(),
            decreases n - k,
        {
            let mut s = self.suns[k];
            s.update(elapsed);
            self.suns.set(k, s);
            k = k + 1;
        }
        if self.next_sun > elapsed as u64 {
            self.next_sun = self.next_sun - elapsed as u64;
        } else {
            let carry = SUN_INTERVAL_MS + self.next_sun;
            self.next_sun = if carry >= elapsed as u64 {
                carry - elapsed as u64
            } else {
                0
            };
            let x = rand_below(FRAME_W as usize) as i64;
            let dist = SKY_SUN_MIN_DIST + rand_below((SKY_SUN_MAX_DIST - SKY_SUN_MIN_DIST) as usize)
                as i64;
            self.suns.push(Sun { x, y: 0, dist });
        }
    }

    /// Advance the wave countdown. When the head wave's wait is reached, its
    /// batch spawns (see [`spawn_batch`]) and the overshoot carries over into
    /// the next wave's wait; otherwise the head wait just shrinks by the
    /// elapsed time. At most one wave spawns per tick.
    pub fn update_zombie_wave(&mut self, elapsed: u32)
        requires
            old(self).wf(),
        ensures
            final(self).wf(),
            *final(self) == (Level {
                zombies: final(self).zombies,
                spawn_waits: final(self).spawn_waits,
                spawn_zombies: final(self).spawn_zombies,
                ..*old(self)
            }),
            old(self).spawn_waits@.len() == 0 ==> *final(self) == *old(self),
            old(self).spawn_waits@.len() > 0 && elapsed < old(self).spawn_waits@[0] ==> {
                &&& final(self).zombies@ == old(self).zombies@
                &&& final(self).spawn_zombies@ == old(self).spawn_zombies@
                &&& final(self).spawn_waits@ == old(self).spawn_waits@.update(
                    0,
                    (old(self).spawn_waits@[0] - elapsed) as u64,
                )
            },
            old(self).spawn_waits@.len() > 0 && elapsed >= old(self).spawn_waits@[0] ==> {
                let leftover = elapsed - old(self).spawn_waits@[0];
                &&& final(self).spawn_zombies@ == old(self).spawn_zombies@.drop_first()
                &&& final(self).spawn_waits@ == if old(self).spawn_waits@.len() == 1 {
                    old(self).spawn_waits@.drop_first()
                } else {
                    old(self).spawn_waits@.drop_first().update(
                        0,
                        (if old(self).spawn_waits@[1] >= leftover {
                            old(self).spawn_waits@[1] - leftover
                        } else {
                            0
                        }) as u64,
                    )
                }
                &&& final(self).zombies@.len() == old(self).zombies@.len()
                &&& forall|r: int|
                    0 <= r < old(self).rows() ==> final(self).zombies@[r]@.len() >= (
                    #[trigger] old(self).zombies@[r])@.len()
                &&& forall|r: int, k: int|
                    0 <= r < old(self).rows() && 0 <= k < old(self).zombies@[r]@.len()
                        ==> #[trigger] final(self).zombies@[r]@[k] == old(self).zombies@[r]@[k]
                &&& forall|r: int, k: int|
                    0 <= r < old(self).rows() && old(self).zombies@[r]@.len() <= k
                        < final(self).zombies@[r]@.len() ==> spec_spawned_zombie(
                        #[trigger] final(self).zombies@[r]@[k],
                        k - old(self).zombies@[r]@.len(),
                        old(self).spawn_zombies@[0]@,
                    )
                &&& spec_total_len(final(self).zombies@) == spec_total_len(old(self).zombies@)
                    + spec_batch_total(old(self).spawn_zombies@[0]@)
                &&& crate::wave::spec_added_healths(old(self).zombies@, final(self).zombies@)
                    == crate::wave::spec_healths_of(
                    crate::wave::spec_expand_batch(old(self).spawn_zombies@[0]@),
                ).to_multiset()
            },
    {
        if self.spawn_waits.len() == 0 {
            return ;
        }
        let head = self.spawn_waits[0];
        if elapsed as u64 >= head {
            let leftover = elapsed as u64 - head;
            self.spawn_waits.remove(0);
            let batch = self.spawn_zombies.remove(0);
            spawn_batch(&mut self.zombies, &batch);
            proof {
                assert forall|r: int, k: int|
                    0 <= r < self.rows() && 0 <= k < self.zombies@[r]@.len() implies (
                #[trigger] self.zombies@[r]@[k]).wf() && (old(self).end != Some(false)
                    ==> self.zombies@[r]@[k].x + ZOMBIE_W >= self.board.left) by {
                    if k < old(self).zombies@[r]@.len() {
                        assert(self.zombies@[r]@[k] == old(self).zombies@[r]@[k]);
                        assert(old(self).zombies@[r]@[k].wf());
                        if old(self).end != Some(false) {
                            assert(old(self).on_field());
                            assert(old(self).zombies@[r]@[k].x + ZOMBIE_W >= self.board.left);
                        }
                    } else {
                        let m = k - old(self).zombies@[r]@.len();
                        assert(spec_spawned_zombie(
                            self.zombies@[r]@[k],
                            m,
                            old(self).spawn_zombies@[0]@,
                        ));
                        let b = choose|b: int|
                            0 <= b < old(self).spawn_zombies@[0]@.len()
                                && self.zombies@[r]@[k].health == crate::zombie::spec_zombie_health(
                                (#[trigger] old(self).spawn_zombies@[0]@[b]).0,
                            );
                        assert(0 <= m <= 255 * 255);
                        assert(0 <= m * crate::units::STACK_STEP <= 65025 * crate::units::STACK_STEP)
                            by (nonlinear_arith)
                            requires
                                0 <= m <= 65025,
                        ;
                    }
                }
            }
            if self.spawn_waits.len() > 0 {
                let next = self.spawn_waits[0];
                let adjusted = if next >= leftover {
                    next - leftover
                } else {
                    0
                };
                self.spawn_waits.set(0, adjusted);
            }
        } else {
            let shrunk = head - elapsed as u64;
            self.spawn_waits.set(0, shrunk);
            proof {
                assert(self.spawn_waits@ =~= old(self).spawn_waits@.update(
                    0,
                    (old(self).spawn_waits@[0] - elapsed) as u64,
                ));
            }
        }
    }
}

/// Where one tick of flight puts every pea of a row.
pub open spec fn spec_move_peas(projs: Seq<Pea>, elapsed: u32) -> Seq<Pea> {
    Seq::new(
        projs.len(),
        |k: int|
            Pea {
                x: (projs[k].x + PEA_SPEED * elapsed) as i64,
                damage_type: projs[k].damage_type,
            },
    )
}

impl Level {
    /// The projectile phase: every pea of every row advances one tick of
    /// flight, then lands or expires (see [`spec_resolve_row`]). Afterward no
    /// expired pea remains on the board, whatever zombies remain.
    pub fn update_projectiles(&mut self, elapsed: u32)
        requires
            old(self).wf(),
        ensures
            final(self).wf(),
            *final(self) == (Level {
                projectiles: final(self).projectiles,
                zombies: final(self).zombies,
                ..*old(self)
            }),
            final(self).projectiles@.len() == old(self).projectiles@.len(),
            final(self).zombies@.len() == old(self).zombies@.len(),
            forall|r: int|
                0 <= r < old(self).rows() ==> (#[trigger] final(self).projectiles@[r])@
                    == spec_resolve_row(
                    spec_move_peas(old(self).projectiles@[r]@, elapsed),
                    old(self).zombies@[r]@,
                ).0,
            forall|r: int|
                0 <= r < old(self).rows() ==> (#[trigger] final(self).zombies@[r])@
                    == spec_resolve_row(
                    spec_move_peas(old(self).projectiles@[r]@, elapsed),
                    old(self).zombies@[r]@,
                ).1,
            forall|r: int, k: int|
                0 <= r < old(self).rows() && 0 <= k < final(self).projectiles@[r]@.len() ==> !(
                #[trigger] final(self).projectiles@[r]@[k]).spec_expired(),
    {
        let rows = self.projectiles.len();
        let mut r: usize = 0;
        while r < rows
            invariant
                old(self).wf(),
                rows == old(self).rows(),
                rows == old(self).projectiles@.len(),
                *self == (Level {
                    projectiles: self.projectiles,
                    zombies: self.zombies,
                    ..*old(self)
                }),
                self.projectiles@.len() == rows,
                self.zombies@.len() == rows,
                r <= rows,
                forall|r2: int|
                    r <= r2 < rows ==> #[trigger] self.projectiles@[r2] == old(self).projectiles@[r2],
                forall|r2: int|
                    r <= r2 < rows ==> #[trigger] self.zombies@[r2] == old(self).zombies@[r2],
                forall|r2: int|
                    0 <= r2 < r ==> (#[trigger] self.projectiles@[r2])@ == spec_resolve_row(
                        spec_move_peas(old(self).projectiles@[r2]@, elapsed),
                        old(self).zombies@[r2]@,
                    ).0,
                forall|r2: int|
                    0 <= r2 < r ==> (#[trigger] self.zombies@[r2])@ == spec_resolve_row(
                        spec_move_peas(old(self).projectiles@[r2]@, elapsed),
                        old(self).zombies@[r2]@,
                    ).1,
            decreases rows - r,
        {
            let n = self.projectiles[r].len();
            let mut k: usize = 0;
            while k < n
                invariant
                    old(self).wf(),
                    rows == old(self).rows(),
                    0 <= r < rows,
                    n == old(self).projectiles@[r as int]@.len(),
                    *self == (Level {
                        projectiles: self.projectiles,
                        zombies: self.zombies,
                        ..*old(self)
                    }),
                    self.projectiles@.len() == rows,
                    self.zombies@.len() == rows,
                    k <= n,
                    self.projectiles@[r as int]@.len() == n,
                    forall|r2: int|
                        r < r2 < rows ==> #[trigger] self.projectiles@[r2] == old(self).projectiles@[r2],
                    forall|r2: int|
                        r <= r2 < rows ==> #[trigger] self.zombies@[r2] == old(self).zombies@[r2],
                    forall|r2: int|
                        0 <= r2 < r ==> (#[trigger] self.projectiles@[r2])@ == spec_resolve_row(
                            spec_move_peas(old(self).projectiles@[r2]@, elapsed),
                            old(self).zombies@[r2]@,
                        ).0,
                    forall|r2: int|
                        0 <= r2 < r ==> (#[trigger] self.zombies@[r2])@ == spec_resolve_row(
                            spec_move_peas(old(self).projectiles@[r2]@, elapsed),
                            old(self).zombies@[r2]@,
                        ).1,
                    forall|k2: int|
                        0 <= k2 < k ==> #[trigger] self.projectiles@[r as int]@[k2]
                            == spec_move_peas(old(self).projectiles@[r as int]@, elapsed)[k2],
                    forall|k2: int|
                        k <= k2 < n ==> #[trigger] self.projectiles@[r as int]@[k2] == old(self).projectiles@[r as int]@[k2],
                decreases n - k,
            {
                let mut p = self.projectiles[r][k];
                proof {
                    assert(p == old(self).projectiles@[r as int]@[k as int]);
                    assert(old(self).projectiles@[r as int]@[k as int].wf());
                }
                p.update(elapsed);
                self.projectiles[r].set(k, p);
                k = k + 1;
            }
            proof {
                assert(self.projectiles@[r as int]@ =~= spec_move_peas(
                    old(self).projectiles@[r as int]@,
                    elapsed,
                ));
                assert forall|k2: int|
                    0 <= k2 < self.projectiles@[r as int]@.len() implies 0 <= (
                #[trigger] self.projectiles@[r as int]@[k2]).x by {
                    assert(old(self).projectiles@[r as int]@[k2].wf());
                }
                assert forall|k2: int|
                    0 <= k2 < self.zombies@[r as int]@.len() implies (
                #[trigger] self.zombies@[r as int]@[k2]).wf() by {
                    assert(old(self).zombies@[r as int]@[k2].wf());
                }
            }
            resolve_row(&mut self.projectiles[r], &mut self.zombies[r]);
            proof {
                lemma_resolve_row_preserves(
                    spec_move_peas(old(self).projectiles@[r as int]@, elapsed),
                    old(self).zombies@[r as int]@,
                );
            }
            r = r + 1;
        }
        proof {
            assert forall|r2: int, k2: int|
                0 <= r2 < self.rows() && 0 <= k2 < self.zombies@[r2]@.len() implies (
            #[trigger] self.zombies@[r2]@[k2]).wf() && (self.end != Some(false)
                ==> self.zombies@[r2]@[k2].x + ZOMBIE_W >= self.board.left) by {
                let moved = spec_move_peas(old(self).projectiles@[r2]@, elapsed);
                let row0 = old(self).zombies@[r2]@;
                lemma_resolve_row_preserves(moved, row0);
                assert(self.zombies@[r2]@ == spec_resolve_row(moved, row0).1);
                assert(crate::collision::spec_x_present(row0, self.zombies@[r2]@[k2].x));
                if self.end != Some(false) {
                    let b = choose|b: int|
                        0 <= b < row0.len() && (#[trigger] row0[b]).x == self.zombies@[r2]@[k2].x;
                    assert(old(self).on_field());
                    assert(row0[b].x + ZOMBIE_W >= old(self).board.left);
                }
            }
            assert forall|r2: int, k2: int|
                0 <= r2 < self.rows() && 0 <= k2 < self.projectiles@[r2]@.len() implies (
            #[trigger] self.projectiles@[r2]@[k2]).wf() && !self.projectiles@[r2]@[k2].spec_expired() by {
                let moved = spec_move_peas(old(self).projectiles@[r2]@, elapsed);
                let row0 = old(self).zombies@[r2]@;
                lemma_resolve_row_preserves(moved, row0);
                assert(self.projectiles@[r2]@ == spec_resolve_row(moved, row0).0);
                assert(!self.projectiles@[r2]@[k2].spec_expired());
                let b = choose|b: int|
                    0 <= b < moved.len() && #[trigger] spec_resolve_row(moved, row0).0[k2]
                        == moved[b];
                assert(old(self).projectiles@[r2]@[b].wf());
                assert(moved[b].x == old(self).projectiles@[r2]@[b].x + PEA_SPEED * elapsed);
            }
        }
    }

}

/// The muzzle point of a plant in column `c`: the horizontal center of its
/// sprite.
pub open spec fn spec_muzzle_x(board: Board, c: int) -> i64 {
    (board.spec_cell_x(c) + PLANT_W / 2) as i64
}

/// Suns emitted by the cells of row `r` from column `c` on, in column order.
pub open spec fn spec_row_suns(
    cells: Seq<Option<Plant>>,
    zombies: Seq<Seq<Zombie>>,
    board: Board,
    r: int,
    c: int,
) -> Seq<Sun>
    decreases cells.len() - c,
{
    if c < 0 || c >= cells.len() {
        Seq::empty()
    } else {
        (match cells[c] {
            Option::None => Seq::<Sun>::empty(),
            Option::Some(p) => p.spec_spawn_suns(
                spec_muzzle_x(board, c),
                board.spec_cell_y(r) as i64,
                zombies,
                r,
                board.rows@.len() - 1,
            ),
        }) + spec_row_suns(cells, zombies, board, r, c + 1)
    }
}

/// Suns emitted by every cell from row `r` on, in row-major order.
pub open spec fn spec_board_suns(
    plants: Seq<Seq<Option<Plant>>>,
    zombies: Seq<Seq<Zombie>>,
    board: Board,
    r: int,
) -> Seq<Sun>
    decreases plants.len() - r,
{
    if r < 0 || r >= plants.len() {
        Seq::empty()
    } else {
        spec_row_suns(plants[r], zombies, board, r, 0) + spec_board_suns(
            plants,
            zombies,
            board,
            r + 1,
        )
    }
}

/// Pea emissions (target row, pea) of the cells of row `r` from column `c`
/// on, in column order.
pub open spec fn spec_row_emissions(
    cells: Seq<Option<Plant>>,
    zombies: Seq<Seq<Zombie>>,
    board: Board,
    r: int,
    c: int,
) -> Seq<(usize, Pea)>
    decreases cells.len() - c,
{
    if c < 0 || c >= cells.len() {
        Seq::empty()
    } else {
        (match cells[c] {
            Option::None => Seq::<(usize, Pea)>::empty(),
            Option::Some(p) => p.spec_spawn_peas(
                spec_muzzle_x(board, c),
                zombies,
                r as usize,
                (board.rows@.len() - 1) as usize,
            ),
        }) + spec_row_emissions(cells, zombies, board, r, c + 1)
    }
}

/// Pea emissions of every cell from row `r` on, in row-major order.
pub open spec fn spec_board_emissions(
    plants: Seq<Seq<Option<Plant>>>,
    zombies: Seq<Seq<Zombie>>,
    board: Board,
    r: int,
) -> Seq<(usize, Pea)>
    decreases plants.len() - r,
{
    if r < 0 || r >= plants.len() {
        Seq::empty()
    } else {
        spec_row_emissions(plants[r], zombies, board, r, 0) + spec_board_emissions(
            plants,
            zombies,
            board,
            r + 1,
        )
    }
}

/// The peas of an emission list aimed at row `t`, in emission order.
pub open spec fn spec_peas_for(emitted: Seq<(usize, Pea)>, t: int) -> Seq<Pea>
    decreases emitted.len(),
{
    if emitted.len() == 0 {
        Seq::empty()
    } else if emitted.last().0 == t {
        spec_peas_for(emitted.drop_last(), t) + seq![emitted.last().1]
    } else {
        spec_peas_for(emitted.drop_last(), t)
    }
}

/// Aiming one more emission extends exactly its target row's pea list.
pub proof fn lemma_peas_for_push(emitted: Seq<(usize, Pea)>, e: (usize, Pea), t: int)
    ensures
        spec_peas_for(emitted.push(e), t) == if e.0 == t {
            spec_peas_for(emitted, t) + seq![e.1]
        } else {
            spec_peas_for(emitted, t)
        },
{
    assert(emitted.push(e).drop_last() =~= emitted);
    assert(emitted.push(e).last() == e);
}

impl Level {
    /// The spawn phase: every plant is asked, in row-major order, what it
    /// emits this tick. Exactly the emitted suns join the falling suns, in
    /// that order, and exactly the emitted peas join their target rows, in
    /// that order; everything already on the board stays.
    pub fn spawn_projectiles(&mut self)
        requires
            old(self).wf(),
        ensures
            final(self).wf(),
            *final(self) == (Level {
                plants: final(self).plants,
                suns: final(self).suns,
                projectiles: final(self).projectiles,
                ..*old(self)
            }),
            final(self).plants@.len() == old(self).plants@.len(),
            forall|r: int|
                0 <= r < old(self).rows()
                    ==> (#[trigger] final(self).plants@[r])@.len() == old(self).plants@[r]@.len(),
            forall|r: int, c: int|
                0 <= r < old(self).rows() && 0 <= c < old(self).cols()
                    ==> #[trigger] final(self).plants@[r]@[c] == match old(self).plants@[r]@[c] {
                    Option::None => Option::<Plant>::None,
                    Option::Some(p) => Some(
                        p.spec_with_charge(
                            p.spec_charge_after_query(
                                crate::zombie::spec_rows(old(self).zombies@),
                                r,
                                old(self).rows() - 1,
                            ),
                        ),
                    ),
                },
            final(self).suns@ == old(self).suns@ + spec_board_suns(
                crate::plants::spec_prows(old(self).plants@),
                crate::zombie::spec_rows(old(self).zombies@),
                old(self).board,
                0,
            ),
            final(self).projectiles@.len() == old(self).projectiles@.len(),
            forall|t: int|
                #![trigger final(self).projectiles@[t]]
                0 <= t < old(self).rows() ==> (final(self).projectiles@[t])@ == (old(self).projectiles@[t])@ + spec_peas_for(
                    spec_board_emissions(
                        crate::plants::spec_prows(old(self).plants@),
                        crate::zombie::spec_rows(old(self).zombies@),
                        old(self).board,
                        0,
                    ),
                    t,
                ),
    {
        let ghost pp = crate::plants::spec_prows(old(self).plants@);
        let ghost zz = crate::zombie::spec_rows(old(self).zombies@);
        let ghost bb = old(self).board;
        let ghost mut gsuns: Seq<Sun> = Seq::empty();
        let ghost mut gemit: Seq<(usize, Pea)> = Seq::empty();
        proof {
            assert(Seq::<Sun>::empty() + spec_board_suns(pp, zz, bb, 0) =~= spec_board_suns(
                pp,
                zz,
                bb,
                0,
            ));
            assert(Seq::<(usize, Pea)>::empty() + spec_board_emissions(pp, zz, bb, 0)
                =~= spec_board_emissions(pp, zz, bb, 0));
            assert forall|t: int| 0 <= t < old(self).rows() implies (
            #[trigger] self.projectiles@[t])@ == (old(self).projectiles@[t])@ + spec_peas_for(
                gemit,
                t,
            ) by {
                assert((old(self).projectiles@[t])@ + spec_peas_for(gemit, t) =~= (old(self).projectiles@[t])@);
            }
        }
        let rows = self.plants.len();
        let mut r: usize = 0;
        while r < rows
            invariant
                old(self).wf(),
                pp == crate::plants::spec_prows(old(self).plants@),
                zz == crate::zombie::spec_rows(old(self).zombies@),
                bb == old(self).board,
                rows == old(self).rows(),
                rows == old(self).plants@.len(),
                pp.len() == rows,
                *self == (Level {
                    plants: self.plants,
                    suns: self.suns,
                    projectiles: self.projectiles,
                    ..*old(self)
                }),
                self.plants@.len() == rows,
                self.projectiles@.len() == rows,
                r <= rows,
                forall|r2: int|
                    0 <= r2 < rows ==> (#[trigger] self.plants@[r2])@.len() == old(self).plants@[r2]@.len(),
                forall|r2: int, c2: int|
                    r <= r2 < rows && 0 <= c2 < old(self).plants@[r2]@.len()
                        ==> #[trigger] self.plants@[r2]@[c2] == old(self).plants@[r2]@[c2],
                forall|r2: int, c2: int|
                    0 <= r2 < r && 0 <= c2 < old(self).plants@[r2]@.len()
                        ==> #[trigger] self.plants@[r2]@[c2] == match old(self).plants@[r2]@[c2] {
                        Option::None => Option::<Plant>::None,
                        Option::Some(p) => Some(
                            p.spec_with_charge(
                                p.spec_charge_after_query(zz, r2, rows - 1),
                            ),
                        ),
                    },
                self.suns@ == old(self).suns@ + gsuns,
                spec_board_suns(pp, zz, bb, 0) == gsuns + spec_board_suns(pp, zz, bb, r as int),
                forall|k: int| 0 <= k < self.suns@.len() ==> (#[trigger] self.suns@[k]).wf(),
                forall|t: int|
                    #![trigger self.projectiles@[t]]
                    0 <= t < rows ==> (self.projectiles@[t])@ == (old(self).projectiles@[t])@
                        + spec_peas_for(gemit, t),
                spec_board_emissions(pp, zz, bb, 0) == gemit + spec_board_emissions(
                    pp,
                    zz,
                    bb,
                    r as int,
                ),
                forall|r2: int, k: int|
                    0 <= r2 < rows && 0 <= k < self.projectiles@[r2]@.len() ==> (
                    #[trigger] self.projectiles@[r2]@[k]).wf(),
            decreases rows - r,
        {
            let cols = self.plants[r].len();
            let mut c: usize = 0;
            while c < cols
                invariant
                    old(self).wf(),
                    pp == crate::plants::spec_prows(old(self).plants@),
                    zz == crate::zombie::spec_rows(old(self).zombies@),
                    bb == old(self).board,
                    rows == old(self).rows(),
                    rows == old(self).plants@.len(),
                    pp.len() == rows,
                    0 <= r < rows,
                    cols == old(self).plants@[r as int]@.len(),
                    *self == (Level {
                        plants: self.plants,
                        suns: self.suns,
                        projectiles: self.projectiles,
                        ..*old(self)
                    }),
                    self.plants@.len() == rows,
                    self.projectiles@.len() == rows,
                    c <= cols,
                    forall|r2: int|
                        0 <= r2 < rows ==> (#[trigger] self.plants@[r2])@.len() == old(self).plants@[r2]@.len(),
                    forall|r2: int, c2: int|
                        r < r2 < rows && 0 <= c2 < old(self).plants@[r2]@.len()
                            ==> #[trigger] self.plants@[r2]@[c2] == old(self).plants@[r2]@[c2],
                    forall|c2: int|
                        c <= c2 < cols ==> #[trigger] self.plants@[r as int]@[c2] == old(self).plants@[r as int]@[c2],
                    forall|r2: int, c2: int|
                        0 <= r2 < r && 0 <= c2 < old(self).plants@[r2]@.len()
                            ==> #[trigger] self.plants@[r2]@[c2] == match old(self).plants@[r2]@[c2] {
                            Option::None => Option::<Plant>::None,
                            Option::Some(p) => Some(
                                p.spec_with_charge(
                                    p.spec_charge_after_query(zz, r2, rows - 1),
                                ),
                            ),
                        },
                    forall|c2: int|
                        0 <= c2 < c ==> #[trigger] self.plants@[r as int]@[c2] == match old(self).plants@[r as int]@[c2] {
                            Option::None => Option::<Plant>::None,
                            Option::Some(p) => Some(
                                p.spec_with_charge(
                                    p.spec_charge_after_query(zz, r as int, rows - 1),
                                ),
                            ),
                        },
                    self.suns@ == old(self).suns@ + gsuns,
                    spec_board_suns(pp, zz, bb, 0) == gsuns + spec_row_suns(
                        pp[r as int],
                        zz,
                        bb,
                        r as int,
                        c as int,
                    ) + spec_board_suns(pp, zz, bb, r + 1),
                    forall|k: int| 0 <= k < self.suns@.len() ==> (#[trigger] self.suns@[k]).wf(),
                    forall|t: int|
                        #![trigger self.projectiles@[t]]
                        0 <= t < rows ==> (self.projectiles@[t])@ == (old(self).projectiles@[t])@
                            + spec_peas_for(gemit, t),
                    spec_board_emissions(pp, zz, bb, 0) == gemit + spec_row_emissions(
                        pp[r as int],
                        zz,
                        bb,
                        r as int,
                        c as int,
                    ) + spec_board_emissions(pp, zz, bb, r + 1),
                    forall|r2: int, k: int|
                        0 <= r2 < rows && 0 <= k < self.projectiles@[r2]@.len() ==> (
                        #[trigger] self.projectiles@[r2]@[k]).wf(),
                decreases cols - c,
            {
                proof {
                    assert(pp[r as int][c as int] == old(self).plants@[r as int]@[c as int]);
                }
                match self.plants[r][c] {
                    Option::Some(p) => {
                        let x = self.board.pos_to_coord_x(c) + PLANT_W / 2;
                        let y = self.board.pos_to_coord_y(r);
                        proof {
                            assert(x == spec_muzzle_x(bb, c as int));
                            assert(y == bb.spec_cell_y(r as int) as i64);
                        }
                        let mut q = p;
                        let spawned = q.should_spawn(x, y, r, rows - 1, &self.zombies);
                        self.plants[r].set(c, Some(q));
                        let mut new_suns = spawned.0;
                        let new_peas = spawned.1;
                        proof {
                            assert(new_suns@ == p.spec_spawn_suns(
                                x,
                                y,
                                zz,
                                r as int,
                                rows - 1,
                            ));
                            assert(new_peas@ == p.spec_spawn_peas(x, zz, r, (rows - 1) as usize));
                            assert forall|k: int|
                                0 <= k < new_suns@.len() implies (#[trigger] new_suns@[k]).wf() by {}
                            assert forall|k: int|
                                0 <= k < new_peas@.len() implies (#[trigger] new_peas@[k]).0 < rows
                                && new_peas@[k].1.wf() by {}
                        }
                        self.suns.append(&mut new_suns);
                        proof {
                            let cellsuns = p.spec_spawn_suns(x, y, zz, r as int, rows - 1);
                            let gsuns_prev = gsuns;
                            assert(spec_row_suns(pp[r as int], zz, bb, r as int, c as int)
                                =~= cellsuns + spec_row_suns(
                                pp[r as int],
                                zz,
                                bb,
                                r as int,
                                c + 1,
                            ));
                            gsuns = gsuns + cellsuns;
                            assert(self.suns@ =~= old(self).suns@ + gsuns);
                            assert(gsuns_prev + (cellsuns + spec_row_suns(
                                pp[r as int],
                                zz,
                                bb,
                                r as int,
                                c + 1,
                            )) + spec_board_suns(pp, zz, bb, r + 1) =~= gsuns + spec_row_suns(
                                pp[r as int],
                                zz,
                                bb,
                                r as int,
                                c + 1,
                            ) + spec_board_suns(pp, zz, bb, r + 1));
                        }
                        let ghost gemit_cell = gemit;
                        let ghost plants_snap = self.plants@;
                        let ghost suns_snap = self.suns@;
                        let ghost gsuns_snap = gsuns;
                        let m = new_peas.len();
                        let mut i: usize = 0;
                        while i < m
                            invariant
                                rows == old(self).rows(),
                                m == new_peas@.len(),
                                self.plants@ == plants_snap,
                                self.suns@ == suns_snap,
                                gsuns == gsuns_snap,
                                *self == (Level {
                                    plants: self.plants,
                                    suns: self.suns,
                                    projectiles: self.projectiles,
                                    ..*old(self)
                                }),
                                self.projectiles@.len() == rows,
                                self.plants@.len() == rows,
                                i <= m,
                                gemit == gemit_cell + new_peas@.take(i as int),
                                forall|k: int|
                                    0 <= k < new_peas@.len() ==> (#[trigger] new_peas@[k]).0 < rows
                                        && new_peas@[k].1.wf(),
                                forall|t: int|
                                    #![trigger self.projectiles@[t]]
                                    0 <= t < rows ==> (self.projectiles@[t])@ == (old(self).projectiles@[t])@ + spec_peas_for(gemit, t),
                                forall|r2: int, k: int|
                                    0 <= r2 < rows && 0 <= k < self.projectiles@[r2]@.len() ==> (
                                    #[trigger] self.projectiles@[r2]@[k]).wf(),
                            decreases m - i,
                        {
                            let (tr, pea) = new_peas[i];
                            let ghost projs_at = self.projectiles@;
                            self.projectiles[tr].push(pea);
                            proof {
                                lemma_peas_for_push(gemit, new_peas@[i as int], 0);
                                gemit = gemit.push(new_peas@[i as int]);
                                assert(new_peas@.take(i + 1) =~= new_peas@.take(i as int).push(
                                    new_peas@[i as int],
                                ));
                                assert(gemit =~= gemit_cell + new_peas@.take(i + 1));
                                assert forall|t: int|
                                    0 <= t < rows implies (#[trigger] self.projectiles@[t])@ == (
                                old(self).projectiles@[t])@ + spec_peas_for(gemit, t) by {
                                    lemma_peas_for_push(
                                        gemit.drop_last(),
                                        new_peas@[i as int],
                                        t,
                                    );
                                    assert(gemit.drop_last() =~= gemit_cell + new_peas@.take(
                                        i as int,
                                    ));
                                    if t == tr as int {
                                        assert((self.projectiles@[t])@ =~= (projs_at[t])@.push(
                                            pea,
                                        ));
                                    } else {
                                        assert(self.projectiles@[t] == projs_at[t]);
                                    }
                                }
                            }
                            i = i + 1;
                        }
                        proof {
                            assert(new_peas@.take(m as int) =~= new_peas@);
                            assert(gemit =~= gemit_cell + p.spec_spawn_peas(
                                x,
                                zz,
                                r,
                                (rows - 1) as usize,
                            ));
                            assert(spec_row_emissions(pp[r as int], zz, bb, r as int, c as int)
                                =~= p.spec_spawn_peas(x, zz, r, (rows - 1) as usize)
                                + spec_row_emissions(pp[r as int], zz, bb, r as int, c + 1));
                            assert(gemit + spec_row_emissions(pp[r as int], zz, bb, r as int, c + 1)
                                =~= gemit_cell + (p.spec_spawn_peas(x, zz, r, (rows - 1) as usize)
                                + spec_row_emissions(pp[r as int], zz, bb, r as int, c + 1)));
                        }
                    },
                    Option::None => {
                        proof {
                            assert(spec_row_suns(pp[r as int], zz, bb, r as int, c as int)
                                =~= spec_row_suns(pp[r as int], zz, bb, r as int, c + 1));
                            assert(spec_row_emissions(pp[r as int], zz, bb, r as int, c as int)
                                =~= spec_row_emissions(pp[r as int], zz, bb, r as int, c + 1));
                        }
                    },
                }
                c = c + 1;
            }
            proof {
                assert(spec_row_suns(pp[r as int], zz, bb, r as int, cols as int)
                    =~= Seq::<Sun>::empty());
                assert(spec_row_emissions(pp[r as int], zz, bb, r as int, cols as int)
                    =~= Seq::<(usize, Pea)>::empty());
                assert(gsuns + spec_row_suns(pp[r as int], zz, bb, r as int, cols as int)
                    + spec_board_suns(pp, zz, bb, r + 1) =~= gsuns + spec_board_suns(
                    pp,
                    zz,
                    bb,
                    r + 1,
                ));
                assert(gemit + spec_row_emissions(pp[r as int], zz, bb, r as int, cols as int)
                    + spec_board_emissions(pp, zz, bb, r + 1) =~= gemit + spec_board_emissions(
                    pp,
                    zz,
                    bb,
                    r + 1,
                ));
            }
            r = r + 1;
        }
        proof {
            assert(spec_board_suns(pp, zz, bb, rows as int) =~= Seq::<Sun>::empty());
            assert(spec_board_emissions(pp, zz, bb, rows as int) =~= Seq::<(usize, Pea)>::empty());
            assert(gsuns + spec_board_suns(pp, zz, bb, rows as int) =~= gsuns);
            assert(gemit + spec_board_emissions(pp, zz, bb, rows as int) =~= gemit);
            assert(self.suns@ =~= old(self).suns@ + spec_board_suns(pp, zz, bb, 0));
        }
    }


    /// The sun countdown after one full tick: it shrinks by the elapsed
    /// time, and on expiry restarts from one interval carrying the overshoot
    /// over (never below zero).
    pub open spec fn spec_next_sun_after(next_sun: u64, elapsed: u32) -> int {
        if next_sun > elapsed {
            next_sun - elapsed
        } else if SUN_INTERVAL_MS + next_sun >= elapsed {
            SUN_INTERVAL_MS + next_sun - elapsed
        } else {
            0
        }
    }

    /// The wave waits after one full tick: an expired head is popped and its
    /// overshoot is taken out of the next wait (never below zero); otherwise
    /// the head just shrinks.
    pub open spec fn spec_waits_after(waits: Seq<u64>, elapsed: u32) -> Seq<u64> {
        if waits.len() == 0 {
            waits
        } else if elapsed < waits[0] {
            waits.update(0, (waits[0] - elapsed) as u64)
        } else {
            let leftover = elapsed - waits[0];
            if waits.len() == 1 {
                waits.drop_first()
            } else {
                waits.drop_first().update(
                    0,
                    (if waits[1] >= leftover {
                        waits[1] - leftover
                    } else {
                        0
                    }) as u64,
                )
            }
        }
    }
}

/// A plant row with every cell's charge advanced by one tick.
pub open spec fn spec_charged_row(cells: Seq<Option<Plant>>, elapsed: u32) -> Seq<Option<Plant>> {
    Seq::new(
        cells.len(),
        |c: int|
            match cells[c] {
                Option::None => Option::<Plant>::None,
                Option::Some(p) => Some(p.spec_with_charge(p.spec_step_charge(elapsed))),
            },
    )
}

/// The zombie phase of row `r` on a full tick: it runs on the charged plants.
pub open spec fn spec_tick_phase(pre: Level, r: int, elapsed: u32) -> (
    Seq<Zombie>,
    Seq<Option<Plant>>,
    bool,
) {
    spec_zombie_phase(
        pre.board,
        pre.board.rows@[r],
        pre.zombies@[r]@,
        spec_charged_row(pre.plants@[r]@, elapsed),
        elapsed,
    )
}

/// Row `r`'s zombies after the projectile phase of a full tick.
pub open spec fn spec_tick_zombies(pre: Level, r: int, elapsed: u32) -> Seq<Zombie> {
    spec_resolve_row(
        spec_move_peas(pre.projectiles@[r]@, elapsed),
        spec_tick_phase(pre, r, elapsed).0,
    ).1
}

/// Row `r`'s peas still in flight after the projectile phase of a full tick.
pub open spec fn spec_tick_projs(pre: Level, r: int, elapsed: u32) -> Seq<Pea> {
    spec_resolve_row(
        spec_move_peas(pre.projectiles@[r]@, elapsed),
        spec_tick_phase(pre, r, elapsed).0,
    ).0
}

/// All rows of zombies as the spawn queries of a full tick see them.
pub open spec fn spec_tick_zrows(pre: Level, elapsed: u32) -> Seq<Seq<Zombie>> {
    Seq::new(pre.rows() as nat, |r: int| spec_tick_zombies(pre, r, elapsed))
}

/// All rows of plant cells as the spawn queries of a full tick see them.
pub open spec fn spec_tick_prows(pre: Level, elapsed: u32) -> Seq<Seq<Option<Plant>>> {
    Seq::new(pre.rows() as nat, |r: int| spec_tick_phase(pre, r, elapsed).1)
}

/// Every (target row, pea) pair the plants emit on a full tick, in row-major
/// order.
pub open spec fn spec_tick_emissions(pre: Level, elapsed: u32) -> Seq<(usize, Pea)> {
    spec_board_emissions(spec_tick_prows(pre, elapsed), spec_tick_zrows(pre, elapsed), pre.board, 0)
}

/// Every sun the plants emit on a full tick, in row-major order.
pub open spec fn spec_tick_sun_emissions(pre: Level, elapsed: u32) -> Seq<Sun> {
    spec_board_suns(spec_tick_prows(pre, elapsed), spec_tick_zrows(pre, elapsed), pre.board, 0)
}

/// The suns of `pre` each fallen by one tick.
pub open spec fn spec_fallen_suns(pre: Level, elapsed: u32) -> Seq<Sun> {
    Seq::new(
        pre.suns@.len(),
        |k: int|
            Sun {
                x: pre.suns@[k].x,
                y: pre.suns@[k].spec_step_y(elapsed) as i64,
                dist: pre.suns@[k].dist,
            },
    )
}

/// Total length of a family of zombie rows.
pub open spec fn spec_sum_lens(zrows: Seq<Seq<Zombie>>) -> int
    decreases zrows.len(),
{
    if zrows.len() == 0 {
        0
    } else {
        spec_sum_lens(zrows.drop_last()) + zrows.last().len()
    }
}

/// Two row families with pointwise equal lengths hold the same total count.
pub proof fn lemma_total_matches_sum(zs: Seq<Vec<Zombie>>, zrows: Seq<Seq<Zombie>>)
    requires
        zs.len() == zrows.len(),
        forall|r: int| 0 <= r < zs.len() ==> (#[trigger] zs[r])@.len() == zrows[r].len(),
    ensures
        spec_total_len(zs) == spec_sum_lens(zrows),
    decreases zs.len(),
{
    if zs.len() > 0 {
        assert forall|r: int| 0 <= r < zs.len() - 1 implies (#[trigger] zs.drop_last()[r])@.len()
            == zrows.drop_last()[r].len() by {
            assert(zs.drop_last()[r] == zs[r]);
            assert(zrows.drop_last()[r] == zrows[r]);
        }
        lemma_total_matches_sum(zs.drop_last(), zrows.drop_last());
    }
}

/// What one full (started, not yet terminal, not won on the spot, not lost)
/// tick does to a level: plants charge and are eaten, then run their spawn
/// queries; zombies walk, eat, take the peas' hits and are joined by the due
/// wave; peas fly, land or expire, joined by the emitted ones; suns fall,
/// joined by the emitted ones and the countdown's drop.
pub open spec fn spec_full_tick(pre: Level, post: Level, elapsed: u32) -> bool {
    let zrows = spec_tick_zrows(pre, elapsed);
    let emitted = spec_tick_emissions(pre, elapsed);
    let fallen = spec_fallen_suns(pre, elapsed);
    let sun_emitted = spec_tick_sun_emissions(pre, elapsed);
    &&& post.plants@.len() == pre.rows()
    &&& forall|r: int|
        #![trigger post.plants@[r]]
        0 <= r < pre.rows() ==> (post.plants@[r])@ == Seq::new(
            spec_tick_phase(pre, r, elapsed).1.len(),
            |c: int|
                match spec_tick_phase(pre, r, elapsed).1[c] {
                    Option::None => Option::<Plant>::None,
                    Option::Some(p) => Some(
                        p.spec_with_charge(
                            p.spec_charge_after_query(zrows, r, pre.rows() - 1),
                        ),
                    ),
                },
        )
    &&& post.projectiles@.len() == pre.rows()
    &&& forall|t: int|
        #![trigger post.projectiles@[t]]
        0 <= t < pre.rows() ==> (post.projectiles@[t])@ == spec_tick_projs(pre, t, elapsed)
            + spec_peas_for(emitted, t)
    &&& post.next_sun as int == Level::spec_next_sun_after(pre.next_sun, elapsed)
    &&& (pre.next_sun > elapsed ==> post.suns@ == fallen + sun_emitted)
    &&& (pre.next_sun <= elapsed ==> {
        &&& post.suns@.len() == fallen.len() + 1 + sun_emitted.len()
        &&& post.suns@.take(fallen.len() as int) == fallen
        &&& post.suns@[fallen.len() as int].y == 0
        &&& 0 <= post.suns@[fallen.len() as int].x < FRAME_W
        &&& SKY_SUN_MIN_DIST <= post.suns@[fallen.len() as int].dist < SKY_SUN_MAX_DIST
        &&& post.suns@.skip(fallen.len() as int + 1) == sun_emitted
    })
    &&& post.spawn_waits@ == Level::spec_waits_after(pre.spawn_waits@, elapsed)
    &&& post.zombies@.len() == pre.rows()
    &&& (elapsed < pre.spawn_waits@[0] || pre.spawn_waits@.len() == 0 ==> {
        &&& post.spawn_zombies@ == pre.spawn_zombies@
        &&& forall|r: int|
            #![trigger post.zombies@[r]]
            0 <= r < pre.rows() ==> (post.zombies@[r])@ == zrows[r]
    })
    &&& (pre.spawn_waits@.len() > 0 && elapsed >= pre.spawn_waits@[0] ==> {
        &&& post.spawn_zombies@ == pre.spawn_zombies@.drop_first()
        &&& forall|r: int|
            #![trigger post.zombies@[r]]
            0 <= r < pre.rows() ==> (post.zombies@[r])@.len() >= zrows[r].len() && (
            post.zombies@[r])@.take(zrows[r].len() as int) == zrows[r]
        &&& forall|r: int, k: int|
            0 <= r < pre.rows() && zrows[r].len() <= k < post.zombies@[r]@.len()
                ==> spec_spawned_zombie(
                #[trigger] post.zombies@[r]@[k],
                k - zrows[r].len(),
                pre.spawn_zombies@[0]@,
            )
        &&& spec_total_len(post.zombies@) == spec_sum_lens(zrows) + spec_batch_total(
            pre.spawn_zombies@[0]@,
        )
    })
}

impl Level {
    /// One whole tick. A paused (not yet started) level never changes, and
    /// neither does a terminal one. A playing level with no zombie on the
    /// board and no wave pending is won on the spot. A tick on which a
    /// zombie's step crosses the defended edge is lost: the plants charge, the
    /// zombie phase runs up to the crossing row (the returned ghost value),
    /// and the rest of the tick is frozen. Any other tick runs the whole
    /// pipeline, exactly as [`spec_full_tick`] lays it out. The money counter
    /// is never touched by a tick.
    pub fn update(&mut self, elapsed: u32) -> (cutoff: Ghost<int>)
        requires
            old(self).wf(),
        ensures
            final(self).wf(),
            final(self).money == old(self).money,
            final(self).board == old(self).board,
            final(self).id == old(self).id,
            final(self).started == old(self).started,
            !old(self).started ==> *final(self) == *old(self),
            old(self).end is Some ==> *final(self) == *old(self),
            (old(self).started && old(self).end is None && old(self).spec_board_clear() && old(self).spawn_waits@.len() == 0) ==> *final(self) == (Level {
                end: Some(true),
                ..*old(self)
            }),
            (old(self).started && old(self).end is None && !(old(self).spec_board_clear() && old(self).spawn_waits@.len() == 0)) ==> final(self).end == (if old(self).spec_any_crossing(
                elapsed,
            ) {
                Some(false)
            } else {
                Option::<bool>::None
            }),
            // a lost tick freezes everything past the zombie phase
            (old(self).started && old(self).end is None && !(old(self).spec_board_clear() && old(self).spawn_waits@.len() == 0) && old(self).spec_any_crossing(elapsed)) ==> {
                &&& final(self).projectiles@ == old(self).projectiles@
                &&& final(self).suns@ == old(self).suns@
                &&& final(self).next_sun == old(self).next_sun
                &&& final(self).spawn_waits@ == old(self).spawn_waits@
                &&& final(self).spawn_zombies@ == old(self).spawn_zombies@
                &&& 0 <= cutoff@ < old(self).rows()
                &&& spec_tick_phase(*old(self), cutoff@, elapsed).2
                &&& (final(self).zombies@[cutoff@])@ == spec_tick_phase(
                    *old(self),
                    cutoff@,
                    elapsed,
                ).0
                &&& (final(self).plants@[cutoff@])@ == spec_tick_phase(
                    *old(self),
                    cutoff@,
                    elapsed,
                ).1
                &&& forall|r: int|
                    #![trigger spec_tick_phase(*old(self), r, elapsed)]
                    0 <= r < cutoff@ ==> !spec_tick_phase(*old(self), r, elapsed).2
                &&& forall|r: int|
                    #![trigger final(self).zombies@[r]]
                    0 <= r < cutoff@ ==> (final(self).zombies@[r])@ == spec_tick_phase(*old(self), r, elapsed).0
                &&& forall|r: int|
                    #![trigger final(self).plants@[r]]
                    0 <= r < cutoff@ ==> (final(self).plants@[r])@ == spec_tick_phase(
                        *old(self),
                        r,
                        elapsed,
                    ).1
                &&& forall|r: int|
                    #![trigger final(self).zombies@[r]]
                    cutoff@ < r < old(self).rows() ==> (final(self).zombies@[r])@ == old(self).zombies@[r]@
                &&& forall|r: int|
                    #![trigger final(self).plants@[r]]
                    cutoff@ < r < old(self).rows() ==> (final(self).plants@[r])@
                        == spec_charged_row(old(self).plants@[r]@, elapsed)
            },
            // a full tick runs the whole pipeline
            (old(self).started && old(self).end is None && !(old(self).spec_board_clear() && old(self).spawn_waits@.len() == 0) && !old(self).spec_any_crossing(elapsed))
                ==> spec_full_tick(*old(self), *final(self), elapsed),
    {
        if !self.started {
            return Ghost(0);
        }
        if self.end.is_some() {
            return Ghost(0);
        }
        if self.no_zombies() && self.spawn_waits.len() == 0 {
            self.end = Some(true);
            return Ghost(0);
        }
        let ghost pre = *old(self);
        self.charge_plants(elapsed);
        let ghost mid1 = *self;
        proof {
            assert forall|r: int| 0 <= r < pre.rows() implies (#[trigger] mid1.plants@[r])@
                =~= spec_charged_row(pre.plants@[r]@, elapsed) by {}
            assert forall|r: int| 0 <= r < pre.rows() implies spec_phase_of(mid1, r, elapsed)
                == spec_tick_phase(pre, r, elapsed) by {
                assert((mid1.plants@[r])@ == spec_charged_row(pre.plants@[r]@, elapsed));
                assert(mid1.zombies@[r] == pre.zombies@[r]);
            }
            assert(mid1.spec_any_crossing(elapsed) == pre.spec_any_crossing(elapsed));
        }
        let cut = self.update_zombies(elapsed);
        match self.end {
            Option::Some(false) => {
                proof {
                    assert(self.projectiles@ == pre.projectiles@);
                    assert(self.suns@ == pre.suns@);
                    assert(self.next_sun == pre.next_sun);
                    assert(self.spawn_waits@ == pre.spawn_waits@);
                    assert(self.spawn_zombies@ == pre.spawn_zombies@);
                    assert(0 <= cut@ < pre.rows());
                    assert(spec_row_crossing(mid1, cut@, elapsed));
                    assert(spec_tick_phase(pre, cut@, elapsed).2);
                    assert(spec_row_phased(mid1, *self, cut@, elapsed));
                    assert((self.zombies@[cut@])@ == spec_tick_phase(pre, cut@, elapsed).0);
                    assert((self.plants@[cut@])@ == spec_tick_phase(pre, cut@, elapsed).1);
                    assert forall|r: int|
                        #![trigger spec_tick_phase(pre, r, elapsed)]
                        0 <= r < cut@ implies !spec_tick_phase(pre, r, elapsed).2 by {
                        assert(spec_row_phased(mid1, *self, r, elapsed));
                        assert(!spec_row_crossing(mid1, r, elapsed));
                        assert(spec_phase_of(mid1, r, elapsed) == spec_tick_phase(pre, r, elapsed));
                    }
                    assert forall|r: int|
                        0 <= r < cut@ implies (#[trigger] self.zombies@[r])@ == spec_tick_phase(
                        pre,
                        r,
                        elapsed,
                    ).0 by {
                        assert(spec_row_phased(mid1, *self, r, elapsed));
                    }
                    assert forall|r: int|
                        0 <= r < cut@ implies (#[trigger] self.plants@[r])@ == spec_tick_phase(
                        pre,
                        r,
                        elapsed,
                    ).1 by {
                        assert(spec_row_phased(mid1, *self, r, elapsed));
                    }
                    assert forall|r: int|
                        cut@ < r < pre.rows() implies (#[trigger] self.zombies@[r])@
                        == pre.zombies@[r]@ by {
                        assert(self.zombies@[r] == mid1.zombies@[r]);
                    }
                    assert forall|r: int|
                        cut@ < r < pre.rows() implies (#[trigger] self.plants@[r])@
                        == spec_charged_row(pre.plants@[r]@, elapsed) by {
                        assert(self.plants@[r] == mid1.plants@[r]);
                    }
                }
                return cut;
            },
            _ => {},
        }
        let ghost mid2 = *self;
        self.update_projectiles(elapsed);
        let ghost mid3 = *self;
        proof {
            assert forall|r: int| 0 <= r < pre.rows() implies (#[trigger] mid3.zombies@[r])@
                == spec_tick_zombies(pre, r, elapsed) by {
                assert(spec_row_phased(mid1, mid2, r, elapsed));
                assert(mid2.projectiles@[r] == pre.projectiles@[r]);
                assert((mid3.zombies@[r])@ == spec_resolve_row(
                    spec_move_peas(mid2.projectiles@[r]@, elapsed),
                    mid2.zombies@[r]@,
                ).1);
            }
            assert forall|r: int| 0 <= r < pre.rows() implies (#[trigger] mid3.projectiles@[r])@
                == spec_tick_projs(pre, r, elapsed) by {
                assert(spec_row_phased(mid1, mid2, r, elapsed));
                assert(mid2.projectiles@[r] == pre.projectiles@[r]);
                assert((mid3.projectiles@[r])@ == spec_resolve_row(
                    spec_move_peas(mid2.projectiles@[r]@, elapsed),
                    mid2.zombies@[r]@,
                ).0);
            }
            assert forall|r: int| 0 <= r < pre.rows() implies (#[trigger] mid3.plants@[r])@
                == spec_tick_phase(pre, r, elapsed).1 by {
                assert(spec_row_phased(mid1, mid2, r, elapsed));
                assert(mid3.plants@[r] == mid2.plants@[r]);
            }
        }
        self.update_suns(elapsed);
        let ghost mid4 = *self;
        proof {
            assert forall|r: int| 0 <= r < pre.rows() implies (#[trigger] mid4.zombies@[r])@
                == spec_tick_zombies(pre, r, elapsed) by {
                assert(mid4.zombies@[r] == mid3.zombies@[r]);
            }
            assert forall|r: int| 0 <= r < pre.rows() implies (#[trigger] mid4.plants@[r])@
                == spec_tick_phase(pre, r, elapsed).1 by {
                assert(mid4.plants@[r] == mid3.plants@[r]);
            }
            assert forall|r: int| 0 <= r < pre.rows() implies (#[trigger] mid4.projectiles@[r])@
                == spec_tick_projs(pre, r, elapsed) by {
                assert(mid4.projectiles@[r] == mid3.projectiles@[r]);
            }
            assert(crate::zombie::spec_rows(mid4.zombies@) =~~= spec_tick_zrows(pre, elapsed));
            assert(crate::plants::spec_prows(mid4.plants@) =~~= spec_tick_prows(pre, elapsed));
            if pre.next_sun > elapsed {
                assert(mid4.suns@ =~= spec_fallen_suns(pre, elapsed));
            } else {
                assert(mid4.suns@.take(spec_fallen_suns(pre, elapsed).len() as int)
                    =~= spec_fallen_suns(pre, elapsed));
            }
        }
        self.spawn_projectiles();
        let ghost mid5 = *self;
        proof {
            if pre.next_sun > elapsed {
                assert(mid5.suns@ =~= spec_fallen_suns(pre, elapsed) + spec_tick_sun_emissions(
                    pre,
                    elapsed,
                ));
            } else {
                let n = spec_fallen_suns(pre, elapsed).len() as int;
                assert(mid5.suns@.take(n) =~= spec_fallen_suns(pre, elapsed));
                assert(mid5.suns@.skip(n + 1) =~= spec_tick_sun_emissions(pre, elapsed));
            }
            assert forall|t: int| 0 <= t < pre.rows() implies (#[trigger] mid5.projectiles@[t])@
                == spec_tick_projs(pre, t, elapsed) + spec_peas_for(
                spec_tick_emissions(pre, elapsed),
                t,
            ) by {
                assert(mid4.projectiles@[t] == mid3.projectiles@[t]);
                assert((mid4.projectiles@[t])@ == spec_tick_projs(pre, t, elapsed));
            }
            assert forall|r: int| 0 <= r < pre.rows() implies (#[trigger] mid5.plants@[r])@
                =~= Seq::new(
                spec_tick_phase(pre, r, elapsed).1.len(),
                |c: int|
                    match spec_tick_phase(pre, r, elapsed).1[c] {
                        Option::None => Option::<Plant>::None,
                        Option::Some(p) => Some(
                            p.spec_with_charge(
                                p.spec_charge_after_query(
                                    spec_tick_zrows(pre, elapsed),
                                    r,
                                    pre.rows() - 1,
                                ),
                            ),
                        ),
                    },
            ) by {
                assert(mid4.plants@[r] == mid3.plants@[r]);
                assert((mid4.plants@[r])@ == spec_tick_phase(pre, r, elapsed).1);
            }
        }
        self.update_zombie_wave(elapsed);
        proof {
            assert forall|r: int| 0 <= r < pre.rows() implies (#[trigger] mid5.zombies@[r])@
                == spec_tick_zrows(pre, elapsed)[r] by {}
            if pre.spawn_waits@.len() > 0 && elapsed >= pre.spawn_waits@[0] {
                lemma_total_matches_sum(mid5.zombies@, spec_tick_zrows(pre, elapsed));
                assert forall|r: int| 0 <= r < pre.rows() implies (
                #[trigger] self.zombies@[r])@.take(spec_tick_zrows(pre, elapsed)[r].len() as int)
                    =~= spec_tick_zrows(pre, elapsed)[r] by {
                    assert forall|k: int|
                        0 <= k < mid5.zombies@[r]@.len() implies self.zombies@[r]@[k]
                        == mid5.zombies@[r]@[k] by {}
                }
            } else {
                assert forall|r: int| 0 <= r < pre.rows() implies (#[trigger] self.zombies@[r])@
                    == spec_tick_zrows(pre, elapsed)[r] by {
                    assert(self.zombies@[r] == mid5.zombies@[r]);
                }
            }
        }
        Ghost(old(self).rows())
    }
}

} // verus!
//! Wave spawning: one expired batch of (zombie type, count) pairs is expanded
//! into a pool, and the pool is drained in random order into random rows, each
//! row staggering its newcomers by a fixed step so none of them start
//! overlapping.

use vstd::multiset::Multiset;
use vstd::prelude::*;

use crate::rng::rand_below;
use crate::units::{FRAME_W, STACK_STEP, X_MAX, ZOMBIE_HEALTH_CONE};
use crate::zombie::{spec_zombie_health, zombie_from_id, Zombie};

verus! {

/// Sum of the per-type counts of a batch.
pub open spec fn spec_batch_total(batch: Seq<(u8, u8)>) -> int
    decreases batch.len(),
{
    if batch.len() == 0 {
        0
    } else {
        spec_batch_total(batch.drop_last()) + batch.last().1
    }
}

/// The batch written out one zombie type at a time.
pub open spec fn spec_expand_batch(batch: Seq<(u8, u8)>) -> Seq<u8>
    decreases batch.len(),
{
    if batch.len() == 0 {
        Seq::empty()
    } else {
        spec_expand_batch(batch.drop_last()) + Seq::new(
            batch.last().1 as nat,
            |i: int| batch.last().0,
        )
    }
}

/// Every type identifier of the batch is one the simulation knows.
pub open spec fn spec_batch_ids_valid(batch: Seq<(u8, u8)>) -> bool {
    forall|i: int| 0 <= i < batch.len() ==> (#[trigger] batch[i]).0 == 0 || batch[i].0 == 1
}

/// The expanded pool is exactly as long as the batch's total count.
pub proof fn lemma_expand_len(batch: Seq<(u8, u8)>)
    ensures
        spec_expand_batch(batch).len() == spec_batch_total(batch),
    decreases batch.len(),
{
    if batch.len() > 0 {
        lemma_expand_len(batch.drop_last());
        lemma_batch_total_nonneg(batch.drop_last());
    }
}

/// A batch never spawns a negative number of zombies.
pub proof fn lemma_batch_total_nonneg(batch: Seq<(u8, u8)>)
    ensures
        spec_batch_total(batch) >= 0,
    decreases batch.len(),
{
    if batch.len() > 0 {
        lemma_batch_total_nonneg(batch.drop_last());
    }
}

/// A batch of at most 255 entries spawns at most 255 * 255 zombies.
pub proof fn lemma_batch_total_bound(batch: Seq<(u8, u8)>)
    ensures
        spec_batch_total(batch) <= batch.len() * 255,
    decreases batch.len(),
{
    if batch.len() > 0 {
        lemma_batch_total_bound(batch.drop_last());
        assert((batch.len() - 1) * 255 + 255 == batch.len() * 255) by (nonlinear_arith);
    }
}

/// Every entry of the expanded pool is a type identifier from the batch.
pub proof fn lemma_expand_ids(batch: Seq<(u8, u8)>)
    requires
        spec_batch_ids_valid(batch),
    ensures
        forall|i: int|
            0 <= i < spec_expand_batch(batch).len() ==> (#[trigger] spec_expand_batch(batch)[i])
                == 0 || spec_expand_batch(batch)[i] == 1,
    decreases batch.len(),
{
    if batch.len() > 0 {
        assert(spec_batch_ids_valid(batch.drop_last())) by {
            assert(forall|i: int|
                0 <= i < batch.len() - 1 ==> batch.drop_last()[i] == #[trigger] batch[i]);
        }
        lemma_expand_ids(batch.drop_last());
        let head = spec_expand_batch(batch.drop_last());
        assert(batch[batch.len() - 1].0 == 0 || batch[batch.len() - 1].0 == 1);
        assert forall|i: int| 0 <= i < spec_expand_batch(batch).len() implies (
        #[trigger] spec_expand_batch(batch)[i]) == 0 || spec_expand_batch(batch)[i] == 1 by {
            if i < head.len() {
                assert(spec_expand_batch(batch)[i] == head[i]);
            } else {
                assert(spec_expand_batch(batch)[i] == batch.last().0);
            }
        }
    }
}

/// Total zombie count across all rows.
pub open spec fn spec_total_len(rows: Seq<Vec<Zombie>>) -> int
    decreases rows.len(),
{
    if rows.len() == 0 {
        0
    } else {
        spec_total_len(rows.drop_last()) + rows.last()@.len()
    }
}

/// Replacing one row changes the total count by the difference of that row's
/// lengths.
pub proof fn lemma_total_len_update(rows: Seq<Vec<Zombie>>, r: int, v: Vec<Zombie>)
    requires
        0 <= r < rows.len(),
    ensures
        spec_total_len(rows.update(r, v)) == spec_total_len(rows) - rows[r]@.len() + v@.len(),
    decreases rows.len(),
{
    if rows.len() > 0 {
        if r == rows.len() - 1 {
            assert(rows.update(r, v).drop_last() =~= rows.drop_last());
        } else {
            assert(rows.update(r, v).drop_last() =~= rows.drop_last().update(r, v));
            lemma_total_len_update(rows.drop_last(), r, v);
        }
    }
}

/// Write the batch out one zombie type identifier at a time.
fn expand_batch(batch: &Vec<(u8, u8)>) -> (pool: Vec<u8>)
    ensures
        pool@ == spec_expand_batch(batch@),
{
    let mut pool: Vec<u8> = Vec::new();
    let n = batch.len();
    let mut i: usize = 0;
    while i < n
        invariant
            n == batch@.len(),
            i <= n,
            pool@ == spec_expand_batch(batch@.take(i as int)),
        decreases n - i,
    {
        let (id, count) = batch[i];
        let mut j: u8 = 0;
        while j < count
            invariant
                j <= count,
                (id, count) == batch@[i as int],
                0 <= i < batch@.len(),
                pool@ == spec_expand_batch(batch@.take(i as int)) + Seq::new(
                    j as nat,
                    |k: int| id,
                ),
            decreases count - j,
        {
            pool.push(id);
            proof {
                assert(pool@ =~= spec_expand_batch(batch@.take(i as int)) + Seq::new(
                    (j + 1) as nat,
                    |k: int| id,
                ));
            }
            j = j + 1;
        }
        proof {
            assert(batch@.take(i + 1).drop_last() =~= batch@.take(i as int));
            assert(batch@.take(i + 1).last() == batch@[i as int]);
            assert(pool@ =~= spec_expand_batch(batch@.take(i + 1)));
        }
        i = i + 1;
    }
    proof {
        assert(batch@.take(n as int) =~= batch@);
    }
    pool
}

/// The health pools a list of type identifiers spawns, in order.
pub open spec fn spec_healths_of(ids: Seq<u8>) -> Seq<u32> {
    ids.map_values(|id: u8| spec_zombie_health(id))
}

/// The health pools standing in the rows of `zs1` beyond the lengths of the
/// same rows of `zs0`: everything a spawn added.
pub open spec fn spec_added_healths(zs0: Seq<Vec<Zombie>>, zs1: Seq<Vec<Zombie>>) -> Multiset<u32>
    decreases zs1.len(),
{
    if zs1.len() == 0 || zs0.len() != zs1.len() {
        Multiset::empty()
    } else {
        spec_added_healths(zs0.drop_last(), zs1.drop_last()).add(
            zs1.last()@.skip(zs0.last()@.len() as int).map_values(
                |z: Zombie| z.health,
            ).to_multiset(),
        )
    }
}

/// Before anything spawns, nothing has been added.
pub proof fn lemma_added_healths_empty(zs: Seq<Vec<Zombie>>)
    ensures
        spec_added_healths(zs, zs) == Multiset::<u32>::empty(),
    decreases zs.len(),
{
    broadcast use vstd::seq_lib::group_to_multiset_ensures;

    if zs.len() > 0 {
        lemma_added_healths_empty(zs.drop_last());
        assert(zs.last()@.skip(zs.last()@.len() as int) =~= Seq::<Zombie>::empty());
        assert(Seq::<Zombie>::empty().map_values(|z: Zombie| z.health) =~= Seq::<u32>::empty());
        assert(Seq::<u32>::empty().to_multiset() =~= Multiset::<u32>::empty());
        assert(spec_added_healths(zs, zs) =~= Multiset::<u32>::empty());
    }
}

/// Pushing one zombie onto a row adds exactly its health pool.
pub proof fn lemma_added_healths_push(
    zs0: Seq<Vec<Zombie>>,
    zs: Seq<Vec<Zombie>>,
    r: int,
    v: Vec<Zombie>,
    z: Zombie,
)
    requires
        zs0.len() == zs.len(),
        0 <= r < zs.len(),
        v@ == zs[r]@.push(z),
        forall|r2: int| 0 <= r2 < zs.len() ==> (#[trigger] zs0[r2])@.len() <= zs[r2]@.len(),
    ensures
        spec_added_healths(zs0, zs.update(r, v)) == spec_added_healths(zs0, zs).insert(z.health),
    decreases zs.len(),
{
    broadcast use vstd::seq_lib::group_to_multiset_ensures;

    let zs1 = zs.update(r, v);
    if r == zs.len() - 1 {
        assert(zs1.drop_last() =~= zs.drop_last());
        let len0 = zs0[r]@.len() as int;
        assert(v@.skip(len0) =~= zs[r]@.skip(len0).push(z));
        assert(v@.skip(len0).map_values(|z2: Zombie| z2.health) =~= zs[r]@.skip(len0).map_values(
            |z2: Zombie| z2.health,
        ).push(z.health));
        assert(v@.skip(len0).map_values(|z2: Zombie| z2.health).to_multiset() =~= zs[r]@.skip(
            len0,
        ).map_values(|z2: Zombie| z2.health).to_multiset().insert(z.health));
        assert(spec_added_healths(zs0, zs1) =~= spec_added_healths(zs0, zs).insert(z.health));
    } else {
        assert(zs1.drop_last() =~= zs.drop_last().update(r, v));
        assert(zs.drop_last()[r] == zs[r]);
        assert(zs0.drop_last().len() == zs.drop_last().len());
        assert forall|r2: int|
            0 <= r2 < zs.drop_last().len() implies (#[trigger] zs0.drop_last()[r2])@.len()
            <= zs.drop_last()[r2]@.len() by {
            assert(zs0.drop_last()[r2] == zs0[r2]);
            assert(zs.drop_last()[r2] == zs[r2]);
        }
        lemma_added_healths_push(zs0.drop_last(), zs.drop_last(), r, v, z);
        assert(zs1.last() == zs.last());
        assert(zs0.drop_last()[r] == zs0[r]);
        assert(spec_added_healths(zs0, zs1) =~= spec_added_healths(zs0, zs).insert(z.health));
    }
}

/// What a zombie freshly spawned by a batch looks like: one of the batch's
/// own types, at the `m`-th stagger offset of its row, unfrozen.
pub open spec fn spec_spawned_zombie(z: Zombie, m: int, batch: Seq<(u8, u8)>) -> bool {
    &&& z.x == FRAME_W + m * STACK_STEP
    &&& exists|i: int|
        0 <= i < batch.len() && z.health == spec_zombie_health((#[trigger] batch[i]).0)
    &&& z.freeze == 0
}

/// Every entry of the expanded pool is a type identifier that some batch entry
/// carries.
pub proof fn lemma_expand_from_batch(batch: Seq<(u8, u8)>)
    ensures
        forall|j: int|
            0 <= j < spec_expand_batch(batch).len() ==> exists|i: int|
                0 <= i < batch.len() && #[trigger] spec_expand_batch(batch)[j] == batch[i].0,
    decreases batch.len(),
{
    if batch.len() > 0 {
        lemma_expand_from_batch(batch.drop_last());
        let head = spec_expand_batch(batch.drop_last());
        assert forall|j: int| 0 <= j < spec_expand_batch(batch).len() implies exists|i: int|
            0 <= i < batch.len() && #[trigger] spec_expand_batch(batch)[j] == batch[i].0 by {
            if j < head.len() {
                assert(spec_expand_batch(batch)[j] == head[j]);
                let i = choose|i: int|
                    0 <= i < batch.drop_last().len() && #[trigger] head[j]
                        == batch.drop_last()[i].0;
                assert(spec_expand_batch(batch)[j] == batch[i].0);
            } else {
                assert(spec_expand_batch(batch)[j] == batch[batch.len() - 1].0);
            }
        }
    }
}

/// Spawn one expired batch: every zombie it counts is placed at the end of a
/// random row, staggered within its row so that no two newcomers of one row
/// share a horizontal offset. Existing zombies are untouched.
pub fn spawn_batch(zombies: &mut Vec<Vec<Zombie>>, batch: &Vec<(u8, u8)>)
    requires
        1 <= old(zombies)@.len() <= 255,
        batch@.len() <= 255,
        spec_batch_ids_valid(batch@),
    ensures
        final(zombies)@.len() == old(zombies)@.len(),
        // old zombies keep their places
        forall|r: int|
            0 <= r < old(zombies)@.len() ==> final(zombies)@[r]@.len() >= (
            #[trigger] old(zombies)@[r])@.len(),
        forall|r: int, k: int|
            0 <= r < old(zombies)@.len() && 0 <= k < old(zombies)@[r]@.len()
                ==> #[trigger] final(zombies)@[r]@[k] == old(zombies)@[r]@[k],
        // each newcomer stands at its row's stagger offset, so newcomers of one
        // row never share a position
        forall|r: int, k: int|
            0 <= r < old(zombies)@.len() && old(zombies)@[r]@.len() <= k
                < final(zombies)@[r]@.len() ==> spec_spawned_zombie(
                #[trigger] final(zombies)@[r]@[k],
                k - old(zombies)@[r]@.len(),
                batch@,
            ),
        // conservation: exactly the batch's total count is spawned
        spec_total_len(final(zombies)@) == spec_total_len(old(zombies)@) + spec_batch_total(
            batch@,
        ),
        forall|r: int|
            0 <= r < old(zombies)@.len() ==> final(zombies)@[r]@.len() - (
            #[trigger] old(zombies)@[r])@.len() <= 255 * 255,
        // per-type conservation: the spawned health pools are exactly the
        // expanded batch's
        spec_added_healths(old(zombies)@, final(zombies)@) == spec_healths_of(
            spec_expand_batch(batch@),
        ).to_multiset(),
{
    let ghost zombies0 = zombies@;
    let rows = zombies.len();
    let mut pool = expand_batch(batch);
    proof {
        lemma_expand_len(batch@);
        lemma_batch_total_bound(batch@);
        lemma_batch_total_nonneg(batch@);
        lemma_expand_ids(batch@);
        lemma_expand_from_batch(batch@);
    }
    let ghost pool0_len = pool@.len() as int;
    proof {
        lemma_added_healths_empty(zombies@);
        assert(spec_added_healths(zombies0, zombies@).add(
            spec_healths_of(pool@).to_multiset(),
        ) =~= spec_healths_of(spec_expand_batch(batch@)).to_multiset());
    }
    let mut offsets: Vec<i64> = Vec::new();
    let mut r: usize = 0;
    while r < rows
        invariant
            r <= rows,
            offsets@.len() == r,
            forall|k: int| 0 <= k < r ==> offsets@[k] == FRAME_W,
        decreases rows - r,
    {
        offsets.push(FRAME_W);
        r = r + 1;
    }
    while pool.len() > 0
        invariant
            zombies@.len() == rows == zombies0.len(),
            1 <= rows <= 255,
            offsets@.len() == rows,
            pool@.len() <= pool0_len <= 255 * 255,
            forall|i: int| 0 <= i < pool@.len() ==> (#[trigger] pool@[i]) == 0 || pool@[i] == 1,
            forall|j: int|
                0 <= j < pool@.len() ==> exists|i: int|
                    0 <= i < batch@.len() && (#[trigger] pool@[j]) == batch@[i].0,
            forall|r2: int|
                0 <= r2 < rows ==> (#[trigger] zombies@[r2])@.len() >= zombies0[r2]@.len(),
            forall|r2: int|
                0 <= r2 < rows ==> zombies@[r2]@.len() - zombies0[r2]@.len() <= pool0_len
                    - pool@.len(),
            forall|r2: int|
                0 <= r2 < rows ==> #[trigger] offsets@[r2] == FRAME_W + (zombies@[r2]@.len()
                    - zombies0[r2]@.len()) * STACK_STEP,
            forall|r2: int, k: int|
                0 <= r2 < rows && 0 <= k < zombies0[r2]@.len() ==> #[trigger] zombies@[r2]@[k]
                    == zombies0[r2]@[k],
            forall|r2: int, k: int|
                0 <= r2 < rows && zombies0[r2]@.len() <= k < zombies@[r2]@.len()
                    ==> spec_spawned_zombie(
                    #[trigger] zombies@[r2]@[k],
                    k - zombies0[r2]@.len(),
                    batch@,
                ),
            spec_total_len(zombies@) == spec_total_len(zombies0) + (pool0_len - pool@.len()),
            spec_added_healths(zombies0, zombies@).add(spec_healths_of(pool@).to_multiset())
                == spec_healths_of(spec_expand_batch(batch@)).to_multiset(),
        decreases pool@.len(),
    {
        let i = rand_below(pool.len());
        let ghost pool_before = pool@;
        let id = pool.remove(i);
        proof {
            broadcast use vstd::seq_lib::group_to_multiset_ensures;

            assert(id == pool_before[i as int]);
            assert(spec_healths_of(pool@) =~= spec_healths_of(pool_before).remove(i as int));
            assert(spec_healths_of(pool@).to_multiset() =~= spec_healths_of(
                pool_before,
            ).to_multiset().remove(spec_healths_of(pool_before)[i as int]));
            assert(spec_healths_of(pool_before)[i as int] == spec_zombie_health(id));
            assert(spec_healths_of(pool_before).contains(spec_zombie_health(id))) by {
                assert(spec_healths_of(pool_before)[i as int] == spec_zombie_health(id));
            }
            assert(spec_healths_of(pool_before).to_multiset().count(spec_zombie_health(id)) > 0);
            assert(exists|b: int| 0 <= b < batch@.len() && pool_before[i as int] == batch@[b].0);
            assert forall|j: int| 0 <= j < pool@.len() implies exists|b: int|
                0 <= b < batch@.len() && (#[trigger] pool@[j]) == batch@[b].0 by {
                if j < i {
                    assert(pool@[j] == pool_before[j]);
                } else {
                    assert(pool@[j] == pool_before[j + 1]);
                }
            }
        }
        let r = rand_below(rows);
        let x = offsets[r];
        proof {
            let added = zombies@[r as int]@.len() - zombies0[r as int]@.len();
            assert(0 <= added * STACK_STEP <= 65025 * STACK_STEP) by (nonlinear_arith)
                requires
                    0 <= added <= 65025,
            ;
        }
        let mut z = zombie_from_id(id);
        z.set_x(x);
        offsets.set(r, x + STACK_STEP);
        let ghost zs_before = zombies@;
        let ghost row_before = zombies@[r as int];
        zombies[r].push(z);
        proof {
            broadcast use vstd::seq_lib::group_to_multiset_ensures;

            assert(zombies@ =~= zs_before.update(r as int, zombies@[r as int]));
            lemma_total_len_update(zs_before, r as int, zombies@[r as int]);
            let added = row_before@.len() - zombies0[r as int]@.len();
            assert((added + 1) * STACK_STEP == added * STACK_STEP + STACK_STEP) by (nonlinear_arith);
            assert(zombies@[r as int]@ == zs_before[r as int]@.push(z));
            lemma_added_healths_push(zombies0, zs_before, r as int, zombies[r as int], z);
            assert(z.health == spec_zombie_health(id));
            assert(spec_added_healths(zombies0, zombies@).add(
                spec_healths_of(pool@).to_multiset(),
            ) =~= spec_healths_of(spec_expand_batch(batch@)).to_multiset());
        }
    }
    proof {
        broadcast use vstd::seq_lib::group_to_multiset_ensures;

        assert(spec_healths_of(pool@) =~= Seq::<u32>::empty());
        assert(spec_healths_of(pool@).to_multiset() =~= Multiset::<u32>::empty());
        assert(spec_added_healths(zombies0, zombies@).add(Multiset::<u32>::empty())
            =~= spec_added_healths(zombies0, zombies@));
    }
}

} // verus!

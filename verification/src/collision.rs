//! The collision resolver: which zombie a pea lands on, how the hit spreads to
//! overlapping neighbors, and how dead zombies leave the row.
//!
//! All collision math is one-dimensional: a pea is confined to its row, so
//! only the horizontal extents of the hit-boxes matter.

use vstd::prelude::*;

use crate::projectile::{DamageType, Pea};
use crate::units::{FRAME_W, PEA_DAMAGE, PEA_W, ZOMBIE_HITBOX_OFF, ZOMBIE_HITBOX_W};
use crate::zombie::Zombie;

verus! {

/// Overlap of the closed intervals `[alo, ahi]` and `[blo, bhi]`.
pub open spec fn spec_ranges_overlap(alo: int, ahi: int, blo: int, bhi: int) -> bool {
    alo <= bhi && blo <= ahi
}

/// Whether the pea's extent overlaps the zombie's hit-box.
pub open spec fn spec_pea_hits(z: Zombie, p: Pea) -> bool {
    spec_ranges_overlap(z.hitbox_lo(), z.hitbox_hi(), p.x as int, p.x + PEA_W)
}

/// Whether two zombies' hit-boxes overlap (the splash radius of a propagated
/// hit is the original target's own hit-box extent).
pub open spec fn spec_zombies_overlap(a: Zombie, b: Zombie) -> bool {
    spec_ranges_overlap(a.hitbox_lo(), a.hitbox_hi(), b.hitbox_lo(), b.hitbox_hi())
}

/// Index `i` holds the target the resolver picks for `p`: an overlapping
/// zombie closest to the defended edge (minimal position), ties broken by
/// input order.
pub open spec fn spec_is_target(row: Seq<Zombie>, p: Pea, i: int) -> bool {
    &&& 0 <= i < row.len()
    &&& spec_pea_hits(row[i], p)
    &&& forall|j: int|
        0 <= j < row.len() && spec_pea_hits(#[trigger] row[j], p) ==> row[i].x <= row[j].x && (
        row[i].x == row[j].x ==> i <= j)
}

/// Whether any zombie of the row overlaps the pea.
pub open spec fn spec_has_target(row: Seq<Zombie>, p: Pea) -> bool {
    exists|i: int| spec_is_target(row, p, i)
}

/// The row right after a pea lands on target `i`: the target takes the
/// original hit, and if the hit propagates, every other zombie overlapping the
/// target's hit-box takes the same hit as a propagated one. Positions never
/// change; dead zombies are still present, marked by an empty health pool.
pub open spec fn spec_hit_row(row: Seq<Zombie>, i: int, damage: u32, dt: DamageType) -> Seq<
    Zombie,
> {
    Seq::new(
        row.len(),
        |j: int|
            if j == i {
                row[i].spec_hit_outcome(damage, dt, false)
            } else if Zombie::spec_hit_propagates(dt, false) && spec_zombies_overlap(
                row[i],
                row[j],
            ) {
                row[j].spec_hit_outcome(damage, dt, true)
            } else {
                row[j]
            },
    )
}

/// The row with its dead zombies (empty health pool) removed, order kept.
pub open spec fn spec_compact_dead(s: Seq<Zombie>) -> Seq<Zombie>
    decreases s.len(),
{
    if s.len() == 0 {
        Seq::empty()
    } else if s.last().health > 0 {
        spec_compact_dead(s.drop_last()) + seq![s.last()]
    } else {
        spec_compact_dead(s.drop_last())
    }
}

/// The row after the pea's whole landing: no target means no change; a target
/// means the hit (with propagation) lands and the dead are removed.
pub open spec fn spec_after_hit(row: Seq<Zombie>, p: Pea) -> Seq<Zombie> {
    if spec_has_target(row, p) {
        let i = choose|i: int| spec_is_target(row, p, i);
        spec_compact_dead(spec_hit_row(row, i, PEA_DAMAGE, p.damage_type))
    } else {
        row
    }
}

/// Whether some zombie of the row stands at horizontal position `x`.
pub open spec fn spec_x_present(row: Seq<Zombie>, x: i64) -> bool {
    exists|b: int| 0 <= b < row.len() && (#[trigger] row[b]).x == x
}

/// The target of a pea is unique: two indices satisfying the tie-broken
/// minimality are the same index.
pub proof fn lemma_target_unique(row: Seq<Zombie>, p: Pea, a: int, b: int)
    requires
        spec_is_target(row, p, a),
        spec_is_target(row, p, b),
    ensures
        a == b,
{
    assert(row[a].x <= row[b].x && row[b].x <= row[a].x);
}

/// Every zombie of the compacted row is one of the zombies of the input row.
pub proof fn lemma_compact_subset(s: Seq<Zombie>)
    ensures
        forall|i: int|
            0 <= i < spec_compact_dead(s).len() ==> exists|j: int|
                0 <= j < s.len() && #[trigger] spec_compact_dead(s)[i] == s[j],
    decreases s.len(),
{
    if s.len() > 0 {
        lemma_compact_subset(s.drop_last());
        assert forall|i: int| 0 <= i < spec_compact_dead(s).len() implies exists|j: int|
            0 <= j < s.len() && #[trigger] spec_compact_dead(s)[i] == s[j] by {
            let head = spec_compact_dead(s.drop_last());
            if i < head.len() {
                let j = choose|j: int|
                    0 <= j < s.drop_last().len() && #[trigger] head[i] == s.drop_last()[j];
                assert(spec_compact_dead(s)[i] == s[j]);
            } else {
                assert(spec_compact_dead(s)[i] == s[s.len() - 1]);
            }
        }
    }
}

/// A landed hit leaves every survivor well formed, at a position some zombie
/// of the input row already held.
pub proof fn lemma_after_hit_preserves(row: Seq<Zombie>, p: Pea)
    requires
        forall|i: int| 0 <= i < row.len() ==> (#[trigger] row[i]).wf(),
    ensures
        forall|a: int|
            0 <= a < spec_after_hit(row, p).len() ==> (#[trigger] spec_after_hit(row, p)[a]).wf(),
        forall|a: int|
            0 <= a < spec_after_hit(row, p).len() ==> spec_x_present(
                row,
                (#[trigger] spec_after_hit(row, p)[a]).x,
            ),
        spec_after_hit(row, p).len() <= row.len(),
{
    if spec_has_target(row, p) {
        let i = choose|i: int| spec_is_target(row, p, i);
        let hit = spec_hit_row(row, i, PEA_DAMAGE, p.damage_type);
        lemma_compact_len(hit);
        lemma_compact_subset(hit);
        lemma_compact_alive(hit);
        assert forall|a: int| 0 <= a < spec_after_hit(row, p).len() implies (
        #[trigger] spec_after_hit(row, p)[a]).wf() && spec_x_present(
            row,
            spec_after_hit(row, p)[a].x,
        ) by {
            assert(spec_after_hit(row, p) == spec_compact_dead(hit));
            assert(exists|j: int| 0 <= j < hit.len() && spec_compact_dead(hit)[a] == hit[j]);
            let j = choose|j: int| 0 <= j < hit.len() && spec_compact_dead(hit)[a] == hit[j];
            assert(row[j].wf());
            assert(hit[j].x == row[j].x);
            assert(hit[j].health <= row[j].health);
            assert(hit[j].freeze <= crate::units::FREEZE_MS);
            assert(spec_compact_dead(hit)[a].health > 0);
            assert(spec_after_hit(row, p)[a].x == row[j].x);
        }
    } else {
        assert forall|a: int| 0 <= a < spec_after_hit(row, p).len() implies spec_x_present(
            row,
            (#[trigger] spec_after_hit(row, p)[a]).x,
        ) by {
            assert(spec_after_hit(row, p)[a] == row[a]);
        }
    }
}

/// The compacted row is never longer than its input.
pub proof fn lemma_compact_len(s: Seq<Zombie>)
    ensures
        spec_compact_dead(s).len() <= s.len(),
    decreases s.len(),
{
    if s.len() > 0 {
        lemma_compact_len(s.drop_last());
    }
}

/// Every zombie of the compacted row is alive.
pub proof fn lemma_compact_alive(s: Seq<Zombie>)
    ensures
        forall|i: int|
            0 <= i < spec_compact_dead(s).len() ==> (#[trigger] spec_compact_dead(s)[i]).health
                > 0,
    decreases s.len(),
{
    if s.len() > 0 {
        lemma_compact_alive(s.drop_last());
        let head = spec_compact_dead(s.drop_last());
        assert forall|i: int| 0 <= i < spec_compact_dead(s).len() implies (
        #[trigger] spec_compact_dead(s)[i]).health > 0 by {
            if s.last().health > 0 {
                if i < head.len() {
                    assert(spec_compact_dead(s)[i] == head[i]);
                } else {
                    assert(spec_compact_dead(s)[i] == s.last());
                }
            } else {
                assert(spec_compact_dead(s)[i] == head[i]);
            }
        }
    }
}

/// Pick the zombie the pea lands on: among the overlapping ones, the closest
/// to the defended edge, ties broken by input order. Returns none exactly when
/// no zombie of the row overlaps the pea.
pub fn select_target(row: &Vec<Zombie>, p: &Pea) -> (r: Option<usize>)
    requires
        forall|i: int| 0 <= i < row@.len() ==> (#[trigger] row@[i]).wf(),
        0 <= p.x <= FRAME_W + PEA_W,
    ensures
        r is Some <==> spec_has_target(row@, *p),
        r matches Some(i) ==> spec_is_target(row@, *p, i as int),
{
    let mut best: Option<usize> = None;
    let n = row.len();
    let mut k: usize = 0;
    while k < n
        invariant
            n == row@.len(),
            k <= n,
            forall|i: int| 0 <= i < row@.len() ==> (#[trigger] row@[i]).wf(),
            0 <= p.x <= FRAME_W + PEA_W,
            best is None ==> forall|j: int| 0 <= j < k ==> !spec_pea_hits(#[trigger] row@[j], *p),
            best matches Some(b) ==> 0 <= b < k && spec_pea_hits(row@[b as int], *p) && forall|
                j: int,
            |
                0 <= j < k && spec_pea_hits(#[trigger] row@[j], *p) ==> row@[b as int].x
                    <= row@[j].x && (row@[b as int].x == row@[j].x ==> b <= j),
        decreases n - k,
    {
        let z = row[k];
        let zlo = z.x + ZOMBIE_HITBOX_OFF;
        let zhi = zlo + ZOMBIE_HITBOX_W;
        if zlo <= p.x + PEA_W && p.x <= zhi {
            match best {
                Option::None => {
                    best = Some(k);
                },
                Option::Some(b) => {
                    if z.x < row[b].x {
                        best = Some(k);
                    }
                },
            }
        }
        k = k + 1;
    }
    proof {
        if best is Some {
            let b = best->Some_0;
            assert(spec_is_target(row@, *p, b as int));
        }
    }
    best
}

/// Land one original hit on `row[idx]` and, when it propagates, one propagated
/// hit on every other zombie overlapping the target's hit-box. Dead zombies
/// stay in the row with an empty health pool; positions never change.
pub fn hit_zombie(row: &mut Vec<Zombie>, idx: usize, damage: u32, damage_type: DamageType)
    requires
        idx < old(row)@.len(),
        forall|i: int| 0 <= i < old(row)@.len() ==> (#[trigger] old(row)@[i]).wf(),
    ensures
        final(row)@ == spec_hit_row(old(row)@, idx as int, damage, damage_type),
{
    let ghost row0 = row@;
    let target = row[idx];
    let target_lo = target.x + ZOMBIE_HITBOX_OFF;
    let target_hi = target_lo + ZOMBIE_HITBOX_W;
    let mut tz = target;
    let r = tz.hit(damage, damage_type, false);
    row.set(idx, tz);
    if r.1 {
        let n = row.len();
        let mut j: usize = 0;
        while j < n
            invariant
                n == row@.len() == row0.len(),
                idx < n,
                j <= n,
                Zombie::spec_hit_propagates(damage_type, false),
                forall|i: int| 0 <= i < row0.len() ==> (#[trigger] row0[i]).wf(),
                target == row0[idx as int],
                target_lo == row0[idx as int].hitbox_lo(),
                target_hi == row0[idx as int].hitbox_hi(),
                row@[idx as int] == row0[idx as int].spec_hit_outcome(damage, damage_type, false),
                forall|i: int|
                    0 <= i < j && i != idx ==> row@[i] == spec_hit_row(
                        row0,
                        idx as int,
                        damage,
                        damage_type,
                    )[i],
                forall|i: int| j <= i < n && i != idx ==> row@[i] == row0[i],
            decreases n - j,
        {
            if j != idx {
                let z = row[j];
                proof {
                    assert(row@[j as int] == row0[j as int]);
                    assert(row0[j as int].wf());
                }
                let zlo = z.x + ZOMBIE_HITBOX_OFF;
                let zhi = zlo + ZOMBIE_HITBOX_W;
                if zlo <= target_hi && target_lo <= zhi {
                    let mut zz = z;
                    let _ = zz.hit(damage, damage_type, true);
                    row.set(j, zz);
                }
            }
            j = j + 1;
        }
        proof {
            assert(row@ =~= spec_hit_row(row0, idx as int, damage, damage_type));
        }
    } else {
        proof {
            assert(!Zombie::spec_hit_propagates(damage_type, false));
            assert(row@ =~= spec_hit_row(row0, idx as int, damage, damage_type));
        }
    }
}

/// Remove the dead zombies from the row: collect the survivors in order, then
/// replace the row wholesale, so no removal disturbs an iteration.
pub fn remove_dead(row: &mut Vec<Zombie>)
    ensures
        final(row)@ == spec_compact_dead(old(row)@),
{
    let mut kept: Vec<Zombie> = Vec::new();
    let n = row.len();
    let mut i: usize = 0;
    while i < n
        invariant
            n == row@.len(),
            i <= n,
            row@ == old(row)@,
            kept@ == spec_compact_dead(row@.take(i as int)),
        decreases n - i,
    {
        let z = row[i];
        proof {
            assert(row@.take(i + 1).drop_last() =~= row@.take(i as int));
            assert(row@.take(i + 1).last() == row@[i as int]);
        }
        if z.health > 0 {
            kept.push(z);
        }
        i = i + 1;
    }
    proof {
        assert(row@.take(n as int) =~= row@);
    }
    *row = kept;
}

/// One row's whole projectile phase, already-moved peas taken in order: an
/// expired pea is dropped; a pea with a target lands (propagation and removal
/// of the dead included) and is dropped; any other pea stays in flight. Later
/// peas see the row as the earlier ones left it.
pub open spec fn spec_resolve_row(projs: Seq<Pea>, row: Seq<Zombie>) -> (Seq<Pea>, Seq<Zombie>)
    decreases projs.len(),
{
    if projs.len() == 0 {
        (Seq::empty(), row)
    } else {
        let p = projs[0];
        if p.spec_expired() {
            spec_resolve_row(projs.drop_first(), row)
        } else if spec_has_target(row, p) {
            spec_resolve_row(projs.drop_first(), spec_after_hit(row, p))
        } else {
            let rest = spec_resolve_row(projs.drop_first(), row);
            (seq![p] + rest.0, rest.1)
        }
    }
}

/// The projectile phase keeps every surviving zombie well formed and in a
/// place some input zombie held, and every surviving pea is an unexpired input
/// pea.
pub proof fn lemma_resolve_row_preserves(projs: Seq<Pea>, row: Seq<Zombie>)
    requires
        forall|i: int| 0 <= i < row.len() ==> (#[trigger] row[i]).wf(),
    ensures
        forall|a: int|
            0 <= a < spec_resolve_row(projs, row).1.len() ==> (#[trigger] spec_resolve_row(
                projs,
                row,
            ).1[a]).wf(),
        forall|a: int|
            0 <= a < spec_resolve_row(projs, row).1.len() ==> spec_x_present(
                row,
                (#[trigger] spec_resolve_row(projs, row).1[a]).x,
            ),
        forall|a: int|
            0 <= a < spec_resolve_row(projs, row).0.len() ==> !(#[trigger] spec_resolve_row(
                projs,
                row,
            ).0[a]).spec_expired(),
        forall|a: int|
            0 <= a < spec_resolve_row(projs, row).0.len() ==> exists|b: int|
                0 <= b < projs.len() && #[trigger] spec_resolve_row(projs, row).0[a] == projs[b],
    decreases projs.len(),
{
    if projs.len() > 0 {
        let p = projs[0];
        let rest = projs.drop_first();
        if p.spec_expired() {
            lemma_resolve_row_preserves(rest, row);
            assert(spec_resolve_row(projs, row).0 == spec_resolve_row(rest, row).0);
            assert(spec_resolve_row(projs, row).1 == spec_resolve_row(rest, row).1);
            assert forall|a: int| 0 <= a < spec_resolve_row(projs, row).0.len() implies exists|
                b: int,
            |
                0 <= b < projs.len() && #[trigger] spec_resolve_row(projs, row).0[a]
                    == projs[b] by {
                assert(spec_resolve_row(rest, row).0[a] == spec_resolve_row(projs, row).0[a]);
                let b = choose|b: int|
                    0 <= b < rest.len() && spec_resolve_row(rest, row).0[a] == rest[b];
                assert(spec_resolve_row(projs, row).0[a] == projs[b + 1]);
            }
        } else if spec_has_target(row, p) {
            let row1 = spec_after_hit(row, p);
            lemma_after_hit_preserves(row, p);
            lemma_resolve_row_preserves(rest, row1);
            assert(spec_resolve_row(projs, row).0 == spec_resolve_row(rest, row1).0);
            assert(spec_resolve_row(projs, row).1 == spec_resolve_row(rest, row1).1);
            assert forall|a: int| 0 <= a < spec_resolve_row(projs, row).1.len() implies (
            #[trigger] spec_resolve_row(projs, row).1[a]).wf() && spec_x_present(
                row,
                spec_resolve_row(projs, row).1[a].x,
            ) by {
                assert(spec_resolve_row(rest, row1).1[a] == spec_resolve_row(projs, row).1[a]);
                assert(spec_resolve_row(rest, row1).1[a].wf());
                assert(spec_x_present(row1, spec_resolve_row(rest, row1).1[a].x));
                let c = choose|c: int|
                    0 <= c < row1.len() && (#[trigger] row1[c]).x == spec_resolve_row(
                        rest,
                        row1,
                    ).1[a].x;
                assert(spec_x_present(row, row1[c].x));
            }
            assert forall|a: int| 0 <= a < spec_resolve_row(projs, row).0.len() implies exists|
                b: int,
            |
                0 <= b < projs.len() && #[trigger] spec_resolve_row(projs, row).0[a]
                    == projs[b] by {
                assert(spec_resolve_row(rest, row1).0[a] == spec_resolve_row(projs, row).0[a]);
                let b = choose|b: int|
                    0 <= b < rest.len() && spec_resolve_row(rest, row1).0[a] == rest[b];
                assert(spec_resolve_row(projs, row).0[a] == projs[b + 1]);
            }
        } else {
            lemma_resolve_row_preserves(rest, row);
            let kept = spec_resolve_row(projs, row).0;
            assert(kept == seq![p] + spec_resolve_row(rest, row).0);
            assert(spec_resolve_row(projs, row).1 == spec_resolve_row(rest, row).1);
            assert forall|a: int| 0 <= a < kept.len() implies !(#[trigger] kept[a]).spec_expired()
                && exists|b: int| 0 <= b < projs.len() && kept[a] == projs[b] by {
                if a == 0 {
                    assert(kept[a] == projs[0]);
                } else {
                    assert(kept[a] == spec_resolve_row(rest, row).0[a - 1]);
                    let b = choose|b: int|
                        0 <= b < rest.len() && spec_resolve_row(rest, row).0[a - 1] == rest[b];
                    assert(kept[a] == projs[b + 1]);
                }
            }
        }
    }
}

/// Run one row's whole projectile phase: each pea in order is dropped when
/// expired, lands on its target (propagating and removing the dead) and is
/// dropped, or stays in flight.
pub fn resolve_row(projs: &mut Vec<Pea>, row: &mut Vec<Zombie>)
    requires
        forall|i: int| 0 <= i < old(row)@.len() ==> (#[trigger] old(row)@[i]).wf(),
        forall|i: int| 0 <= i < old(projs)@.len() ==> 0 <= (#[trigger] old(projs)@[i]).x,
    ensures
        final(projs)@ == spec_resolve_row(old(projs)@, old(row)@).0,
        final(row)@ == spec_resolve_row(old(projs)@, old(row)@).1,
{
    let ghost projs0 = projs@;
    let ghost row0 = row@;
    let mut kept: Vec<Pea> = Vec::new();
    proof {
        assert(projs0.skip(0) =~= projs0);
        assert(Seq::<Pea>::empty() + spec_resolve_row(projs0, row0).0 =~= spec_resolve_row(
            projs0,
            row0,
        ).0);
    }
    let n = projs.len();
    let mut i: usize = 0;
    while i < n
        invariant
            n == projs0.len(),
            projs@ == projs0,
            i <= n,
            forall|k: int| 0 <= k < row@.len() ==> (#[trigger] row@[k]).wf(),
            forall|k: int| 0 <= k < projs0.len() ==> 0 <= (#[trigger] projs0[k]).x,
            spec_resolve_row(projs0, row0).0 == kept@ + spec_resolve_row(
                projs0.skip(i as int),
                row@,
            ).0,
            spec_resolve_row(projs0, row0).1 == spec_resolve_row(projs0.skip(i as int), row@).1,
        decreases n - i,
    {
        let p = projs[i];
        proof {
            assert(projs0.skip(i as int).drop_first() =~= projs0.skip(i + 1));
            assert(projs0.skip(i as int)[0] == projs0[i as int]);
        }
        if p.to_remove() {
        } else {
            let ghost row_before = row@;
            let hit = resolve_projectile(row, &p);
            proof {
                lemma_after_hit_preserves(row_before, p);
            }
            if !hit {
                kept.push(p);
                proof {
                    assert(kept@ + spec_resolve_row(projs0.skip(i + 1), row@).0 =~= kept@.drop_last()
                        + (seq![p] + spec_resolve_row(projs0.skip(i + 1), row@).0));
                }
            }
        }
        i = i + 1;
    }
    proof {
        assert(projs0.skip(n as int) =~= Seq::<Pea>::empty());
        assert(spec_resolve_row(projs0, row0).0 =~= kept@);
    }
    *projs = kept;
}

/// Resolve one pea against the row: select its target, land the hit with its
/// propagation, and remove the dead. Returns whether the pea landed at all
/// (in which case the caller removes it too).
pub fn resolve_projectile(row: &mut Vec<Zombie>, p: &Pea) -> (hit: bool)
    requires
        forall|i: int| 0 <= i < old(row)@.len() ==> (#[trigger] old(row)@[i]).wf(),
        0 <= p.x <= FRAME_W + PEA_W,
    ensures
        hit == spec_has_target(old(row)@, *p),
        final(row)@ == spec_after_hit(old(row)@, *p),
{
    let ghost row0 = row@;
    let damage = p.damage_amount();
    let damage_type = p.damage_type();
    match select_target(row, p) {
        Option::Some(idx) => {
            hit_zombie(row, idx, damage, damage_type);
            remove_dead(row);
            proof {
                let i = choose|i: int| spec_is_target(row0, *p, i);
                lemma_target_unique(row0, *p, i, idx as int);
            }
            true
        },
        Option::None => false,
    }
}

} // verus!

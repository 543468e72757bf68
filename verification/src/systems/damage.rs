//! Damage: pending damage is summed and suffered, and the dead are swept.

use vstd::prelude::*;
use crate::components::{PoolStats, SinglePoolStat};
use crate::entity::{after_delete, alive_in, doomed_in, Entity};
use crate::world::{lemma_intents_from, World, WorldView};

verus! {

/// The sum of the amounts.
pub open spec fn total(amounts: Seq<i32>) -> int
    decreases amounts.len(),
{
    if amounts.len() == 0 {
        0
    } else {
        total(amounts.drop_last()) + amounts.last()
    }
}

/// `v`, or the nearest value that fits 32 bits.
pub open spec fn clamped(v: int) -> i32 {
    if v < i32::MIN {
        i32::MIN
    } else if v > i32::MAX {
        i32::MAX
    } else {
        v as i32
    }
}

/// The pool after `amounts` have been suffered. Nothing holds the hit
/// points at zero: they may go below.
pub open spec fn wounded(pool: PoolStats, amounts: Seq<i32>) -> PoolStats {
    PoolStats {
        hp: SinglePoolStat { current: clamped(pool.hp.current - total(amounts)), max: pool.hp.max },
        ..pool
    }
}

/// What the entity in slot `i` suffers.
pub open spec fn damage_step(w: WorldView, i: int) -> WorldView {
    if w.alive(i) && w.damages.contains_key(i) && w.pool_stats.contains_key(i) {
        WorldView { pool_stats: w.pool_stats.insert(i, wounded(w.pool_stats[i], w.damages[i])), ..w }
    } else {
        w
    }
}

/// What the entities in the first `n` slots suffer, in slot order.
pub open spec fn damage_pass(w: WorldView, n: nat) -> WorldView
    decreases n,
{
    if n == 0 {
        w
    } else {
        damage_step(damage_pass(w, (n - 1) as nat), n - 1)
    }
}

/// The whole step: all pending damage suffered once and forgotten.
#[verifier::opaque]
pub open spec fn damage_applied(w: WorldView) -> WorldView {
    WorldView { damages: Map::empty(), ..damage_pass(w, w.entities.len()) }
}

/// Whether the sweep takes the entity in slot `i`: it is alive, its hit
/// points are spent, and it is not the active entity.
pub open spec fn is_dead(w: WorldView, i: int) -> bool {
    &&& w.alive(i)
    &&& w.pool_stats.contains_key(i)
    &&& w.pool_stats[i].hp.current <= 0
    &&& w.handle(i) != w.active()
}

/// The entity in slot `i` queued for deletion, if it is dead.
pub open spec fn sweep_step(w: WorldView, i: int) -> WorldView {
    if is_dead(w, i) {
        WorldView { entities: after_delete(w.entities, w.handle(i)), ..w }
    } else {
        w
    }
}

/// The dead among the first `n` slots queued for deletion.
pub open spec fn sweep_pass(w: WorldView, n: nat) -> WorldView
    decreases n,
{
    if n == 0 {
        w
    } else {
        sweep_step(sweep_pass(w, (n - 1) as nat), n - 1)
    }
}

/// The sweep: every dead entity queued for deletion.
#[verifier::opaque]
pub open spec fn dead_swept(w: WorldView) -> WorldView {
    sweep_pass(w, w.entities.len())
}

/// The sum of the amounts, which fits 128 bits whatever they are.
pub fn sum(amounts: &Vec<i32>) -> (s: i128)
    ensures
        s == total(amounts@),
        -0x8000_0000_0000_0000_0000_0000 <= s <= 0x8000_0000_0000_0000_0000_0000,
{
    let n: usize = amounts.len();
    let mut s: i128 = 0;
    let mut i: usize = 0;
    while i < n
        invariant
            0 <= i <= n,
            n == amounts@.len(),
            s == total(amounts@.subrange(0, i as int)),
            -(i as int) * 0x8000_0000 <= s <= (i as int) * 0x8000_0000,
        decreases n - i,
    {
        proof {
            assert(amounts@.subrange(0, i + 1).drop_last() =~= amounts@.subrange(0, i as int));
            assert((i as int) * 0x8000_0000 <= 0xffff_ffff_ffff_ffff * 0x8000_0000)
                by (nonlinear_arith)
                requires
                    i <= 0xffff_ffff_ffff_ffff,
            ;
        }
        s = s + amounts[i] as i128;
        i += 1;
    }
    assert(amounts@.subrange(0, n as int) =~= amounts@);
    assert((n as int) * 0x8000_0000 <= 0x8000_0000_0000_0000_0000_0000) by (nonlinear_arith)
        requires
            n <= 0xffff_ffff_ffff_ffff,
    ;
    s
}

/// The hit points left of `current` after `lost` is taken.
pub fn hit_points_left(current: i32, lost: i128) -> (left: i32)
    requires
        -0x8000_0000_0000_0000_0000_0000 <= lost <= 0x8000_0000_0000_0000_0000_0000,
    ensures
        left == clamped(current - lost),
{
    let v: i128 = current as i128 - lost;
    if v < i32::MIN as i128 {
        i32::MIN
    } else if v > i32::MAX as i128 {
        i32::MAX
    } else {
        v as i32
    }
}

/// Takes pending damage off hit points.
pub struct DamageSystem {}

impl DamageSystem {
    /// Takes each entity's pending damage off its hit points, all at once,
    /// and forgets the damage.
    pub fn run(&mut self, world: &mut World)
        ensures
            final(world)@ == damage_applied(old(world)@),
            final(world)@.keeps_intents_out(old(world)@),
            final(world)@.map == old(world)@.map,
    {
        reveal(damage_applied);
        let n: usize = world.entities.len();
        let mut i: usize = 0;
        while i < n
            invariant
                0 <= i <= n,
                n == old(world)@.entities.len(),
                world@.entities == old(world)@.entities,
                world@ == damage_pass(old(world)@, i as nat),
                world@.intents_from(old(world)@),
                world@.map == old(world)@.map,
            decreases n - i,
        {
            let ghost before = world@;
            if world.entities.entity(i).is_some() {
                let damage = world.damages.get(i);
                let pool = world.pool_stats.get(i);
                if damage.is_some() && pool.is_some() {
                    let lost = sum(&damage.unwrap().amount);
                    let stats: PoolStats = *pool.unwrap();
                    let left = hit_points_left(stats.hp.current, lost);
                    world.pool_stats.insert(
                        i,
                        PoolStats {
                            hp: SinglePoolStat { current: left, max: stats.hp.max },
                            xp: stats.xp,
                            level: stats.level,
                            gold: stats.gold,
                        },
                    );
                }
            }
            assert(world@ == damage_step(before, i as int));
            i += 1;
        }
        world.damages.clear();
        proof {
            lemma_intents_from(world@, old(world)@);
        }
    }
}

/// Queues for deletion every entity whose hit points are spent, except the
/// active entity.
pub fn delete_the_dead(world: &mut World)
    ensures
        final(world)@ == dead_swept(old(world)@),
{
    reveal(dead_swept);
    let n: usize = world.entities.len();
    let mut i: usize = 0;
    while i < n
        invariant
            0 <= i <= n,
            n == old(world)@.entities.len(),
            n == world@.entities.len(),
            world@ == sweep_pass(old(world)@, i as nat),
        decreases n - i,
    {
        let ghost before = world@;
        match world.entities.entity(i) {
            Some(e) => {
                let pool = world.pool_stats.get(i);
                let spent: bool = pool.is_some() && pool.unwrap().hp.current <= 0;
                if spent && e != world.active_entity.target {
                    world.delete_entity(e);
                }
            },
            None => {},
        }
        assert(world@ == sweep_step(before, i as int));
        i += 1;
    }
}

/// Damage is summed in the order it came: one amount more adds to the
/// total, and no damage leaves the pool as it was.
pub proof fn lemma_total_push(amounts: Seq<i32>, amount: i32)
    ensures
        total(amounts.push(amount)) == total(amounts) + amount,
        total(Seq::<i32>::empty()) == 0,
{
    assert(amounts.push(amount).drop_last() =~= amounts);
}

/// Whether the entity in slot `i` has damage to suffer and hit points to
/// suffer it with.
pub open spec fn suffers(w: WorldView, i: int) -> bool {
    w.alive(i) && w.damages.contains_key(i) && w.pool_stats.contains_key(i)
}

/// Damage touches nothing but the pools, and each pool at most once: after
/// the first `n` slots, the pool of a slot among them that suffers is the
/// old pool wounded by all its pending damage, and every other pool is as
/// it was.
pub proof fn lemma_damage_pass(w: WorldView, n: nat)
    ensures
        damage_pass(w, n) == (WorldView { pool_stats: damage_pass(w, n).pool_stats, ..w }),
        forall|i: int|
            #[trigger] damage_pass(w, n).pool_stats.contains_key(i) == w.pool_stats.contains_key(i),
        forall|i: int|
            w.pool_stats.contains_key(i) ==> #[trigger] damage_pass(w, n).pool_stats[i] == if i < n
                && suffers(w, i) {
                wounded(w.pool_stats[i], w.damages[i])
            } else {
                w.pool_stats[i]
            },
    decreases n,
{
    if n > 0 {
        lemma_damage_pass(w, (n - 1) as nat);
    }
}

/// After damage is applied, every live entity that had damage pending and
/// a pool has lost exactly the sum of that damage, nobody else's pool has
/// changed, and no damage is pending.
pub proof fn lemma_damage_applied(w: WorldView)
    ensures
        damage_applied(w).damages == Map::<int, Seq<i32>>::empty(),
        forall|i: int|
            suffers(w, i) ==> #[trigger] damage_applied(w).pool_stats[i] == wounded(
                w.pool_stats[i],
                w.damages[i],
            ),
        forall|i: int|
            w.pool_stats.contains_key(i) && !suffers(w, i) ==> #[trigger] damage_applied(
                w,
            ).pool_stats[i] == w.pool_stats[i],
        damage_applied(w) == (WorldView {
            pool_stats: damage_applied(w).pool_stats,
            damages: Map::empty(),
            ..w
        }),
{
    reveal(damage_applied);
    lemma_damage_pass(w, w.entities.len());
}

/// The sweep touches nothing but the entities' standing: after the first
/// `n` slots, a slot among them that holds a dead entity is queued for
/// deletion, and every other slot is as it was.
pub proof fn lemma_sweep_pass(w: WorldView, n: nat)
    requires
        n <= w.entities.len() <= usize::MAX,
    ensures
        sweep_pass(w, n) == (WorldView { entities: sweep_pass(w, n).entities, ..w }),
        sweep_pass(w, n).entities.len() == w.entities.len(),
        forall|j: int|
            0 <= j < w.entities.len() ==> #[trigger] sweep_pass(w, n).entities[j] == if j < n
                && is_dead(w, j) {
                (crate::entity::Slot { doomed: true, ..w.entities[j] })
            } else {
                w.entities[j]
            },
    decreases n,
{
    if n > 0 {
        lemma_sweep_pass(w, (n - 1) as nat);
        let before = sweep_pass(w, (n - 1) as nat);
        assert(is_dead(before, n - 1) == is_dead(w, n - 1));
        assert(before.handle(n - 1) == w.handle(n - 1));
    }
}

/// After the sweep, every entity whose hit points are spent is queued for
/// deletion, except the active entity; nobody is dead yet, and nobody else
/// is queued who was not queued before.
pub proof fn lemma_dead_swept(w: WorldView)
    requires
        w.entities.len() <= usize::MAX,
    ensures
        dead_swept(w) == (WorldView { entities: dead_swept(w).entities, ..w }),
        forall|e: Entity| alive_in(dead_swept(w).entities, e) == alive_in(w.entities, e),
        forall|e: Entity|
            doomed_in(dead_swept(w).entities, e) == (doomed_in(w.entities, e) || (alive_in(
                w.entities,
                e,
            ) && is_dead(w, e.index as int))),
        !doomed_in(w.entities, w.active()) ==> !doomed_in(dead_swept(w).entities, w.active()),
{
    reveal(dead_swept);
    lemma_sweep_pass(w, w.entities.len());
    assert forall|e: Entity|
        doomed_in(dead_swept(w).entities, e) == (doomed_in(w.entities, e) || (alive_in(
            w.entities,
            e,
        ) && is_dead(w, e.index as int))) by {
        if e.index < w.entities.len() {
            assert(dead_swept(w).entities[e.index as int] == if is_dead(w, e.index as int) {
                (crate::entity::Slot { doomed: true, ..w.entities[e.index as int] })
            } else {
                w.entities[e.index as int]
            });
        }
    }
    assert forall|e: Entity| alive_in(dead_swept(w).entities, e) == alive_in(w.entities, e) by {
        if e.index < w.entities.len() {
            assert(dead_swept(w).entities[e.index as int].alive == w.entities[e.index as int].alive);
        }
    }
}

/// Damage adds no intent: whatever is pending afterwards was pending
/// before.
pub proof fn lemma_damage_applied_adds_no_intent(w: WorldView)
    ensures
        damage_applied(w).intents_from(w),
{
    reveal(damage_applied);
    lemma_damage_pass_adds_no_intent(w, w.entities.len());
}

/// The first `n` slots of the pass add no intent.
pub proof fn lemma_damage_pass_adds_no_intent(w: WorldView, n: nat)
    ensures
        damage_pass(w, n).intents_from(w),
    decreases n,
{
    if n > 0 {
        lemma_damage_pass_adds_no_intent(w, (n - 1) as nat);
    }
}

} // verus!

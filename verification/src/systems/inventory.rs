//! Inventory: items change hands, and used items take effect.

use vstd::prelude::*;
use crate::components::{ItemOwned, PickupItemIntent, PoolStats, SinglePoolStat, UseItemIntent};
use crate::entity::{after_delete, Entity};
use crate::messages::{pickup_message, pickup_text, use_message, use_text};
use crate::systems::damage::clamped;
use crate::world::{lemma_intents_from, World, WorldView};

verus! {

/// The pickup wanted by the entity in slot `i`: the item leaves the map and
/// belongs to whoever picked it. An item that no longer exists is passed
/// over. Only the active entity's pickups are logged.
pub open spec fn pickup_step(w: WorldView, i: int) -> WorldView {
    if w.alive(i) && w.pickup_intents.contains_key(i) && w.is_alive(w.pickup_intents[i].item) {
        let pickup = w.pickup_intents[i];
        let item = pickup.item.index as int;
        let taken = WorldView {
            positions: w.positions.remove(item),
            items_owned: w.items_owned.insert(item, ItemOwned { owner: pickup.picked_by }),
            ..w
        };
        if pickup.picked_by == w.active() && w.names.contains_key(item) {
            taken.with_log(pickup_text(w.names[item]))
        } else {
            taken
        }
    } else {
        w
    }
}

/// The pickups of the entities in the first `n` slots, in slot order.
pub open spec fn pickup_pass(w: WorldView, n: nat) -> WorldView
    decreases n,
{
    if n == 0 {
        w
    } else {
        pickup_step(pickup_pass(w, (n - 1) as nat), n - 1)
    }
}

/// The whole step: every pickup carried out, every intent gone.
#[verifier::opaque]
pub open spec fn items_picked_up(w: WorldView) -> WorldView {
    WorldView { pickup_intents: Map::empty(), ..pickup_pass(w, w.entities.len()) }
}

/// Hit points after healing by `amount`: never above the maximum.
pub open spec fn healed_points(current: i32, max: i32, amount: i32) -> i32 {
    if current + amount < max {
        clamped(current + amount)
    } else {
        max
    }
}

/// The pool after healing by `amount`.
pub open spec fn restored(pool: PoolStats, amount: i32) -> PoolStats {
    PoolStats {
        hp: SinglePoolStat {
            current: healed_points(pool.hp.current, pool.hp.max, amount),
            max: pool.hp.max,
        },
        ..pool
    }
}

/// Whether the item used by the entity in slot `i` still exists and heals.
pub open spec fn use_heals(w: WorldView, i: int) -> bool {
    w.is_alive(w.use_intents[i].item) && w.heals.contains_key(w.use_intents[i].item.index as int)
}

/// Whether the use by the entity in slot `i` reaches a pool of hit points:
/// it is aimed at the user itself, and the user has one.
pub open spec fn use_reaches(w: WorldView, i: int) -> bool {
    w.use_intents[i].target is None && w.pool_stats.contains_key(i)
}

/// The use wanted by the entity in slot `i`. A healing item heals its user;
/// a consumable is queued for deletion once it was used, which an item does
/// not count as if it heals and reached nobody.
pub open spec fn use_step(w: WorldView, i: int) -> WorldView {
    if w.alive(i) && w.use_intents.contains_key(i) {
        let item = w.use_intents[i].item;
        let it = item.index as int;
        let healed = if use_heals(w, i) && use_reaches(w, i) {
            let better = WorldView {
                pool_stats: w.pool_stats.insert(i, restored(w.pool_stats[i], w.heals[it].amount)),
                ..w
            };
            if w.handle(i) == w.active() && w.names.contains_key(it) {
                better.with_log(use_text(w.names[it], w.heals[it].amount as int))
            } else {
                better
            }
        } else {
            w
        };
        if (!use_heals(w, i) || use_reaches(w, i)) && w.is_alive(item)
            && w.consumables.contains_key(it) {
            WorldView { entities: after_delete(healed.entities, item), ..healed }
        } else {
            healed
        }
    } else {
        w
    }
}

/// The uses of the entities in the first `n` slots, in slot order.
pub open spec fn use_pass(w: WorldView, n: nat) -> WorldView
    decreases n,
{
    if n == 0 {
        w
    } else {
        use_step(use_pass(w, (n - 1) as nat), n - 1)
    }
}

/// The whole step: every use carried out, every intent gone.
#[verifier::opaque]
pub open spec fn items_used(w: WorldView) -> WorldView {
    WorldView { use_intents: Map::empty(), ..use_pass(w, w.entities.len()) }
}

/// Hit points after healing by `amount`, capped at `max`.
pub fn heal(current: i32, max: i32, amount: i32) -> (healed: i32)
    ensures
        healed == healed_points(current, max, amount),
{
    let sum: i64 = current as i64 + amount as i64;
    if sum < max as i64 {
        if sum < i32::MIN as i64 {
            i32::MIN
        } else {
            sum as i32
        }
    } else {
        max
    }
}

/// Hands picked-up items to whoever picked them.
pub struct ItemPickupSystem {}

impl ItemPickupSystem {
    /// Carries out every pickup intent in slot order and clears them all.
    pub fn run(&mut self, world: &mut World)
        ensures
            final(world)@ == items_picked_up(old(world)@),
            final(world)@.no_pickup_intents(),
            final(world)@.keeps_intents_out(old(world)@),
            final(world)@.map == old(world)@.map,
    {
        reveal(items_picked_up);
        let n: usize = world.entities.len();
        let mut i: usize = 0;
        while i < n
            invariant
                0 <= i <= n,
                n == old(world)@.entities.len(),
                world@.entities == old(world)@.entities,
                world@ == pickup_pass(old(world)@, i as nat),
                world@.intents_from(old(world)@),
                world@.map == old(world)@.map,
            decreases n - i,
        {
            let ghost before = world@;
            if world.entities.entity(i).is_some() {
                match world.pickup_intents.get(i) {
                    Some(intent) => {
                        let pickup: PickupItemIntent = *intent;
                        if world.entities.is_alive(pickup.item) {
                            let item: usize = pickup.item.index;
                            world.positions.remove(item);
                            world.items_owned.insert(item, ItemOwned { owner: pickup.picked_by });
                            if pickup.picked_by == world.active_entity.target {
                                match world.names.get(item) {
                                    Some(name) => {
                                        let line = pickup_message(&name.name);
                                        world.log.push(line);
                                    },
                                    None => {},
                                }
                            }
                        }
                    },
                    None => {},
                }
            }
            assert(world@ == pickup_step(before, i as int));
            i += 1;
        }
        world.pickup_intents.clear();
        proof {
            lemma_intents_from(world@, old(world)@);
        }
    }
}

/// Lets used items take effect.
pub struct ItemUseSystem {}

impl ItemUseSystem {
    /// Carries out every use intent in slot order and clears them all.
    pub fn run(&mut self, world: &mut World)
        ensures
            final(world)@ == items_used(old(world)@),
            final(world)@.no_use_intents(),
            final(world)@.keeps_intents_out(old(world)@),
            final(world)@.map == old(world)@.map,
    {
        reveal(items_used);
        let n: usize = world.entities.len();
        let mut i: usize = 0;
        while i < n
            invariant
                0 <= i <= n,
                n == old(world)@.entities.len(),
                n == world@.entities.len(),
                world@ == use_pass(old(world)@, i as nat),
                world@.intents_from(old(world)@),
                world@.map == old(world)@.map,
            decreases n - i,
        {
            let ghost before = world@;
            match world.entities.entity(i) {
                Some(user) => {
                    match world.use_intents.get(i) {
                        Some(intent) => {
                            let useitem: UseItemIntent = *intent;
                            let item: Entity = useitem.item;
                            let item_alive: bool = world.entities.is_alive(item);
                            let heals = world.heals.get(item.index);
                            let mut used_item = true;
                            if item_alive && heals.is_some() {
                                let amount: i32 = heals.unwrap().amount;
                                used_item = false;
                                let pool = world.pool_stats.get(i);
                                if useitem.target.is_none() && pool.is_some() {
                                    let stats: PoolStats = *pool.unwrap();
                                    world.pool_stats.insert(
                                        i,
                                        PoolStats {
                                            hp: SinglePoolStat {
                                                current: heal(
                                                    stats.hp.current,
                                                    stats.hp.max,
                                                    amount,
                                                ),
                                                max: stats.hp.max,
                                            },
                                            xp: stats.xp,
                                            level: stats.level,
                                            gold: stats.gold,
                                        },
                                    );
                                    if user == world.active_entity.target {
                                        match world.names.get(item.index) {
                                            Some(name) => {
                                                let line = use_message(&name.name, amount);
                                                world.log.push(line);
                                            },
                                            None => {},
                                        }
                                    }
                                    used_item = true;
                                }
                            }
                            if used_item && item_alive && world.consumables.contains(item.index) {
                                world.entities.delete(item);
                            }
                        },
                        None => {},
                    }
                },
                None => {},
            }
            assert(world@ == use_step(before, i as int));
            i += 1;
        }
        world.use_intents.clear();
        proof {
            lemma_intents_from(world@, old(world)@);
        }
    }
}

/// Healing never lifts hit points above the maximum, and never lowers
/// hit points that were within it if the amount is not negative.
pub proof fn lemma_heal_is_capped(current: i32, max: i32, amount: i32)
    ensures
        healed_points(current, max, amount) <= max,
        (0 <= amount && current <= max) ==> current <= healed_points(current, max, amount),
        current + amount >= max ==> healed_points(current, max, amount) == max,
{
}

/// Picking up adds no intent: whatever is pending afterwards was pending
/// before.
pub proof fn lemma_items_picked_up_adds_no_intent(w: WorldView)
    ensures
        items_picked_up(w).intents_from(w),
        items_picked_up(w).no_pickup_intents(),
{
    reveal(items_picked_up);
    lemma_pickup_pass_adds_no_intent(w, w.entities.len());
}

/// The first `n` slots of the pass add no intent.
pub proof fn lemma_pickup_pass_adds_no_intent(w: WorldView, n: nat)
    ensures
        pickup_pass(w, n).intents_from(w),
    decreases n,
{
    if n > 0 {
        lemma_pickup_pass_adds_no_intent(w, (n - 1) as nat);
    }
}

/// Using items adds no intent: whatever is pending afterwards was pending
/// before.
pub proof fn lemma_items_used_adds_no_intent(w: WorldView)
    ensures
        items_used(w).intents_from(w),
        items_used(w).no_use_intents(),
{
    reveal(items_used);
    lemma_use_pass_adds_no_intent(w, w.entities.len());
}

/// The first `n` slots of the pass add no intent.
pub proof fn lemma_use_pass_adds_no_intent(w: WorldView, n: nat)
    ensures
        use_pass(w, n).intents_from(w),
    decreases n,
{
    if n > 0 {
        lemma_use_pass_adds_no_intent(w, (n - 1) as nat);
    }
}

/// Whether the entity in slot `i` is healed by what it uses: it is alive,
/// means to use a healing item that still exists, on itself, and has a
/// pool of hit points.
pub open spec fn is_healed(w: WorldView, i: int) -> bool {
    w.alive(i) && w.use_intents.contains_key(i) && use_heals(w, i) && use_reaches(w, i)
}

/// Using items touches nothing but the pools, the log and the entities'
/// standing, and kills nobody before the barrier. After the first `n`
/// slots, the pool of a slot among them that is healed is the old pool
/// restored by the item's amount, and every other pool is as it was.
pub proof fn lemma_use_pass(w: WorldView, n: nat)
    requires
        n <= w.entities.len() <= usize::MAX,
    ensures
        use_pass(w, n) == (WorldView {
            pool_stats: use_pass(w, n).pool_stats,
            log: use_pass(w, n).log,
            entities: use_pass(w, n).entities,
            ..w
        }),
        use_pass(w, n).entities.len() == w.entities.len(),
        forall|j: int|
            0 <= j < w.entities.len() ==> (#[trigger] use_pass(w, n).entities[j]).alive
                == w.entities[j].alive && use_pass(w, n).entities[j].generation
                == w.entities[j].generation,
        forall|i: int|
            #[trigger] use_pass(w, n).pool_stats.contains_key(i) == w.pool_stats.contains_key(i),
        forall|i: int|
            w.pool_stats.contains_key(i) ==> #[trigger] use_pass(w, n).pool_stats[i] == if i < n
                && is_healed(w, i) {
                restored(w.pool_stats[i], w.heals[w.use_intents[i].item.index as int].amount)
            } else {
                w.pool_stats[i]
            },
    decreases n,
{
    if n > 0 {
        lemma_use_pass(w, (n - 1) as nat);
        let before = use_pass(w, (n - 1) as nat);
        let i = n - 1;
        assert(before.alive(i) == w.alive(i));
        if w.use_intents.contains_key(i) {
            let item = w.use_intents[i].item;
            assert(before.is_alive(item) == w.is_alive(item)) by {
                if item.index < w.entities.len() {
                    assert(before.entities[item.index as int].alive
                        == w.entities[item.index as int].alive);
                }
            }
            assert(is_healed(before, i) == is_healed(w, i));
        }
    }
}

/// After items are used, whoever was healed has the hit points that the
/// item restores, never above the maximum; nobody's maximum has changed;
/// and everybody else's pool is as it was.
pub proof fn lemma_items_used(w: WorldView)
    requires
        w.entities.len() <= usize::MAX,
    ensures
        forall|i: int|
            is_healed(w, i) ==> #[trigger] items_used(w).pool_stats[i] == restored(
                w.pool_stats[i],
                w.heals[w.use_intents[i].item.index as int].amount,
            ),
        forall|i: int|
            is_healed(w, i) ==> (#[trigger] items_used(w).pool_stats[i]).hp.current
                <= w.pool_stats[i].hp.max,
        forall|i: int|
            w.pool_stats.contains_key(i) ==> (#[trigger] items_used(w).pool_stats[i]).hp.max
                == w.pool_stats[i].hp.max,
        forall|i: int|
            w.pool_stats.contains_key(i) && !is_healed(w, i) ==> #[trigger] items_used(
                w,
            ).pool_stats[i] == w.pool_stats[i],
        forall|e: crate::entity::Entity|
            crate::entity::alive_in(items_used(w).entities, e) == w.is_alive(e),
{
    reveal(items_used);
    lemma_use_pass(w, w.entities.len());
    assert forall|e: crate::entity::Entity|
        crate::entity::alive_in(items_used(w).entities, e) == w.is_alive(e) by {
        if e.index < w.entities.len() {
            assert(items_used(w).entities[e.index as int].alive == w.entities[e.index as int].alive);
        }
    }
}

} // verus!

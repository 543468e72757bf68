//! Melee: every pending attack becomes pending damage on its target.

use vstd::prelude::*;
use crate::components::Damage;
use crate::entity::Entity;
use crate::glyphs::{cp437, to_cp437, BLACK, ORANGE};
use crate::messages::{hit_message, hit_text, unable_message, unable_text};
use crate::storage::Storage;
use crate::world::{lemma_intents_from, ParticleRequest, World, WorldView};

verus! {

/// Attack less defence, never below zero and never above what fits.
pub open spec fn melee_damage(attack: i32, defense: i32) -> i32 {
    if attack - defense <= 0 {
        0
    } else if attack - defense > i32::MAX {
        i32::MAX
    } else {
        (attack - defense) as i32
    }
}

/// The effect shown where a blow or a hazard lands.
pub open spec fn impact_particle(x: i32, y: i32) -> ParticleRequest {
    ParticleRequest { x, y, fg: ORANGE, bg: BLACK, glyph: cp437('\u{203C}'), lifetime: 200 }
}

/// Whether the entity in slot `i` attacks this pass: it is alive, has an
/// intent, a name, combat and pool stats, and hit points left.
pub open spec fn attacks(w: WorldView, i: int) -> bool {
    &&& w.alive(i)
    &&& w.melee_intents.contains_key(i)
    &&& w.names.contains_key(i)
    &&& w.combat_stats.contains_key(i)
    &&& w.pool_stats.contains_key(i)
    &&& w.pool_stats[i].hp.current > 0
}

/// Whether `target` can be hit: it is alive, has a name, combat and pool
/// stats, and hit points left.
pub open spec fn can_be_hit(w: WorldView, target: Entity) -> bool {
    let t = target.index as int;
    &&& w.is_alive(target)
    &&& w.names.contains_key(t)
    &&& w.combat_stats.contains_key(t)
    &&& w.pool_stats.contains_key(t)
    &&& w.pool_stats[t].hp.current > 0
}

/// The attack of the entity in slot `i`, if it makes one. A blow that
/// does no damage is only logged. One that does is logged, shown where the
/// target stands, and added to the target's pending damage.
pub open spec fn melee_step(w: WorldView, i: int) -> WorldView {
    if attacks(w, i) && can_be_hit(w, w.melee_intents[i].target) {
        let t = w.melee_intents[i].target.index as int;
        let damage = melee_damage(w.combat_stats[i].attack, w.combat_stats[t].defense);
        let sparked = if w.positions.contains_key(t) {
            w.with_request(impact_particle(w.positions[t].x, w.positions[t].y))
        } else {
            w
        };
        if damage == 0 {
            w.with_log(unable_text(w.names[i], w.names[t]))
        } else {
            sparked.with_log(hit_text(w.names[i], w.names[t], damage as int)).with_damage(
                t,
                damage,
            )
        }
    } else {
        w
    }
}

/// The attacks of the entities in the first `n` slots, in slot order.
pub open spec fn melee_pass(w: WorldView, n: nat) -> WorldView
    decreases n,
{
    if n == 0 {
        w
    } else {
        melee_step(melee_pass(w, (n - 1) as nat), n - 1)
    }
}

/// The whole step: every attack resolved, every intent gone.
#[verifier::opaque]
pub open spec fn melee_combat(w: WorldView) -> WorldView {
    WorldView { melee_intents: Map::empty(), ..melee_pass(w, w.entities.len()) }
}

impl Damage {
    /// Adds `amount` to what is pending on `target`, after whatever is
    /// pending there already.
    pub fn new(store: &mut Storage<Damage>, target: Entity, amount: i32)
        ensures
            final(store)@ == if old(store)@.contains_key(target.index as int) {
                old(store)@.insert(
                    target.index as int,
                    old(store)@[target.index as int].push(amount),
                )
            } else {
                old(store)@.insert(target.index as int, seq![amount])
            },
    {
        match store.remove(target.index) {
            Some(mut suffering) => {
                suffering.amount.push(amount);
                store.insert(target.index, suffering);
            },
            None => {
                let mut amounts: Vec<i32> = Vec::new();
                amounts.push(amount);
                store.insert(target.index, Damage { amount: amounts });
            },
        }
        assert(store@ =~= if old(store)@.contains_key(target.index as int) {
            old(store)@.insert(target.index as int, old(store)@[target.index as int].push(amount))
        } else {
            old(store)@.insert(target.index as int, seq![amount])
        });
    }
}

/// The damage that `attack` does against `defense`.
pub fn damage_dealt(attack: i32, defense: i32) -> (damage: i32)
    ensures
        damage == melee_damage(attack, defense),
{
    let raw: i64 = attack as i64 - defense as i64;
    if raw <= 0 {
        0
    } else if raw > i32::MAX as i64 {
        i32::MAX
    } else {
        raw as i32
    }
}

/// Turns melee intents into pending damage.
pub struct MeleeCombatSystem {}

impl MeleeCombatSystem {
    /// Resolves every melee intent in slot order and clears them all.
    pub fn run(&mut self, world: &mut World)
        ensures
            final(world)@ == melee_combat(old(world)@),
            final(world)@.no_melee_intents(),
            final(world)@.keeps_intents_out(old(world)@),
            final(world)@.map == old(world)@.map,
    {
        reveal(melee_combat);
        let n: usize = world.entities.len();
        let mut i: usize = 0;
        while i < n
            invariant
                0 <= i <= n,
                n == old(world)@.entities.len(),
                world@.entities == old(world)@.entities,
                world@ == melee_pass(old(world)@, i as nat),
                world@.intents_from(old(world)@),
                world@.map == old(world)@.map,
            decreases n - i,
        {
            let ghost before = world@;
            if world.entities.entity(i).is_some() {
                let intent = world.melee_intents.get(i);
                let name = world.names.get(i);
                let stats = world.combat_stats.get(i);
                let pool = world.pool_stats.get(i);
                if intent.is_some() && name.is_some() && stats.is_some() && pool.is_some() {
                    let target: Entity = intent.unwrap().target;
                    let attack: i32 = stats.unwrap().attack;
                    let t: usize = target.index;
                    let target_stats = world.combat_stats.get(t);
                    let target_pool = world.pool_stats.get(t);
                    let target_name = world.names.get(t);
                    if pool.unwrap().hp.current > 0 && world.entities.is_alive(target)
                        && target_stats.is_some() && target_pool.is_some()
                        && target_name.is_some() && target_pool.unwrap().hp.current > 0 {
                        let damage = damage_dealt(attack, target_stats.unwrap().defense);
                        let line = if damage == 0 {
                            unable_message(&name.unwrap().name, &target_name.unwrap().name)
                        } else {
                            hit_message(&name.unwrap().name, &target_name.unwrap().name, damage)
                        };
                        world.log.push(line);
                        if damage != 0 {
                            match world.positions.get(t) {
                                Some(pos) => {
                                    let glyph = to_cp437('\u{203C}');
                                    world.particle_builder.request(
                                        pos.x,
                                        pos.y,
                                        ORANGE,
                                        BLACK,
                                        glyph,
                                        200,
                                    );
                                },
                                None => {},
                            }
                            Damage::new(&mut world.damages, target, damage);
                        }
                    }
                }
            }
            assert(world@ == melee_step(before, i as int));
            i += 1;
        }
        world.melee_intents.clear();
        proof {
            lemma_intents_from(world@, old(world)@);
        }
    }
}

/// An attack that does not exceed the defence deals no damage, and one
/// that does deals the difference.
pub proof fn lemma_melee_damage(attack: i32, defense: i32)
    ensures
        attack <= defense ==> melee_damage(attack, defense) == 0,
        attack > defense ==> 0 < melee_damage(attack, defense) <= attack - defense,
        (attack > defense && attack - defense <= i32::MAX) ==> melee_damage(attack, defense)
            == attack - defense,
{
}

/// Melee adds no intent: whatever is pending afterwards was pending
/// before.
pub proof fn lemma_melee_combat_adds_no_intent(w: WorldView)
    ensures
        melee_combat(w).intents_from(w),
        melee_combat(w).no_melee_intents(),
{
    reveal(melee_combat);
    lemma_melee_pass_adds_no_intent(w, w.entities.len());
}

/// The first `n` slots of the pass add no intent.
pub proof fn lemma_melee_pass_adds_no_intent(w: WorldView, n: nat)
    ensures
        melee_pass(w, n).intents_from(w),
    decreases n,
{
    if n > 0 {
        lemma_melee_pass_adds_no_intent(w, (n - 1) as nat);
    }
}

} // verus!

//! Triggers: hazards fire on whoever stepped onto their tile.

use vstd::prelude::*;
use crate::components::{Damage, Position};
use crate::entity::Entity;
use crate::glyphs::{to_cp437, BLACK, ORANGE};
use crate::messages::{trigger_message, trigger_text};
use crate::systems::melee_combat::impact_particle;
use crate::world::{lemma_intents_from, World, WorldView};

verus! {

/// Whether `occupant` fires on the mover in slot `i`: it is another entity,
/// alive, and an entry trigger.
pub open spec fn fires(w: WorldView, i: int, occupant: Entity) -> bool {
    &&& occupant != w.handle(i)
    &&& w.is_alive(occupant)
    &&& w.entry_triggers.contains_key(occupant.index as int)
}

/// The mover in slot `i`, standing at `pos`, meets `occupant`. A hazard
/// that fires is named in the log, shown where the mover stands, deals its
/// damage to the mover if it has any to deal, and is hidden no longer.
pub open spec fn trigger_visit(w: WorldView, i: int, pos: Position, occupant: Entity) -> WorldView {
    let o = occupant.index as int;
    if fires(w, i, occupant) {
        let named = if w.names.contains_key(o) {
            w.with_log(trigger_text(w.names[o]))
        } else {
            w
        };
        let sprung = named.with_request(impact_particle(pos.x, pos.y));
        let hurt = if w.inflicts_damage.contains_key(o) {
            sprung.with_damage(i, w.inflicts_damage[o].amount)
        } else {
            sprung
        };
        WorldView { hidden: hurt.hidden.remove(o), ..hurt }
    } else {
        w
    }
}

/// The mover meets the first `k` of `occupants`, in order.
pub open spec fn trigger_visits(
    w: WorldView,
    i: int,
    pos: Position,
    occupants: Seq<Entity>,
    k: nat,
) -> WorldView
    decreases k,
{
    if k == 0 {
        w
    } else {
        trigger_visit(
            trigger_visits(w, i, pos, occupants, (k - 1) as nat),
            i,
            pos,
            occupants[k - 1],
        )
    }
}

/// Whether the entity in slot `i` moved onto a tile of the map.
pub open spec fn stepped(w: WorldView, i: int) -> bool {
    &&& w.alive(i)
    &&& w.moved.contains_key(i)
    &&& w.positions.contains_key(i)
    &&& w.map.in_bounds(w.positions[i].x as int, w.positions[i].y as int)
}

/// Everything that the entity in slot `i` springs, if it moved.
pub open spec fn trigger_step(w: WorldView, i: int) -> WorldView {
    if stepped(w, i) {
        let pos = w.positions[i];
        let occupants = w.map.tile_content[w.map.idx(pos.x as int, pos.y as int)];
        trigger_visits(w, i, pos, occupants, occupants.len())
    } else {
        w
    }
}

/// What the entities in the first `n` slots spring, in slot order.
pub open spec fn trigger_pass(w: WorldView, n: nat) -> WorldView
    decreases n,
{
    if n == 0 {
        w
    } else {
        trigger_step(trigger_pass(w, (n - 1) as nat), n - 1)
    }
}

/// The whole step: every movement answered, every movement marker gone.
#[verifier::opaque]
pub open spec fn triggers_sprung(w: WorldView) -> WorldView {
    WorldView { moved: Map::empty(), ..trigger_pass(w, w.entities.len()) }
}

/// Springs hazards on whoever stepped onto them.
pub struct TriggerSystem {}

impl TriggerSystem {
    /// Lets every hazard fire on the entities that moved onto its tile, in
    /// slot order, and clears the movement markers.
    pub fn run(&mut self, world: &mut World)
        requires
            old(world)@.map.wf(),
        ensures
            final(world)@ == triggers_sprung(old(world)@),
            final(world)@.keeps_intents_out(old(world)@),
            final(world)@.map == old(world)@.map,
    {
        reveal(triggers_sprung);
        let n: usize = world.entities.len();
        let mut i: usize = 0;
        while i < n
            invariant
                0 <= i <= n,
                n == old(world)@.entities.len(),
                world@.entities == old(world)@.entities,
                world@.map == old(world)@.map,
                world@.map.wf(),
                world@ == trigger_pass(old(world)@, i as nat),
                world@.intents_from(old(world)@),
            decreases n - i,
        {
            let ghost before = world@;
            match world.entities.entity(i) {
                Some(mover) => {
                    let position = world.positions.get(i);
                    if world.moved.contains(i) && position.is_some() {
                        let pos: Position = *position.unwrap();
                        if world.map.in_bounds(pos.x, pos.y) {
                            let idx = world.map.xy_idx(pos.x, pos.y);
                            let ghost occupants = before.map.tile_content[idx as int];
                            let count: usize = world.map.tile_content[idx].len();
                            let mut k: usize = 0;
                            while k < count
                                invariant
                                    0 <= k <= count,
                                    idx < world.map.tile_content@.len(),
                                    count == occupants.len(),
                                    world.map.tile_content@[idx as int]@ == occupants,
                                    world@.entities == before.entities,
                                    world@.map == before.map,
                                    world@.intents_from(old(world)@),
                                    mover == before.handle(i as int),
                                    i < before.entities.len(),
                                    world@ == trigger_visits(
                                        before,
                                        i as int,
                                        pos,
                                        occupants,
                                        k as nat,
                                    ),
                                decreases count - k,
                            {
                                let ghost here = world@;
                                let occupant: Entity = world.map.tile_content[idx][k];
                                let o: usize = occupant.index;
                                if occupant != mover && world.entities.is_alive(occupant)
                                    && world.entry_triggers.contains(o) {
                                    match world.names.get(o) {
                                        Some(name) => {
                                            let line = trigger_message(&name.name);
                                            world.log.push(line);
                                        },
                                        None => {},
                                    }
                                    let glyph = to_cp437('\u{203C}');
                                    world.particle_builder.request(
                                        pos.x,
                                        pos.y,
                                        ORANGE,
                                        BLACK,
                                        glyph,
                                        200,
                                    );
                                    match world.inflicts_damage.get(o) {
                                        Some(damage) => {
                                            Damage::new(&mut world.damages, mover, damage.amount);
                                        },
                                        None => {},
                                    }
                                    world.hidden.remove(o);
                                }
                                assert(world@ == trigger_visit(here, i as int, pos, occupant));
                                k += 1;
                            }
                        }
                    }
                },
                None => {},
            }
            assert(world@ == trigger_step(before, i as int));
            i += 1;
        }
        world.moved.clear();
        proof {
            lemma_intents_from(world@, old(world)@);
        }
    }
}

/// Springing triggers adds no intent: whatever is pending afterwards was
/// pending before.
pub proof fn lemma_triggers_sprung_adds_no_intent(w: WorldView)
    ensures
        triggers_sprung(w).intents_from(w),
{
    reveal(triggers_sprung);
    lemma_trigger_pass_adds_no_intent(w, w.entities.len());
}

/// The first `n` slots of the pass add no intent.
pub proof fn lemma_trigger_pass_adds_no_intent(w: WorldView, n: nat)
    ensures
        trigger_pass(w, n).intents_from(w),
    decreases n,
{
    if n > 0 {
        lemma_trigger_pass_adds_no_intent(w, (n - 1) as nat);
        let before = trigger_pass(w, (n - 1) as nat);
        if stepped(before, n - 1) {
            let pos = before.positions[n - 1];
            let occupants = before.map.tile_content[before.map.idx(pos.x as int, pos.y as int)];
            lemma_trigger_visits_add_no_intent(before, n - 1, pos, occupants, occupants.len());
        }
    }
}

/// Meeting the first `k` occupants adds no intent.
pub proof fn lemma_trigger_visits_add_no_intent(
    w: WorldView,
    i: int,
    pos: Position,
    occupants: Seq<Entity>,
    k: nat,
)
    ensures
        trigger_visits(w, i, pos, occupants, k).intents_from(w),
    decreases k,
{
    if k > 0 {
        lemma_trigger_visits_add_no_intent(w, i, pos, occupants, (k - 1) as nat);
    }
}

} // verus!

//! What the player's commands do to the store.

use vstd::prelude::*;
use crate::components::{EntityMoved, MeleeIntent, PickupItemIntent, Position, UseItemIntent};
use crate::entity::Entity;
use crate::map::TileType;
use crate::messages::{no_exit_message, no_exit_text, nothing_here_message, nothing_here_text};
use crate::world::{World, WorldView};

verus! {

/// One command from the player.
#[derive(Clone, Copy, Debug)]
pub enum Command {
    MoveN,
    MoveS,
    MoveE,
    MoveW,
    PickUp,
    UseItem(Entity),
    Descend,
    ChangeControl,
}

/// The first of `occupants`, from index `from` on, that is alive and can
/// fight.
pub open spec fn first_fighter(w: WorldView, occupants: Seq<Entity>, from: int) -> Option<Entity>
    decreases occupants.len() - from,
{
    if from < 0 || from >= occupants.len() {
        None
    } else if w.is_alive(occupants[from]) && w.combat_stats.contains_key(
        occupants[from].index as int,
    ) {
        Some(occupants[from])
    } else {
        first_fighter(w, occupants, from + 1)
    }
}

/// Whether the active entity can move: it is alive, stands somewhere and
/// has a viewshed.
pub open spec fn can_move(w: WorldView) -> bool {
    let i = w.active().index as int;
    w.is_alive(w.active()) && w.positions.contains_key(i) && w.viewsheds.contains_key(i)
}

/// The active entity tries the step `(dx, dy)`. A step off the map does
/// nothing. A fighter on the target tile is attacked instead. Otherwise the
/// step is taken unless the tile is blocked.
pub open spec fn after_move(w: WorldView, dx: i32, dy: i32) -> WorldView {
    let i = w.active().index as int;
    if can_move(w) && w.map.in_bounds(w.positions[i].x + dx, w.positions[i].y + dy) {
        let x = w.positions[i].x + dx;
        let y = w.positions[i].y + dy;
        let idx = w.map.idx(x, y);
        match first_fighter(w, w.map.tile_content[idx], 0) {
            Some(target) => WorldView {
                melee_intents: w.melee_intents.insert(i, MeleeIntent { target }),
                ..w
            },
            None => if !w.map.blocked[idx] {
                WorldView {
                    positions: w.positions.insert(i, Position { x: x as i32, y: y as i32 }),
                    moved: w.moved.insert(i, EntityMoved {  }),
                    ..w.with_dirty(i)
                }
            } else {
                w
            },
        }
    } else {
        w
    }
}

/// The item lying at `(x, y)` among the first `n` slots: the last such slot
/// that is alive, is an item, and stands there.
pub open spec fn item_at(w: WorldView, x: i32, y: i32, n: nat) -> Option<Entity>
    decreases n,
{
    if n == 0 {
        None
    } else if w.alive(n - 1) && w.items.contains_key(n - 1) && w.positions.contains_key(n - 1)
        && w.positions[n - 1].x == x && w.positions[n - 1].y == y {
        Some(w.handle(n - 1))
    } else {
        item_at(w, x, y, (n - 1) as nat)
    }
}

/// The item that the active entity stands on, if any.
pub open spec fn item_underfoot(w: WorldView) -> Option<Entity> {
    let i = w.active().index as int;
    if w.is_alive(w.active()) && w.positions.contains_key(i) {
        item_at(w, w.positions[i].x, w.positions[i].y, w.entities.len())
    } else {
        None
    }
}

/// The active entity reaches for what lies under it: an intent to pick it
/// up, or a line in the log if nothing is there.
pub open spec fn after_pickup(w: WorldView) -> WorldView {
    match item_underfoot(w) {
        Some(item) => WorldView {
            pickup_intents: w.pickup_intents.insert(
                w.active().index as int,
                PickupItemIntent { picked_by: w.active(), item },
            ),
            ..w
        },
        None => w.with_log(nothing_here_text()),
    }
}

/// The active entity means to use `item` on itself, if it is alive.
pub open spec fn after_use(w: WorldView, item: Entity) -> WorldView {
    if w.is_alive(w.active()) {
        WorldView {
            use_intents: w.use_intents.insert(
                w.active().index as int,
                UseItemIntent { item, target: None },
            ),
            ..w
        }
    } else {
        w
    }
}

/// Whether the active entity stands on the exit.
pub open spec fn on_exit(w: WorldView) -> bool {
    let i = w.active().index as int;
    &&& w.is_alive(w.active())
    &&& w.positions.contains_key(i)
    &&& w.map.in_bounds(w.positions[i].x as int, w.positions[i].y as int)
    &&& w.map.tile(w.positions[i].x as int, w.positions[i].y as int) == TileType::Exit
}

/// The active entity tries to descend: nothing changes on the exit, and a
/// line goes to the log anywhere else.
pub open spec fn after_descend(w: WorldView) -> WorldView {
    if on_exit(w) {
        w
    } else {
        w.with_log(no_exit_text())
    }
}

/// Moves the active entity by `(delta_x, delta_y)`, or has it attack what
/// stands in the way.
pub fn try_move_player(delta_x: i32, delta_y: i32, ecs: &mut World)
    requires
        old(ecs)@.map.wf(),
    ensures
        final(ecs)@ == after_move(old(ecs)@, delta_x, delta_y),
{
    let active: Entity = ecs.active_entity.target;
    let i: usize = active.index;
    if !ecs.entities.is_alive(active) || !ecs.viewsheds.contains(i) {
        return ;
    }
    let pos: Position = match ecs.positions.get(i) {
        Some(p) => *p,
        None => {
            return ;
        },
    };
    let wide_x: i64 = pos.x as i64 + delta_x as i64;
    let wide_y: i64 = pos.y as i64 + delta_y as i64;
    if wide_x < 0 || wide_x >= ecs.map.width as i64 || wide_y < 0 || wide_y >= ecs.map.height as i64 {
        return ;
    }
    let x: i32 = wide_x as i32;
    let y: i32 = wide_y as i32;
    let dest_idx = ecs.map.xy_idx(x, y);
    let ghost occupants = ecs@.map.tile_content[dest_idx as int];
    let n: usize = ecs.map.tile_content[dest_idx].len();
    let mut k: usize = 0;
    while k < n
        invariant
            0 <= k <= n,
            dest_idx < ecs.map.tile_content@.len(),
            ecs.map.tile_content@[dest_idx as int]@ == occupants,
            n == occupants.len(),
            ecs@ == old(ecs)@,
            can_move(ecs@),
            active == ecs@.active(),
            i == active.index,
            pos == ecs@.positions[i as int],
            x == pos.x + delta_x,
            y == pos.y + delta_y,
            ecs@.map.in_bounds(x as int, y as int),
            dest_idx == ecs@.map.idx(x as int, y as int),
            occupants == ecs@.map.tile_content[dest_idx as int],
            first_fighter(ecs@, occupants, 0) == first_fighter(ecs@, occupants, k as int),
        decreases n - k,
    {
        let potential_target: Entity = ecs.map.tile_content[dest_idx][k];
        if ecs.entities.is_alive(potential_target) && ecs.combat_stats.contains(
            potential_target.index,
        ) {
            ecs.melee_intents.insert(i, MeleeIntent { target: potential_target });
            return ;
        }
        k += 1;
    }
    if !ecs.map.blocked[dest_idx] {
        ecs.positions.insert(i, Position { x, y });
        ecs.mark_dirty(i);
        ecs.moved.insert(i, EntityMoved {  });
    }
}

/// Queues picking up the item under the active entity. Returns whether
/// there was one.
pub fn pickup_item(ecs: &mut World) -> (found: bool)
    ensures
        found == item_underfoot(old(ecs)@) is Some,
        final(ecs)@ == after_pickup(old(ecs)@),
{
    let active: Entity = ecs.active_entity.target;
    let mut target_item: Option<Entity> = None;
    if ecs.entities.is_alive(active) {
        match ecs.positions.get(active.index) {
            Some(p) => {
                let here: Position = *p;
                let n: usize = ecs.entities.len();
                let mut i: usize = 0;
                while i < n
                    invariant
                        0 <= i <= n,
                        n == ecs@.entities.len(),
                        ecs@ == old(ecs)@,
                        target_item == item_at(ecs@, here.x, here.y, i as nat),
                    decreases n - i,
                {
                    match ecs.entities.entity(i) {
                        Some(item_entity) => {
                            let position = ecs.positions.get(i);
                            if ecs.items.contains(i) && position.is_some() && position.unwrap().x
                                == here.x && position.unwrap().y == here.y {
                                target_item = Some(item_entity);
                            }
                        },
                        None => {},
                    }
                    i += 1;
                }
            },
            None => {},
        }
    }
    match target_item {
        None => {
            ecs.log.push(nothing_here_message());
            false
        },
        Some(item) => {
            ecs.pickup_intents.insert(active.index, PickupItemIntent { picked_by: active, item });
            true
        },
    }
}

/// Queues the use of `item` by the active entity on itself. Returns whether
/// the active entity is there to use it.
pub fn use_item(ecs: &mut World, item: Entity) -> (queued: bool)
    ensures
        queued == old(ecs)@.is_alive(old(ecs)@.active()),
        final(ecs)@ == after_use(old(ecs)@, item),
{
    let active: Entity = ecs.active_entity.target;
    if ecs.entities.is_alive(active) {
        ecs.use_intents.insert(active.index, UseItemIntent { item, target: None });
        true
    } else {
        false
    }
}

/// Whether the active entity can descend. Logs a line if it cannot.
pub fn try_next_level(ecs: &mut World) -> (descends: bool)
    requires
        old(ecs)@.map.wf(),
    ensures
        descends == on_exit(old(ecs)@),
        final(ecs)@ == after_descend(old(ecs)@),
{
    let active: Entity = ecs.active_entity.target;
    let mut descends = false;
    if ecs.entities.is_alive(active) {
        match ecs.positions.get(active.index) {
            Some(p) => {
                if ecs.map.in_bounds(p.x, p.y) {
                    let idx = ecs.map.xy_idx(p.x, p.y);
                    descends = ecs.map.tiles[idx] == TileType::Exit;
                }
            },
            None => {},
        }
    }
    if !descends {
        ecs.log.push(no_exit_message());
    }
    descends
}

} // verus!

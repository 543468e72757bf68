//! Map indexing: who stands where, and which tiles are blocked.

use vstd::prelude::*;
use crate::components::Position;
use crate::entity::Entity;
use crate::map::MapView;
use crate::world::{lemma_intents_from, World, WorldView};

verus! {

/// Whether the entity in slot `i` stands on a tile of the map.
pub open spec fn stands(w: WorldView, i: int) -> bool {
    &&& w.alive(i)
    &&& w.positions.contains_key(i)
    &&& w.map.in_bounds(w.positions[i].x as int, w.positions[i].y as int)
}

/// The entity in slot `i` entered into the index: listed on its tile, which
/// it blocks if it blocks movement.
pub open spec fn index_step(w: WorldView, i: int) -> WorldView {
    if stands(w, i) {
        let idx = w.map.idx(w.positions[i].x as int, w.positions[i].y as int);
        WorldView {
            map: MapView {
                tile_content: w.map.tile_content.update(
                    idx,
                    w.map.tile_content[idx].push(w.handle(i)),
                ),
                blocked: if w.blockers.contains_key(i) {
                    w.map.blocked.update(idx, true)
                } else {
                    w.map.blocked
                },
                ..w.map
            },
            ..w
        }
    } else {
        w
    }
}

/// The entities in the first `n` slots entered, in slot order.
pub open spec fn index_pass(w: WorldView, n: nat) -> WorldView
    decreases n,
{
    if n == 0 {
        w
    } else {
        index_step(index_pass(w, (n - 1) as nat), n - 1)
    }
}

/// The whole step: the index rebuilt from nothing but the tiles and the
/// positions as they are now.
#[verifier::opaque]
pub open spec fn map_indexed(w: WorldView) -> WorldView {
    index_pass(
        WorldView { map: w.map.with_blocked_from_tiles().with_content_cleared(), ..w },
        w.entities.len(),
    )
}

/// Rebuilds the per-tile indexes.
pub struct MapIndexingSystem {}

impl MapIndexingSystem {
    /// Rebuilds `blocked` and the occupant lists.
    pub fn run(&mut self, world: &mut World)
        requires
            old(world)@.map.wf(),
        ensures
            final(world)@ == map_indexed(old(world)@),
            final(world)@.keeps_intents_out(old(world)@),
            final(world)@.map.wf(),
    {
        reveal(map_indexed);
        world.map.populate_blocked();
        world.map.clear_content_index();
        let ghost start = world@;
        let n: usize = world.entities.len();
        let mut i: usize = 0;
        while i < n
            invariant
                0 <= i <= n,
                n == old(world)@.entities.len(),
                world@.entities == old(world)@.entities,
                world@.map.wf(),
                start == (WorldView {
                    map: old(world)@.map.with_blocked_from_tiles().with_content_cleared(),
                    ..old(world)@
                }),
                world@ == index_pass(start, i as nat),
                world@.intents_from(old(world)@),
            decreases n - i,
        {
            let ghost before = world@;
            match world.entities.entity(i) {
                Some(entity) => {
                    match world.positions.get(i) {
                        Some(position) => {
                            let pos: Position = *position;
                            if world.map.in_bounds(pos.x, pos.y) {
                                let idx = world.map.xy_idx(pos.x, pos.y);
                                if world.blockers.contains(i) {
                                    world.map.blocked[idx] = true;
                                }
                                world.map.tile_content[idx].push(entity);
                                assert(world@.map.tile_content =~= before.map.tile_content.update(
                                    idx as int,
                                    before.map.tile_content[idx as int].push(entity),
                                ));
                            }
                        },
                        None => {},
                    }
                },
                None => {},
            }
            assert(world@ == index_step(before, i as int));
            i += 1;
        }
        proof {
            lemma_intents_from(world@, old(world)@);
        }
    }
}

/// Indexing adds no intent: whatever is pending afterwards was pending
/// before.
pub proof fn lemma_map_indexed_adds_no_intent(w: WorldView)
    ensures
        map_indexed(w).intents_from(w),
{
    reveal(map_indexed);
    lemma_index_pass_adds_no_intent(
        WorldView { map: w.map.with_blocked_from_tiles().with_content_cleared(), ..w },
        w.entities.len(),
    );
}

/// The first `n` slots of the pass add no intent.
pub proof fn lemma_index_pass_adds_no_intent(w: WorldView, n: nat)
    ensures
        index_pass(w, n).intents_from(w),
    decreases n,
{
    if n > 0 {
        lemma_index_pass_adds_no_intent(w, (n - 1) as nat);
    }
}

/// The index of the tile that the entity in slot `i` stands on.
pub open spec fn tile_of(w: WorldView, i: int) -> int {
    w.map.idx(w.positions[i].x as int, w.positions[i].y as int)
}

/// Entering entities touches nothing but the map's occupant lists and its
/// blocked flags. After the first `n` slots, a tile lists exactly the
/// entities among them that stand on it, and it is blocked exactly if it
/// was blocked before or one of them blocks it.
pub proof fn lemma_index_pass(w: WorldView, n: nat)
    requires
        w.map.wf(),
        n <= w.entities.len() <= usize::MAX,
    ensures
        index_pass(w, n) == (WorldView {
            map: MapView {
                tile_content: index_pass(w, n).map.tile_content,
                blocked: index_pass(w, n).map.blocked,
                ..w.map
            },
            ..w
        }),
        index_pass(w, n).map.wf(),
        forall|j: int, e: Entity|
            0 <= j < w.map.tile_content.len() ==> (#[trigger] index_pass(w, n).map.tile_content[j].contains(e) <==> (w.map.tile_content[j].contains(e) || (e.index
                < n && stands(w, e.index as int) && e == w.handle(e.index as int) && tile_of(
                w,
                e.index as int,
            ) == j))),
        forall|j: int|
            0 <= j < w.map.blocked.len() ==> (#[trigger] index_pass(w, n).map.blocked[j] <==> (
            w.map.blocked[j] || exists|i: int|
                0 <= i < n && stands(w, i) && w.blockers.contains_key(i) && #[trigger] tile_of(w, i)
                    == j)),
    decreases n,
{
    if n > 0 {
        lemma_index_pass(w, (n - 1) as nat);
        let before = index_pass(w, (n - 1) as nat);
        let after = index_pass(w, n);
        let i = n - 1;
        assert(stands(before, i) == stands(w, i));
        if stands(w, i) {
            let idx = tile_of(w, i);
            crate::map::lemma_cell_index(
                w.map.width,
                w.map.height,
                w.positions[i].x as int,
                w.positions[i].y as int,
            );
            let h = w.handle(i);
            assert(h.index == i);
            assert forall|j: int, e: Entity| 0 <= j < w.map.tile_content.len() implies (
            #[trigger] after.map.tile_content[j].contains(e) <==> (w.map.tile_content[j].contains(
                e,
            ) || (e.index < n && stands(w, e.index as int) && e == w.handle(e.index as int)
                && tile_of(w, e.index as int) == j))) by {
                let old_list = before.map.tile_content[j];
                let new_list = after.map.tile_content[j];
                if j == idx {
                    assert(new_list == old_list.push(h));
                    assert(new_list[old_list.len() as int] == h);
                    if old_list.contains(e) {
                        let k = choose|k: int| 0 <= k < old_list.len() && old_list[k] == e;
                        assert(new_list[k] == e);
                    }
                    if new_list.contains(e) {
                        let k = choose|k: int| 0 <= k < new_list.len() && new_list[k] == e;
                        if k < old_list.len() {
                            assert(old_list[k] == e);
                        }
                    }
                } else {
                    assert(new_list == old_list);
                }
            }
            assert forall|j: int| 0 <= j < w.map.blocked.len() implies (
            #[trigger] after.map.blocked[j] <==> (w.map.blocked[j] || exists|k: int|
                0 <= k < n && stands(w, k) && w.blockers.contains_key(k) && #[trigger] tile_of(w, k)
                    == j)) by {
                let was = exists|k: int|
                    0 <= k < n - 1 && stands(w, k) && w.blockers.contains_key(k) && #[trigger] tile_of(
                        w,
                        k,
                    ) == j;
                let now = exists|k: int|
                    0 <= k < n && stands(w, k) && w.blockers.contains_key(k) && #[trigger] tile_of(
                        w,
                        k,
                    ) == j;
                if was {
                    let k = choose|k: int|
                        0 <= k < n - 1 && stands(w, k) && w.blockers.contains_key(k)
                            && #[trigger] tile_of(w, k) == j;
                    assert(0 <= k < n && tile_of(w, k) == j);
                }
                if now && !was {
                    let k = choose|k: int|
                        0 <= k < n && stands(w, k) && w.blockers.contains_key(k)
                            && #[trigger] tile_of(w, k) == j;
                    assert(k == i);
                }
                if j == idx && w.blockers.contains_key(i) {
                    assert(0 <= i < n && tile_of(w, i) == j);
                }
            }
        } else {
            assert(after == before);
            assert forall|j: int| 0 <= j < w.map.blocked.len() implies (
            #[trigger] after.map.blocked[j] <==> (w.map.blocked[j] || exists|k: int|
                0 <= k < n && stands(w, k) && w.blockers.contains_key(k) && #[trigger] tile_of(w, k)
                    == j)) by {
                let was = exists|k: int|
                    0 <= k < n - 1 && stands(w, k) && w.blockers.contains_key(k) && #[trigger] tile_of(
                        w,
                        k,
                    ) == j;
                if was {
                    let k = choose|k: int|
                        0 <= k < n - 1 && stands(w, k) && w.blockers.contains_key(k)
                            && #[trigger] tile_of(w, k) == j;
                    assert(0 <= k < n && tile_of(w, k) == j);
                }
            }
        }
    }
}

/// After indexing, a tile lists exactly the live entities that stand on
/// it, and it is blocked exactly if it is a wall or one of them blocks
/// movement.
pub proof fn lemma_map_indexed(w: WorldView)
    requires
        w.map.wf(),
        w.entities.len() <= usize::MAX,
    ensures
        map_indexed(w).map.wf(),
        map_indexed(w).map.tiles == w.map.tiles,
        forall|j: int, e: Entity|
            0 <= j < w.map.tile_content.len() ==> (#[trigger] map_indexed(w).map.tile_content[j].contains(e) <==> (w.is_alive(e) && stands(w, e.index as int)
                && tile_of(w, e.index as int) == j)),
        forall|j: int|
            0 <= j < w.map.blocked.len() ==> (#[trigger] map_indexed(w).map.blocked[j] <==> (
            w.map.tiles[j] == crate::map::TileType::Wall || exists|i: int|
                stands(w, i) && w.blockers.contains_key(i) && #[trigger] tile_of(w, i) == j)),
{
    reveal(map_indexed);
    let start = WorldView { map: w.map.with_blocked_from_tiles().with_content_cleared(), ..w };
    lemma_index_pass(start, w.entities.len());
    assert forall|j: int, e: Entity| 0 <= j < w.map.tile_content.len() implies (
    #[trigger] map_indexed(w).map.tile_content[j].contains(e) <==> (w.is_alive(e) && stands(
        w,
        e.index as int,
    ) && tile_of(w, e.index as int) == j)) by {
        assert(!start.map.tile_content[j].contains(e));
        assert(stands(start, e.index as int) == stands(w, e.index as int));
        assert(tile_of(start, e.index as int) == tile_of(w, e.index as int));
    }
    assert forall|j: int| 0 <= j < w.map.blocked.len() implies (#[trigger] map_indexed(
        w,
    ).map.blocked[j] <==> (w.map.tiles[j] == crate::map::TileType::Wall || exists|i: int|
        stands(w, i) && w.blockers.contains_key(i) && #[trigger] tile_of(w, i) == j)) by {
        let n = w.entities.len();
        let within = exists|i: int|
            0 <= i < n && stands(start, i) && start.blockers.contains_key(i) && #[trigger] tile_of(
                start,
                i,
            ) == j;
        let anywhere = exists|i: int|
            stands(w, i) && w.blockers.contains_key(i) && #[trigger] tile_of(w, i) == j;
        if within {
            let i = choose|i: int|
                0 <= i < n && stands(start, i) && start.blockers.contains_key(i)
                    && #[trigger] tile_of(start, i) == j;
            assert(stands(w, i) && w.blockers.contains_key(i) && tile_of(w, i) == j);
        }
        if anywhere {
            let i = choose|i: int|
                stands(w, i) && w.blockers.contains_key(i) && #[trigger] tile_of(w, i) == j;
            assert(0 <= i < n && stands(start, i) && start.blockers.contains_key(i) && tile_of(
                start,
                i,
            ) == j);
        }
    }
}

} // verus!

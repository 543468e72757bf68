//! The turn cycle: the pipeline of systems, the way down to the next
//! level, and the state machine that decides which of them a tick runs.

use vstd::prelude::*;
use bracket_lib::random::RandomNumberGenerator;
use crate::components::{ActiveEntity, Position};
use crate::entity::{after_delete, alive_in, doomed_in, next_entity, Entity, Slot};
use crate::map::{GameMap, MapView, RoomRect};
use crate::messages::{portal_message, portal_text, welcome_message, welcome_text};
use crate::control::{after_curse, hosts, try_change_control};
use crate::player::{
    after_descend, after_move, after_pickup, after_use, item_underfoot, on_exit, pickup_item,
    try_move_player, try_next_level, use_item, Command,
};
use crate::spawner::{
    drawn_from, player, room_population, spawn_room, spawned, with_player, MAX_MONSTERS,
};
use crate::systems::damage::{damage_applied, dead_swept, delete_the_dead, DamageSystem};
use crate::systems::fov::{visibility_refreshed, VisibilitySystem};
use crate::systems::inventory::{items_picked_up, items_used, ItemPickupSystem, ItemUseSystem};
use crate::systems::map_indexing::{map_indexed, MapIndexingSystem};
use crate::systems::melee_combat::{melee_combat, MeleeCombatSystem};
use crate::systems::particle::{
    particles_aged, particles_spawned, remove_particles, ParticleSpawnSystem,
};
use crate::systems::trigger::{triggers_sprung, TriggerSystem};
use crate::world::{RunState, World, WorldView};

verus! {

/// The game: the store and everything in it.
pub struct State {
    pub ecs: World,
}

/// One pass of the systems in their fixed order, then the barrier.
pub open spec fn pipeline(w: WorldView) -> WorldView {
    triggers_sprung(
        particles_spawned(
            items_used(
                items_picked_up(
                    damage_applied(melee_combat(map_indexed(visibility_refreshed(w)))),
                ),
            ),
        ),
    ).maintained()
}

/// Whether the entity in slot `i` comes along to the next level: it is the
/// active entity or something the active entity owns.
pub open spec fn comes_along(w: WorldView, i: int) -> bool {
    ||| w.handle(i) == w.active()
    ||| (w.items_owned.contains_key(i) && w.items_owned[i].owner == w.active())
}

/// The live entities among the first `n` slots that stay behind, in slot
/// order.
pub open spec fn left_behind(w: WorldView, n: nat) -> Seq<Entity>
    decreases n,
{
    if n == 0 {
        Seq::empty()
    } else if w.alive(n - 1) && !comes_along(w, n - 1) {
        left_behind(w, (n - 1) as nat).push(w.handle(n - 1))
    } else {
        left_behind(w, (n - 1) as nat)
    }
}

/// The store with the first `k` of `gone` queued for deletion.
pub open spec fn queued(w: WorldView, gone: Seq<Entity>, k: nat) -> WorldView
    decreases k,
{
    if k == 0 {
        w
    } else {
        let q = queued(w, gone, (k - 1) as nat);
        WorldView { entities: after_delete(q.entities, gone[k - 1]), ..q }
    }
}

/// The store after the purge: everything that stays behind is deleted.
pub open spec fn purged(w: WorldView) -> WorldView {
    let gone = left_behind(w, w.entities.len());
    queued(w, gone, gone.len()).maintained()
}

/// Every point lies on the floor of a room other than the first.
pub open spec fn in_later_rooms(points: Seq<(i32, i32, Seq<char>)>, m: MapView) -> bool {
    forall|k: int|
        0 <= k < points.len() ==> exists|r: int|
            1 <= r < m.rooms.len() && (#[trigger] m.rooms[r]).has_floor(
                (#[trigger] points[k]).0 as int,
                points[k].1 as int,
            )
}

/// Most points that one room gets at `level`.
pub open spec fn room_cap(level: int) -> int {
    if MAX_MONSTERS - 1 + level > 0 {
        MAX_MONSTERS - 1 + level
    } else {
        0
    }
}

/// Whether `points` can be what populates the rooms of `m` after the first
/// at `level`: every point on the floor of such a room and of a kind from
/// the table, no more points than these rooms can get, and from level four
/// on at least one for each of them.
pub open spec fn level_population(points: Seq<(i32, i32, Seq<char>)>, m: MapView, level: int) -> bool {
    &&& in_later_rooms(points, m)
    &&& drawn_from(points, level)
    &&& points.len() <= (m.rooms.len() - 1) * room_cap(level)
    &&& level >= 4 ==> points.len() >= m.rooms.len() - 1
}

/// The active entity arrives: it stands in the middle of the first room,
/// has to look again, and the log says so.
pub open spec fn arrived(w: WorldView) -> WorldView {
    let i = w.active().index as int;
    let placed = if w.is_alive(w.active()) && w.positions.contains_key(i) && w.map.rooms.len()
        > 0 {
        WorldView {
            positions: w.positions.insert(
                i,
                Position {
                    x: w.map.rooms[0].center_xy().0 as i32,
                    y: w.map.rooms[0].center_xy().1 as i32,
                },
            ),
            ..w
        }
    } else {
        w
    };
    let looking = if w.is_alive(w.active()) {
        placed.with_dirty(i)
    } else {
        placed
    };
    looking.with_log(portal_text())
}

/// An empty store on the level `m`.
pub open spec fn empty_on(m: MapView, w: WorldView) -> bool {
    &&& w.entities == Seq::<Slot>::empty()
    &&& forall|i: int| w.row_is_empty(i)
    &&& w.map == m
    &&& w.log == Seq::<Seq<char>>::empty()
    &&& w.run_state == RunState::PreRun
    &&& w.requests == Seq::<crate::world::ParticleRequest>::empty()
}

/// A new game grown from the empty store `w`: the hero in the middle of
/// the first room and in control, the later rooms populated by `points`,
/// and a greeting in the log.
pub open spec fn started(w: WorldView, points: Seq<(i32, i32, Seq<char>)>) -> WorldView {
    let c = w.map.rooms[0].center_xy();
    let with_hero = WorldView {
        active_entity: ActiveEntity { target: next_entity(w.entities) },
        ..with_player(w, c.0 as i32, c.1 as i32)
    };
    spawned(with_hero, points, points.len()).with_log(welcome_text())
}

/// The way down: the purge, the new level `m`, its population `points`,
/// and the arrival.
pub open spec fn next_level(w: WorldView, m: MapView, points: Seq<(i32, i32, Seq<char>)>) -> WorldView {
    arrived(spawned(WorldView { map: m, ..purged(w) }, points, points.len()))
}

/// Spawning one list after another is spawning their concatenation.
pub proof fn lemma_spawned_concat(
    w: WorldView,
    a: Seq<(i32, i32, Seq<char>)>,
    b: Seq<(i32, i32, Seq<char>)>,
    k: nat,
)
    requires
        k <= b.len(),
    ensures
        spawned(spawned(w, a, a.len()), b, k) == spawned(w, a + b, a.len() + k),
    decreases k,
{
    if k == 0 {
        lemma_spawned_prefix(w, a, a + b, a.len());
    } else {
        lemma_spawned_concat(w, a, b, (k - 1) as nat);
        assert((a + b)[a.len() + k - 1] == b[k - 1]);
    }
}

/// Spawning the first `k` points looks at nothing beyond them.
pub proof fn lemma_spawned_prefix(
    w: WorldView,
    a: Seq<(i32, i32, Seq<char>)>,
    b: Seq<(i32, i32, Seq<char>)>,
    k: nat,
)
    requires
        k <= a.len(),
        k <= b.len(),
        forall|j: int| 0 <= j < k ==> a[j] == b[j],
    ensures
        spawned(w, a, k) == spawned(w, b, k),
    decreases k,
{
    if k > 0 {
        lemma_spawned_prefix(w, a, b, (k - 1) as nat);
    }
}

/// Queueing deletions touches nothing but the entities' standing, and
/// dooms exactly the live handles in the list.
pub proof fn lemma_queued(w: WorldView, gone: Seq<Entity>, k: nat)
    requires
        k <= gone.len(),
    ensures
        queued(w, gone, k) == (WorldView { entities: queued(w, gone, k).entities, ..w }),
        queued(w, gone, k).entities.len() == w.entities.len(),
        forall|e: Entity|
            alive_in(queued(w, gone, k).entities, e) == alive_in(w.entities, e),
        forall|e: Entity|
            doomed_in(queued(w, gone, k).entities, e) == (doomed_in(w.entities, e) || (alive_in(
                w.entities,
                e,
            ) && exists|j: int| 0 <= j < k && gone[j] == e)),
    decreases k,
{
    if k > 0 {
        lemma_queued(w, gone, (k - 1) as nat);
        let q = queued(w, gone, (k - 1) as nat);
        let r = queued(w, gone, k);
        assert forall|e: Entity|
            doomed_in(r.entities, e) == (doomed_in(w.entities, e) || (alive_in(w.entities, e)
                && exists|j: int| 0 <= j < k && gone[j] == e)) by {
            if doomed_in(q.entities, e) && !doomed_in(w.entities, e) {
                let j = choose|j: int| 0 <= j < k - 1 && gone[j] == e;
                assert(0 <= j < k && gone[j] == e);
            }
            if exists|j: int| 0 <= j < k && gone[j] == e {
                let j = choose|j: int| 0 <= j < k && gone[j] == e;
                if j < k - 1 {
                    assert(0 <= j < k - 1 && gone[j] == e);
                }
            }
        }
    }
}

/// Left behind are exactly the live entities that do not come along.
pub proof fn lemma_left_behind(w: WorldView, n: nat)
    requires
        n <= w.entities.len() <= usize::MAX,
    ensures
        forall|e: Entity|
            #[trigger] left_behind(w, n).contains(e) <==> (e.index < n && alive_in(w.entities, e)
                && !comes_along(w, e.index as int)),
    decreases n,
{
    if n > 0 {
        lemma_left_behind(w, (n - 1) as nat);
        let rest = left_behind(w, (n - 1) as nat);
        let all = left_behind(w, n);
        assert forall|e: Entity|
            #[trigger] all.contains(e) <==> (e.index < n && alive_in(w.entities, e) && !comes_along(
                w,
                e.index as int,
            )) by {
            let last = w.handle(n - 1);
            assert(last.index == n - 1);
            assert(rest.contains(e) <==> (e.index < n - 1 && alive_in(w.entities, e) && !comes_along(
                w,
                e.index as int,
            )));
            if e.index == n - 1 && alive_in(w.entities, e) {
                assert(e == last);
                assert(w.alive(n - 1));
            }
            if w.alive(n - 1) && !comes_along(w, n - 1) {
                assert(all == rest.push(last));
                assert(all[rest.len() as int] == last);
                assert(alive_in(w.entities, last));
                if rest.contains(e) {
                    let j = choose|j: int| 0 <= j < rest.len() && rest[j] == e;
                    assert(all[j] == e);
                }
                if all.contains(e) {
                    let j = choose|j: int| 0 <= j < all.len() && all[j] == e;
                    if j < rest.len() {
                        assert(rest[j] == e);
                    }
                }
            } else {
                assert(all == rest);
            }
        }
    }
}

/// After the purge, a handle is live exactly if it was live, was not
/// queued for deletion, and is the active entity or something the active
/// entity owns. Nothing but the entities' standing changes.
pub proof fn lemma_purged(w: WorldView)
    requires
        w.entities.len() <= usize::MAX,
    ensures
        purged(w) == (WorldView { entities: purged(w).entities, ..w }),
        forall|e: Entity|
            alive_in(purged(w).entities, e) <==> (alive_in(w.entities, e) && !doomed_in(
                w.entities,
                e,
            ) && comes_along(w, e.index as int)),
{
    let gone = left_behind(w, w.entities.len());
    lemma_left_behind(w, w.entities.len());
    lemma_queued(w, gone, gone.len());
    let q = queued(w, gone, gone.len());
    crate::entity::lemma_maintain_kills_the_doomed(q.entities);
    assert forall|e: Entity|
        alive_in(purged(w).entities, e) <==> (alive_in(w.entities, e) && !doomed_in(w.entities, e)
            && comes_along(w, e.index as int)) by {
        let listed = exists|j: int| 0 <= j < gone.len() && gone[j] == e;
        assert(listed == gone.contains(e));
        assert(alive_in(q.entities, e) == alive_in(w.entities, e));
        assert(doomed_in(q.entities, e) == (doomed_in(w.entities, e) || (alive_in(w.entities, e)
            && listed)));
        assert(alive_in(purged(w).entities, e) == (alive_in(q.entities, e) && !doomed_in(
            q.entities,
            e,
        )));
    }
}

impl State {
    /// A new game: a generated first level, the hero in its first room,
    /// the other rooms populated, the cycle about to begin.
    ///
    /// Whatever the draws, the level is a sound generated level of depth
    /// one and the hero is the active entity.
    pub fn new_game(rng: RandomNumberGenerator) -> (state: State)
        ensures
            state.ecs@.map.generated(1),
            state.ecs@.run_state == RunState::PreRun,
            exists|w: WorldView, points: Seq<(i32, i32, Seq<char>)>|
                empty_on(state.ecs@.map, w) && level_population(points, state.ecs@.map, 1)
                    && state.ecs@ == #[trigger] started(w, points),
    {
        let mut rng = rng;
        let map = GameMap::generate(1, &mut rng);
        let first: RoomRect = map.rooms[0];
        let (player_x, player_y) = first.center();
        let mut ecs = World::new(map, rng);
        let ghost empty = ecs@;
        let ghost m = ecs@.map;
        let player_entity = player(&mut ecs, player_x, player_y);
        ecs.active_entity = ActiveEntity { target: player_entity };
        let ghost base = ecs@;
        let ghost mut points: Seq<(i32, i32, Seq<char>)> = Seq::empty();
        let rooms: usize = ecs.map.rooms.len();
        let mut r: usize = 1;
        while r < rooms
            invariant
                1 <= r <= rooms,
                rooms == m.rooms.len(),
                m.generated(1),
                ecs@.map == m,
                base.map == m,
                base.run_state == RunState::PreRun,
                in_later_rooms(points, m),
                drawn_from(points, 1),
                points.len() <= (r - 1) * room_cap(1),
                ecs@ == spawned(base, points, points.len()),
            decreases rooms - r,
        {
            let room: RoomRect = ecs.map.rooms[r];
            let ghost before = ecs@;
            proof {
                assert(m.fits(m.rooms[r as int]));
            }
            spawn_room(&mut ecs, &room, 1);
            proof {
                let drawn = choose|drawn: Seq<(i32, i32, Seq<char>)>|
                    room_population(drawn, room, 1) && ecs@ == #[trigger] spawned(
                        before,
                        drawn,
                        drawn.len(),
                    );
                lemma_spawned_concat(base, points, drawn, drawn.len());
                lemma_spawned_keeps_map(before, drawn, drawn.len());
                let level: int = 1;
                let all = points + drawn;
                assert forall|k: int| 0 <= k < all.len() implies exists|q: int|
                    1 <= q < m.rooms.len() && (#[trigger] m.rooms[q]).has_floor(
                        (#[trigger] all[k]).0 as int,
                        all[k].1 as int,
                    ) by {
                    if k < points.len() {
                        assert(all[k] == points[k]);
                    } else {
                        assert(all[k] == drawn[k - points.len()]);
                        assert(m.rooms[r as int].has_floor(all[k].0 as int, all[k].1 as int));
                    }
                }
                assert forall|k: int| 0 <= k < all.len() implies crate::spawner::from_table(
                    (#[trigger] all[k]).2,
                    level,
                ) by {
                    if k < points.len() {
                        assert(all[k] == points[k]);
                    } else {
                        assert(all[k] == drawn[k - points.len()]);
                    }
                }
                assert((r - 1) * room_cap(level) + room_cap(level) == r * room_cap(level))
                    by (nonlinear_arith);
                points = all;
            }
            r += 1;
        }
        proof {
            lemma_spawned_keeps_map(base, points, points.len());
        }
        ecs.log.push(welcome_message());
        proof {
            assert(empty_on(m, empty));
            assert(ecs@ == started(empty, points));
        }
        State { ecs }
    }

    /// Whether the game is fit for a tick: the map is well formed, the
    /// entities can be counted in 32 bits, and a level below the current
    /// one can still be numbered.
    pub fn ready(&self) -> (r: bool)
        ensures
            r == (self.ecs@.map.wf() && self.ecs@.entities.len() < i32::MAX && 120 + 2
                * self.ecs@.map.depth < i32::MAX),
    {
        self.ecs.map.is_well_formed() && self.ecs.entities.len() < i32::MAX as usize
            && self.ecs.map.depth < 1073741764
    }

    /// Runs the systems once in their order, then the barrier. No intent
    /// of any kind is pending afterwards.
    pub fn run_systems(&mut self)
        requires
            old(self).ecs@.map.wf(),
        ensures
            final(self).ecs@ == pipeline(old(self).ecs@),
            final(self).ecs@.no_intents(),
            final(self).ecs@.map.wf(),
    {
        let mut fov = VisibilitySystem {  };
        fov.run(&mut self.ecs);
        let mut map_index = MapIndexingSystem {  };
        map_index.run(&mut self.ecs);
        let mut melee_combat = MeleeCombatSystem {  };
        melee_combat.run(&mut self.ecs);
        let mut damage = DamageSystem {  };
        damage.run(&mut self.ecs);
        let mut inventory = ItemPickupSystem {  };
        inventory.run(&mut self.ecs);
        let mut inventory_use = ItemUseSystem {  };
        inventory_use.run(&mut self.ecs);
        let mut particles = ParticleSpawnSystem {  };
        particles.run(&mut self.ecs);
        let mut trigger = TriggerSystem {  };
        trigger.run(&mut self.ecs);
        self.ecs.maintain();
    }

    /// The live entities that do not come along to the next level.
    pub fn remove_entities_next_level(&self) -> (to_remove: Vec<Entity>)
        ensures
            to_remove@ == left_behind(self.ecs@, self.ecs@.entities.len()),
    {
        let mut to_remove: Vec<Entity> = Vec::new();
        let n: usize = self.ecs.entities.len();
        let mut i: usize = 0;
        while i < n
            invariant
                0 <= i <= n,
                n == self.ecs@.entities.len(),
                to_remove@ == left_behind(self.ecs@, i as nat),
            decreases n - i,
        {
            match self.ecs.entities.entity(i) {
                Some(entity) => {
                    let mut should_remove = true;
                    if entity == self.ecs.active_entity.target {
                        should_remove = false;
                    }
                    match self.ecs.items_owned.get(i) {
                        Some(stored) => {
                            if stored.owner == self.ecs.active_entity.target {
                                should_remove = false;
                            }
                        },
                        None => {},
                    }
                    if should_remove {
                        to_remove.push(entity);
                    }
                },
                None => {},
            }
            i += 1;
        }
        to_remove
    }

    /// Deletes everything that stays behind and runs the barrier.
    pub fn purge_for_next_level(&mut self)
        ensures
            final(self).ecs@ == purged(old(self).ecs@),
    {
        let to_remove = self.remove_entities_next_level();
        let n: usize = to_remove.len();
        let mut k: usize = 0;
        while k < n
            invariant
                0 <= k <= n,
                n == to_remove@.len(),
                self.ecs@ == queued(old(self).ecs@, to_remove@, k as nat),
            decreases n - k,
        {
            self.ecs.delete_entity(to_remove[k]);
            k += 1;
        }
        self.ecs.maintain();
    }

    /// Puts the active entity in the middle of the new level's first room,
    /// marks its viewshed dirty, and logs the descent.
    pub fn arrive(&mut self)
        ensures
            final(self).ecs@ == arrived(old(self).ecs@),
    {
        let active = self.ecs.active_entity.target;
        if self.ecs.entities.is_alive(active) {
            if self.ecs.positions.contains(active.index) && self.ecs.map.rooms.len() > 0 {
                let first: RoomRect = self.ecs.map.rooms[0];
                let (player_x, player_y) = first.center();
                self.ecs.positions.insert(active.index, Position { x: player_x, y: player_y });
            }
            self.ecs.mark_dirty(active.index);
        }
        self.ecs.log.push(portal_message());
    }

    /// Goes one level down: purges what stays behind, generates the next
    /// level, populates every room but the first, and lets the active
    /// entity arrive.
    ///
    /// Whatever the draws, the new level is a sound generated level one
    /// deeper, and the new entities stand on the floors of its later rooms.
    pub fn goto_next_level(&mut self)
        requires
            120 + 2 * old(self).ecs@.map.depth < i32::MAX,
        ensures
            exists|m: MapView, points: Seq<(i32, i32, Seq<char>)>|
                m.generated(old(self).ecs@.map.depth + 1) && level_population(
                    points,
                    m,
                    old(self).ecs@.map.depth + 1,
                ) && final(self).ecs@ == #[trigger] next_level(old(self).ecs@, m, points),
            final(self).ecs@.map.generated(old(self).ecs@.map.depth + 1),
    {
        self.purge_for_next_level();
        let current_depth: i32 = self.ecs.map.depth;
        proof {
            assert(old(self).ecs.entities.slots.len() == old(self).ecs@.entities.len());
            lemma_purged(old(self).ecs@);
        }
        let map = GameMap::generate(current_depth + 1, &mut self.ecs.rng);
        self.ecs.map = map;
        let ghost m = self.ecs@.map;
        let ghost base = self.ecs@;
        let ghost mut points: Seq<(i32, i32, Seq<char>)> = Seq::empty();
        let rooms: usize = self.ecs.map.rooms.len();
        let mut r: usize = 1;
        while r < rooms
            invariant
                1 <= r <= rooms,
                rooms == m.rooms.len(),
                m.generated(current_depth + 1),
                120 + 2 * (current_depth as int) < i32::MAX,
                self.ecs@.map == m,
                in_later_rooms(points, m),
                drawn_from(points, current_depth + 1),
                points.len() <= (r - 1) * room_cap(current_depth + 1),
                current_depth + 1 >= 4 ==> points.len() >= r - 1,
                self.ecs@ == spawned(base, points, points.len()),
            decreases rooms - r,
        {
            let room: RoomRect = self.ecs.map.rooms[r];
            let ghost before = self.ecs@;
            proof {
                assert(m.fits(m.rooms[r as int]));
            }
            spawn_room(&mut self.ecs, &room, current_depth + 1);
            proof {
                let drawn = choose|drawn: Seq<(i32, i32, Seq<char>)>|
                    room_population(drawn, room, current_depth + 1) && self.ecs@
                        == #[trigger] spawned(before, drawn, drawn.len());
                lemma_spawned_concat(base, points, drawn, drawn.len());
                lemma_spawned_keeps_map(before, drawn, drawn.len());
                let level: int = current_depth + 1;
                let all = points + drawn;
                assert forall|k: int| 0 <= k < all.len() implies exists|q: int|
                    1 <= q < m.rooms.len() && (#[trigger] m.rooms[q]).has_floor(
                        (#[trigger] all[k]).0 as int,
                        all[k].1 as int,
                    ) by {
                    if k < points.len() {
                        assert(all[k] == points[k]);
                    } else {
                        assert(all[k] == drawn[k - points.len()]);
                        assert(m.rooms[r as int].has_floor(all[k].0 as int, all[k].1 as int));
                    }
                }
                assert forall|k: int| 0 <= k < all.len() implies crate::spawner::from_table(
                    (#[trigger] all[k]).2,
                    level,
                ) by {
                    if k < points.len() {
                        assert(all[k] == points[k]);
                    } else {
                        assert(all[k] == drawn[k - points.len()]);
                    }
                }
                assert((r - 1) * room_cap(level) + room_cap(level) == r * room_cap(level))
                    by (nonlinear_arith);
                points = all;
            }
            r += 1;
        }
        self.arrive();
        proof {
            assert(self.ecs@ == next_level(old(self).ecs@, m, points));
        }
    }
}

/// Spawning leaves the map and the turn state alone.
pub proof fn lemma_spawned_keeps_map(w: WorldView, points: Seq<(i32, i32, Seq<char>)>, k: nat)
    ensures
        spawned(w, points, k).map == w.map,
        spawned(w, points, k).run_state == w.run_state,
    decreases k,
{
    if k > 0 {
        lemma_spawned_keeps_map(w, points, (k - 1) as nat);
    }
}

/// Whether a tick in state `s` runs the pipeline.
pub open spec fn runs_pipeline(s: RunState) -> bool {
    s == RunState::PreRun || s == RunState::PlayerTurn || s == RunState::MonsterTurn || s
        == RunState::CurseTurn
}

/// The state that follows a pipeline run in state `s`.
pub open spec fn state_after_pipeline(s: RunState) -> RunState {
    match s {
        RunState::PreRun => RunState::AwaitingInput,
        RunState::PlayerTurn => RunState::MonsterTurn,
        RunState::MonsterTurn => RunState::CurseTurn,
        _ => RunState::AwaitingInput,
    }
}

/// Whether the command is the one whose outcome is drawn at random.
pub open spec fn is_change_control(command: Option<Command>) -> bool {
    command matches Some(Command::ChangeControl)
}

/// What a command does to the store, for every command but the change of
/// control, whose outcome is drawn.
pub open spec fn commanded(w: WorldView, command: Option<Command>) -> WorldView {
    match command {
        Some(Command::MoveN) => after_move(w, 0, -1i32),
        Some(Command::MoveS) => after_move(w, 0, 1),
        Some(Command::MoveE) => after_move(w, 1, 0),
        Some(Command::MoveW) => after_move(w, -1i32, 0),
        Some(Command::PickUp) => after_pickup(w),
        Some(Command::UseItem(item)) => after_use(w, item),
        Some(Command::Descend) => after_descend(w),
        _ => w,
    }
}

/// The state that follows a command given while input is awaited. No
/// command, and a command that cannot be carried out, leave the game
/// waiting.
pub open spec fn state_after_command(w: WorldView, command: Option<Command>) -> RunState {
    match command {
        None => RunState::AwaitingInput,
        Some(Command::PickUp) => if item_underfoot(w) is Some {
            RunState::PlayerTurn
        } else {
            RunState::AwaitingInput
        },
        Some(Command::UseItem(_)) => if w.is_alive(w.active()) {
            RunState::PlayerTurn
        } else {
            RunState::AwaitingInput
        },
        Some(Command::Descend) => if on_exit(w) {
            RunState::NextLevel
        } else {
            RunState::AwaitingInput
        },
        Some(_) => RunState::PlayerTurn,
    }
}

/// The frame's opening: particles age, and the expired ones are gone.
pub open spec fn frame_begun(w: WorldView, frame_time_ms: i32) -> WorldView {
    particles_aged(w, frame_time_ms).maintained()
}

/// The frame's close: the new state is set, the dead are swept, and the
/// barrier runs.
pub open spec fn frame_ended(w: WorldView, next: RunState) -> WorldView {
    dead_swept(WorldView { run_state: next, ..w }).maintained()
}

/// Whether the curse left the store as `after`: for some throw of the die
/// and some pick among the possible hosts.
pub open spec fn curse_fell(w: WorldView, after: WorldView) -> bool {
    exists|roll: int, choice: Option<Entity>|
        1 <= roll <= 4 && (choice is Some ==> hosts(w, w.entities.len()).contains(choice->0)) && (
        choice is None <==> hosts(w, w.entities.len()).len() == 0) && after
            == #[trigger] after_curse(w, roll, choice)
}

/// Whether the way down left the store as `after`: for some sound level
/// one deeper and some population of its later rooms.
pub open spec fn went_down(w: WorldView, after: WorldView) -> bool {
    exists|m: MapView, points: Seq<(i32, i32, Seq<char>)>|
        m.generated(w.map.depth + 1) && level_population(points, m, w.map.depth + 1) && after
            == #[trigger] next_level(w, m, points)
}

/// Carries out the player's command, if there is one, and says which state
/// follows.
pub fn player_input(gs: &mut State, command: Option<Command>) -> (next: RunState)
    requires
        old(gs).ecs@.map.wf(),
        old(gs).ecs@.entities.len() < i32::MAX,
    ensures
        next == state_after_command(old(gs).ecs@, command),
        !is_change_control(command) ==> final(gs).ecs@ == commanded(old(gs).ecs@, command),
        is_change_control(command) ==> curse_fell(old(gs).ecs@, final(gs).ecs@),
{
    match command {
        None => RunState::AwaitingInput,
        Some(Command::MoveW) => {
            try_move_player(-1, 0, &mut gs.ecs);
            RunState::PlayerTurn
        },
        Some(Command::MoveE) => {
            try_move_player(1, 0, &mut gs.ecs);
            RunState::PlayerTurn
        },
        Some(Command::MoveN) => {
            try_move_player(0, -1, &mut gs.ecs);
            RunState::PlayerTurn
        },
        Some(Command::MoveS) => {
            try_move_player(0, 1, &mut gs.ecs);
            RunState::PlayerTurn
        },
        Some(Command::PickUp) => {
            if pickup_item(&mut gs.ecs) {
                RunState::PlayerTurn
            } else {
                RunState::AwaitingInput
            }
        },
        Some(Command::UseItem(item)) => {
            if use_item(&mut gs.ecs, item) {
                RunState::PlayerTurn
            } else {
                RunState::AwaitingInput
            }
        },
        Some(Command::Descend) => {
            if try_next_level(&mut gs.ecs) {
                RunState::NextLevel
            } else {
                RunState::AwaitingInput
            }
        },
        Some(Command::ChangeControl) => {
            try_change_control(&mut gs.ecs);
            proof {
                let w = old(gs).ecs@;
                let (roll, choice) = choose|roll: int, choice: Option<Entity>|
                    1 <= roll <= 4 && (choice is Some ==> hosts(w, w.entities.len()).contains(
                        choice->0,
                    )) && (choice is None <==> hosts(w, w.entities.len()).len() == 0) && gs.ecs@
                        == #[trigger] after_curse(w, roll, choice);
            }
            RunState::PlayerTurn
        },
    }
}

impl State {
    /// One tick of the game. Particles age first. Then the state decides:
    /// the pipeline runs, or the player's command is carried out, or the
    /// game goes one level down. Last, the dead are swept.
    pub fn tick(&mut self, command: Option<Command>, frame_time_ms: i32)
        requires
            old(self).ecs@.map.wf(),
            old(self).ecs@.entities.len() < i32::MAX,
            old(self).ecs@.run_state == RunState::NextLevel ==> 120 + 2 * old(self).ecs@.map.depth
                < i32::MAX,
        ensures
            runs_pipeline(old(self).ecs@.run_state) ==> final(self).ecs@ == frame_ended(
                pipeline(frame_begun(old(self).ecs@, frame_time_ms)),
                state_after_pipeline(old(self).ecs@.run_state),
            ),
            old(self).ecs@.run_state == RunState::AwaitingInput && !is_change_control(command)
                ==> final(self).ecs@ == frame_ended(
                commanded(frame_begun(old(self).ecs@, frame_time_ms), command),
                state_after_command(frame_begun(old(self).ecs@, frame_time_ms), command),
            ),
            old(self).ecs@.run_state == RunState::AwaitingInput && is_change_control(command)
                ==> exists|cursed: WorldView|
                curse_fell(frame_begun(old(self).ecs@, frame_time_ms), cursed) && final(self).ecs@
                    == #[trigger] frame_ended(cursed, RunState::PlayerTurn),
            old(self).ecs@.run_state == RunState::NextLevel ==> exists|below: WorldView|
                went_down(frame_begun(old(self).ecs@, frame_time_ms), below) && final(self).ecs@
                    == #[trigger] frame_ended(below, RunState::PreRun),
    {
        remove_particles(&mut self.ecs, frame_time_ms);
        self.ecs.maintain();
        let ghost begun = self.ecs@;
        let runstate: RunState = self.ecs.run_state;
        let newrunstate: RunState = match runstate {
            RunState::PreRun => {
                self.run_systems();
                RunState::AwaitingInput
            },
            RunState::AwaitingInput => player_input(self, command),
            RunState::PlayerTurn => {
                self.run_systems();
                RunState::MonsterTurn
            },
            RunState::MonsterTurn => {
                self.run_systems();
                RunState::CurseTurn
            },
            RunState::CurseTurn => {
                self.run_systems();
                RunState::AwaitingInput
            },
            RunState::NextLevel => {
                self.goto_next_level();
                RunState::PreRun
            },
        };
        let ghost stepped = self.ecs@;
        self.ecs.run_state = newrunstate;
        delete_the_dead(&mut self.ecs);
        self.ecs.maintain();
        proof {
            assert(self.ecs@ == frame_ended(stepped, newrunstate));
            if runstate == RunState::NextLevel {
                assert(went_down(begun, stepped));
            }
            if runstate == RunState::AwaitingInput && is_change_control(command) {
                assert(curse_fell(begun, stepped));
            }
        }
    }
}

/// After a pass of the pipeline no intent of any kind is pending, whatever
/// the store held before: each kind is cleared by its system, and no system
/// adds an intent.
pub proof fn lemma_pipeline_clears_intents(w: WorldView)
    ensures
        pipeline(w).no_intents(),
{
    let looked = visibility_refreshed(w);
    let indexed = map_indexed(looked);
    let fought = melee_combat(indexed);
    let hurt = damage_applied(fought);
    let picked = items_picked_up(hurt);
    let used = items_used(picked);
    let shown = particles_spawned(used);
    let sprung = triggers_sprung(shown);
    crate::systems::melee_combat::lemma_melee_combat_adds_no_intent(indexed);
    crate::systems::damage::lemma_damage_applied_adds_no_intent(fought);
    crate::systems::inventory::lemma_items_picked_up_adds_no_intent(hurt);
    crate::systems::inventory::lemma_items_used_adds_no_intent(picked);
    crate::systems::particle::lemma_particles_spawned_adds_no_intent(used);
    crate::systems::trigger::lemma_triggers_sprung_adds_no_intent(shown);
    crate::world::lemma_intents_from(hurt, fought);
    crate::world::lemma_intents_from(picked, hurt);
    crate::world::lemma_intents_from(used, picked);
    crate::world::lemma_intents_from(shown, used);
    crate::world::lemma_intents_from(sprung, shown);
}

} // verus!

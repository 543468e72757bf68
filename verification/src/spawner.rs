//! What a level is populated with: the hero, monsters, potions and traps,
//! and the weighted table that picks among them.

use vstd::prelude::*;
use vstd::string::StringExecFns;
use bracket_lib::random::RandomNumberGenerator;
use crate::components::{
    BlocksTile, CombatStats, Consumable, Controllable, EntryTrigger, Heals, InflictsDamage, Item,
    Mob, Name, Player, PoolStats, Position, Renderable, SinglePoolStat, Viewshed, ViewshedView,
};
use crate::entity::{after_create, lemma_create_is_fresh, next_entity, Entity};
use crate::glyphs::{cp437, to_cp437, BLACK, MAGENTA, RED, YELLOW};
use crate::map::RoomRect;
use crate::rng::roll_dice;
use crate::table::{
    lemma_pick_is_an_entry, lemma_weight_grows, picked, weight_before, weights_positive,
    RandomTable,
};
use crate::world::{World, WorldView};

verus! {

/// Most spawns that a room gets on the first level. Each level deeper
/// allows one more.
pub const MAX_MONSTERS: i32 = 4;

/// The hero: controllable, blocking, with sight and full stats.
pub open spec fn with_player(w: WorldView, x: i32, y: i32) -> WorldView {
    let i = next_entity(w.entities).index as int;
    let c = w.with_created();
    WorldView {
        players: c.players.insert(i, Player {  }),
        controllables: c.controllables.insert(i, Controllable { current: true }),
        positions: c.positions.insert(i, Position { x, y }),
        names: c.names.insert(i, "Player"@),
        blockers: c.blockers.insert(i, BlocksTile {  }),
        viewsheds: c.viewsheds.insert(
            i,
            ViewshedView { visible_tiles: Set::empty(), range: 8, dirty: true },
        ),
        renderables: c.renderables.insert(
            i,
            Renderable { glyph: cp437('@'), fg: YELLOW, bg: BLACK, render_order: 0 },
        ),
        combat_stats: c.combat_stats.insert(i, CombatStats { attack: 10, defense: 10, evade: 0 }),
        pool_stats: c.pool_stats.insert(
            i,
            PoolStats { hp: SinglePoolStat { current: 25, max: 25 }, xp: 0, level: 1, gold: 0 },
        ),
        ..c
    }
}

/// A monster with the given look and name.
pub open spec fn with_monster(w: WorldView, x: i32, y: i32, glyph: u16, name: Seq<char>) -> WorldView {
    let i = next_entity(w.entities).index as int;
    let c = w.with_created();
    WorldView {
        positions: c.positions.insert(i, Position { x, y }),
        renderables: c.renderables.insert(
            i,
            Renderable { glyph, fg: RED, bg: BLACK, render_order: 1 },
        ),
        viewsheds: c.viewsheds.insert(
            i,
            ViewshedView { visible_tiles: Set::empty(), range: 8, dirty: true },
        ),
        mobs: c.mobs.insert(i, Mob {  }),
        controllables: c.controllables.insert(i, Controllable { current: false }),
        names: c.names.insert(i, name),
        blockers: c.blockers.insert(i, BlocksTile {  }),
        combat_stats: c.combat_stats.insert(i, CombatStats { attack: 5, defense: 5, evade: 0 }),
        pool_stats: c.pool_stats.insert(
            i,
            PoolStats { hp: SinglePoolStat { current: 8, max: 8 }, xp: 0, level: 1, gold: 0 },
        ),
        ..c
    }
}

/// A potion that heals 8 hit points once.
pub open spec fn with_health_potion(w: WorldView, x: i32, y: i32) -> WorldView {
    let i = next_entity(w.entities).index as int;
    let c = w.with_created();
    WorldView {
        positions: c.positions.insert(i, Position { x, y }),
        renderables: c.renderables.insert(
            i,
            Renderable { glyph: cp437('\u{A1}'), fg: MAGENTA, bg: BLACK, render_order: 2 },
        ),
        names: c.names.insert(i, "Health Potion"@),
        items: c.items.insert(i, Item {  }),
        consumables: c.consumables.insert(i, Consumable { charges: 1 }),
        heals: c.heals.insert(i, Heals { amount: 8 }),
        ..c
    }
}

/// A trap that deals 6 damage to whoever steps on it.
pub open spec fn with_spike_trap(w: WorldView, x: i32, y: i32) -> WorldView {
    let i = next_entity(w.entities).index as int;
    let c = w.with_created();
    WorldView {
        positions: c.positions.insert(i, Position { x, y }),
        renderables: c.renderables.insert(
            i,
            Renderable { glyph: cp437('^'), fg: RED, bg: BLACK, render_order: 2 },
        ),
        entry_triggers: c.entry_triggers.insert(i, EntryTrigger {  }),
        inflicts_damage: c.inflicts_damage.insert(i, InflictsDamage { amount: 6 }),
        names: c.names.insert(i, "Spike Trap"@),
        ..c
    }
}

/// What spawning the kind called `kind` at `(x, y)` does. An unknown kind
/// spawns nothing.
pub open spec fn with_spawn(w: WorldView, x: i32, y: i32, kind: Seq<char>) -> WorldView {
    if kind == "Goblin"@ {
        with_monster(w, x, y, cp437('g'), "Goblin"@)
    } else if kind == "Orc"@ {
        with_monster(w, x, y, cp437('o'), "Orc"@)
    } else if kind == "Health Potion"@ {
        with_health_potion(w, x, y)
    } else if kind == "Spike Trap"@ {
        with_spike_trap(w, x, y)
    } else {
        w
    }
}

fn fresh_viewshed() -> (v: Viewshed)
    ensures
        v@ == (ViewshedView { visible_tiles: Set::empty(), range: 8, dirty: true }),
{
    let v = Viewshed { visible_tiles: Vec::new(), range: 8, dirty: true };
    assert(v@.visible_tiles =~= Set::empty());
    v
}

/// Creates the hero at `(x, y)`.
pub fn player(ecs: &mut World, x: i32, y: i32) -> (e: Entity)
    ensures
        e == next_entity(old(ecs)@.entities),
        final(ecs)@ == with_player(old(ecs)@, x, y),
        final(ecs)@.is_alive(e),
{
    let e = ecs.create_entity();
    let i: usize = e.index;
    ecs.players.insert(i, Player {  });
    ecs.controllables.insert(i, Controllable { current: true });
    ecs.positions.insert(i, Position { x, y });
    ecs.names.insert(i, Name { name: String::from_str("Player") });
    ecs.blockers.insert(i, BlocksTile {  });
    ecs.viewsheds.insert(i, fresh_viewshed());
    ecs.renderables.insert(
        i,
        Renderable { glyph: to_cp437('@'), fg: YELLOW, bg: BLACK, render_order: 0 },
    );
    ecs.combat_stats.insert(i, CombatStats { attack: 10, defense: 10, evade: 0 });
    ecs.pool_stats.insert(
        i,
        PoolStats { hp: SinglePoolStat { current: 25, max: 25 }, xp: 0, level: 1, gold: 0 },
    );
    e
}

/// Creates a monster at `(x, y)`.
pub fn monster(ecs: &mut World, x: i32, y: i32, glyph: u16, name: &str)
    ensures
        final(ecs)@ == with_monster(old(ecs)@, x, y, glyph, name@),
{
    let e = ecs.create_entity();
    let i: usize = e.index;
    ecs.positions.insert(i, Position { x, y });
    ecs.renderables.insert(i, Renderable { glyph, fg: RED, bg: BLACK, render_order: 1 });
    ecs.viewsheds.insert(i, fresh_viewshed());
    ecs.mobs.insert(i, Mob {  });
    ecs.controllables.insert(i, Controllable { current: false });
    ecs.names.insert(i, Name { name: String::from_str(name) });
    ecs.blockers.insert(i, BlocksTile {  });
    ecs.combat_stats.insert(i, CombatStats { attack: 5, defense: 5, evade: 0 });
    ecs.pool_stats.insert(
        i,
        PoolStats { hp: SinglePoolStat { current: 8, max: 8 }, xp: 0, level: 1, gold: 0 },
    );
}

/// Creates an orc at `(x, y)`.
pub fn orc(ecs: &mut World, x: i32, y: i32)
    ensures
        final(ecs)@ == with_monster(old(ecs)@, x, y, cp437('o'), "Orc"@),
{
    monster(ecs, x, y, to_cp437('o'), "Orc");
}

/// Creates a goblin at `(x, y)`.
pub fn goblin(ecs: &mut World, x: i32, y: i32)
    ensures
        final(ecs)@ == with_monster(old(ecs)@, x, y, cp437('g'), "Goblin"@),
{
    monster(ecs, x, y, to_cp437('g'), "Goblin");
}

/// Creates a health potion at `(x, y)`.
pub fn health_potion(ecs: &mut World, x: i32, y: i32)
    ensures
        final(ecs)@ == with_health_potion(old(ecs)@, x, y),
{
    let e = ecs.create_entity();
    let i: usize = e.index;
    ecs.positions.insert(i, Position { x, y });
    ecs.renderables.insert(
        i,
        Renderable { glyph: to_cp437('\u{A1}'), fg: MAGENTA, bg: BLACK, render_order: 2 },
    );
    ecs.names.insert(i, Name { name: String::from_str("Health Potion") });
    ecs.items.insert(i, Item {  });
    ecs.consumables.insert(i, Consumable { charges: 1 });
    ecs.heals.insert(i, Heals { amount: 8 });
}

/// Creates a spike trap at `(x, y)`.
pub fn spike_trap(ecs: &mut World, x: i32, y: i32)
    ensures
        final(ecs)@ == with_spike_trap(old(ecs)@, x, y),
{
    let e = ecs.create_entity();
    let i: usize = e.index;
    ecs.positions.insert(i, Position { x, y });
    ecs.renderables.insert(
        i,
        Renderable { glyph: to_cp437('^'), fg: RED, bg: BLACK, render_order: 2 },
    );
    ecs.entry_triggers.insert(i, EntryTrigger {  });
    ecs.inflicts_damage.insert(i, InflictsDamage { amount: 6 });
    ecs.names.insert(i, Name { name: String::from_str("Spike Trap") });
}

/// Spawns the kind called `kind` at `(x, y)`.
pub fn spawn_entity(ecs: &mut World, x: i32, y: i32, kind: &String)
    ensures
        final(ecs)@ == with_spawn(old(ecs)@, x, y, kind@),
{
    if *kind == String::from_str("Goblin") {
        goblin(ecs, x, y);
    } else if *kind == String::from_str("Orc") {
        orc(ecs, x, y);
    } else if *kind == String::from_str("Health Potion") {
        health_potion(ecs, x, y);
    } else if *kind == String::from_str("Spike Trap") {
        spike_trap(ecs, x, y);
    }
}

/// A kind to spawn and the cell to spawn it on.
pub struct SpawnPoint {
    pub x: i32,
    pub y: i32,
    pub kind: String,
}

impl View for SpawnPoint {
    type V = (i32, i32, Seq<char>);

    open spec fn view(&self) -> (i32, i32, Seq<char>) {
        (self.x, self.y, self.kind@)
    }
}

/// The points as mathematics.
pub open spec fn points_view(points: Seq<SpawnPoint>) -> Seq<(i32, i32, Seq<char>)> {
    Seq::new(points.len(), |i: int| points[i]@)
}

/// The first `k` points spawned, in order.
pub open spec fn spawned(w: WorldView, points: Seq<(i32, i32, Seq<char>)>, k: nat) -> WorldView
    decreases k,
{
    if k == 0 {
        w
    } else {
        with_spawn(
            spawned(w, points, (k - 1) as nat),
            points[k - 1].0,
            points[k - 1].1,
            points[k - 1].2,
        )
    }
}

/// Every point lies on the floor of `room`, and no two share a cell.
pub open spec fn placed_in(points: Seq<(i32, i32, Seq<char>)>, room: RoomRect) -> bool {
    &&& forall|k: int|
        0 <= k < points.len() ==> room.has_floor(
            (#[trigger] points[k]).0 as int,
            points[k].1 as int,
        )
    &&& forall|j: int, k: int|
        0 <= j < k < points.len() ==> !((#[trigger] points[j]).0 == (#[trigger] points[k]).0
            && points[j].1 == points[k].1)
}

/// What a room at `depth` is populated from: goblins, fewer orcs, potions,
/// and a great many traps, the orcs and traps growing with depth.
pub open spec fn room_table(depth: int) -> Seq<(Seq<char>, int)> {
    let goblins = seq![("Goblin"@, 10int)];
    let orcs = if 1 + depth > 0 {
        goblins.push(("Orc"@, 1 + depth))
    } else {
        goblins
    };
    let potions = orcs.push(("Health Potion"@, 7int));
    if 100 + depth > 0 {
        potions.push(("Spike Trap"@, 100 + depth))
    } else {
        potions
    }
}

/// Whether `kind` is what some roll on the table for `depth` picks.
pub open spec fn from_table(kind: Seq<char>, depth: int) -> bool {
    exists|roll: int|
        0 <= roll < weight_before(room_table(depth), room_table(depth).len() as int) && kind
            == #[trigger] picked(room_table(depth), roll)
}

/// Whether every point's kind is one that the table for `depth` picks.
pub open spec fn drawn_from(points: Seq<(i32, i32, Seq<char>)>, depth: int) -> bool {
    forall|k: int| 0 <= k < points.len() ==> from_table((#[trigger] points[k]).2, depth)
}

/// The table for a room has only positive weights, which sum to ten at
/// least: something can always be drawn.
pub proof fn lemma_room_table(depth: int)
    ensures
        weights_positive(room_table(depth)),
        weight_before(room_table(depth), room_table(depth).len() as int) >= 10,
{
    let t = room_table(depth);
    assert(t[0] == ("Goblin"@, 10int));
    assert forall|k: int| 0 <= k < t.len() implies (#[trigger] t[k]).1 > 0 by {
        if 1 + depth > 0 {
            assert(t[1] == ("Orc"@, 1 + depth));
            assert(t[2] == ("Health Potion"@, 7int));
            if 100 + depth > 0 {
                assert(t[3] == ("Spike Trap"@, 100 + depth));
            }
        } else {
            assert(t[1] == ("Health Potion"@, 7int));
            if 100 + depth > 0 {
                assert(t[2] == ("Spike Trap"@, 100 + depth));
            }
        }
    }
    assert(weight_before(t, 1) == weight_before(t, 0) + t[0].1);
    assert(weight_before(t, 0) == 0);
    lemma_weight_grows(t, 1, t.len() as int);
}

/// The table for a room at `depth`.
pub fn room_random_table(depth: i32) -> (table: RandomTable)
    requires
        118 + 2 * depth < i32::MAX,
    ensures
        table@ == room_table(depth as int),
{
    let goblins = RandomTable::new().add("Goblin", 10);
    assert(goblins@ =~= seq![("Goblin"@, 10int)]);
    goblins.add("Orc", 1 + depth).add("Health Potion", 7).add("Spike Trap", 100 + depth)
}

/// Spawns every point, in order.
pub fn place_spawns(ecs: &mut World, points: &Vec<SpawnPoint>)
    ensures
        final(ecs)@ == spawned(old(ecs)@, points_view(points@), points@.len()),
{
    let n: usize = points.len();
    let mut k: usize = 0;
    while k < n
        invariant
            0 <= k <= n,
            n == points@.len(),
            ecs@ == spawned(old(ecs)@, points_view(points@), k as nat),
        decreases n - k,
    {
        spawn_entity(ecs, points[k].x, points[k].y, &points[k].kind);
        k += 1;
    }
}

fn is_taken(points: &Vec<SpawnPoint>, x: i32, y: i32) -> (taken: bool)
    ensures
        taken == exists|k: int| 0 <= k < points@.len() && points@[k].x == x && points@[k].y == y,
{
    let n: usize = points.len();
    let mut k: usize = 0;
    while k < n
        invariant
            0 <= k <= n,
            n == points@.len(),
            forall|j: int| 0 <= j < k ==> !(points@[j].x == x && points@[j].y == y),
        decreases n - k,
    {
        if points[k].x == x && points[k].y == y {
            return true;
        }
        k += 1;
    }
    false
}

/// Draws what to spawn in `room` at `depth`: as many points as a die asks
/// for, at least one from depth four on, each on the room's floor and of a
/// kind from the table, no two on one cell. A taken cell costs one try of 20.
pub fn roll_spawn_points(rng: &mut RandomNumberGenerator, room: &RoomRect, depth: i32) -> (points:
    Vec<SpawnPoint>)
    requires
        room.x1 < room.x2,
        room.y1 < room.y2,
        room.x2 - room.x1 < i32::MAX,
        room.y2 - room.y1 < i32::MAX,
        118 + 2 * depth < i32::MAX,
    ensures
        placed_in(points_view(points@), *room),
        drawn_from(points_view(points@), depth as int),
        points@.len() == 0 || points@.len() <= MAX_MONSTERS - 1 + depth,
        spawn_count_fits(points@.len() as int, depth as int),
        depth >= 4 ==> points@.len() >= 1,
{
    let spawn_table = room_random_table(depth);
    let mut points: Vec<SpawnPoint> = Vec::new();
    let die: i32 = roll_dice(rng, 1, MAX_MONSTERS + 3);
    let num_spawns: i64 = die as i64 + (depth as i64 - 1) - 3;
    let mut made: i64 = 0;
    while made < num_spawns
        invariant
            made >= 1 ==> points@.len() >= 1,
            room.x1 < room.x2,
            room.y1 < room.y2,
            room.x2 - room.x1 < i32::MAX,
            room.y2 - room.y1 < i32::MAX,
            num_spawns <= MAX_MONSTERS - 1 + depth,
            0 <= made,
            points@.len() <= made,
            made <= num_spawns || made == 0,
            placed_in(points_view(points@), *room),
            drawn_from(points_view(points@), depth as int),
            spawn_table@ == room_table(depth as int),
        decreases num_spawns - made,
    {
        let mut added = false;
        let mut tries: i32 = 0;
        while !added && tries < 20
            invariant
                room.x1 < room.x2,
                room.y1 < room.y2,
                room.x2 - room.x1 < i32::MAX,
                room.y2 - room.y1 < i32::MAX,
                0 <= tries <= 20,
                0 <= made < num_spawns,
                (added || tries > 0 || made >= 1) ==> points@.len() >= 1,
                points@.len() <= made + if added {
                    1int
                } else {
                    0int
                },
                placed_in(points_view(points@), *room),
                drawn_from(points_view(points@), depth as int),
                spawn_table@ == room_table(depth as int),
            decreases
                    if added {
                        0int
                    } else {
                        1int
                    },
                    20 - tries,
        {
            let x: i32 = room.x1 + roll_dice(rng, 1, room.x2 - room.x1);
            let y: i32 = room.y1 + roll_dice(rng, 1, room.y2 - room.y1);
            if !is_taken(&points, x, y) {
                let kind = spawn_table.roll(rng);
                let ghost before = points_view(points@);
                points.push(SpawnPoint { x, y, kind });
                proof {
                    let after = points_view(points@);
                    assert(after =~= before.push((x, y, kind@)));
                    assert forall|j: int, k: int| 0 <= j < k < after.len() implies !((
                    #[trigger] after[j]).0 == (#[trigger] after[k]).0 && after[j].1
                        == after[k].1) by {
                        if k < before.len() {
                            assert(after[j] == before[j] && after[k] == before[k]);
                        } else {
                            assert(after[j] == points@[j]@);
                        }
                    }
                    assert forall|k: int| 0 <= k < after.len() implies room.has_floor(
                        (#[trigger] after[k]).0 as int,
                        after[k].1 as int,
                    ) by {
                        if k < before.len() {
                            assert(after[k] == before[k]);
                        }
                    }
                    lemma_room_table(depth as int);
                    assert forall|k: int| 0 <= k < after.len() implies from_table(
                        (#[trigger] after[k]).2,
                        depth as int,
                    ) by {
                        if k < before.len() {
                            assert(after[k] == before[k]);
                        }
                    }
                }
                added = true;
            } else {
                tries += 1;
            }
        }
        made += 1;
    }
    proof {
        assert(num_spawns == spawns_wanted(die as int, depth as int));
        assert(1 <= die <= MAX_MONSTERS + 3);
    }
    points
}

/// How many points a room at `depth` is meant to get when the die shows
/// `die`. It may be none, or fewer than none.
pub open spec fn spawns_wanted(die: int, depth: int) -> int {
    die + (depth - 1) - 3
}

/// Whether `count` points can come of some throw of the die at `depth`:
/// none if none are wanted, and otherwise at least one, since the first
/// draw always finds its cell free, and no more than are wanted.
pub open spec fn spawn_count_fits(count: int, depth: int) -> bool {
    exists|die: int|
        {
            &&& 1 <= die <= MAX_MONSTERS + 3
            &&& #[trigger] spawns_wanted(die, depth) <= 0 ==> count == 0
            &&& spawns_wanted(die, depth) >= 1 ==> 1 <= count <= spawns_wanted(die, depth)
        }
}

/// Whether `points` can be what is drawn for `room` at `depth`: every
/// point on the room's floor and of a kind from the table, no two on one
/// cell, as many as some throw of the die allows, and so at least one from
/// depth four on.
pub open spec fn room_population(points: Seq<(i32, i32, Seq<char>)>, room: RoomRect, depth: int) -> bool {
    &&& placed_in(points, room)
    &&& drawn_from(points, depth)
    &&& points.len() == 0 || points.len() <= MAX_MONSTERS - 1 + depth
    &&& spawn_count_fits(points.len() as int, depth)
    &&& depth >= 4 ==> points.len() >= 1
}

/// Whether `kind` names something that can be spawned.
pub open spec fn is_spawnable(kind: Seq<char>) -> bool {
    kind == "Goblin"@ || kind == "Orc"@ || kind == "Health Potion"@ || kind == "Spike Trap"@
}

/// The table for a room never gives the name that stands for nothing:
/// whatever is rolled on it can be spawned.
pub proof fn lemma_from_table_is_spawnable(kind: Seq<char>, depth: int)
    requires
        from_table(kind, depth),
    ensures
        is_spawnable(kind),
{
    let t = room_table(depth);
    lemma_room_table(depth);
    let roll = choose|roll: int|
        0 <= roll < weight_before(t, t.len() as int) && kind == #[trigger] picked(t, roll);
    lemma_pick_is_an_entry(t, roll, 0);
    let k = choose|k: int| 0 <= k < t.len() && picked(t, roll) == t[k].0;
    assert(t[0] == ("Goblin"@, 10int));
    if 1 + depth > 0 {
        assert(t[1] == ("Orc"@, 1 + depth));
        assert(t[2] == ("Health Potion"@, 7int));
        if 100 + depth > 0 {
            assert(t[3] == ("Spike Trap"@, 100 + depth));
        }
    } else {
        assert(t[1] == ("Health Potion"@, 7int));
        if 100 + depth > 0 {
            assert(t[2] == ("Spike Trap"@, 100 + depth));
        }
    }
}

/// Every point drawn from the table makes an entity: the store grows by the
/// handle that the next creation issues, and that handle is live.
pub proof fn lemma_spawn_creates(w: WorldView, x: i32, y: i32, kind: Seq<char>, depth: int)
    requires
        from_table(kind, depth),
        w.entities.len() <= usize::MAX,
    ensures
        with_spawn(w, x, y, kind).entities == after_create(w.entities),
        with_spawn(w, x, y, kind).is_alive(next_entity(w.entities)),
        !w.is_alive(next_entity(w.entities)),
{
    lemma_from_table_is_spawnable(kind, depth);
    lemma_create_is_fresh(w.entities);
}

/// Spawning points drawn from the table only adds to the store: whoever
/// was alive stays alive, and if there is a point at all, the handle that
/// the next creation issues, dead before, is alive after.
pub proof fn lemma_spawned_grows(
    w: WorldView,
    points: Seq<(i32, i32, Seq<char>)>,
    k: nat,
    depth: int,
)
    requires
        drawn_from(points, depth),
        k <= points.len(),
        w.entities.len() + k <= usize::MAX,
    ensures
        spawned(w, points, k).entities.len() <= w.entities.len() + k,
        forall|e: Entity| w.is_alive(e) ==> #[trigger] spawned(w, points, k).is_alive(e),
        k >= 1 ==> spawned(w, points, k).is_alive(next_entity(w.entities)),
        k >= 1 ==> !w.is_alive(next_entity(w.entities)),
    decreases k,
{
    if k > 0 {
        lemma_spawned_grows(w, points, (k - 1) as nat, depth);
        let before = spawned(w, points, (k - 1) as nat);
        let p = points[k - 1];
        assert(from_table(p.2, depth));
        lemma_spawn_creates(before, p.0, p.1, p.2, depth);
        lemma_create_is_fresh(before.entities);
        lemma_create_is_fresh(w.entities);
        assert forall|e: Entity| w.is_alive(e) implies #[trigger] spawned(w, points, k).is_alive(
            e,
        ) by {
            assert(before.is_alive(e));
        }
    }
}

/// Populates `room`: draws the spawn points and spawns them in the order
/// drawn. Whatever the draws, the new entities stand on the room's floor,
/// no two on one cell, there is at least one of them from depth four on,
/// and nothing else in the store changes.
pub fn spawn_room(ecs: &mut World, room: &RoomRect, depth: i32)
    requires
        room.x1 < room.x2,
        room.y1 < room.y2,
        room.x2 - room.x1 < i32::MAX,
        room.y2 - room.y1 < i32::MAX,
        118 + 2 * depth < i32::MAX,
    ensures
        exists|points: Seq<(i32, i32, Seq<char>)>|
            room_population(points, *room, depth as int) && final(ecs)@ == #[trigger] spawned(
                old(ecs)@,
                points,
                points.len(),
            ),
{
    let points = roll_spawn_points(&mut ecs.rng, room, depth);
    place_spawns(ecs, &points);
    proof {
        let drawn = points_view(points@);
        assert(room_population(drawn, *room, depth as int));
        assert(ecs@ == spawned(old(ecs)@, drawn, drawn.len()));
    }
}

} // verus!

//! What the renderer, the pathfinder and the HUD read off the store.

use vstd::prelude::*;
use crate::components::{Position, Renderable};
use crate::entity::Entity;
use crate::map::{lemma_cell_index, lemma_cell_of_index, GameMap, MapView, TileType};
use crate::world::{World, WorldView};

verus! {

/// Glyph of a wall nobody has seen a neighbour of.
pub const PILLAR: u16 = 9;

/// Glyph of a wall on the rim of the map.
pub const RIM: u16 = 35;

impl MapView {
    /// Whether `(x, y)` is a wall that has been revealed.
    pub open spec fn revealed_wall(self, x: int, y: int) -> bool {
        self.tile(x, y) == TileType::Wall && self.revealed_tiles[self.idx(x, y)]
    }

    /// Which of the four neighbours of `(x, y)` are revealed walls: one for
    /// north, two for south, four for west, eight for east, added up.
    pub open spec fn wall_mask(self, x: int, y: int) -> int {
        (if self.revealed_wall(x, y - 1) {
            1int
        } else {
            0int
        }) + (if self.revealed_wall(x, y + 1) {
            2int
        } else {
            0int
        }) + (if self.revealed_wall(x - 1, y) {
            4int
        } else {
            0int
        }) + (if self.revealed_wall(x + 1, y) {
            8int
        } else {
            0int
        })
    }

    /// The box-drawing glyph for a wall at `(x, y)`, which joins up with
    /// the revealed walls next to it.
    pub open spec fn wall_glyph(self, x: int, y: int) -> u16 {
        if x < 1 || x > self.width - 2 || y < 1 || y > self.height - 2 {
            RIM
        } else {
            glyph_of_mask(self.wall_mask(x, y))
        }
    }

    /// The tiles that can be stepped onto from the cell at index `i`: west,
    /// east, north, south, in that order, each only if it is a valid exit.
    pub open spec fn exits(self, i: int) -> Seq<int> {
        let x = self.col(i);
        let y = self.row(i);
        let west = if self.exit_valid(x - 1, y) {
            seq![i - 1]
        } else {
            Seq::empty()
        };
        let east = if self.exit_valid(x + 1, y) {
            west.push(i + 1)
        } else {
            west
        };
        let north = if self.exit_valid(x, y - 1) {
            east.push(i - self.width)
        } else {
            east
        };
        if self.exit_valid(x, y + 1) {
            north.push(i + self.width)
        } else {
            north
        }
    }
}

/// The glyph for each combination of neighbouring walls.
pub open spec fn glyph_of_mask(mask: int) -> u16 {
    if mask == 0 {
        PILLAR
    } else if mask == 1 || mask == 2 || mask == 3 {
        186
    } else if mask == 4 || mask == 8 || mask == 12 {
        205
    } else if mask == 5 {
        188
    } else if mask == 6 {
        187
    } else if mask == 7 {
        185
    } else if mask == 9 {
        200
    } else if mask == 10 {
        201
    } else if mask == 11 {
        204
    } else if mask == 13 {
        202
    } else if mask == 14 {
        203
    } else if mask == 15 {
        206
    } else {
        RIM
    }
}

/// Whether `(x, y)` is a wall that has been revealed.
pub fn is_revealed_and_wall(map: &GameMap, x: i32, y: i32) -> (r: bool)
    requires
        map@.wf(),
        map@.in_bounds(x as int, y as int),
    ensures
        r == map@.revealed_wall(x as int, y as int),
{
    let idx = map.xy_idx(x, y);
    map.tiles[idx] == TileType::Wall && map.revealed_tiles[idx]
}

/// The glyph to draw for a wall at `(x, y)`.
pub fn wall_glyph(map: &GameMap, x: i32, y: i32) -> (glyph: u16)
    requires
        map@.wf(),
    ensures
        glyph == map@.wall_glyph(x as int, y as int),
{
    if x < 1 || x > map.width - 2 || y < 1 || y > map.height - 2 {
        return 35;
    }
    let mut mask: u8 = 0;
    if is_revealed_and_wall(map, x, y - 1) {
        mask += 1;
    }
    if is_revealed_and_wall(map, x, y + 1) {
        mask += 2;
    }
    if is_revealed_and_wall(map, x - 1, y) {
        mask += 4;
    }
    if is_revealed_and_wall(map, x + 1, y) {
        mask += 8;
    }
    match mask {
        0 => 9,
        1 => 186,
        2 => 186,
        3 => 186,
        4 => 205,
        5 => 188,
        6 => 187,
        7 => 185,
        8 => 205,
        9 => 200,
        10 => 201,
        11 => 204,
        12 => 205,
        13 => 202,
        14 => 203,
        15 => 206,
        _ => 35,
    }
}

/// The tiles that can be stepped onto from the tile at `idx`.
pub fn available_exits(map: &GameMap, idx: usize) -> (exits: Vec<usize>)
    requires
        map@.wf(),
        idx < map@.tiles.len(),
    ensures
        exits@.len() == map@.exits(idx as int).len(),
        forall|k: int| 0 <= k < exits@.len() ==> #[trigger] exits@[k] == map@.exits(idx as int)[k],
{
    let mut exits: Vec<usize> = Vec::new();
    let w: usize = map.width as usize;
    let x: i32 = (idx % w) as i32;
    let y: i32 = (idx / w) as i32;
    proof {
        lemma_cell_of_index(map@.width, idx as int);
        assert(0 <= y) by (nonlinear_arith)
            requires
                0 <= idx,
                0 < w,
                y == idx as int / w as int,
        ;
        if y >= map@.height {
            assert(y * map@.width >= map@.height * map@.width) by (nonlinear_arith)
                requires
                    y >= map@.height,
                    map@.width > 0,
            ;
        }
    }
    if map.is_exit_valid(x - 1, y) {
        exits.push(idx - 1);
    }
    if map.is_exit_valid(x + 1, y) {
        proof {
            lemma_cell_index(map@.width, map@.height, x + 1, y as int);
        }
        exits.push(idx + 1);
    }
    if map.is_exit_valid(x, y - 1) {
        proof {
            lemma_cell_index(map@.width, map@.height, x as int, y - 1);
            assert(y * map@.width >= map@.width) by (nonlinear_arith)
                requires
                    y >= 1,
                    map@.width > 0,
            ;
        }
        exits.push(idx - w);
    }
    if map.is_exit_valid(x, y + 1) {
        proof {
            lemma_cell_index(map@.width, map@.height, x as int, y + 1);
        }
        exits.push(idx + w);
    }
    exits
}

/// Whether the entity in slot `i` is carried by `owner` and has a name to
/// list it under.
pub open spec fn carried_by(w: WorldView, owner: Entity, i: int) -> bool {
    &&& w.alive(i)
    &&& w.items_owned.contains_key(i)
    &&& w.names.contains_key(i)
    &&& w.items_owned[i].owner == owner
}

/// What `owner` carries among the first `n` slots, in slot order.
pub open spec fn backpack(w: WorldView, owner: Entity, n: nat) -> Seq<Entity>
    decreases n,
{
    if n == 0 {
        Seq::empty()
    } else if carried_by(w, owner, n - 1) {
        backpack(w, owner, (n - 1) as nat).push(w.handle(n - 1))
    } else {
        backpack(w, owner, (n - 1) as nat)
    }
}

/// The named items that `owner` carries, in slot order.
pub fn inventory(ecs: &World, owner: Entity) -> (items: Vec<Entity>)
    ensures
        items@ == backpack(ecs@, owner, ecs@.entities.len()),
{
    let mut items: Vec<Entity> = Vec::new();
    let n: usize = ecs.entities.len();
    let mut i: usize = 0;
    while i < n
        invariant
            0 <= i <= n,
            n == ecs@.entities.len(),
            items@ == backpack(ecs@, owner, i as nat),
        decreases n - i,
    {
        match ecs.entities.entity(i) {
            Some(e) => {
                match ecs.items_owned.get(i) {
                    Some(stored) => {
                        if stored.owner == owner && ecs.names.contains(i) {
                            items.push(e);
                        }
                    },
                    None => {},
                }
            },
            None => {},
        }
        i += 1;
    }
    items
}

/// Whether the entity in slot `i` is drawn: it is alive, has a look, and
/// stands on a tile that is visible now.
pub open spec fn shown(w: WorldView, i: int) -> bool {
    &&& w.alive(i)
    &&& w.positions.contains_key(i)
    &&& w.renderables.contains_key(i)
    &&& w.map.in_bounds(w.positions[i].x as int, w.positions[i].y as int)
    &&& w.map.visible_tiles[w.map.idx(w.positions[i].x as int, w.positions[i].y as int)]
}

/// Where something of render order `order` goes into a list drawn in
/// falling order: before the first entry, from `from` on, of a lower order.
pub open spec fn place_for(list: Seq<(Position, Renderable)>, order: i32, from: int) -> int
    decreases list.len() - from,
{
    if from < 0 || from >= list.len() {
        list.len() as int
    } else if list[from].1.render_order < order {
        from
    } else {
        place_for(list, order, from + 1)
    }
}

/// What is drawn of the first `n` slots, in the order of drawing: higher
/// render orders first, so that lower ones paint over them, and slot order
/// among equals.
pub open spec fn draw_list(w: WorldView, n: nat) -> Seq<(Position, Renderable)>
    decreases n,
{
    if n == 0 {
        Seq::empty()
    } else if shown(w, n - 1) {
        let rest = draw_list(w, (n - 1) as nat);
        rest.insert(
            place_for(rest, w.renderables[n - 1].render_order, 0),
            (w.positions[n - 1], w.renderables[n - 1]),
        )
    } else {
        draw_list(w, (n - 1) as nat)
    }
}

/// Whether the render orders never rise along the list.
pub open spec fn falling(list: Seq<(Position, Renderable)>) -> bool {
    forall|a: int, b: int|
        0 <= a <= b < list.len() ==> (#[trigger] list[a]).1.render_order >= (
        #[trigger] list[b]).1.render_order
}

/// The place found lies in the list or at its end, nothing before it from
/// `from` on is of a lower order, and what stands there is.
pub proof fn lemma_place_for(list: Seq<(Position, Renderable)>, order: i32, from: int)
    requires
        0 <= from <= list.len(),
    ensures
        from <= place_for(list, order, from) <= list.len(),
        forall|j: int|
            from <= j < place_for(list, order, from) ==> (#[trigger] list[j]).1.render_order
                >= order,
        place_for(list, order, from) < list.len() ==> list[place_for(
            list,
            order,
            from,
        )].1.render_order < order,
    decreases list.len() - from,
{
    if from < list.len() && list[from].1.render_order >= order {
        lemma_place_for(list, order, from + 1);
    }
}

/// The draw list is in falling render order.
pub proof fn lemma_draw_list_falls(w: WorldView, n: nat)
    ensures
        falling(draw_list(w, n)),
    decreases n,
{
    if n > 0 {
        lemma_draw_list_falls(w, (n - 1) as nat);
        if shown(w, n - 1) {
            let rest = draw_list(w, (n - 1) as nat);
            let order = w.renderables[n - 1].render_order;
            let at = place_for(rest, order, 0);
            lemma_place_for(rest, order, 0);
            let all = draw_list(w, n);
            assert forall|a: int, b: int| 0 <= a <= b < all.len() implies (
            #[trigger] all[a]).1.render_order >= (#[trigger] all[b]).1.render_order by {
                let before = |k: int|
                    if k < at {
                        k
                    } else {
                        k - 1
                    };
                if a != at {
                    assert(all[a] == rest[before(a)]);
                }
                if b != at {
                    assert(all[b] == rest[before(b)]);
                }
                if a != at && b != at {
                    assert(rest[before(a)].1.render_order >= rest[before(b)].1.render_order);
                }
                if a == at && b != at {
                    assert(rest[at].1.render_order >= rest[before(b)].1.render_order);
                }
            }
        }
    }
}

/// What to draw, in the order to draw it: every live entity with a look
/// that stands on a visible tile, higher render orders first.
pub fn render_list(ecs: &World) -> (list: Vec<(Position, Renderable)>)
    requires
        ecs@.map.wf(),
    ensures
        list@ == draw_list(ecs@, ecs@.entities.len()),
        falling(list@),
{
    let mut list: Vec<(Position, Renderable)> = Vec::new();
    let n: usize = ecs.entities.len();
    let mut i: usize = 0;
    while i < n
        invariant
            0 <= i <= n,
            n == ecs@.entities.len(),
            ecs@.map.wf(),
            list@ == draw_list(ecs@, i as nat),
        decreases n - i,
    {
        if ecs.entities.entity(i).is_some() {
            let position = ecs.positions.get(i);
            let render = ecs.renderables.get(i);
            if position.is_some() && render.is_some() {
                let pos: Position = *position.unwrap();
                let look: Renderable = *render.unwrap();
                if ecs.map.in_bounds(pos.x, pos.y) {
                    let idx = ecs.map.xy_idx(pos.x, pos.y);
                    if ecs.map.visible_tiles[idx] {
                        let mut at: usize = 0;
                        while at < list.len() && list[at].1.render_order >= look.render_order
                            invariant
                                0 <= at <= list@.len(),
                                place_for(list@, look.render_order, 0) == place_for(
                                    list@,
                                    look.render_order,
                                    at as int,
                                ),
                            decreases list@.len() - at,
                        {
                            at += 1;
                        }
                        list.insert(at, (pos, look));
                    }
                }
            }
        }
        i += 1;
    }
    proof {
        lemma_draw_list_falls(ecs@, n as nat);
    }
    list
}

} // verus!

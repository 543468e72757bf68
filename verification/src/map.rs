//! The dungeon grid: tiles, rooms, corridors, and the per-tile indexes.

use vstd::prelude::*;
use vstd::arithmetic::div_mod::{lemma_fundamental_div_mod, lemma_fundamental_div_mod_converse};
use crate::entity::Entity;

verus! {

/// Width of every generated level, in tiles.
pub const MAPWIDTH: usize = 32;

/// Height of every generated level, in tiles.
pub const MAPHEIGHT: usize = 21;

/// Number of tiles of every generated level.
pub const MAPCOUNT: usize = MAPHEIGHT * MAPWIDTH;

/// Rooms tried per generated level.
pub const MAX_ROOMS: i32 = 7;

/// Smallest room extent drawn.
pub const MIN_SIZE: i32 = 3;

/// One more than the largest room extent drawn.
pub const MAX_SIZE: i32 = 5;

/// What a tile is made of. Only walls stop movement and sight.
#[derive(Clone, Copy, PartialEq, Eq, Structural, Debug)]
pub enum TileType {
    Wall,
    Floor,
    Exit,
}

/// A grid coordinate.
#[derive(Clone, Copy, PartialEq, Eq, Structural, Debug, Hash)]
pub struct Coord {
    pub x: i32,
    pub y: i32,
}

/// Half of `v`, rounded towards zero.
pub open spec fn half(v: int) -> int {
    if v >= 0 {
        v / 2
    } else {
        -((-v) / 2)
    }
}

/// Half of the sum of two 32-bit values, rounded towards zero.
pub fn halve(sum: i64) -> (h: i32)
    requires
        2 * i32::MIN <= sum <= 2 * i32::MAX,
    ensures
        h == half(sum as int),
{
    if sum >= 0 {
        (sum / 2) as i32
    } else {
        (-((-sum) / 2)) as i32
    }
}

/// An axis-aligned rectangle. Its floor is the cells with `x1 < x <= x2` and
/// `y1 < y <= y2`; the row `y1` and the column `x1` stay wall.
#[derive(Clone, Copy, PartialEq, Eq, Structural, Debug)]
pub struct RoomRect {
    pub x1: i32,
    pub x2: i32,
    pub y1: i32,
    pub y2: i32,
}

impl RoomRect {
    /// Whether the two rectangles share a cell, borders included.
    pub open spec fn intersects(self, other: RoomRect) -> bool {
        self.x1 <= other.x2 && self.x2 >= other.x1 && self.y1 <= other.y2 && self.y2 >= other.y1
    }

    /// The middle cell, rounded towards the origin.
    pub open spec fn center_xy(self) -> (int, int) {
        (half(self.x1 + self.x2), half(self.y1 + self.y2))
    }

    /// Whether `(x, y)` is one of the rectangle's floor cells.
    pub open spec fn has_floor(self, x: int, y: int) -> bool {
        self.x1 < x <= self.x2 && self.y1 < y <= self.y2
    }

    /// The rectangle with corner `(x, y)`, `w` wide and `h` high.
    pub fn new(x: i32, y: i32, w: i32, h: i32) -> (r: RoomRect)
        requires
            i32::MIN <= x + w <= i32::MAX,
            i32::MIN <= y + h <= i32::MAX,
        ensures
            r == (RoomRect { x1: x, y1: y, x2: (x + w) as i32, y2: (y + h) as i32 }),
    {
        RoomRect { x1: x, y1: y, x2: x + w, y2: y + h }
    }

    /// Whether this rectangle overlaps `other`.
    pub fn intersect(&self, other: &RoomRect) -> (r: bool)
        ensures
            r == self.intersects(*other),
    {
        self.x1 <= other.x2 && self.x2 >= other.x1 && self.y1 <= other.y2 && self.y2 >= other.y1
    }

    /// The middle cell.
    pub fn center(&self) -> (c: (i32, i32))
        ensures
            (c.0 as int, c.1 as int) == self.center_xy(),
    {
        (halve(self.x1 as i64 + self.x2 as i64), halve(self.y1 as i64 + self.y2 as i64))
    }
}

/// The level: the tile grid, what is known and seen of it, who stands where,
/// and the rooms it was built from.
pub struct GameMap {
    pub tiles: Vec<TileType>,
    pub blocked: Vec<bool>,
    pub tile_content: Vec<Vec<Entity>>,
    pub revealed_tiles: Vec<bool>,
    pub visible_tiles: Vec<bool>,
    pub rooms: Vec<RoomRect>,
    pub width: i32,
    pub height: i32,
    pub depth: i32,
}

/// The level as mathematics. Cell `(x, y)` is at index `y * width + x`.
pub struct MapView {
    pub tiles: Seq<TileType>,
    pub blocked: Seq<bool>,
    pub tile_content: Seq<Seq<Entity>>,
    pub revealed_tiles: Seq<bool>,
    pub visible_tiles: Seq<bool>,
    pub rooms: Seq<RoomRect>,
    pub width: int,
    pub height: int,
    pub depth: int,
}

impl View for GameMap {
    type V = MapView;

    open spec fn view(&self) -> MapView {
        MapView {
            tiles: self.tiles@,
            blocked: self.blocked@,
            tile_content: Seq::new(self.tile_content@.len(), |i: int| self.tile_content@[i]@),
            revealed_tiles: self.revealed_tiles@,
            visible_tiles: self.visible_tiles@,
            rooms: self.rooms@,
            width: self.width as int,
            height: self.height as int,
            depth: self.depth as int,
        }
    }
}

impl MapView {
    /// Every per-tile array has one entry per cell, and the cell count fits
    /// the integer types that index it.
    pub open spec fn wf(self) -> bool {
        &&& 0 < self.width
        &&& 0 < self.height
        &&& self.width * self.height <= i32::MAX
        &&& self.tiles.len() == self.width * self.height
        &&& self.blocked.len() == self.width * self.height
        &&& self.tile_content.len() == self.width * self.height
        &&& self.revealed_tiles.len() == self.width * self.height
        &&& self.visible_tiles.len() == self.width * self.height
    }

    /// Whether `(x, y)` lies on the grid.
    pub open spec fn in_bounds(self, x: int, y: int) -> bool {
        0 <= x < self.width && 0 <= y < self.height
    }

    /// The index of cell `(x, y)`.
    pub open spec fn idx(self, x: int, y: int) -> int {
        y * self.width + x
    }

    /// Column of the cell at index `i`.
    pub open spec fn col(self, i: int) -> int {
        i % self.width
    }

    /// Row of the cell at index `i`.
    pub open spec fn row(self, i: int) -> int {
        i / self.width
    }

    /// The tile at `(x, y)`.
    pub open spec fn tile(self, x: int, y: int) -> TileType {
        self.tiles[self.idx(x, y)]
    }

    /// The floor of `room` dug out.
    pub open spec fn with_room_floor(self, room: RoomRect) -> MapView {
        MapView {
            tiles: Seq::new(
                self.tiles.len(),
                |i: int|
                    if room.has_floor(self.col(i), self.row(i)) {
                        TileType::Floor
                    } else {
                        self.tiles[i]
                    },
            ),
            ..self
        }
    }

    /// Whether the horizontal corridor between `x1` and `x2` in row `y` digs
    /// the cell at index `i`.
    pub open spec fn on_horizontal(self, x1: int, x2: int, y: int, i: int) -> bool {
        &&& self.row(i) == y
        &&& (x1 <= self.col(i) <= x2 || x2 <= self.col(i) <= x1)
    }

    /// Whether the vertical corridor between `y1` and `y2` in column `x` digs
    /// the cell at index `i`.
    pub open spec fn on_vertical(self, y1: int, y2: int, x: int, i: int) -> bool {
        &&& self.col(i) == x
        &&& (y1 <= self.row(i) <= y2 || y2 <= self.row(i) <= y1)
    }

    /// The cells of row `y` between columns `x1` and `x2` dug out.
    pub open spec fn with_horizontal_tunnel(self, x1: int, x2: int, y: int) -> MapView {
        MapView {
            tiles: Seq::new(
                self.tiles.len(),
                |i: int|
                    if self.on_horizontal(x1, x2, y, i) {
                        TileType::Floor
                    } else {
                        self.tiles[i]
                    },
            ),
            ..self
        }
    }

    /// The cells of column `x` between rows `y1` and `y2` dug out.
    pub open spec fn with_vertical_tunnel(self, y1: int, y2: int, x: int) -> MapView {
        MapView {
            tiles: Seq::new(
                self.tiles.len(),
                |i: int|
                    if self.on_vertical(y1, y2, x, i) {
                        TileType::Floor
                    } else {
                        self.tiles[i]
                    },
            ),
            ..self
        }
    }

    /// Every wall blocks and nothing else does.
    pub open spec fn with_blocked_from_tiles(self) -> MapView {
        MapView {
            blocked: Seq::new(self.blocked.len(), |i: int| self.tiles[i] == TileType::Wall),
            ..self
        }
    }

    /// Nobody stands anywhere.
    pub open spec fn with_content_cleared(self) -> MapView {
        MapView {
            tile_content: Seq::new(self.tile_content.len(), |i: int| Seq::<Entity>::empty()),
            ..self
        }
    }

    /// Whether the cell is on the grid and not a wall.
    pub open spec fn walkable(self, c: (int, int)) -> bool {
        self.in_bounds(c.0, c.1) && self.tile(c.0, c.1) != TileType::Wall
    }

    /// A non-empty walk over walkable cells, each step to a side neighbour.
    pub open spec fn is_path(self, path: Seq<(int, int)>) -> bool {
        &&& path.len() > 0
        &&& forall|k: int| 0 <= k < path.len() ==> self.walkable(#[trigger] path[k])
        &&& forall|k: int| 0 <= k < path.len() - 1 ==> adjacent(#[trigger] path[k], path[k + 1])
    }

    /// Whether some walk leads from `a` to `b`.
    pub open spec fn connected(self, a: (int, int), b: (int, int)) -> bool {
        exists|path: Seq<(int, int)>| #[trigger]
            self.is_path(path) && path[0] == a && path.last() == b
    }

    /// Whether `room` lies on the grid, off its first row and column, with a
    /// floor at least two cells wide and high.
    pub open spec fn fits(self, room: RoomRect) -> bool {
        &&& 0 <= room.x1
        &&& room.x1 + 2 <= room.x2 < self.width
        &&& 0 <= room.y1
        &&& room.y1 + 2 <= room.y2 < self.height
    }

    /// Whether `room` overlaps none of the rooms placed so far.
    pub open spec fn accepts(self, room: RoomRect) -> bool {
        forall|k: int| 0 <= k < self.rooms.len() ==> !room.intersects(#[trigger] self.rooms[k])
    }

    /// An L-shaped corridor from `from` to `to`: one horizontal and one
    /// vertical run, in the order given.
    pub open spec fn with_corridor(
        self,
        from: (int, int),
        to: (int, int),
        horizontal_first: bool,
    ) -> MapView {
        if horizontal_first {
            self.with_horizontal_tunnel(from.0, to.0, from.1).with_vertical_tunnel(
                from.1,
                to.1,
                to.0,
            )
        } else {
            self.with_vertical_tunnel(from.1, to.1, from.0).with_horizontal_tunnel(
                from.0,
                to.0,
                to.1,
            )
        }
    }

    /// `room` dug out, joined to the room placed before it, and recorded.
    pub open spec fn with_room(self, room: RoomRect, horizontal_first: bool) -> MapView {
        let dug = self.with_room_floor(room);
        let joined = if self.rooms.len() > 0 {
            dug.with_corridor(self.rooms.last().center_xy(), room.center_xy(), horizontal_first)
        } else {
            dug
        };
        MapView { rooms: self.rooms.push(room), ..joined }
    }

    /// What holds of the rooms at every stage of building a level: each lies
    /// on the grid, no two overlap, and the centre of each can be walked to
    /// from the centre of the first.
    pub open spec fn sound(self) -> bool {
        &&& self.wf()
        &&& forall|k: int| 0 <= k < self.rooms.len() ==> self.fits(#[trigger] self.rooms[k])
        &&& forall|j: int, k: int|
            0 <= j < k < self.rooms.len() ==> !(#[trigger] self.rooms[j]).intersects(
                #[trigger] self.rooms[k],
            )
        &&& forall|k: int|
            0 <= k < self.rooms.len() ==> self.connected(
                self.rooms[0].center_xy(),
                (#[trigger] self.rooms[k]).center_xy(),
            )
    }

    /// The one exit, in the middle of the last room.
    pub open spec fn with_exit(self) -> MapView {
        let c = self.rooms.last().center_xy();
        MapView { tiles: self.tiles.update(self.idx(c.0, c.1), TileType::Exit), ..self }
    }

    /// No tile is an exit.
    pub open spec fn exitless(self) -> bool {
        forall|i: int| 0 <= i < self.tiles.len() ==> #[trigger] self.tiles[i] != TileType::Exit
    }

    /// Exactly one tile is an exit: the middle of the last room.
    pub open spec fn has_one_exit(self) -> bool {
        let c = self.rooms.last().center_xy();
        forall|i: int|
            0 <= i < self.tiles.len() ==> ((#[trigger] self.tiles[i] == TileType::Exit) <==> i
                == self.idx(c.0, c.1))
    }

    /// Nothing is seen or known yet and nobody stands anywhere.
    pub open spec fn untouched(self) -> bool {
        &&& forall|i: int| 0 <= i < self.revealed_tiles.len() ==> !#[trigger] self.revealed_tiles[i]
        &&& forall|i: int| 0 <= i < self.visible_tiles.len() ==> !#[trigger] self.visible_tiles[i]
        &&& forall|i: int|
            0 <= i < self.tile_content.len() ==> (#[trigger] self.tile_content[i]).len() == 0
    }

    /// Whether `(x, y)` can be stepped onto from a neighbouring cell: it lies
    /// off the first row and column and is not blocked.
    pub open spec fn exit_valid(self, x: int, y: int) -> bool {
        1 <= x <= self.width - 1 && 1 <= y <= self.height - 1 && !self.blocked[self.idx(x, y)]
    }
}

/// Side neighbours: one step apart along one axis.
pub open spec fn adjacent(a: (int, int), b: (int, int)) -> bool {
    ||| (a.0 == b.0 && (a.1 == b.1 + 1 || b.1 == a.1 + 1))
    ||| (a.1 == b.1 && (a.0 == b.0 + 1 || b.0 == a.0 + 1))
}

/// The index of a cell inside the grid is below the cell count, and its row
/// and column are recovered by division.
pub proof fn lemma_cell_index(width: int, height: int, x: int, y: int)
    requires
        0 <= x < width,
        0 <= y < height,
    ensures
        0 <= y * width + x < width * height,
        (y * width + x) / width == y,
        (y * width + x) % width == x,
{
    assert(y * width >= 0) by (nonlinear_arith)
        requires
            y >= 0,
            width > 0,
    ;
    assert(y * width + width <= height * width) by (nonlinear_arith)
        requires
            y + 1 <= height,
            width > 0,
    ;
    assert(height * width == width * height) by (nonlinear_arith);
    lemma_fundamental_div_mod_converse(y * width + x, width, y, x);
}

/// A cell's index is determined by its row and column.
pub proof fn lemma_cell_of_index(width: int, i: int)
    requires
        0 < width,
    ensures
        i == (i / width) * width + i % width,
{
    lemma_fundamental_div_mod(i, width);
    assert(width * (i / width) == (i / width) * width) by (nonlinear_arith);
}

impl GameMap {
    /// The index of cell `(x, y)`.
    pub fn xy_idx(&self, x: i32, y: i32) -> (i: usize)
        requires
            self@.wf(),
            self@.in_bounds(x as int, y as int),
        ensures
            i == self@.idx(x as int, y as int),
            i < self@.tiles.len(),
    {
        proof {
            lemma_cell_index(self.width as int, self.height as int, x as int, y as int);
        }
        (y as usize * self.width as usize) + x as usize
    }

    /// Whether every per-tile array has one entry per cell.
    pub fn is_well_formed(&self) -> (r: bool)
        ensures
            r == self@.wf(),
    {
        if self.width <= 0 || self.height <= 0 {
            return false;
        }
        assert(self.width * self.height <= 0x8000_0000 * 0x8000_0000) by (nonlinear_arith)
            requires
                0 < self.width <= 0x8000_0000,
                0 < self.height <= 0x8000_0000,
        ;
        let count: i64 = self.width as i64 * self.height as i64;
        if count > i32::MAX as i64 {
            return false;
        }
        let n: usize = count as usize;
        assert(self@.tile_content.len() == self.tile_content@.len());
        self.tiles.len() == n && self.blocked.len() == n && self.tile_content.len() == n
            && self.revealed_tiles.len() == n && self.visible_tiles.len() == n
    }

    /// Whether `(x, y)` lies on the grid.
    pub fn in_bounds(&self, x: i32, y: i32) -> (r: bool)
        ensures
            r == self@.in_bounds(x as int, y as int),
    {
        0 <= x && x < self.width && 0 <= y && y < self.height
    }

    /// Digs out the floor of `room`.
    pub fn apply_room_to_map(&mut self, room: &RoomRect)
        requires
            old(self)@.wf(),
            -1 <= room.x1 < i32::MAX,
            room.x2 < old(self).width,
            -1 <= room.y1 < i32::MAX,
            room.y2 < old(self).height,
        ensures
            final(self)@ == old(self)@.with_room_floor(*room),
    {
        let ghost before = self@;
        let mut y: i32 = room.y1 + 1;
        while y <= room.y2
            invariant
                room.y1 + 1 <= y,
                y <= room.y2 + 1 || room.y2 < room.y1 + 1,
                -1 <= room.x1 < i32::MAX,
                room.x2 < self.width,
                -1 <= room.y1 < i32::MAX,
                room.y2 < self.height,
                before.wf(),
                before == old(self)@,
                self@ == (MapView { tiles: self.tiles@, ..before }),
                self.tiles@.len() == before.tiles.len(),
                forall|i: int|
                    0 <= i < self.tiles@.len() ==> #[trigger] self.tiles@[i] == if before.row(i)
                        < y && room.has_floor(before.col(i), before.row(i)) {
                        TileType::Floor
                    } else {
                        before.tiles[i]
                    },
            decreases room.y2 + 1 - y,
        {
            let mut x: i32 = room.x1 + 1;
            while x <= room.x2
                invariant
                    room.x1 + 1 <= x,
                    x <= room.x2 + 1 || room.x2 < room.x1 + 1,
                    room.y1 + 1 <= y <= room.y2,
                    -1 <= room.x1 < i32::MAX,
                    room.x2 < self.width,
                    -1 <= room.y1 < i32::MAX,
                    room.y2 < self.height,
                    before.wf(),
                    self@ == (MapView { tiles: self.tiles@, ..before }),
                    self.tiles@.len() == before.tiles.len(),
                    forall|i: int|
                        0 <= i < self.tiles@.len() ==> #[trigger] self.tiles@[i] == if (
                        before.row(i) < y || (before.row(i) == y && before.col(i) < x))
                            && room.has_floor(before.col(i), before.row(i)) {
                            TileType::Floor
                        } else {
                            before.tiles[i]
                        },
                decreases room.x2 + 1 - x,
            {
                let idx = self.xy_idx(x, y);
                proof {
                    lemma_cell_index(before.width, before.height, x as int, y as int);
                    assert forall|i: int| before.row(i) == y && before.col(i) == x implies i
                        == idx by {
                        lemma_cell_of_index(before.width, i);
                    }
                }
                self.tiles[idx] = TileType::Floor;
                x += 1;
            }
            y += 1;
        }
        assert(self@.tiles =~= before.with_room_floor(*room).tiles);
    }

    /// Digs the cells of row `y` between columns `x1` and `x2`, ends included.
    pub fn apply_horizontal_tunnel(&mut self, x1: i32, x2: i32, y: i32)
        requires
            old(self)@.wf(),
            old(self)@.in_bounds(x1 as int, y as int),
            old(self)@.in_bounds(x2 as int, y as int),
        ensures
            final(self)@ == old(self)@.with_horizontal_tunnel(x1 as int, x2 as int, y as int),
    {
        let ghost before = self@;
        let lo: i32 = if x1 <= x2 { x1 } else { x2 };
        let hi: i32 = if x1 <= x2 { x2 } else { x1 };
        let mut x: i32 = lo;
        while x <= hi
            invariant
                lo <= x <= hi + 1,
                0 <= lo <= hi < self.width,
                0 <= y < self.height,
                before.wf(),
                self@ == (MapView { tiles: self.tiles@, ..before }),
                self.tiles@.len() == before.tiles.len(),
                forall|i: int|
                    0 <= i < self.tiles@.len() ==> #[trigger] self.tiles@[i] == if before.col(i)
                        < x && before.on_horizontal(lo as int, hi as int, y as int, i) {
                        TileType::Floor
                    } else {
                        before.tiles[i]
                    },
            decreases hi + 1 - x,
        {
            let idx = self.xy_idx(x, y);
            proof {
                lemma_cell_index(before.width, before.height, x as int, y as int);
                assert forall|i: int| before.row(i) == y && before.col(i) == x implies i
                    == idx by {
                    lemma_cell_of_index(before.width, i);
                }
            }
            self.tiles[idx] = TileType::Floor;
            x += 1;
        }
        assert(self@.tiles =~= before.with_horizontal_tunnel(
            x1 as int,
            x2 as int,
            y as int,
        ).tiles);
    }

    /// Digs the cells of column `x` between rows `y1` and `y2`, ends included.
    pub fn apply_vertical_tunnel(&mut self, y1: i32, y2: i32, x: i32)
        requires
            old(self)@.wf(),
            old(self)@.in_bounds(x as int, y1 as int),
            old(self)@.in_bounds(x as int, y2 as int),
        ensures
            final(self)@ == old(self)@.with_vertical_tunnel(y1 as int, y2 as int, x as int),
    {
        let ghost before = self@;
        let lo: i32 = if y1 <= y2 { y1 } else { y2 };
        let hi: i32 = if y1 <= y2 { y2 } else { y1 };
        let mut y: i32 = lo;
        while y <= hi
            invariant
                lo <= y <= hi + 1,
                0 <= lo <= hi < self.height,
                0 <= x < self.width,
                before.wf(),
                self@ == (MapView { tiles: self.tiles@, ..before }),
                self.tiles@.len() == before.tiles.len(),
                forall|i: int|
                    0 <= i < self.tiles@.len() ==> #[trigger] self.tiles@[i] == if before.row(i)
                        < y && before.on_vertical(lo as int, hi as int, x as int, i) {
                        TileType::Floor
                    } else {
                        before.tiles[i]
                    },
            decreases hi + 1 - y,
        {
            let idx = self.xy_idx(x, y);
            proof {
                lemma_cell_index(before.width, before.height, x as int, y as int);
                assert forall|i: int| before.row(i) == y && before.col(i) == x implies i
                    == idx by {
                    lemma_cell_of_index(before.width, i);
                }
            }
            self.tiles[idx] = TileType::Floor;
            y += 1;
        }
        assert(self@.tiles =~= before.with_vertical_tunnel(y1 as int, y2 as int, x as int).tiles);
    }

    /// Recomputes `blocked` from the tiles alone: walls block.
    pub fn populate_blocked(&mut self)
        requires
            old(self)@.wf(),
        ensures
            final(self)@ == old(self)@.with_blocked_from_tiles(),
    {
        let ghost before = self@;
        let n: usize = self.tiles.len();
        let mut i: usize = 0;
        while i < n
            invariant
                0 <= i <= n,
                n == self.tiles@.len(),
                n == self.blocked@.len(),
                self@ == (MapView { blocked: self.blocked@, ..before }),
                forall|j: int|
                    0 <= j < i ==> #[trigger] self.blocked@[j] == (self.tiles@[j]
                        == TileType::Wall),
            decreases n - i,
        {
            let wall: bool = self.tiles[i] == TileType::Wall;
            self.blocked[i] = wall;
            i += 1;
        }
        assert(self@.blocked =~= before.with_blocked_from_tiles().blocked);
    }

    /// Empties every tile's occupant list.
    pub fn clear_content_index(&mut self)
        ensures
            final(self)@ == old(self)@.with_content_cleared(),
    {
        let ghost before = self@;
        let n: usize = self.tile_content.len();
        let mut i: usize = 0;
        while i < n
            invariant
                0 <= i <= n,
                n == self.tile_content@.len(),
                self@ == (MapView { tile_content: self@.tile_content, ..before }),
                forall|j: int| 0 <= j < i ==> #[trigger] self.tile_content@[j]@ == Seq::<Entity>::empty(),
            decreases n - i,
        {
            self.tile_content[i].clear();
            i += 1;
        }
        assert(self@.tile_content =~= before.with_content_cleared().tile_content);
    }

    /// Whether `(x, y)` can be stepped onto from a neighbouring cell.
    pub fn is_exit_valid(&self, x: i32, y: i32) -> (r: bool)
        requires
            self@.wf(),
        ensures
            r == self@.exit_valid(x as int, y as int),
    {
        if x < 1 || x > self.width - 1 || y < 1 || y > self.height - 1 {
            return false;
        }
        let idx = self.xy_idx(x, y);
        !self.blocked[idx]
    }
}

} // verus!

verus! {

/// A walkable cell is connected to itself.
pub proof fn lemma_connected_refl(m: MapView, a: (int, int))
    requires
        m.walkable(a),
    ensures
        m.connected(a, a),
{
    let path = seq![a];
    assert(m.is_path(path) && path[0] == a && path.last() == a);
}

/// A walk can be extended by one step to a walkable neighbour.
pub proof fn lemma_connected_step(m: MapView, a: (int, int), b: (int, int), c: (int, int))
    requires
        m.connected(a, b),
        adjacent(b, c),
        m.walkable(c),
    ensures
        m.connected(a, c),
{
    let p = choose|path: Seq<(int, int)>| #[trigger]
        m.is_path(path) && path[0] == a && path.last() == b;
    let q = p.push(c);
    assert forall|k: int| 0 <= k < q.len() implies m.walkable(#[trigger] q[k]) by {
        if k < p.len() {
            assert(q[k] == p[k]);
        }
    }
    assert forall|k: int| 0 <= k < q.len() - 1 implies adjacent(#[trigger] q[k], q[k + 1]) by {
        if k < p.len() - 1 {
            assert(q[k] == p[k]);
            assert(q[k + 1] == p[k + 1]);
        }
    }
    assert(m.is_path(q) && q[0] == a && q.last() == c);
}

/// Two walks that meet make one walk.
pub proof fn lemma_connected_trans(m: MapView, a: (int, int), b: (int, int), c: (int, int))
    requires
        m.connected(a, b),
        m.connected(b, c),
    ensures
        m.connected(a, c),
{
    let p = choose|path: Seq<(int, int)>| #[trigger]
        m.is_path(path) && path[0] == a && path.last() == b;
    let r = choose|path: Seq<(int, int)>| #[trigger]
        m.is_path(path) && path[0] == b && path.last() == c;
    let q = p + r.drop_first();
    assert forall|k: int| 0 <= k < q.len() implies m.walkable(#[trigger] q[k]) by {
        if k < p.len() {
            assert(q[k] == p[k]);
        } else {
            assert(q[k] == r[k - p.len() + 1]);
        }
    }
    assert forall|k: int| 0 <= k < q.len() - 1 implies adjacent(#[trigger] q[k], q[k + 1]) by {
        if k < p.len() - 1 {
            assert(q[k] == p[k]);
            assert(q[k + 1] == p[k + 1]);
        } else if k == p.len() - 1 {
            assert(q[k] == p[k]);
            assert(q[k] == r[0]);
            assert(q[k + 1] == r[1]);
        } else {
            assert(q[k] == r[k - p.len() + 1]);
            assert(q[k + 1] == r[k - p.len() + 2]);
        }
    }
    assert(q.last() == c) by {
        if r.len() == 1 {
            assert(q =~= p);
        } else {
            assert(q[q.len() - 1] == r[r.len() - 1]);
        }
    }
    assert(m.is_path(q) && q[0] == a && q.last() == c);
}

/// A walk survives any change to the grid that walls nothing in.
pub proof fn lemma_connected_mono(m: MapView, n: MapView, a: (int, int), b: (int, int))
    requires
        m.connected(a, b),
        forall|c: (int, int)| m.walkable(c) ==> #[trigger] n.walkable(c),
    ensures
        n.connected(a, b),
{
    let p = choose|path: Seq<(int, int)>| #[trigger]
        m.is_path(path) && path[0] == a && path.last() == b;
    assert(n.is_path(p) && p[0] == a && p.last() == b);
}

/// A run of walkable cells along a row is a walk.
pub proof fn lemma_row_connected(m: MapView, y: int, xa: int, xb: int)
    requires
        forall|x: int| (xa <= x <= xb || xb <= x <= xa) ==> #[trigger] m.walkable((x, y)),
    ensures
        m.connected((xa, y), (xb, y)),
    decreases
            if xa <= xb {
                xb - xa
            } else {
                xa - xb
            },
{
    if xa == xb {
        lemma_connected_refl(m, (xa, y));
    } else {
        let xm = if xa < xb {
            xb - 1
        } else {
            xb + 1
        };
        lemma_row_connected(m, y, xa, xm);
        lemma_connected_step(m, (xa, y), (xm, y), (xb, y));
    }
}

/// A run of walkable cells along a column is a walk.
pub proof fn lemma_column_connected(m: MapView, x: int, ya: int, yb: int)
    requires
        forall|y: int| (ya <= y <= yb || yb <= y <= ya) ==> #[trigger] m.walkable((x, y)),
    ensures
        m.connected((x, ya), (x, yb)),
    decreases
            if ya <= yb {
                yb - ya
            } else {
                ya - yb
            },
{
    if ya == yb {
        lemma_connected_refl(m, (x, ya));
    } else {
        let ym = if ya < yb {
            yb - 1
        } else {
            yb + 1
        };
        lemma_column_connected(m, x, ya, ym);
        lemma_connected_step(m, (x, ya), (x, ym), (x, yb));
    }
}

/// The centre of a room that fits lies on the room's floor, off the first
/// row and column.
pub proof fn lemma_center_on_floor(m: MapView, room: RoomRect)
    requires
        m.fits(room),
    ensures
        room.has_floor(room.center_xy().0, room.center_xy().1),
        1 <= room.center_xy().0 < m.width,
        1 <= room.center_xy().1 < m.height,
{
}

/// Placing a room that fits and overlaps no earlier room keeps the rooms
/// sound: still pairwise apart, and the new centre can be walked to from the
/// first room's centre whichever way the corridor bends. No exit appears.
pub proof fn lemma_with_room_sound(m: MapView, room: RoomRect, horizontal_first: bool)
    requires
        m.sound(),
        m.fits(room),
        m.accepts(room),
    ensures
        m.with_room(room, horizontal_first).sound(),
        m.exitless() ==> m.with_room(room, horizontal_first).exitless(),
{
    let n = m.with_room(room, horizontal_first);
    let c = room.center_xy();
    lemma_center_on_floor(m, room);
    // Digging walls nothing in.
    assert forall|q: (int, int)| m.walkable(q) implies #[trigger] n.walkable(q) by {
        lemma_cell_index(m.width, m.height, q.0, q.1);
    }
    // The new centre is floor.
    assert(n.walkable(c)) by {
        lemma_cell_index(m.width, m.height, c.0, c.1);
    }
    if m.rooms.len() == 0 {
        lemma_connected_refl(n, c);
        assert(n.rooms[0] == room);
    } else {
        let first = m.rooms[0].center_xy();
        let prev = m.rooms.last().center_xy();
        lemma_center_on_floor(m, m.rooms.last());
        assert forall|k: int| 0 <= k < m.rooms.len() implies n.connected(
            first,
            (#[trigger] m.rooms[k]).center_xy(),
        ) by {
            lemma_connected_mono(m, n, first, m.rooms[k].center_xy());
        }
        if horizontal_first {
            assert forall|x: int| (prev.0 <= x <= c.0 || c.0 <= x <= prev.0) implies #[trigger]
                n.walkable((x, prev.1)) by {
                lemma_cell_index(m.width, m.height, x, prev.1);
            }
            assert forall|y: int| (prev.1 <= y <= c.1 || c.1 <= y <= prev.1) implies #[trigger]
                n.walkable((c.0, y)) by {
                lemma_cell_index(m.width, m.height, c.0, y);
            }
            lemma_row_connected(n, prev.1, prev.0, c.0);
            lemma_column_connected(n, c.0, prev.1, c.1);
            lemma_connected_trans(n, prev, (c.0, prev.1), c);
        } else {
            assert forall|y: int| (prev.1 <= y <= c.1 || c.1 <= y <= prev.1) implies #[trigger]
                n.walkable((prev.0, y)) by {
                lemma_cell_index(m.width, m.height, prev.0, y);
            }
            assert forall|x: int| (prev.0 <= x <= c.0 || c.0 <= x <= prev.0) implies #[trigger]
                n.walkable((x, c.1)) by {
                lemma_cell_index(m.width, m.height, x, c.1);
            }
            lemma_column_connected(n, prev.0, prev.1, c.1);
            lemma_row_connected(n, c.1, prev.0, c.0);
            lemma_connected_trans(n, prev, (prev.0, c.1), c);
        }
        lemma_connected_trans(n, first, prev, c);
        assert(n.rooms[0] == m.rooms[0]);
    }
    assert forall|k: int| 0 <= k < n.rooms.len() implies n.connected(
        n.rooms[0].center_xy(),
        (#[trigger] n.rooms[k]).center_xy(),
    ) by {
        if k < m.rooms.len() {
            assert(n.rooms[k] == m.rooms[k]);
        } else {
            assert(n.rooms[k] == room);
        }
    }
    assert forall|k: int| 0 <= k < n.rooms.len() implies n.fits(#[trigger] n.rooms[k]) by {
        if k < m.rooms.len() {
            assert(n.rooms[k] == m.rooms[k]);
        }
    }
    assert forall|j: int, k: int| 0 <= j < k < n.rooms.len() implies !(#[trigger] n.rooms[j]).intersects(
        #[trigger] n.rooms[k],
    ) by {
        assert(n.rooms[j] == m.rooms[j]);
        if k < m.rooms.len() {
            assert(n.rooms[k] == m.rooms[k]);
        }
    }
}

/// Marking the exit in the last room's centre keeps the rooms sound and
/// leaves exactly one exit on a grid that had none.
pub proof fn lemma_with_exit_sound(m: MapView)
    requires
        m.sound(),
        m.rooms.len() > 0,
    ensures
        m.with_exit().sound(),
        m.exitless() ==> m.with_exit().has_one_exit(),
{
    let n = m.with_exit();
    let c = m.rooms.last().center_xy();
    lemma_center_on_floor(m, m.rooms.last());
    lemma_cell_index(m.width, m.height, c.0, c.1);
    assert forall|q: (int, int)| m.walkable(q) implies #[trigger] n.walkable(q) by {
        lemma_cell_index(m.width, m.height, q.0, q.1);
    }
    assert forall|k: int| 0 <= k < n.rooms.len() implies n.connected(
        n.rooms[0].center_xy(),
        (#[trigger] n.rooms[k]).center_xy(),
    ) by {
        lemma_connected_mono(m, n, m.rooms[0].center_xy(), m.rooms[k].center_xy());
    }
}

/// Soundness of the rooms rests on the tiles, the rooms and the grid's size
/// alone.
pub proof fn lemma_sound_by_tiles(m: MapView, n: MapView)
    requires
        m.sound(),
        n.wf(),
        n.tiles == m.tiles,
        n.rooms == m.rooms,
        n.width == m.width,
        n.height == m.height,
    ensures
        n.sound(),
{
    assert forall|k: int| 0 <= k < n.rooms.len() implies n.connected(
        n.rooms[0].center_xy(),
        (#[trigger] n.rooms[k]).center_xy(),
    ) by {
        lemma_connected_mono(m, n, m.rooms[0].center_xy(), m.rooms[k].center_xy());
    }
}

} // verus!

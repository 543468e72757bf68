//! Building a level: rooms that keep apart, corridors that join them, and
//! one exit in the last room.

use vstd::prelude::*;
use bracket_lib::random::RandomNumberGenerator;
use crate::entity::Entity;
use crate::map::{
    lemma_center_on_floor, lemma_sound_by_tiles, lemma_with_exit_sound, lemma_with_room_sound,
    GameMap, MapView, RoomRect, TileType, MAPCOUNT, MAPHEIGHT, MAPWIDTH, MAX_ROOMS, MAX_SIZE,
    MIN_SIZE,
};
use crate::rng::{fresh_rng, range, roll_dice};

verus! {

impl MapView {
    /// A grid of the standard size with nothing but walls.
    pub open spec fn is_blank(self, depth: int) -> bool {
        &&& self.wf()
        &&& self.width == MAPWIDTH
        &&& self.height == MAPHEIGHT
        &&& self.depth == depth
        &&& self.rooms.len() == 0
        &&& self.untouched()
        &&& forall|i: int| 0 <= i < self.tiles.len() ==> #[trigger] self.tiles[i] == TileType::Wall
        &&& forall|i: int| 0 <= i < self.blocked.len() ==> !#[trigger] self.blocked[i]
    }
}

/// Whether `room` is one that the generator can draw: of a drawn size, and
/// far enough from the rim of a level of the standard size.
pub open spec fn drawable(room: RoomRect) -> bool {
    &&& MIN_SIZE <= room.x2 - room.x1 < MAX_SIZE
    &&& MIN_SIZE <= room.y2 - room.y1 < MAX_SIZE
    &&& 0 <= room.x1
    &&& room.x2 <= MAPWIDTH - 2
    &&& 0 <= room.y1
    &&& room.y2 <= MAPHEIGHT - 2
}

impl MapView {
    /// One try: the candidate is placed if it overlaps no room placed so
    /// far, and passed over if it does.
    pub open spec fn after_try(self, candidate: RoomRect, bend: bool) -> MapView {
        if self.accepts(candidate) {
            self.with_room(candidate, bend)
        } else {
            self
        }
    }

    /// The level after the first `k` tries, in order. Each try is a
    /// candidate and the way the corridor to it would bend.
    pub open spec fn tried(self, tries: Seq<(RoomRect, bool)>, k: nat) -> MapView
        decreases k,
    {
        if k == 0 {
            self
        } else {
            self.tried(tries, (k - 1) as nat).after_try(tries[k - 1].0, tries[k - 1].1)
        }
    }

    /// Whether every room is as wide and as high as the generator draws
    /// them.
    pub open spec fn rooms_sized(self) -> bool {
        forall|k: int|
            0 <= k < self.rooms.len() ==> {
                &&& MIN_SIZE <= (#[trigger] self.rooms[k]).x2 - self.rooms[k].x1 < MAX_SIZE
                &&& MIN_SIZE <= self.rooms[k].y2 - self.rooms[k].y1 < MAX_SIZE
            }
    }

    /// Whether this level is what `MAX_ROOMS` tries with drawable
    /// candidates make of a blank level, with the exit marked and the
    /// walls blocked.
    pub open spec fn grown(self, depth: int) -> bool {
        exists|blank: MapView, tries: Seq<(RoomRect, bool)>|
            {
                &&& blank.is_blank(depth)
                &&& tries.len() == MAX_ROOMS
                &&& forall|k: int| 0 <= k < tries.len() ==> drawable((#[trigger] tries[k]).0)
                &&& self == #[trigger] blank.tried(
                    tries,
                    tries.len(),
                ).with_exit().with_blocked_from_tiles()
            }
    }

    /// What holds of every freshly generated level: it grew from a blank
    /// level by `MAX_ROOMS` tries; it has between one and `MAX_ROOMS`
    /// rooms of the sizes drawn; the rooms are sound, that is pairwise
    /// apart and each reachable from the first; and exactly one tile is an
    /// exit.
    pub open spec fn generated(self, depth: int) -> bool {
        &&& self.sound()
        &&& self.width == MAPWIDTH
        &&& self.height == MAPHEIGHT
        &&& self.depth == depth
        &&& 1 <= self.rooms.len() <= MAX_ROOMS
        &&& self.rooms_sized()
        &&& self.has_one_exit()
        &&& self.untouched()
        &&& forall|i: int|
            0 <= i < self.blocked.len() ==> #[trigger] self.blocked[i] == (self.tiles[i]
                == TileType::Wall)
        &&& self.grown(depth)
    }
}

/// The first `k` tries look at no try beyond them.
pub proof fn lemma_tried_prefix(
    blank: MapView,
    tries: Seq<(RoomRect, bool)>,
    more: Seq<(RoomRect, bool)>,
    k: nat,
)
    requires
        k <= tries.len() <= more.len(),
        forall|j: int| 0 <= j < k ==> tries[j] == more[j],
    ensures
        blank.tried(tries, k) == blank.tried(more, k),
    decreases k,
{
    if k > 0 {
        lemma_tried_prefix(blank, tries, more, (k - 1) as nat);
    }
}

/// However the tries fall, a level that grows from a blank one stays
/// sound and without an exit, never holds more rooms than there were
/// tries, and holds a room as soon as there was one try.
pub proof fn lemma_tries_keep_sound(blank: MapView, depth: int, tries: Seq<(RoomRect, bool)>, k: nat)
    requires
        blank.is_blank(depth),
        k <= tries.len(),
        forall|j: int| 0 <= j < tries.len() ==> drawable((#[trigger] tries[j]).0),
    ensures
        blank.tried(tries, k).sound(),
        blank.tried(tries, k).exitless(),
        blank.tried(tries, k).rooms_sized(),
        blank.tried(tries, k).rooms.len() <= k,
        k > 0 ==> blank.tried(tries, k).rooms.len() > 0,
        blank.tried(tries, k).width == blank.width,
        blank.tried(tries, k).height == blank.height,
    decreases k,
{
    if k > 0 {
        lemma_tries_keep_sound(blank, depth, tries, (k - 1) as nat);
        let m = blank.tried(tries, (k - 1) as nat);
        let room = tries[k - 1].0;
        assert(drawable(room));
        if m.accepts(room) {
            lemma_with_room_sound(m, room, tries[k - 1].1);
            let n = m.with_room(room, tries[k - 1].1);
            assert forall|j: int| 0 <= j < n.rooms.len() implies {
                &&& MIN_SIZE <= (#[trigger] n.rooms[j]).x2 - n.rooms[j].x1 < MAX_SIZE
                &&& MIN_SIZE <= n.rooms[j].y2 - n.rooms[j].y1 < MAX_SIZE
            } by {
                if j < m.rooms.len() {
                    assert(n.rooms[j] == m.rooms[j]);
                }
            }
        }
    }
}

/// Whatever the tries, as long as there is one: the level that grows from
/// them has rooms that are pairwise apart and each reachable from the
/// first, and exactly one exit.
pub proof fn lemma_grown_level(blank: MapView, depth: int, tries: Seq<(RoomRect, bool)>)
    requires
        blank.is_blank(depth),
        tries.len() > 0,
        forall|j: int| 0 <= j < tries.len() ==> drawable((#[trigger] tries[j]).0),
    ensures
        blank.tried(tries, tries.len()).with_exit().with_blocked_from_tiles().sound(),
        blank.tried(tries, tries.len()).with_exit().with_blocked_from_tiles().has_one_exit(),
{
    lemma_tries_keep_sound(blank, depth, tries, tries.len());
    let placed = blank.tried(tries, tries.len());
    lemma_with_exit_sound(placed);
    lemma_sound_by_tiles(placed.with_exit(), placed.with_exit().with_blocked_from_tiles());
}

impl GameMap {
    /// A level of the standard size, all wall, with no rooms yet.
    pub fn blank(depth: i32) -> (map: GameMap)
        ensures
            map@.is_blank(depth as int),
    {
        let mut tiles: Vec<TileType> = Vec::new();
        let mut flags: Vec<bool> = Vec::new();
        let mut tile_content: Vec<Vec<Entity>> = Vec::new();
        let mut i: usize = 0;
        while i < MAPCOUNT
            invariant
                0 <= i <= MAPCOUNT,
                tiles@.len() == i,
                flags@.len() == i,
                tile_content@.len() == i,
                forall|j: int| 0 <= j < i ==> #[trigger] tiles@[j] == TileType::Wall,
                forall|j: int| 0 <= j < i ==> !#[trigger] flags@[j],
                forall|j: int| 0 <= j < i ==> (#[trigger] tile_content@[j])@.len() == 0,
            decreases MAPCOUNT - i,
        {
            tiles.push(TileType::Wall);
            flags.push(false);
            tile_content.push(Vec::new());
            i += 1;
        }
        let revealed_tiles = flags.clone();
        let visible_tiles = flags.clone();
        GameMap {
            tiles,
            blocked: flags,
            tile_content,
            revealed_tiles,
            visible_tiles,
            rooms: Vec::new(),
            width: MAPWIDTH as i32,
            height: MAPHEIGHT as i32,
            depth,
        }
    }

    /// Whether `room` overlaps none of the rooms placed so far.
    pub fn accepts(&self, room: &RoomRect) -> (ok: bool)
        ensures
            ok == self@.accepts(*room),
    {
        let mut ok = true;
        let n: usize = self.rooms.len();
        let mut i: usize = 0;
        while i < n
            invariant
                0 <= i <= n,
                n == self.rooms@.len(),
                ok == forall|k: int| 0 <= k < i ==> !room.intersects(#[trigger] self.rooms@[k]),
            decreases n - i,
        {
            if room.intersect(&self.rooms[i]) {
                ok = false;
            }
            i += 1;
        }
        assert(self@.rooms == self.rooms@);
        ok
    }

    /// Digs `room`, joins its centre to the centre of the room placed before
    /// it by an L-shaped corridor, and records it. `horizontal_first` picks
    /// which way the corridor bends.
    pub fn add_room(&mut self, room: RoomRect, horizontal_first: bool)
        requires
            old(self)@.sound(),
            old(self)@.fits(room),
            old(self)@.accepts(room),
        ensures
            final(self)@ == old(self)@.with_room(room, horizontal_first),
            final(self)@.sound(),
            old(self)@.exitless() ==> final(self)@.exitless(),
    {
        proof {
            lemma_with_room_sound(self@, room, horizontal_first);
            lemma_center_on_floor(self@, room);
        }
        self.apply_room_to_map(&room);
        if self.rooms.len() > 0 {
            let prev: RoomRect = self.rooms[self.rooms.len() - 1];
            proof {
                assert(old(self)@.fits(old(self)@.rooms[old(self)@.rooms.len() - 1]));
                lemma_center_on_floor(old(self)@, prev);
            }
            let (new_x, new_y) = room.center();
            let (prev_x, prev_y) = prev.center();
            if horizontal_first {
                self.apply_horizontal_tunnel(prev_x, new_x, prev_y);
                self.apply_vertical_tunnel(prev_y, new_y, new_x);
            } else {
                self.apply_vertical_tunnel(prev_y, new_y, prev_x);
                self.apply_horizontal_tunnel(prev_x, new_x, new_y);
            }
        }
        self.rooms.push(room);
        assert(self@.tile_content =~= old(self)@.tile_content);
        assert(self@ == old(self)@.with_room(room, horizontal_first));
    }

    /// Turns the centre of the last room into the exit.
    pub fn place_exit(&mut self)
        requires
            old(self)@.sound(),
            old(self)@.rooms.len() > 0,
        ensures
            final(self)@ == old(self)@.with_exit(),
            final(self)@.sound(),
            old(self)@.exitless() ==> final(self)@.has_one_exit(),
    {
        proof {
            lemma_with_exit_sound(self@);
        }
        let last: RoomRect = self.rooms[self.rooms.len() - 1];
        proof {
            lemma_center_on_floor(self@, last);
        }
        let exit_position = last.center();
        let exit_idx = self.xy_idx(exit_position.0, exit_position.1);
        self.tiles[exit_idx] = TileType::Exit;
        assert(self@.tile_content =~= old(self)@.tile_content);
    }

    /// Tries `MAX_ROOMS` random rooms on a blank level, keeps each that
    /// overlaps no room kept before, and marks the exit in the last one.
    ///
    /// Whatever the draws, the level comes out with at least one room, rooms
    /// that are pairwise apart, every room's centre reachable from the first
    /// room's, exactly one exit, and `blocked` set on the walls.
    pub fn generate(depth: i32, rng: &mut RandomNumberGenerator) -> (map: GameMap)
        ensures
            map@.generated(depth as int),
    {
        let mut map = GameMap::blank(depth);
        let ghost blank = map@;
        let ghost mut tries: Seq<(RoomRect, bool)> = Seq::empty();
        let mut tried: i32 = 0;
        while tried < MAX_ROOMS
            invariant
                0 <= tried <= MAX_ROOMS,
                blank.is_blank(depth as int),
                tries.len() == tried,
                forall|k: int| 0 <= k < tries.len() ==> drawable((#[trigger] tries[k]).0),
                map@ == blank.tried(tries, tries.len()),
                map@.rooms_sized(),
                map@.sound(),
                map@.exitless(),
                map@.untouched(),
                map@.width == MAPWIDTH,
                map@.height == MAPHEIGHT,
                map@.depth == depth,
                map@.rooms.len() <= tried,
                tried > 0 ==> map@.rooms.len() > 0,
            decreases MAX_ROOMS - tried,
        {
            let w: i32 = range(rng, MIN_SIZE, MAX_SIZE);
            let h: i32 = range(rng, MIN_SIZE, MAX_SIZE);
            let x: i32 = roll_dice(rng, 1, (MAPWIDTH as i32) - w - 1) - 1;
            let y: i32 = roll_dice(rng, 1, (MAPHEIGHT as i32) - h - 1) - 1;
            let new_room = RoomRect::new(x, y, w, h);
            let ghost before = map@;
            let mut horizontal_first: bool = true;
            if map.accepts(&new_room) {
                if map.rooms.len() > 0 {
                    horizontal_first = range(rng, 0, 2) == 1;
                }
                map.add_room(new_room, horizontal_first);
                proof {
                    assert forall|k: int| 0 <= k < map@.rooms.len() implies {
                        &&& MIN_SIZE <= (#[trigger] map@.rooms[k]).x2 - map@.rooms[k].x1
                            < MAX_SIZE
                        &&& MIN_SIZE <= map@.rooms[k].y2 - map@.rooms[k].y1 < MAX_SIZE
                    } by {
                        if k < before.rooms.len() {
                            assert(map@.rooms[k] == before.rooms[k]);
                        }
                    }
                }
            }
            proof {
                let more = tries.push((new_room, horizontal_first));
                lemma_tried_prefix(blank, tries, more, tries.len());
                assert(map@ == before.after_try(new_room, horizontal_first));
                assert forall|k: int| 0 <= k < more.len() implies drawable(
                    (#[trigger] more[k]).0,
                ) by {
                    if k < tries.len() {
                        assert(more[k] == tries[k]);
                    }
                }
                tries = more;
            }
            tried += 1;
        }
        map.place_exit();
        let ghost dug = map@;
        map.populate_blocked();
        proof {
            lemma_sound_by_tiles(dug, map@);
            assert(map@ == blank.tried(tries, tries.len()).with_exit().with_blocked_from_tiles());
        }
        map
    }

    /// A fresh level at `depth`, from a generator seeded by the system.
    pub fn map_with_rooms_and_corridors(depth: i32) -> (map: GameMap)
        ensures
            map@.generated(depth as int),
    {
        let mut rng = fresh_rng();
        GameMap::generate(depth, &mut rng)
    }
}

} // verus!

//! Visibility: what each viewer sees, and what the player has seen so far.

use vstd::prelude::*;
use bracket_lib::prelude::{Algorithm2D, BaseMap};
use crate::components::{Position, Viewshed, ViewshedView};
use crate::map::{lemma_cell_index, lemma_cell_of_index, Coord, GameMap, MapView, TileType};
use crate::world::{lemma_intents_from, World, WorldView};

verus! {

/// `bracket_lib`'s point, handed to its field of view and never looked
/// into.
#[verifier::external_type_specification]
#[verifier::external_body]
pub struct ExPoint(bracket_lib::geometry::Point);

/// `Point::constant`: the point with the given coordinates, and nothing
/// else. The type is opaque here, so the contract names that point.
pub assume_specification[ bracket_lib::geometry::Point::constant ](x: i32, y: i32) -> (p:
    bracket_lib::geometry::Point)
    ensures
        p == point_at(x as int, y as int),
;

/// The widest range that is handed to the field of view, which reserves
/// room for the square of twice the range before it starts: that has to
/// fit 32 bits and the machine's memory. A viewer with a wider range looks
/// this far.
pub const MAX_RANGE: i32 = 1024;

/// `range`, or the nearest range within `MAX_RANGE` either way.
pub open spec fn within_reach(range: int) -> int {
    if range > MAX_RANGE {
        MAX_RANGE as int
    } else if range < -MAX_RANGE {
        -MAX_RANGE
    } else {
        range
    }
}

/// The cells that `bracket_lib`'s field of view reports from `(x, y)` with
/// the given range, on a grid of the given size where `opaque` says which
/// cell indexes block sight.
pub uninterp spec fn field_of_view_set(
    x: int,
    y: int,
    range: int,
    width: int,
    height: int,
    opaque: Seq<bool>,
) -> Set<Coord>;

impl BaseMap for GameMap {
    /// Walls block sight, and so does anything beyond the tiles.
    fn is_opaque(&self, idx: usize) -> (opaque: bool)
        ensures
            opaque == self@.blocks_sight(idx as int),
    {
        idx >= self.tiles.len() || self.tiles[idx] == TileType::Wall
    }
}

impl Algorithm2D for GameMap {
    /// The grid's size as a point: its width and its height.
    fn dimensions(&self) -> (size: bracket_lib::geometry::Point)
        ensures
            size == point_at(self@.width, self@.height),
    {
        bracket_lib::geometry::Point::constant(self.width, self.height)
    }
}

/// The point that `bracket_lib` makes of two coordinates.
pub uninterp spec fn point_at(x: int, y: int) -> bracket_lib::geometry::Point;

impl MapView {
    /// Whether the cell at index `i` blocks sight: it is a wall, or lies
    /// beyond the tiles.
    pub open spec fn blocks_sight(self, i: int) -> bool {
        i >= self.tiles.len() || self.tiles[i] == TileType::Wall
    }

    /// Which cell indexes block sight.
    pub open spec fn opacity(self) -> Seq<bool> {
        Seq::new((self.width * self.height) as nat, |i: int| self.blocks_sight(i))
    }

    /// Whether the field of view can be asked for a viewer at `(x, y)`
    /// with this range: the viewer stands on the grid and the range is
    /// within `MAX_RANGE` either way.
    pub open spec fn can_look(self, x: int, y: int, range: int) -> bool {
        self.in_bounds(x, y) && -MAX_RANGE <= range <= MAX_RANGE
    }

    /// What a viewer at `(x, y)` sees: the cells on the grid that the field
    /// of view reports for its range, or for `MAX_RANGE` if its range is
    /// wider. A viewer off the grid sees nothing.
    pub open spec fn visible_from(self, x: int, y: int, range: int) -> Set<Coord> {
        Set::new(
            |p: Coord|
                self.in_bounds(x, y) && self.in_bounds(p.x as int, p.y as int)
                    && field_of_view_set(
                    x,
                    y,
                    within_reach(range),
                    self.width,
                    self.height,
                    self.opacity(),
                ).contains(p),
        )
    }

    /// The cell at index `i` as a point.
    pub open spec fn cell_point(self, i: int) -> Coord {
        Coord { x: self.col(i) as i32, y: self.row(i) as i32 }
    }

    /// The masks after the player has looked: visible is exactly what is
    /// seen now, and what is seen now is revealed for good.
    pub open spec fn with_sight(self, seen: Set<Coord>) -> MapView {
        MapView {
            visible_tiles: Seq::new(
                self.visible_tiles.len(),
                |i: int| seen.contains(self.cell_point(i)),
            ),
            revealed_tiles: Seq::new(
                self.revealed_tiles.len(),
                |i: int| self.revealed_tiles[i] || seen.contains(self.cell_point(i)),
            ),
            ..self
        }
    }
}

/// The points of `points` that lie on a grid of the given size, in order.
pub open spec fn within(points: Seq<Coord>, width: int, height: int) -> Seq<Coord>
    decreases points.len(),
{
    if points.len() == 0 {
        points
    } else if 0 <= points.last().x < width && 0 <= points.last().y < height {
        within(points.drop_last(), width, height).push(points.last())
    } else {
        within(points.drop_last(), width, height)
    }
}

/// `within` keeps exactly the points that lie on the grid.
pub proof fn lemma_within(points: Seq<Coord>, width: int, height: int)
    ensures
        forall|p: Coord|
            within(points, width, height).contains(p) <==> (points.contains(p) && 0 <= p.x < width
                && 0 <= p.y < height),
    decreases points.len(),
{
    if points.len() > 0 {
        let rest = points.drop_last();
        let last = points.last();
        lemma_within(rest, width, height);
        assert forall|p: Coord|
            within(points, width, height).contains(p) <==> (points.contains(p) && 0 <= p.x < width
                && 0 <= p.y < height) by {
            let kept = within(rest, width, height);
            if points.contains(p) {
                let j = choose|j: int| 0 <= j < points.len() && points[j] == p;
                if j < rest.len() {
                    assert(rest[j] == p);
                }
            }
            if rest.contains(p) {
                let j = choose|j: int| 0 <= j < rest.len() && rest[j] == p;
                assert(points[j] == p);
            }
            assert(points[points.len() - 1] == last);
            if 0 <= last.x < width && 0 <= last.y < height {
                let all = kept.push(last);
                assert(all[kept.len() as int] == last);
                if kept.contains(p) {
                    let j = choose|j: int| 0 <= j < kept.len() && kept[j] == p;
                    assert(all[j] == p);
                }
                if all.contains(p) {
                    let j = choose|j: int| 0 <= j < all.len() && all[j] == p;
                    if j < kept.len() {
                        assert(kept[j] == p);
                    }
                }
            }
        }
    }
}

/// `bracket_lib::prelude::field_of_view` from `(x, y)` over `map`, which it
/// asks for its size and for which cells are opaque. The cells come back in
/// no fixed order, so the contract names them as a set. The precondition
/// keeps the viewer on the grid, where every index that the function forms
/// is one of the grid's, and the range where its arithmetic cannot
/// overflow.
#[verifier::external_body]
fn field_of_view(x: i32, y: i32, range: i32, map: &GameMap) -> (seen: Vec<Coord>)
    requires
        map@.wf(),
        map@.can_look(x as int, y as int, range as int),
    ensures
        seen@.to_set() == field_of_view_set(
            x as int,
            y as int,
            range as int,
            map@.width,
            map@.height,
            map@.opacity(),
        ),
{
    let origin = bracket_lib::geometry::Point::constant(x, y);
    let seen = bracket_lib::prelude::field_of_view(origin, range, map);
    seen.iter().map(|p| Coord { x: p.x, y: p.y }).collect()
}

/// Drops the points that lie off a grid of the given size.
pub fn clip_to_bounds(points: Vec<Coord>, width: i32, height: i32) -> (kept: Vec<Coord>)
    ensures
        kept@ == within(points@, width as int, height as int),
        forall|k: int|
            0 <= k < kept@.len() ==> 0 <= (#[trigger] kept@[k]).x < width && 0 <= kept@[k].y
                < height,
{
    let mut kept: Vec<Coord> = Vec::new();
    let n: usize = points.len();
    let mut i: usize = 0;
    while i < n
        invariant
            0 <= i <= n,
            n == points@.len(),
            kept@ == within(points@.subrange(0, i as int), width as int, height as int),
            forall|k: int|
                0 <= k < kept@.len() ==> 0 <= (#[trigger] kept@[k]).x < width && 0 <= kept@[k].y
                    < height,
        decreases n - i,
    {
        let p: Coord = points[i];
        proof {
            assert(points@.subrange(0, i + 1).drop_last() =~= points@.subrange(0, i as int));
        }
        if 0 <= p.x && p.x < width && 0 <= p.y && p.y < height {
            kept.push(p);
        }
        i += 1;
    }
    assert(points@.subrange(0, n as int) =~= points@);
    kept
}

/// The tiles seen from `origin` within `range`: a set that depends on
/// nothing but the grid, the origin and the range, and that lies on the
/// grid. A range beyond `MAX_RANGE` counts as `MAX_RANGE`. A viewer off
/// the grid sees nothing.
pub fn compute_visible(map: &GameMap, origin: Coord, range: i32) -> (visible: Vec<Coord>)
    requires
        map@.wf(),
    ensures
        visible@.to_set() == map@.visible_from(origin.x as int, origin.y as int, range as int),
        forall|k: int|
            0 <= k < visible@.len() ==> map@.in_bounds(
                (#[trigger] visible@[k]).x as int,
                visible@[k].y as int,
            ),
{
    if map.in_bounds(origin.x, origin.y) {
        let reach: i32 = if range > MAX_RANGE {
            MAX_RANGE
        } else if range < -MAX_RANGE {
            -MAX_RANGE
        } else {
            range
        };
        let seen = field_of_view(origin.x, origin.y, reach, map);
        let visible = clip_to_bounds(seen, map.width, map.height);
        proof {
            lemma_within(seen@, map.width as int, map.height as int);
            assert(visible@.to_set() =~= map@.visible_from(
                origin.x as int,
                origin.y as int,
                range as int,
            ));
        }
        visible
    } else {
        let visible: Vec<Coord> = Vec::new();
        assert(visible@.to_set() =~= map@.visible_from(
            origin.x as int,
            origin.y as int,
            range as int,
        ));
        visible
    }
}

/// Whether one of the first `k` points is `p`.
pub open spec fn among(points: Seq<Coord>, k: int, p: Coord) -> bool {
    exists|j: int| 0 <= j < k && points[j] == p
}

impl GameMap {
    /// Sets the masks from what the player sees: visible is exactly `seen`,
    /// and `seen` is added to what is revealed.
    pub fn show(&mut self, seen: &Vec<Coord>)
        requires
            old(self)@.wf(),
            forall|k: int|
                0 <= k < seen@.len() ==> old(self)@.in_bounds(
                    (#[trigger] seen@[k]).x as int,
                    seen@[k].y as int,
                ),
        ensures
            final(self)@ == old(self)@.with_sight(seen@.to_set()),
    {
        let ghost before = self@;
        let n: usize = self.visible_tiles.len();
        let mut i: usize = 0;
        while i < n
            invariant
                0 <= i <= n,
                n == self.visible_tiles@.len(),
                self@ == (MapView { visible_tiles: self.visible_tiles@, ..before }),
                forall|j: int| 0 <= j < i ==> !#[trigger] self.visible_tiles@[j],
            decreases n - i,
        {
            self.visible_tiles[i] = false;
            i += 1;
        }
        let count: usize = seen.len();
        let mut k: usize = 0;
        while k < count
            invariant
                0 <= k <= count,
                count == seen@.len(),
                before.wf(),
                forall|j: int|
                    0 <= j < seen@.len() ==> before.in_bounds(
                        (#[trigger] seen@[j]).x as int,
                        seen@[j].y as int,
                    ),
                self@ == (MapView {
                    visible_tiles: self.visible_tiles@,
                    revealed_tiles: self.revealed_tiles@,
                    ..before
                }),
                self.visible_tiles@.len() == before.visible_tiles.len(),
                self.revealed_tiles@.len() == before.revealed_tiles.len(),
                forall|i: int|
                    0 <= i < self.visible_tiles@.len() ==> (#[trigger] self.visible_tiles@[i]
                        == among(seen@, k as int, before.cell_point(i))),
                forall|i: int|
                    0 <= i < self.revealed_tiles@.len() ==> (#[trigger] self.revealed_tiles@[i] == (
                    before.revealed_tiles[i] || among(seen@, k as int, before.cell_point(i)))),
            decreases count - k,
        {
            let vis: Coord = seen[k];
            let idx = self.xy_idx(vis.x, vis.y);
            proof {
                lemma_cell_index(before.width, before.height, vis.x as int, vis.y as int);
                assert(before.cell_point(idx as int) == vis);
                assert forall|i: int| 0 <= i < before.tiles.len() implies (among(
                    seen@,
                    k + 1,
                    before.cell_point(i),
                ) == (among(seen@, k as int, before.cell_point(i)) || i == idx)) by {
                    let p = before.cell_point(i);
                    if among(seen@, k + 1, p) && !among(seen@, k as int, p) {
                        let j = choose|j: int| 0 <= j < k + 1 && seen@[j] == p;
                        assert(j == k);
                        lemma_cell_of_index(before.width, i);
                    }
                    if i == idx {
                        assert(seen@[k as int] == p);
                    }
                    if among(seen@, k as int, p) {
                        let j = choose|j: int| 0 <= j < k && seen@[j] == p;
                        assert(0 <= j < k + 1 && seen@[j] == p);
                    }
                }
            }
            self.revealed_tiles[idx] = true;
            self.visible_tiles[idx] = true;
            k += 1;
        }
        proof {
            assert forall|i: int| 0 <= i < before.tiles.len() implies seen@.to_set().contains(
                before.cell_point(i),
            ) == among(seen@, count as int, before.cell_point(i)) by {
                let p = before.cell_point(i);
                if seen@.contains(p) {
                    let j = choose|j: int| 0 <= j < seen@.len() && seen@[j] == p;
                    assert(0 <= j < count && seen@[j] == p);
                }
            }
            assert(self@.visible_tiles =~= before.with_sight(seen@.to_set()).visible_tiles);
            assert(self@.revealed_tiles =~= before.with_sight(seen@.to_set()).revealed_tiles);
        }
    }
}

/// Whether the entity in slot `i` has to look again: it is alive, stands
/// somewhere, and its viewshed is dirty.
pub open spec fn looks(w: WorldView, i: int) -> bool {
    &&& w.alive(i)
    &&& w.viewsheds.contains_key(i)
    &&& w.positions.contains_key(i)
    &&& w.viewsheds[i].dirty
}

/// The entity in slot `i` looks again if it has to. Only the active
/// entity's look changes the map's masks.
pub open spec fn visibility_step(w: WorldView, i: int) -> WorldView {
    if looks(w, i) {
        let seen = w.map.visible_from(
            w.positions[i].x as int,
            w.positions[i].y as int,
            w.viewsheds[i].range as int,
        );
        let looked = WorldView {
            viewsheds: w.viewsheds.insert(
                i,
                ViewshedView { visible_tiles: seen, range: w.viewsheds[i].range, dirty: false },
            ),
            ..w
        };
        if w.handle(i) == w.active() {
            WorldView { map: w.map.with_sight(seen), ..looked }
        } else {
            looked
        }
    } else {
        w
    }
}

/// The entities in the first `n` slots look again, in slot order.
pub open spec fn visibility_pass(w: WorldView, n: nat) -> WorldView
    decreases n,
{
    if n == 0 {
        w
    } else {
        visibility_step(visibility_pass(w, (n - 1) as nat), n - 1)
    }
}

/// The whole step: every dirty viewshed worked out again and clean.
#[verifier::opaque]
pub open spec fn visibility_refreshed(w: WorldView) -> WorldView {
    visibility_pass(w, w.entities.len())
}

/// Works out again what the dirty viewsheds see.
pub struct VisibilitySystem {}

impl VisibilitySystem {
    /// Works out every dirty viewshed again, in slot order.
    pub fn run(&mut self, world: &mut World)
        requires
            old(world)@.map.wf(),
        ensures
            final(world)@ == visibility_refreshed(old(world)@),
            final(world)@.keeps_intents_out(old(world)@),
            final(world)@.map.wf(),
    {
        reveal(visibility_refreshed);
        let n: usize = world.entities.len();
        let mut i: usize = 0;
        while i < n
            invariant
                0 <= i <= n,
                n == old(world)@.entities.len(),
                world@.entities == old(world)@.entities,
                world@.map.wf(),
                world@ == visibility_pass(old(world)@, i as nat),
                world@.intents_from(old(world)@),
            decreases n - i,
        {
            let ghost before = world@;
            match world.entities.entity(i) {
                Some(ent) => {
                    let position = world.positions.get(i);
                    let viewshed = world.viewsheds.get(i);
                    if position.is_some() && viewshed.is_some() && viewshed.unwrap().dirty {
                        let pos: Position = *position.unwrap();
                        let range: i32 = viewshed.unwrap().range;
                        let visible = compute_visible(
                            &world.map,
                            Coord { x: pos.x, y: pos.y },
                            range,
                        );
                        if ent == world.active_entity.target {
                            world.map.show(&visible);
                        }
                        world.viewsheds.insert(
                            i,
                            Viewshed { visible_tiles: visible, range, dirty: false },
                        );
                    }
                },
                None => {},
            }
            assert(world@ == visibility_step(before, i as int));
            i += 1;
        }
        proof {
            lemma_intents_from(world@, old(world)@);
        }
    }
}

/// Whatever is seen lies on the grid, nothing is seen by a viewer off the
/// grid, and a range beyond the widest sees what the widest sees.
pub proof fn lemma_visible_on_grid(m: MapView, x: int, y: int, range: int)
    ensures
        forall|p: Coord|
            #[trigger] m.visible_from(x, y, range).contains(p) ==> m.in_bounds(
                p.x as int,
                p.y as int,
            ),
        !m.in_bounds(x, y) ==> m.visible_from(x, y, range) =~= Set::<Coord>::empty(),
        m.visible_from(x, y, range) == m.visible_from(x, y, within_reach(range)),
{
}

/// What has been revealed stays revealed, whatever is seen next.
pub proof fn lemma_sight_never_forgets(m: MapView, seen: Set<Coord>, i: int)
    requires
        0 <= i < m.revealed_tiles.len(),
        m.revealed_tiles[i],
    ensures
        m.with_sight(seen).revealed_tiles[i],
{
}

/// Looking adds no intent: whatever is pending afterwards was pending
/// before.
pub proof fn lemma_visibility_refreshed_adds_no_intent(w: WorldView)
    ensures
        visibility_refreshed(w).intents_from(w),
{
    reveal(visibility_refreshed);
    lemma_visibility_pass_adds_no_intent(w, w.entities.len());
}

/// The first `n` slots of the pass add no intent.
pub proof fn lemma_visibility_pass_adds_no_intent(w: WorldView, n: nat)
    ensures
        visibility_pass(w, n).intents_from(w),
    decreases n,
{
    if n > 0 {
        lemma_visibility_pass_adds_no_intent(w, (n - 1) as nat);
    }
}

/// What is seen depends on the tiles and the size of the grid alone, not
/// on what has been seen or revealed before or on who stands where.
pub proof fn lemma_sight_by_tiles(m: MapView, n: MapView, x: int, y: int, range: int)
    requires
        n.tiles == m.tiles,
        n.width == m.width,
        n.height == m.height,
    ensures
        n.visible_from(x, y, range) == m.visible_from(x, y, range),
{
    assert(n.opacity() =~= m.opacity());
    assert(n.visible_from(x, y, range) =~= m.visible_from(x, y, range));
}

/// The viewshed in slot `i` after it has looked again.
pub open spec fn refreshed(w: WorldView, i: int) -> ViewshedView {
    ViewshedView {
        visible_tiles: w.map.visible_from(
            w.positions[i].x as int,
            w.positions[i].y as int,
            w.viewsheds[i].range as int,
        ),
        range: w.viewsheds[i].range,
        dirty: false,
    }
}

/// Looking touches nothing but the viewsheds and the map's two masks:
/// after the first `n` slots, the viewshed of a slot among them that had to
/// look is refreshed, and every other viewshed is as it was.
pub proof fn lemma_visibility_pass(w: WorldView, n: nat)
    ensures
        visibility_pass(w, n) == (WorldView {
            viewsheds: visibility_pass(w, n).viewsheds,
            map: visibility_pass(w, n).map,
            ..w
        }),
        visibility_pass(w, n).map.tiles == w.map.tiles,
        visibility_pass(w, n).map.width == w.map.width,
        visibility_pass(w, n).map.height == w.map.height,
        forall|i: int|
            #[trigger] visibility_pass(w, n).viewsheds.contains_key(i) == w.viewsheds.contains_key(
                i,
            ),
        forall|i: int|
            w.viewsheds.contains_key(i) ==> #[trigger] visibility_pass(w, n).viewsheds[i] == if i
                < n && looks(w, i) {
                refreshed(w, i)
            } else {
                w.viewsheds[i]
            },
    decreases n,
{
    if n > 0 {
        lemma_visibility_pass(w, (n - 1) as nat);
        let before = visibility_pass(w, (n - 1) as nat);
        if looks(w, n - 1) {
            lemma_sight_by_tiles(
                w.map,
                before.map,
                w.positions[n - 1].x as int,
                w.positions[n - 1].y as int,
                w.viewsheds[n - 1].range as int,
            );
        }
    }
}

/// After the visibility pass, every live viewer that stands somewhere has
/// a clean viewshed; one that was dirty sees exactly what can be seen from
/// where it stands, all of it on the grid; and a clean one sees what it
/// saw.
pub proof fn lemma_visibility_refreshed(w: WorldView)
    ensures
        forall|i: int|
            w.alive(i) && w.viewsheds.contains_key(i) && w.positions.contains_key(i)
                ==> !(#[trigger] visibility_refreshed(w).viewsheds[i]).dirty,
        forall|i: int|
            looks(w, i) ==> #[trigger] visibility_refreshed(w).viewsheds[i] == refreshed(w, i),
        forall|i: int, p: Coord|
            looks(w, i) && (#[trigger] visibility_refreshed(w).viewsheds[i]).visible_tiles.contains(
                p,
            ) ==> #[trigger] w.map.in_bounds(p.x as int, p.y as int),
        forall|i: int|
            w.viewsheds.contains_key(i) && !looks(w, i) ==> #[trigger] visibility_refreshed(
                w,
            ).viewsheds[i] == w.viewsheds[i],
{
    reveal(visibility_refreshed);
    lemma_visibility_pass(w, w.entities.len());
}

} // verus!

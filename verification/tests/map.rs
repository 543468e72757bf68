use bracket_lib::prelude::{Algorithm2D, BaseMap, Point};
use bracket_lib::random::RandomNumberGenerator;
use ekileugor::camera::{available_exits, is_revealed_and_wall, wall_glyph};
use ekileugor::map::{halve, Coord, GameMap, RoomRect, TileType, MAPCOUNT, MAPHEIGHT, MAPWIDTH};
use ekileugor::systems::fov::{clip_to_bounds, compute_visible};
use std::collections::HashSet;

fn reachable_from(map: &GameMap, start: (i32, i32)) -> HashSet<(i32, i32)> {
    let mut seen = HashSet::new();
    let mut todo = vec![start];
    while let Some((x, y)) = todo.pop() {
        if x < 0 || y < 0 || x >= map.width || y >= map.height {
            continue;
        }
        if map.tiles[map.xy_idx(x, y)] == TileType::Wall || !seen.insert((x, y)) {
            continue;
        }
        todo.push((x + 1, y));
        todo.push((x - 1, y));
        todo.push((x, y + 1));
        todo.push((x, y - 1));
    }
    seen
}

fn open_map() -> GameMap {
    let mut map = GameMap::blank(1);
    map.apply_room_to_map(&RoomRect::new(0, 0, 30, 19));
    map.populate_blocked();
    map
}

#[test]
fn room_rect_new_sets_corners() {
    let r = RoomRect::new(2, 3, 4, 5);
    assert_eq!(r, RoomRect { x1: 2, y1: 3, x2: 6, y2: 8 });
}

#[test]
fn room_rect_intersect_counts_shared_borders() {
    let a = RoomRect::new(0, 0, 4, 4);
    assert!(a.intersect(&RoomRect::new(4, 4, 2, 2)));
    assert!(a.intersect(&RoomRect::new(2, 2, 1, 1)));
    assert!(!a.intersect(&RoomRect::new(5, 0, 2, 2)));
    assert!(!a.intersect(&RoomRect::new(0, 5, 2, 2)));
}

#[test]
fn room_rect_center_is_the_middle() {
    assert_eq!(RoomRect::new(2, 4, 4, 3).center(), (4, 5));
    assert_eq!(RoomRect::new(0, 0, 3, 3).center(), (1, 1));
}

#[test]
fn xy_idx_is_row_major() {
    let map = GameMap::blank(1);
    assert_eq!(map.xy_idx(0, 0), 0);
    assert_eq!(map.xy_idx(5, 0), 5);
    assert_eq!(map.xy_idx(3, 2), 2 * MAPWIDTH + 3);
    assert_eq!(map.xy_idx(31, 20), MAPCOUNT - 1);
    assert!(map.in_bounds(31, 20));
    assert!(!map.in_bounds(32, 20));
    assert!(!map.in_bounds(-1, 0));
}

#[test]
fn blank_map_is_all_wall() {
    let map = GameMap::blank(3);
    assert_eq!(map.tiles.len(), MAPCOUNT);
    assert!(map.tiles.iter().all(|t| *t == TileType::Wall));
    assert_eq!(map.depth, 3);
    assert_eq!((map.width, map.height), (MAPWIDTH as i32, MAPHEIGHT as i32));
    assert!(map.rooms.is_empty());
}

#[test]
fn room_floor_leaves_first_row_and_column() {
    let mut map = GameMap::blank(1);
    map.apply_room_to_map(&RoomRect::new(2, 3, 3, 2));
    for y in 0..MAPHEIGHT as i32 {
        for x in 0..MAPWIDTH as i32 {
            let floor = x > 2 && x <= 5 && y > 3 && y <= 5;
            let expected = if floor { TileType::Floor } else { TileType::Wall };
            assert_eq!(map.tiles[map.xy_idx(x, y)], expected);
        }
    }
}

#[test]
fn tunnels_dig_both_ends_in_either_direction() {
    let mut map = GameMap::blank(1);
    map.apply_horizontal_tunnel(7, 3, 2);
    map.apply_vertical_tunnel(4, 9, 10);
    for x in 3..=7 {
        assert_eq!(map.tiles[map.xy_idx(x, 2)], TileType::Floor);
    }
    assert_eq!(map.tiles[map.xy_idx(2, 2)], TileType::Wall);
    assert_eq!(map.tiles[map.xy_idx(8, 2)], TileType::Wall);
    for y in 4..=9 {
        assert_eq!(map.tiles[map.xy_idx(10, y)], TileType::Floor);
    }
    assert_eq!(map.tiles[map.xy_idx(10, 3)], TileType::Wall);
    assert_eq!(map.tiles[map.xy_idx(10, 10)], TileType::Wall);
}

#[test]
fn tunnel_digs_the_first_tile_like_any_other() {
    let mut map = GameMap::blank(1);
    map.apply_horizontal_tunnel(0, 2, 0);
    assert_eq!(map.tiles[0], TileType::Floor);
    assert_eq!(map.tiles[map.xy_idx(2, 0)], TileType::Floor);
    assert_eq!(map.tiles[map.xy_idx(3, 0)], TileType::Wall);
    let mut other = GameMap::blank(1);
    other.apply_vertical_tunnel(2, 0, 0);
    assert_eq!(other.tiles[0], TileType::Floor);
    assert_eq!(other.tiles[other.xy_idx(0, 2)], TileType::Floor);
    assert_eq!(other.tiles[other.xy_idx(0, 3)], TileType::Wall);
    assert_eq!(other.tiles[other.xy_idx(1, 0)], TileType::Wall);
}

#[test]
fn populate_blocked_follows_walls() {
    let map = open_map();
    for i in 0..MAPCOUNT {
        assert_eq!(map.blocked[i], map.tiles[i] == TileType::Wall);
    }
}

#[test]
fn overlapping_room_is_not_accepted() {
    let mut map = GameMap::blank(1);
    let first = RoomRect::new(2, 2, 4, 4);
    assert!(map.accepts(&first));
    map.add_room(first, true);
    assert!(!map.accepts(&RoomRect::new(5, 5, 3, 3)));
    assert!(map.accepts(&RoomRect::new(10, 10, 3, 3)));
    assert_eq!(map.rooms, vec![first]);
}

#[test]
fn second_room_is_joined_by_a_corridor_either_way() {
    for horizontal_first in [true, false] {
        let mut map = GameMap::blank(1);
        let a = RoomRect::new(1, 1, 3, 3);
        let b = RoomRect::new(20, 12, 4, 4);
        map.add_room(a, true);
        map.add_room(b, horizontal_first);
        let (ax, ay) = a.center();
        let (bx, by) = b.center();
        let corner = if horizontal_first { (bx, ay) } else { (ax, by) };
        assert_eq!(map.tiles[map.xy_idx(corner.0, corner.1)], TileType::Floor);
        assert!(reachable_from(&map, (ax, ay)).contains(&(bx, by)));
    }
}

#[test]
fn exit_goes_in_the_last_room() {
    let mut map = GameMap::blank(1);
    map.add_room(RoomRect::new(1, 1, 3, 3), true);
    map.add_room(RoomRect::new(20, 12, 4, 4), true);
    map.place_exit();
    let exits: Vec<usize> = (0..MAPCOUNT).filter(|i| map.tiles[*i] == TileType::Exit).collect();
    assert_eq!(exits, vec![map.xy_idx(22, 14)]);
}

#[test]
fn generated_rooms_never_overlap_and_are_connected() {
    for seed in 0..200u64 {
        let mut rng = RandomNumberGenerator::seeded(seed);
        let map = GameMap::generate(1, &mut rng);
        assert!(!map.rooms.is_empty() && map.rooms.len() <= 7);
        for i in 0..map.rooms.len() {
            for j in (i + 1)..map.rooms.len() {
                assert!(!map.rooms[i].intersect(&map.rooms[j]));
            }
        }
        let reach = reachable_from(&map, map.rooms[0].center());
        for room in map.rooms.iter() {
            assert!(reach.contains(&room.center()));
        }
    }
}

#[test]
fn generated_map_has_exactly_one_exit() {
    for seed in 0..200u64 {
        let mut rng = RandomNumberGenerator::seeded(seed);
        let map = GameMap::generate(4, &mut rng);
        let exits: Vec<usize> =
            (0..MAPCOUNT).filter(|i| map.tiles[*i] == TileType::Exit).collect();
        let (x, y) = map.rooms[map.rooms.len() - 1].center();
        assert_eq!(exits, vec![map.xy_idx(x, y)]);
        assert_eq!(map.depth, 4);
    }
}

#[test]
fn generated_map_blocks_exactly_its_walls() {
    let map = GameMap::map_with_rooms_and_corridors(2);
    for i in 0..MAPCOUNT {
        assert_eq!(map.blocked[i], map.tiles[i] == TileType::Wall);
        assert!(!map.revealed_tiles[i]);
        assert!(!map.visible_tiles[i]);
        assert!(map.tile_content[i].is_empty());
    }
    assert_eq!(map.depth, 2);
}

#[test]
fn clip_to_bounds_keeps_order_and_drops_outsiders() {
    let points = vec![
        Coord { x: 0, y: 0 },
        Coord { x: -1, y: 3 },
        Coord { x: 4, y: 2 },
        Coord { x: 5, y: 2 },
        Coord { x: 2, y: 3 },
        Coord { x: 2, y: -1 },
    ];
    assert_eq!(
        clip_to_bounds(points, 5, 3),
        vec![Coord { x: 0, y: 0 }, Coord { x: 4, y: 2 }]
    );
}

#[test]
fn compute_visible_is_deterministic_and_bounded() {
    let mut rng = RandomNumberGenerator::seeded(11);
    let map = GameMap::generate(1, &mut rng);
    for room in map.rooms.iter() {
        let (x, y) = room.center();
        for range in [0, 1, 4, 8, 40] {
            let first: HashSet<Coord> =
                compute_visible(&map, Coord { x, y }, range).into_iter().collect();
            let second: HashSet<Coord> =
                compute_visible(&map, Coord { x, y }, range).into_iter().collect();
            assert_eq!(first, second);
            assert!(first.contains(&Coord { x, y }));
            for p in first.iter() {
                assert!(p.x >= 0 && p.x < map.width && p.y >= 0 && p.y < map.height);
            }
        }
    }
}

#[test]
fn compute_visible_stops_at_walls_and_range() {
    let mut map = GameMap::blank(1);
    map.apply_room_to_map(&RoomRect::new(4, 4, 5, 5));
    let seen: HashSet<Coord> =
        compute_visible(&map, Coord { x: 7, y: 7 }, 8).into_iter().collect();
    assert!(seen.len() > 1);
    assert!(seen.contains(&Coord { x: 5, y: 7 }));
    assert!(seen.contains(&Coord { x: 4, y: 7 }));
    assert!(!seen.contains(&Coord { x: 3, y: 7 }));
    assert!(!seen.contains(&Coord { x: 20, y: 7 }));
    let near: HashSet<Coord> =
        compute_visible(&open_map(), Coord { x: 10, y: 10 }, 2).into_iter().collect();
    assert!(near.contains(&Coord { x: 12, y: 10 }));
    assert!(!near.contains(&Coord { x: 14, y: 10 }));
}

#[test]
fn viewer_off_the_map_sees_nothing() {
    let map = open_map();
    assert!(compute_visible(&map, Coord { x: -1, y: 3 }, 8).is_empty());
    assert!(compute_visible(&map, Coord { x: 3, y: 21 }, 8).is_empty());
    assert!(compute_visible(&map, Coord { x: 40, y: 3 }, 30000).is_empty());
}

#[test]
fn show_sets_visible_and_accumulates_revealed() {
    let mut map = open_map();
    map.show(&vec![Coord { x: 1, y: 1 }, Coord { x: 2, y: 1 }]);
    map.show(&vec![Coord { x: 3, y: 1 }]);
    let a = map.xy_idx(1, 1);
    let b = map.xy_idx(2, 1);
    let c = map.xy_idx(3, 1);
    for i in 0..MAPCOUNT {
        assert_eq!(map.visible_tiles[i], i == c);
        assert_eq!(map.revealed_tiles[i], i == a || i == b || i == c);
    }
}

#[test]
fn exit_validity_and_available_exits() {
    let map = open_map();
    assert!(map.is_exit_valid(1, 1));
    assert!(!map.is_exit_valid(0, 1));
    assert!(!map.is_exit_valid(1, 0));
    assert!(!map.is_exit_valid(32, 5));
    assert!(!map.is_exit_valid(31, 5));
    let idx = map.xy_idx(5, 5);
    assert_eq!(
        available_exits(&map, idx),
        vec![idx - 1, idx + 1, idx - MAPWIDTH, idx + MAPWIDTH]
    );
    let corner = map.xy_idx(1, 1);
    assert_eq!(available_exits(&map, corner), vec![corner + 1, corner + MAPWIDTH]);
}

#[test]
fn wall_glyph_joins_revealed_walls() {
    let mut map = GameMap::blank(1);
    assert_eq!(wall_glyph(&map, 0, 5), 35);
    assert_eq!(wall_glyph(&map, 31, 5), 35);
    assert_eq!(wall_glyph(&map, 5, 5), 9);
    let north = map.xy_idx(5, 4);
    let south = map.xy_idx(5, 6);
    let west = map.xy_idx(4, 5);
    let east = map.xy_idx(6, 5);
    map.revealed_tiles[north] = true;
    assert!(is_revealed_and_wall(&map, 5, 4));
    assert!(!is_revealed_and_wall(&map, 5, 6));
    assert_eq!(wall_glyph(&map, 5, 5), 186);
    map.revealed_tiles[west] = true;
    assert_eq!(wall_glyph(&map, 5, 5), 188);
    map.revealed_tiles[south] = true;
    assert_eq!(wall_glyph(&map, 5, 5), 185);
    map.revealed_tiles[east] = true;
    assert_eq!(wall_glyph(&map, 5, 5), 206);
    map.tiles[north] = TileType::Floor;
    assert_eq!(wall_glyph(&map, 5, 5), 203);
}

#[test]
fn center_rounds_towards_the_origin() {
    assert_eq!(halve(7), 3);
    assert_eq!(halve(-7), -3);
    assert_eq!(halve(0), 0);
    assert_eq!(halve(2 * i32::MAX as i64), i32::MAX);
    assert_eq!(halve(2 * i32::MIN as i64), i32::MIN);
    assert_eq!(RoomRect { x1: -4, x2: -1, y1: -3, y2: 6 }.center(), (-2, 1));
    assert_eq!(RoomRect { x1: i32::MAX, x2: i32::MAX, y1: 0, y2: 1 }.center(), (i32::MAX, 0));
}

#[test]
fn well_formed_map_has_one_entry_per_cell() {
    let mut map = GameMap::blank(1);
    assert!(map.is_well_formed());
    map.blocked.pop();
    assert!(!map.is_well_formed());
    map.blocked.push(false);
    map.width = 0;
    assert!(!map.is_well_formed());
    map.width = 16;
    map.height = 42;
    assert!(map.is_well_formed());
    map.width = 65536;
    map.height = 65536;
    assert!(!map.is_well_formed());
}

#[test]
fn content_index_is_cleared_everywhere() {
    let mut map = GameMap::blank(1);
    let e = ekileugor::entity::Entity { index: 0, generation: 0 };
    map.tile_content[3].push(e);
    map.tile_content[MAPCOUNT - 1].push(e);
    map.clear_content_index();
    assert!(map.tile_content.iter().all(|t| t.is_empty()));
    assert_eq!(map.tile_content.len(), MAPCOUNT);
}

fn grid(width: i32, height: i32, floor: bool) -> GameMap {
    let n = (width * height) as usize;
    GameMap {
        tiles: vec![if floor { TileType::Floor } else { TileType::Wall }; n],
        blocked: vec![!floor; n],
        tile_content: vec![Vec::new(); n],
        revealed_tiles: vec![false; n],
        visible_tiles: vec![false; n],
        rooms: Vec::new(),
        width,
        height,
        depth: 1,
    }
}

#[test]
fn looking_from_any_cell_stays_on_the_grid() {
    let mut rng = RandomNumberGenerator::seeded(21);
    let generated = GameMap::generate(1, &mut rng);
    let maps = vec![
        generated,
        GameMap::blank(1),
        open_map(),
        grid(1, 1, true),
        grid(1, 7, true),
        grid(7, 1, true),
        grid(2, 2, false),
        grid(5, 9, true),
    ];
    for map in maps.iter() {
        assert!(map.is_well_formed());
        for y in 0..map.height {
            for x in 0..map.width {
                for range in [-3, 0, 1, 2, 8, 60] {
                    let seen = compute_visible(map, Coord { x, y }, range);
                    assert!(seen.contains(&Coord { x, y }));
                    for p in seen.iter() {
                        assert!(map.in_bounds(p.x, p.y));
                    }
                }
            }
        }
    }
}

#[test]
fn looking_farther_than_allowed_sees_what_the_widest_range_sees() {
    let map = grid(9, 9, true);
    for (x, y) in [(0, 0), (8, 8), (4, 4), (0, 8)] {
        let seen: HashSet<Coord> =
            compute_visible(&map, Coord { x, y }, 1024).into_iter().collect();
        assert_eq!(seen.len(), 81);
        for range in [1025, 30000, i32::MAX, -1025, i32::MIN] {
            let wider: HashSet<Coord> =
                compute_visible(&map, Coord { x, y }, range).into_iter().collect();
            assert_eq!(wider, seen);
        }
    }
}

#[test]
fn map_tells_the_field_of_view_its_size_and_its_walls() {
    let mut map = GameMap::blank(1);
    map.apply_room_to_map(&RoomRect::new(4, 4, 5, 5));
    assert_eq!(map.dimensions(), Point::new(32, 21));
    assert!(map.is_opaque(0));
    assert!(map.is_opaque(map.xy_idx(4, 5)));
    assert!(!map.is_opaque(map.xy_idx(5, 5)));
    assert!(!map.is_opaque(map.xy_idx(9, 9)));
    assert!(map.is_opaque(map.xy_idx(10, 9)));
    assert!(map.is_opaque(MAPCOUNT));
    assert!(map.is_opaque(usize::MAX));
    let narrow = grid(3, 11, true);
    assert_eq!(narrow.dimensions(), Point::new(3, 11));
    assert!(!narrow.is_opaque(32));
    assert!(narrow.is_opaque(33));
}

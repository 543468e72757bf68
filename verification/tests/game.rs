use bracket_lib::random::RandomNumberGenerator;
use ekileugor::camera::{inventory, render_list};
use ekileugor::components::{
    ActiveEntity, CombatStats, Consumable, Controllable, EntityMoved, Heals, Item, ItemOwned,
    MeleeIntent, Name, PickupItemIntent, Player, PoolStats, Position, Renderable, SinglePoolStat,
    UseItemIntent, Viewshed,
};
use ekileugor::control::{_try_curse, curse, possible_hosts, take_control, try_change_control};
use ekileugor::entity::Entity;
use ekileugor::game::{player_input, State};
use ekileugor::glyphs::{BLACK, MAGENTA, RED, YELLOW};
use ekileugor::map::{GameMap, RoomRect, TileType};
use ekileugor::player::{pickup_item, try_move_player, try_next_level, use_item, Command};
use ekileugor::spawner::{
    goblin, health_potion, orc, place_spawns, player, roll_spawn_points, room_random_table,
    spawn_entity, spawn_room, spike_trap, SpawnPoint,
};
use ekileugor::world::{GameLog, RunState, World};

fn open_world() -> World {
    let mut map = GameMap::blank(1);
    map.apply_room_to_map(&RoomRect::new(0, 0, 30, 19));
    map.populate_blocked();
    World::new(map, RandomNumberGenerator::seeded(5))
}

fn with_hero(x: i32, y: i32) -> (State, Entity) {
    let mut ecs = open_world();
    let hero = player(&mut ecs, x, y);
    ecs.active_entity = ActiveEntity { target: hero };
    (State { ecs }, hero)
}

#[test]
fn new_world_starts_empty_in_pre_run() {
    let world = open_world();
    assert_eq!(world.entities.len(), 0);
    assert_eq!(world.run_state, RunState::PreRun);
    assert!(world.log.entries.is_empty());
    assert!(world.particle_builder.requests.is_empty());
    assert!(!world.is_alive(world.active_entity.target));
}

#[test]
fn player_is_built_with_all_its_parts() {
    let mut world = open_world();
    let hero = player(&mut world, 4, 6);
    let i = hero.index;
    assert!(world.is_alive(hero));
    assert_eq!(world.players.get(i), Some(&Player {}));
    assert_eq!(world.controllables.get(i), Some(&Controllable { current: true }));
    assert_eq!(world.positions.get(i), Some(&Position { x: 4, y: 6 }));
    assert_eq!(world.names.get(i).unwrap().name, "Player");
    assert!(world.blockers.contains(i));
    let viewshed = world.viewsheds.get(i).unwrap();
    assert!(viewshed.dirty && viewshed.range == 8 && viewshed.visible_tiles.is_empty());
    assert_eq!(
        world.renderables.get(i),
        Some(&Renderable { glyph: 64, fg: YELLOW, bg: BLACK, render_order: 0 })
    );
    assert_eq!(world.combat_stats.get(i), Some(&CombatStats { attack: 10, defense: 10, evade: 0 }));
    assert_eq!(
        world.pool_stats.get(i),
        Some(&PoolStats { hp: SinglePoolStat { current: 25, max: 25 }, xp: 0, level: 1, gold: 0 })
    );
    assert!(!world.mobs.contains(i));
}

#[test]
fn spawnables_are_built_by_kind() {
    let mut world = open_world();
    goblin(&mut world, 1, 1);
    orc(&mut world, 2, 1);
    health_potion(&mut world, 3, 1);
    spike_trap(&mut world, 4, 1);
    assert_eq!(world.names.get(0).unwrap().name, "Goblin");
    assert_eq!(
        world.renderables.get(0),
        Some(&Renderable { glyph: 103, fg: RED, bg: BLACK, render_order: 1 })
    );
    assert_eq!(world.combat_stats.get(0), Some(&CombatStats { attack: 5, defense: 5, evade: 0 }));
    assert_eq!(world.pool_stats.get(0).unwrap().hp, SinglePoolStat { current: 8, max: 8 });
    assert!(world.mobs.contains(0) && world.blockers.contains(0) && world.viewsheds.contains(0));
    assert_eq!(world.controllables.get(0), Some(&Controllable { current: false }));
    assert_eq!(world.names.get(1).unwrap().name, "Orc");
    assert_eq!(world.renderables.get(1).unwrap().glyph, 111);
    assert_eq!(world.names.get(2).unwrap().name, "Health Potion");
    assert_eq!(
        world.renderables.get(2),
        Some(&Renderable { glyph: 173, fg: MAGENTA, bg: BLACK, render_order: 2 })
    );
    assert_eq!(world.items.get(2), Some(&Item {}));
    assert_eq!(world.consumables.get(2), Some(&Consumable { charges: 1 }));
    assert_eq!(world.heals.get(2), Some(&Heals { amount: 8 }));
    assert_eq!(world.names.get(3).unwrap().name, "Spike Trap");
    assert_eq!(world.renderables.get(3).unwrap().glyph, 94);
    assert!(world.entry_triggers.contains(3));
    assert_eq!(world.inflicts_damage.get(3).unwrap().amount, 6);
    assert_eq!(world.positions.get(3), Some(&Position { x: 4, y: 1 }));
}

#[test]
fn spawn_entity_dispatches_on_the_kind_name() {
    let mut world = open_world();
    spawn_entity(&mut world, 1, 1, &"Goblin".to_string());
    spawn_entity(&mut world, 2, 1, &"Dragon".to_string());
    spawn_entity(&mut world, 3, 1, &"None".to_string());
    spawn_entity(&mut world, 4, 1, &"Spike Trap".to_string());
    assert_eq!(world.entities.len(), 2);
    assert_eq!(world.names.get(0).unwrap().name, "Goblin");
    assert_eq!(world.names.get(1).unwrap().name, "Spike Trap");
    place_spawns(
        &mut world,
        &vec![
            SpawnPoint { x: 5, y: 5, kind: "Orc".to_string() },
            SpawnPoint { x: 6, y: 5, kind: "Health Potion".to_string() },
        ],
    );
    assert_eq!(world.entities.len(), 4);
    assert_eq!(world.names.get(2).unwrap().name, "Orc");
    assert_eq!(world.positions.get(3), Some(&Position { x: 6, y: 5 }));
}

#[test]
fn room_table_grows_with_depth() {
    let table = room_random_table(3);
    assert_eq!(table.total_weight(), 10 + 4 + 7 + 103);
    assert_eq!(table.pick(0), "Goblin");
    assert_eq!(table.pick(10), "Orc");
    assert_eq!(table.pick(14), "Health Potion");
    assert_eq!(table.pick(21), "Spike Trap");
    assert_eq!(table.pick(123), "Spike Trap");
    assert_eq!(table.pick(124), "None");
    let shallow = room_random_table(-1);
    assert_eq!(shallow.total_weight(), 10 + 7 + 99);
    assert_eq!(shallow.pick(10), "Health Potion");
}

#[test]
fn spawn_points_lie_on_the_floor_and_never_share_a_cell() {
    let room = RoomRect::new(3, 4, 4, 3);
    for seed in 0..100u64 {
        let mut rng = RandomNumberGenerator::seeded(seed);
        let points = roll_spawn_points(&mut rng, &room, 2);
        assert!(points.len() <= 5);
        for (i, p) in points.iter().enumerate() {
            assert!(p.x > room.x1 && p.x <= room.x2 && p.y > room.y1 && p.y <= room.y2);
            for q in points.iter().skip(i + 1) {
                assert!(p.x != q.x || p.y != q.y);
            }
        }
    }
}

#[test]
fn spawn_room_populates_only_the_room() {
    let mut world = open_world();
    let hero = player(&mut world, 1, 1);
    let room = RoomRect::new(10, 10, 4, 4);
    for _ in 0..20 {
        spawn_room(&mut world, &room, 3);
    }
    assert!(world.entities.len() > 1);
    assert_eq!(world.positions.get(hero.index), Some(&Position { x: 1, y: 1 }));
    for i in 1..world.entities.len() {
        let p = world.positions.get(i).unwrap();
        assert!(p.x > 10 && p.x <= 14 && p.y > 10 && p.y <= 14);
    }
}

#[test]
fn pipeline_leaves_no_intent_behind() {
    let (mut state, hero) = with_hero(3, 3);
    goblin(&mut state.ecs, 4, 3);
    health_potion(&mut state.ecs, 3, 3);
    let foe = state.ecs.entities.entity(1).unwrap();
    let item = state.ecs.entities.entity(2).unwrap();
    state.ecs.melee_intents.insert(hero.index, MeleeIntent { target: foe });
    state.ecs.melee_intents.insert(foe.index, MeleeIntent { target: hero });
    state.ecs.pickup_intents.insert(hero.index, PickupItemIntent { picked_by: hero, item });
    state.ecs.use_intents.insert(hero.index, UseItemIntent { item, target: None });
    state.ecs.use_intents.insert(foe.index, UseItemIntent { item: foe, target: None });
    state.run_systems();
    for i in 0..state.ecs.entities.len() + 1 {
        assert!(!state.ecs.melee_intents.contains(i));
        assert!(!state.ecs.pickup_intents.contains(i));
        assert!(!state.ecs.use_intents.contains(i));
    }
    assert!(state.ecs.melee_intents.slots.iter().all(|s| s.is_none()));
    assert!(state.ecs.pickup_intents.slots.iter().all(|s| s.is_none()));
    assert!(state.ecs.use_intents.slots.iter().all(|s| s.is_none()));
}

#[test]
fn pipeline_runs_its_systems_in_order() {
    let (mut state, hero) = with_hero(3, 3);
    goblin(&mut state.ecs, 4, 3);
    let foe = state.ecs.entities.entity(1).unwrap();
    state.ecs.melee_intents.insert(hero.index, MeleeIntent { target: foe });
    state.run_systems();
    assert_eq!(state.ecs.pool_stats.get(foe.index).unwrap().hp.current, 3);
    assert!(!state.ecs.damages.contains(foe.index));
    assert_eq!(state.ecs.log.entries, vec!["Player hits Goblin, for 5 hp.".to_string()]);
    assert!(!state.ecs.viewsheds.get(hero.index).unwrap().dirty);
    assert!(state.ecs.map.visible_tiles[state.ecs.map.xy_idx(3, 3)]);
    assert_eq!(state.ecs.map.tile_content[state.ecs.map.xy_idx(4, 3)], vec![foe]);
    assert!(state.ecs.map.blocked[state.ecs.map.xy_idx(4, 3)]);
    assert!(state.ecs.particle_builder.requests.is_empty());
    let particle = state.ecs.entities.entity(2).unwrap();
    assert!(state.ecs.particle_lifetimes.contains(particle.index));
    assert_eq!(state.ecs.positions.get(particle.index), Some(&Position { x: 4, y: 3 }));
}

#[test]
fn turn_cycle_walks_through_its_states() {
    let (mut state, hero) = with_hero(3, 3);
    assert_eq!(state.ecs.run_state, RunState::PreRun);
    state.tick(None, 16);
    assert_eq!(state.ecs.run_state, RunState::AwaitingInput);
    state.tick(None, 16);
    assert_eq!(state.ecs.run_state, RunState::AwaitingInput);
    state.tick(Some(Command::MoveE), 16);
    assert_eq!(state.ecs.run_state, RunState::PlayerTurn);
    assert_eq!(state.ecs.positions.get(hero.index), Some(&Position { x: 4, y: 3 }));
    state.tick(Some(Command::MoveE), 16);
    assert_eq!(state.ecs.run_state, RunState::MonsterTurn);
    assert_eq!(state.ecs.positions.get(hero.index), Some(&Position { x: 4, y: 3 }));
    state.tick(None, 16);
    assert_eq!(state.ecs.run_state, RunState::CurseTurn);
    state.tick(None, 16);
    assert_eq!(state.ecs.run_state, RunState::AwaitingInput);
}

#[test]
fn commands_that_cannot_be_carried_out_keep_waiting() {
    let (mut state, hero) = with_hero(3, 3);
    state.ecs.run_state = RunState::AwaitingInput;
    state.tick(Some(Command::PickUp), 0);
    assert_eq!(state.ecs.run_state, RunState::AwaitingInput);
    state.tick(Some(Command::Descend), 0);
    assert_eq!(state.ecs.run_state, RunState::AwaitingInput);
    assert_eq!(
        state.ecs.log.entries,
        vec!["There is nothing here to pick up.".to_string(), "There is no exit here!".to_string()]
    );
    assert_eq!(state.ecs.positions.get(hero.index), Some(&Position { x: 3, y: 3 }));
}

#[test]
fn player_input_maps_each_command() {
    let (mut state, hero) = with_hero(3, 3);
    assert_eq!(player_input(&mut state, None), RunState::AwaitingInput);
    assert_eq!(player_input(&mut state, Some(Command::MoveN)), RunState::PlayerTurn);
    assert_eq!(state.ecs.positions.get(hero.index), Some(&Position { x: 3, y: 2 }));
    assert_eq!(player_input(&mut state, Some(Command::MoveS)), RunState::PlayerTurn);
    assert_eq!(state.ecs.positions.get(hero.index), Some(&Position { x: 3, y: 3 }));
    assert_eq!(player_input(&mut state, Some(Command::MoveW)), RunState::PlayerTurn);
    assert_eq!(state.ecs.positions.get(hero.index), Some(&Position { x: 2, y: 3 }));
    assert_eq!(player_input(&mut state, Some(Command::MoveE)), RunState::PlayerTurn);
    assert_eq!(state.ecs.positions.get(hero.index), Some(&Position { x: 3, y: 3 }));
    let item = Entity { index: 9, generation: 0 };
    assert_eq!(player_input(&mut state, Some(Command::UseItem(item))), RunState::PlayerTurn);
    assert_eq!(state.ecs.use_intents.get(hero.index).unwrap().item, item);
    assert_eq!(player_input(&mut state, Some(Command::ChangeControl)), RunState::PlayerTurn);
    let exit = state.ecs.map.xy_idx(3, 3);
    state.ecs.map.tiles[exit] = TileType::Exit;
    assert_eq!(player_input(&mut state, Some(Command::Descend)), RunState::NextLevel);
}

#[test]
fn moving_into_a_wall_or_off_the_map_does_nothing() {
    let (mut state, hero) = with_hero(1, 1);
    state.ecs.viewsheds.insert(hero.index, Viewshed { visible_tiles: Vec::new(), range: 8, dirty: false });
    try_move_player(-1, 0, &mut state.ecs);
    try_move_player(0, -1, &mut state.ecs);
    try_move_player(-5, 0, &mut state.ecs);
    try_move_player(0, 100, &mut state.ecs);
    assert_eq!(state.ecs.positions.get(hero.index), Some(&Position { x: 1, y: 1 }));
    assert!(!state.ecs.viewsheds.get(hero.index).unwrap().dirty);
    assert!(!state.ecs.moved.contains(hero.index));
}

#[test]
fn moving_marks_the_mover_and_dirties_its_view() {
    let (mut state, hero) = with_hero(1, 1);
    state.ecs.viewsheds.insert(hero.index, Viewshed { visible_tiles: Vec::new(), range: 8, dirty: false });
    try_move_player(1, 1, &mut state.ecs);
    assert_eq!(state.ecs.positions.get(hero.index), Some(&Position { x: 2, y: 2 }));
    assert!(state.ecs.viewsheds.get(hero.index).unwrap().dirty);
    assert_eq!(state.ecs.moved.get(hero.index), Some(&EntityMoved {}));
    assert!(!state.ecs.melee_intents.contains(hero.index));
}

#[test]
fn moving_into_a_fighter_attacks_it() {
    let (mut state, hero) = with_hero(3, 3);
    health_potion(&mut state.ecs, 4, 3);
    goblin(&mut state.ecs, 4, 3);
    let foe = state.ecs.entities.entity(2).unwrap();
    state.run_systems();
    try_move_player(1, 0, &mut state.ecs);
    assert_eq!(state.ecs.melee_intents.get(hero.index), Some(&MeleeIntent { target: foe }));
    assert_eq!(state.ecs.positions.get(hero.index), Some(&Position { x: 3, y: 3 }));
    assert!(!state.ecs.moved.contains(hero.index));
}

#[test]
fn pickup_takes_the_last_item_underfoot() {
    let (mut state, hero) = with_hero(3, 3);
    health_potion(&mut state.ecs, 3, 3);
    health_potion(&mut state.ecs, 5, 5);
    health_potion(&mut state.ecs, 3, 3);
    let last = state.ecs.entities.entity(3).unwrap();
    assert!(pickup_item(&mut state.ecs));
    assert_eq!(
        state.ecs.pickup_intents.get(hero.index),
        Some(&PickupItemIntent { picked_by: hero, item: last })
    );
    assert!(state.ecs.log.entries.is_empty());
    state.ecs.positions.insert(hero.index, Position { x: 9, y: 9 });
    state.ecs.pickup_intents.clear();
    assert!(!pickup_item(&mut state.ecs));
    assert!(!state.ecs.pickup_intents.contains(hero.index));
    assert_eq!(state.ecs.log.entries, vec!["There is nothing here to pick up.".to_string()]);
}

#[test]
fn use_item_needs_a_live_user() {
    let mut world = open_world();
    let item = Entity { index: 3, generation: 0 };
    assert!(!use_item(&mut world, item));
    assert!(world.use_intents.slots.iter().all(|s| s.is_none()));
    let hero = player(&mut world, 1, 1);
    world.active_entity = ActiveEntity { target: hero };
    assert!(use_item(&mut world, item));
    let intent = world.use_intents.get(hero.index).unwrap();
    assert!(intent.item == item && intent.target.is_none());
}

#[test]
fn descending_needs_the_exit() {
    let (mut state, _hero) = with_hero(3, 3);
    assert!(!try_next_level(&mut state.ecs));
    assert_eq!(state.ecs.log.entries, vec!["There is no exit here!".to_string()]);
    let exit = state.ecs.map.xy_idx(3, 3);
    state.ecs.map.tiles[exit] = TileType::Exit;
    assert!(try_next_level(&mut state.ecs));
    assert_eq!(state.ecs.log.entries.len(), 1);
}

#[test]
fn next_level_keeps_only_the_player_and_what_it_owns() {
    let (mut state, hero) = with_hero(3, 3);
    health_potion(&mut state.ecs, 3, 3);
    goblin(&mut state.ecs, 6, 6);
    spike_trap(&mut state.ecs, 7, 7);
    let potion = state.ecs.entities.entity(1).unwrap();
    let foe = state.ecs.entities.entity(2).unwrap();
    let trap = state.ecs.entities.entity(3).unwrap();
    state.ecs.positions.remove(potion.index);
    state.ecs.items_owned.insert(potion.index, ItemOwned { owner: hero });
    assert_eq!(state.remove_entities_next_level(), vec![foe, trap]);
    state.ecs.viewsheds.insert(hero.index, Viewshed { visible_tiles: Vec::new(), range: 8, dirty: false });
    state.ecs.run_state = RunState::NextLevel;
    state.tick(None, 0);
    assert_eq!(state.ecs.run_state, RunState::PreRun);
    assert!(state.ecs.is_alive(hero));
    assert!(state.ecs.is_alive(potion));
    assert!(!state.ecs.is_alive(foe));
    assert!(!state.ecs.is_alive(trap));
    assert_eq!(state.ecs.map.depth, 2);
    let (x, y) = state.ecs.map.rooms[0].center();
    assert_eq!(state.ecs.positions.get(hero.index), Some(&Position { x, y }));
    assert!(state.ecs.viewsheds.get(hero.index).unwrap().dirty);
    assert_eq!(state.ecs.items_owned.get(potion.index), Some(&ItemOwned { owner: hero }));
    assert_eq!(state.ecs.names.get(potion.index).unwrap().name, "Health Potion");
    assert_eq!(
        state.ecs.log.entries.last(),
        Some(&"You reached the portal and moved on!".to_string())
    );
    let first = state.ecs.map.rooms[0];
    for i in 0..state.ecs.entities.len() {
        if let Some(e) = state.ecs.entities.entity(i) {
            if e != hero && e != potion {
                let p = state.ecs.positions.get(i).unwrap();
                assert!(!(p.x > first.x1 && p.x <= first.x2 && p.y > first.y1 && p.y <= first.y2));
                assert!(state.ecs.map.rooms.iter().skip(1).any(|r| p.x > r.x1
                    && p.x <= r.x2
                    && p.y > r.y1
                    && p.y <= r.y2));
            }
        }
    }
}

#[test]
fn purge_and_arrival_are_separate_steps() {
    let (mut state, hero) = with_hero(3, 3);
    goblin(&mut state.ecs, 6, 6);
    let foe = state.ecs.entities.entity(1).unwrap();
    state.purge_for_next_level();
    assert!(state.ecs.is_alive(hero));
    assert!(!state.ecs.is_alive(foe));
    let mut rng = RandomNumberGenerator::seeded(2);
    state.ecs.map = GameMap::generate(5, &mut rng);
    state.arrive();
    let (x, y) = state.ecs.map.rooms[0].center();
    assert_eq!(state.ecs.positions.get(hero.index), Some(&Position { x, y }));
    assert_eq!(state.ecs.log.entries, vec!["You reached the portal and moved on!".to_string()]);
}

#[test]
fn control_passes_to_a_named_live_host() {
    let (mut state, hero) = with_hero(3, 3);
    goblin(&mut state.ecs, 6, 6);
    let foe = state.ecs.entities.entity(1).unwrap();
    state.ecs.viewsheds.insert(foe.index, Viewshed { visible_tiles: Vec::new(), range: 8, dirty: false });
    assert_eq!(possible_hosts(&state.ecs), vec![hero, foe]);
    take_control(&mut state.ecs, Entity { index: 1, generation: 4 });
    assert_eq!(state.ecs.active_entity.target, hero);
    take_control(&mut state.ecs, foe);
    assert_eq!(state.ecs.active_entity.target, foe);
    assert!(state.ecs.viewsheds.get(foe.index).unwrap().dirty);
    assert_eq!(
        state.ecs.log.entries,
        vec!["You've been cursed! You are now the Goblin".to_string()]
    );
}

#[test]
fn curse_picks_only_among_possible_hosts() {
    let (mut state, hero) = with_hero(3, 3);
    goblin(&mut state.ecs, 6, 6);
    spike_trap(&mut state.ecs, 7, 7);
    let foe = state.ecs.entities.entity(1).unwrap();
    let mut seen_foe = false;
    let mut seen_hero = false;
    for _ in 0..400 {
        let before = state.ecs.log.entries.len();
        if seen_foe {
            _try_curse(&mut state.ecs);
        } else {
            try_change_control(&mut state.ecs);
        }
        let target = state.ecs.active_entity.target;
        assert!(target == hero || target == foe);
        if state.ecs.log.entries.len() > before {
            seen_foe = seen_foe || target == foe;
            seen_hero = seen_hero || target == hero;
        }
    }
    assert!(seen_foe && seen_hero);
}

#[test]
fn curse_with_nobody_to_pass_to_changes_nothing() {
    let mut world = open_world();
    for _ in 0..50 {
        try_change_control(&mut world);
    }
    assert!(world.log.entries.is_empty());
    assert_eq!(world.active_entity.target, Entity { index: 0, generation: 0 });
}

#[test]
fn inventory_lists_named_items_of_the_owner() {
    let (mut state, hero) = with_hero(3, 3);
    health_potion(&mut state.ecs, 3, 3);
    health_potion(&mut state.ecs, 4, 3);
    goblin(&mut state.ecs, 6, 6);
    let a = state.ecs.entities.entity(1).unwrap();
    let b = state.ecs.entities.entity(2).unwrap();
    let foe = state.ecs.entities.entity(3).unwrap();
    state.ecs.items_owned.insert(a.index, ItemOwned { owner: hero });
    state.ecs.items_owned.insert(b.index, ItemOwned { owner: foe });
    assert_eq!(inventory(&state.ecs, hero), vec![a]);
    assert_eq!(inventory(&state.ecs, foe), vec![b]);
    state.ecs.names.remove(a.index);
    assert!(inventory(&state.ecs, hero).is_empty());
    let _ = Name { name: String::new() };
}

#[test]
fn new_game_puts_the_hero_in_the_first_room() {
    for seed in 0..30u64 {
        let state = State::new_game(RandomNumberGenerator::seeded(seed));
        assert!(state.ready());
        let hero = state.ecs.active_entity.target;
        assert!(state.ecs.is_alive(hero));
        assert_eq!(hero, Entity { index: 0, generation: 0 });
        assert!(state.ecs.players.contains(hero.index));
        let (x, y) = state.ecs.map.rooms[0].center();
        assert_eq!(state.ecs.positions.get(hero.index), Some(&Position { x, y }));
        assert_eq!(state.ecs.map.depth, 1);
        assert_eq!(state.ecs.run_state, RunState::PreRun);
        assert_eq!(state.ecs.log.entries, vec!["You enter Ekileugor".to_string()]);
        let first = state.ecs.map.rooms[0];
        for i in 1..state.ecs.entities.len() {
            let p = state.ecs.positions.get(i).unwrap();
            assert!(!(p.x > first.x1 && p.x <= first.x2 && p.y > first.y1 && p.y <= first.y2));
            let name = &state.ecs.names.get(i).unwrap().name;
            assert!(["Goblin", "Orc", "Health Potion", "Spike Trap"].contains(&name.as_str()));
        }
    }
}

#[test]
fn game_is_not_ready_on_a_broken_map_or_at_the_deepest_level() {
    let (mut state, _hero) = with_hero(3, 3);
    assert!(state.ready());
    state.ecs.map.depth = 1073741763;
    assert!(state.ready());
    state.ecs.map.depth = 1073741764;
    assert!(!state.ready());
    state.ecs.map.depth = 1;
    state.ecs.map.tiles.pop();
    assert!(!state.ready());
}

#[test]
fn a_whole_game_can_be_played_through_many_ticks() {
    let mut state = State::new_game(RandomNumberGenerator::seeded(99));
    let commands = [
        Command::MoveE,
        Command::MoveS,
        Command::PickUp,
        Command::MoveW,
        Command::MoveN,
        Command::Descend,
        Command::ChangeControl,
    ];
    for step in 0..400 {
        assert!(state.ready());
        let before = state.ecs.run_state;
        state.tick(Some(commands[step % commands.len()]), 16);
        if before != RunState::AwaitingInput && before != RunState::NextLevel {
            assert!(state.ecs.melee_intents.slots.iter().all(|s| s.is_none()));
            assert!(state.ecs.pickup_intents.slots.iter().all(|s| s.is_none()));
            assert!(state.ecs.use_intents.slots.iter().all(|s| s.is_none()));
        }
        assert!(state.ecs.is_alive(state.ecs.active_entity.target));
    }
}

#[test]
fn log_keeps_entries_in_order() {
    let mut log = GameLog::new();
    assert!(log.entries.is_empty());
    log.push("one".to_string());
    log.push("two".to_string());
    assert_eq!(log.entries, vec!["one".to_string(), "two".to_string()]);
}

#[test]
fn deleting_an_entity_waits_for_the_barrier() {
    let mut world = open_world();
    let hero = player(&mut world, 1, 1);
    assert!(world.delete_entity(hero));
    assert!(world.is_alive(hero));
    world.maintain();
    assert!(!world.is_alive(hero));
    assert!(!world.delete_entity(hero));
}

#[test]
fn render_list_draws_higher_orders_first() {
    let (mut state, hero) = with_hero(3, 3);
    health_potion(&mut state.ecs, 4, 3);
    goblin(&mut state.ecs, 5, 3);
    spike_trap(&mut state.ecs, 6, 3);
    goblin(&mut state.ecs, 25, 15);
    state.ecs.viewsheds.insert(hero.index, Viewshed { visible_tiles: Vec::new(), range: 4, dirty: true });
    assert!(render_list(&state.ecs).is_empty());
    state.run_systems();
    let list = render_list(&state.ecs);
    let orders: Vec<i32> = list.iter().map(|d| d.1.render_order).collect();
    assert_eq!(orders, vec![2, 2, 1, 0]);
    let places: Vec<(i32, i32)> = list.iter().map(|d| (d.0.x, d.0.y)).collect();
    assert_eq!(places, vec![(4, 3), (6, 3), (5, 3), (3, 3)]);
    assert_eq!(list[3].1.glyph, 64);
}

#[test]
fn spawn_points_come_whenever_the_die_cannot_ask_for_none() {
    let room = RoomRect::new(3, 4, 4, 3);
    for seed in 0..200u64 {
        let mut rng = RandomNumberGenerator::seeded(seed);
        for depth in 4..9 {
            let points = roll_spawn_points(&mut rng, &room, depth);
            assert!(!points.is_empty());
            assert!(points.len() as i32 <= 3 + depth);
        }
        assert!(roll_spawn_points(&mut rng, &room, -3).is_empty());
        assert!(roll_spawn_points(&mut rng, &room, -40).is_empty());
        assert!(roll_spawn_points(&mut rng, &room, 1).len() <= 4);
    }
}

#[test]
fn curse_passes_control_only_on_a_three() {
    let (mut state, hero) = with_hero(3, 3);
    goblin(&mut state.ecs, 6, 6);
    let foe = state.ecs.entities.entity(1).unwrap();
    for roll in [1, 2, 4, 0, 7] {
        curse(&mut state.ecs, roll, Some(foe));
        assert_eq!(state.ecs.active_entity.target, hero);
    }
    curse(&mut state.ecs, 3, None);
    assert_eq!(state.ecs.active_entity.target, hero);
    assert!(state.ecs.log.entries.is_empty());
    curse(&mut state.ecs, 3, Some(foe));
    assert_eq!(state.ecs.active_entity.target, foe);
    assert!(state.ecs.viewsheds.get(foe.index).unwrap().dirty);
    assert_eq!(
        state.ecs.log.entries,
        vec!["You've been cursed! You are now the Goblin".to_string()]
    );
}

#[test]
fn every_later_room_is_populated_from_the_fourth_level_on() {
    for seed in 0..40u64 {
        let mut state = State::new_game(RandomNumberGenerator::seeded(seed));
        state.ecs.map.depth = 3;
        let hero = state.ecs.active_entity.target;
        state.goto_next_level();
        assert_eq!(state.ecs.map.depth, 4);
        for room in state.ecs.map.rooms.iter().skip(1) {
            let mut here = 0;
            for i in 0..state.ecs.entities.len() {
                if let Some(e) = state.ecs.entities.entity(i) {
                    if e == hero {
                        continue;
                    }
                    let p = state.ecs.positions.get(i).unwrap();
                    if p.x > room.x1 && p.x <= room.x2 && p.y > room.y1 && p.y <= room.y2 {
                        here += 1;
                    }
                }
            }
            assert!(here >= 1 && here <= 7);
        }
    }
}

#[test]
fn spawn_room_always_spawns_from_depth_four_on() {
    let room = RoomRect::new(10, 10, 4, 4);
    for seed in 0..100u64 {
        let mut map = GameMap::blank(1);
        map.apply_room_to_map(&RoomRect::new(0, 0, 30, 19));
        let mut world = World::new(map, RandomNumberGenerator::seeded(seed));
        spawn_room(&mut world, &room, 4);
        let spawned = world.entities.len();
        assert!(spawned >= 1 && spawned <= 7);
        for i in 0..spawned {
            assert!(world.is_alive(world.entities.entity(i).unwrap()));
            assert!(world.names.contains(i));
        }
    }
}

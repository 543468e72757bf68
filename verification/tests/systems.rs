use bracket_lib::random::RandomNumberGenerator;
use ekileugor::components::{
    ActiveEntity, BlocksTile, CombatStats, Consumable, EntityMoved, EntryTrigger, Heals, Hidden,
    InflictsDamage, Item, ItemOwned, MeleeIntent, Name, ParticleLifetime, PickupItemIntent,
    PoolStats, Position, Renderable, SinglePoolStat, UseItemIntent, Viewshed,
};
use ekileugor::entity::Entity;
use ekileugor::glyphs::{BLACK, ORANGE};
use ekileugor::map::{Coord, GameMap, RoomRect};
use ekileugor::systems::damage::{delete_the_dead, hit_points_left, sum, DamageSystem};
use ekileugor::systems::fov::VisibilitySystem;
use ekileugor::systems::inventory::{heal, ItemPickupSystem, ItemUseSystem};
use ekileugor::systems::map_indexing::MapIndexingSystem;
use ekileugor::systems::melee_combat::{damage_dealt, MeleeCombatSystem};
use ekileugor::systems::particle::{remove_particles, ParticleSpawnSystem};
use ekileugor::systems::trigger::TriggerSystem;
use ekileugor::world::{ParticleBuilder, ParticleRequest, World};

fn open_world() -> World {
    let mut map = GameMap::blank(1);
    map.apply_room_to_map(&RoomRect::new(0, 0, 30, 19));
    map.populate_blocked();
    World::new(map, RandomNumberGenerator::seeded(3))
}

fn fighter(world: &mut World, name: &str, x: i32, y: i32, attack: i32, defense: i32, hp: i32) -> Entity {
    let e = world.create_entity();
    world.names.insert(e.index, Name { name: name.to_string() });
    world.positions.insert(e.index, Position { x, y });
    world.combat_stats.insert(e.index, CombatStats { attack, defense, evade: 0 });
    world.pool_stats.insert(
        e.index,
        PoolStats { hp: SinglePoolStat { current: hp, max: hp }, xp: 0, level: 1, gold: 0 },
    );
    e
}

fn hp(world: &World, e: Entity) -> i32 {
    world.pool_stats.get(e.index).unwrap().hp.current
}

#[test]
fn damage_formula_is_attack_less_defense_floored_at_zero() {
    assert_eq!(damage_dealt(10, 7), 3);
    assert_eq!(damage_dealt(5, 10), 0);
    assert_eq!(damage_dealt(4, 4), 0);
    assert_eq!(damage_dealt(i32::MAX, -1), i32::MAX);
    assert_eq!(damage_dealt(i32::MIN, i32::MAX), 0);
}

#[test]
fn melee_then_damage_takes_three_of_eight() {
    let mut world = open_world();
    let attacker = fighter(&mut world, "Hero", 2, 2, 10, 10, 25);
    let defender = fighter(&mut world, "Goblin", 3, 2, 5, 7, 8);
    world.melee_intents.insert(attacker.index, MeleeIntent { target: defender });
    MeleeCombatSystem {}.run(&mut world);
    assert_eq!(world.damages.get(defender.index).map(|d| d.amount.clone()), Some(vec![3]));
    assert!(!world.melee_intents.contains(attacker.index));
    assert_eq!(hp(&world, defender), 8);
    DamageSystem {}.run(&mut world);
    assert_eq!(hp(&world, defender), 5);
    assert_eq!(hp(&world, attacker), 25);
    assert!(!world.damages.contains(defender.index));
    assert_eq!(world.log.entries, vec!["Hero hits Goblin, for 3 hp.".to_string()]);
    assert_eq!(
        world.particle_builder.requests,
        vec![ParticleRequest { x: 3, y: 2, fg: ORANGE, bg: BLACK, glyph: 19, lifetime: 200 }]
    );
}

#[test]
fn melee_that_cannot_hurt_leaves_hit_points() {
    let mut world = open_world();
    let attacker = fighter(&mut world, "Goblin", 2, 2, 5, 5, 8);
    let defender = fighter(&mut world, "Hero", 3, 2, 10, 10, 25);
    world.melee_intents.insert(attacker.index, MeleeIntent { target: defender });
    MeleeCombatSystem {}.run(&mut world);
    DamageSystem {}.run(&mut world);
    assert_eq!(hp(&world, defender), 25);
    assert!(!world.damages.contains(defender.index));
    assert!(!world.melee_intents.contains(attacker.index));
    assert_eq!(world.log.entries, vec!["Goblin is unable to hurt Hero".to_string()]);
    assert!(world.particle_builder.requests.is_empty());
}

#[test]
fn several_hits_in_one_pass_are_summed() {
    let mut world = open_world();
    let a = fighter(&mut world, "A", 1, 1, 10, 0, 5);
    let b = fighter(&mut world, "B", 2, 1, 9, 0, 5);
    let target = fighter(&mut world, "T", 3, 1, 0, 7, 8);
    world.melee_intents.insert(a.index, MeleeIntent { target });
    world.melee_intents.insert(b.index, MeleeIntent { target });
    MeleeCombatSystem {}.run(&mut world);
    assert_eq!(world.damages.get(target.index).map(|d| d.amount.clone()), Some(vec![3, 2]));
    DamageSystem {}.run(&mut world);
    assert_eq!(hp(&world, target), 3);
}

#[test]
fn dead_attacker_and_stale_target_do_nothing() {
    let mut world = open_world();
    let corpse = fighter(&mut world, "Corpse", 1, 1, 10, 0, 0);
    let target = fighter(&mut world, "T", 2, 1, 0, 0, 8);
    let ghost = fighter(&mut world, "Ghost", 3, 1, 10, 0, 8);
    world.melee_intents.insert(corpse.index, MeleeIntent { target });
    world.melee_intents
        .insert(ghost.index, MeleeIntent { target: Entity { index: 1, generation: 9 } });
    MeleeCombatSystem {}.run(&mut world);
    assert!(!world.damages.contains(target.index));
    assert!(world.log.entries.is_empty());
    assert!(!world.melee_intents.contains(corpse.index));
    assert!(!world.melee_intents.contains(ghost.index));
}

#[test]
fn damage_may_drive_hit_points_below_zero() {
    assert_eq!(sum(&vec![3, 6, -2]), 7);
    assert_eq!(sum(&vec![]), 0);
    assert_eq!(hit_points_left(8, 3), 5);
    assert_eq!(hit_points_left(2, 6), -4);
    assert_eq!(hit_points_left(i32::MIN, 1), i32::MIN);
    assert_eq!(hit_points_left(i32::MAX, -1), i32::MAX);
}

#[test]
fn death_sweep_spares_the_active_entity() {
    let mut world = open_world();
    let hero = fighter(&mut world, "Hero", 1, 1, 1, 1, 0);
    let monster = fighter(&mut world, "M", 2, 1, 1, 1, -3);
    let healthy = fighter(&mut world, "H", 3, 1, 1, 1, 1);
    world.active_entity = ActiveEntity { target: hero };
    delete_the_dead(&mut world);
    assert!(world.is_alive(monster));
    world.maintain();
    assert!(world.is_alive(hero));
    assert!(!world.is_alive(monster));
    assert!(world.is_alive(healthy));
}

#[test]
fn heal_is_capped_at_max() {
    assert_eq!(heal(3, 25, 8), 11);
    assert_eq!(heal(20, 25, 8), 25);
    assert_eq!(heal(25, 25, 8), 25);
    assert_eq!(heal(i32::MAX, i32::MAX, i32::MAX), i32::MAX);
}

fn potion(world: &mut World, owner: Entity) -> Entity {
    let e = world.create_entity();
    world.names.insert(e.index, Name { name: "Health Potion".to_string() });
    world.items.insert(e.index, Item {});
    world.consumables.insert(e.index, Consumable { charges: 1 });
    world.heals.insert(e.index, Heals { amount: 8 });
    world.items_owned.insert(e.index, ItemOwned { owner });
    e
}

#[test]
fn using_a_potion_heals_and_consumes_it() {
    let mut world = open_world();
    let hero = fighter(&mut world, "Hero", 1, 1, 1, 1, 25);
    world.active_entity = ActiveEntity { target: hero };
    world.pool_stats.insert(
        hero.index,
        PoolStats { hp: SinglePoolStat { current: 3, max: 25 }, xp: 0, level: 1, gold: 0 },
    );
    let item = potion(&mut world, hero);
    world.use_intents.insert(hero.index, UseItemIntent { item, target: None });
    ItemUseSystem {}.run(&mut world);
    assert_eq!(hp(&world, hero), 11);
    assert!(!world.use_intents.contains(hero.index));
    assert_eq!(world.log.entries, vec!["You use the Health Potion, healing 8 hp.".to_string()]);
    assert!(world.is_alive(item));
    world.maintain();
    assert!(!world.is_alive(item));
}

#[test]
fn potion_near_full_health_heals_to_max() {
    let mut world = open_world();
    let hero = fighter(&mut world, "Hero", 1, 1, 1, 1, 25);
    world.pool_stats.insert(
        hero.index,
        PoolStats { hp: SinglePoolStat { current: 20, max: 25 }, xp: 0, level: 1, gold: 0 },
    );
    let item = potion(&mut world, hero);
    world.use_intents.insert(hero.index, UseItemIntent { item, target: None });
    ItemUseSystem {}.run(&mut world);
    assert_eq!(hp(&world, hero), 25);
    assert_eq!(world.log.entries, vec!["You use the Health Potion, healing 8 hp.".to_string()]);
    let stranger = fighter(&mut world, "Stranger", 2, 1, 1, 1, 25);
    let second = potion(&mut world, stranger);
    world.use_intents.insert(stranger.index, UseItemIntent { item: second, target: None });
    ItemUseSystem {}.run(&mut world);
    assert_eq!(world.log.entries.len(), 1);
}

#[test]
fn healing_item_that_reaches_nobody_is_kept() {
    let mut world = open_world();
    let hero = fighter(&mut world, "Hero", 1, 1, 1, 1, 10);
    let item = potion(&mut world, hero);
    world.use_intents
        .insert(hero.index, UseItemIntent { item, target: Some(Coord { x: 4, y: 4 }) });
    ItemUseSystem {}.run(&mut world);
    world.maintain();
    assert!(world.is_alive(item));
    assert_eq!(hp(&world, hero), 10);
    assert!(!world.use_intents.contains(hero.index));
}

#[test]
fn effectless_consumable_is_consumed_and_plain_item_is_kept() {
    let mut world = open_world();
    let hero = fighter(&mut world, "Hero", 1, 1, 1, 1, 10);
    let other = fighter(&mut world, "Other", 2, 1, 1, 1, 10);
    let scroll = world.create_entity();
    world.consumables.insert(scroll.index, Consumable { charges: 1 });
    let rock = world.create_entity();
    world.use_intents.insert(hero.index, UseItemIntent { item: scroll, target: None });
    world.use_intents.insert(other.index, UseItemIntent { item: rock, target: None });
    ItemUseSystem {}.run(&mut world);
    world.maintain();
    assert!(!world.is_alive(scroll));
    assert!(world.is_alive(rock));
    assert!(!world.use_intents.contains(hero.index));
    assert!(!world.use_intents.contains(other.index));
}

#[test]
fn pickup_moves_item_into_ownership() {
    let mut world = open_world();
    let hero = fighter(&mut world, "Hero", 1, 1, 1, 1, 10);
    let thief = fighter(&mut world, "Thief", 2, 1, 1, 1, 10);
    world.active_entity = ActiveEntity { target: hero };
    let a = world.create_entity();
    world.names.insert(a.index, Name { name: "Health Potion".to_string() });
    world.positions.insert(a.index, Position { x: 1, y: 1 });
    let b = world.create_entity();
    world.names.insert(b.index, Name { name: "Gem".to_string() });
    world.positions.insert(b.index, Position { x: 2, y: 1 });
    world.pickup_intents.insert(hero.index, PickupItemIntent { picked_by: hero, item: a });
    world.pickup_intents.insert(thief.index, PickupItemIntent { picked_by: thief, item: b });
    ItemPickupSystem {}.run(&mut world);
    assert!(!world.positions.contains(a.index));
    assert!(!world.positions.contains(b.index));
    assert_eq!(world.items_owned.get(a.index), Some(&ItemOwned { owner: hero }));
    assert_eq!(world.items_owned.get(b.index), Some(&ItemOwned { owner: thief }));
    assert_eq!(world.log.entries, vec!["You pick up the Health Potion.".to_string()]);
    assert!(!world.pickup_intents.contains(hero.index));
    assert!(!world.pickup_intents.contains(thief.index));
}

#[test]
fn trap_fires_on_the_mover_and_is_revealed() {
    let mut world = open_world();
    let hero = fighter(&mut world, "Hero", 5, 5, 1, 1, 10);
    let trap = world.create_entity();
    world.positions.insert(trap.index, Position { x: 5, y: 5 });
    world.names.insert(trap.index, Name { name: "Spike Trap".to_string() });
    world.entry_triggers.insert(trap.index, EntryTrigger {});
    world.inflicts_damage.insert(trap.index, InflictsDamage { amount: 6 });
    world.hidden.insert(trap.index, Hidden {});
    world.moved.insert(hero.index, EntityMoved {});
    MapIndexingSystem {}.run(&mut world);
    TriggerSystem {}.run(&mut world);
    assert_eq!(world.damages.get(hero.index).map(|d| d.amount.clone()), Some(vec![6]));
    assert!(!world.damages.contains(trap.index));
    assert!(!world.hidden.contains(trap.index));
    assert!(!world.moved.contains(hero.index));
    assert_eq!(world.log.entries, vec!["Spike Trap triggers!".to_string()]);
    assert_eq!(
        world.particle_builder.requests,
        vec![ParticleRequest { x: 5, y: 5, fg: ORANGE, bg: BLACK, glyph: 19, lifetime: 200 }]
    );
}

#[test]
fn trap_ignores_whoever_did_not_move() {
    let mut world = open_world();
    let hero = fighter(&mut world, "Hero", 5, 5, 1, 1, 10);
    let trap = world.create_entity();
    world.positions.insert(trap.index, Position { x: 5, y: 5 });
    world.entry_triggers.insert(trap.index, EntryTrigger {});
    world.inflicts_damage.insert(trap.index, InflictsDamage { amount: 6 });
    world.hidden.insert(trap.index, Hidden {});
    MapIndexingSystem {}.run(&mut world);
    TriggerSystem {}.run(&mut world);
    assert!(!world.damages.contains(hero.index));
    assert!(world.hidden.contains(trap.index));
}

#[test]
fn map_index_lists_occupants_and_blocks_tiles() {
    let mut world = open_world();
    let a = fighter(&mut world, "A", 4, 4, 1, 1, 1);
    let b = fighter(&mut world, "B", 4, 4, 1, 1, 1);
    let c = fighter(&mut world, "C", 6, 4, 1, 1, 1);
    let lost = fighter(&mut world, "Lost", -3, 4, 1, 1, 1);
    world.blockers.insert(c.index, BlocksTile {});
    world.blockers.insert(lost.index, BlocksTile {});
    let here = world.map.xy_idx(4, 4);
    let there = world.map.xy_idx(6, 4);
    world.map.tile_content[there].push(Entity { index: 77, generation: 0 });
    world.map.blocked[here] = true;
    MapIndexingSystem {}.run(&mut world);
    assert_eq!(world.map.tile_content[here], vec![a, b]);
    assert_eq!(world.map.tile_content[there], vec![c]);
    assert!(!world.map.blocked[here]);
    assert!(world.map.blocked[there]);
    assert!(world.map.blocked[0]);
    let listed: usize = world.map.tile_content.iter().map(|t| t.len()).sum();
    assert_eq!(listed, 3);
}

fn viewer(world: &mut World, x: i32, y: i32) -> Entity {
    let e = world.create_entity();
    world.positions.insert(e.index, Position { x, y });
    world.viewsheds.insert(e.index, Viewshed { visible_tiles: Vec::new(), range: 3, dirty: true });
    e
}

#[test]
fn visibility_recomputes_only_dirty_viewsheds() {
    let mut world = open_world();
    let hero = viewer(&mut world, 10, 10);
    let monster = viewer(&mut world, 20, 10);
    let sleeper = viewer(&mut world, 5, 5);
    world.viewsheds.insert(
        sleeper.index,
        Viewshed { visible_tiles: vec![Coord { x: 1, y: 1 }], range: 3, dirty: false },
    );
    world.active_entity = ActiveEntity { target: hero };
    VisibilitySystem {}.run(&mut world);
    let seen = world.viewsheds.get(hero.index).unwrap();
    assert!(!seen.dirty);
    assert_eq!(seen.range, 3);
    assert!(seen.visible_tiles.contains(&Coord { x: 10, y: 10 }));
    assert!(seen.visible_tiles.contains(&Coord { x: 12, y: 10 }));
    assert!(!seen.visible_tiles.contains(&Coord { x: 20, y: 10 }));
    let other = world.viewsheds.get(monster.index).unwrap();
    assert!(!other.dirty);
    assert!(other.visible_tiles.contains(&Coord { x: 20, y: 10 }));
    let asleep = world.viewsheds.get(sleeper.index).unwrap();
    assert_eq!(asleep.visible_tiles, vec![Coord { x: 1, y: 1 }]);
    for i in 0..world.map.tiles.len() {
        let p = Coord { x: (i % 32) as i32, y: (i / 32) as i32 };
        let expected = world.viewsheds.get(hero.index).unwrap().visible_tiles.contains(&p);
        assert_eq!(world.map.visible_tiles[i], expected);
        assert_eq!(world.map.revealed_tiles[i], expected);
    }
}

#[test]
fn revealed_tiles_are_never_forgotten() {
    let mut world = open_world();
    let hero = viewer(&mut world, 10, 10);
    world.active_entity = ActiveEntity { target: hero };
    VisibilitySystem {}.run(&mut world);
    let first = world.map.xy_idx(10, 10);
    world.positions.insert(hero.index, Position { x: 25, y: 15 });
    world.mark_dirty(hero.index);
    VisibilitySystem {}.run(&mut world);
    assert!(world.map.revealed_tiles[first]);
    assert!(!world.map.visible_tiles[first]);
    let second = world.map.xy_idx(25, 15);
    assert!(world.map.revealed_tiles[second]);
    assert!(world.map.visible_tiles[second]);
}

#[test]
fn particle_builder_queues_requests() {
    let mut builder = ParticleBuilder::new();
    builder.request(1, 2, ORANGE, BLACK, 19, 200);
    assert_eq!(
        builder.requests,
        vec![ParticleRequest { x: 1, y: 2, fg: ORANGE, bg: BLACK, glyph: 19, lifetime: 200 }]
    );
}

#[test]
fn particles_spawn_age_and_expire() {
    let mut world = open_world();
    world.particle_builder.request(4, 5, ORANGE, BLACK, 19, 200);
    world.particle_builder.request(6, 7, ORANGE, BLACK, 19, 10);
    ParticleSpawnSystem {}.run(&mut world);
    assert!(world.particle_builder.requests.is_empty());
    let long = world.entities.entity(0).unwrap();
    let short = world.entities.entity(1).unwrap();
    assert_eq!(world.positions.get(long.index), Some(&Position { x: 4, y: 5 }));
    assert_eq!(
        world.renderables.get(long.index),
        Some(&Renderable { glyph: 19, fg: ORANGE, bg: BLACK, render_order: 0 })
    );
    assert_eq!(world.particle_lifetimes.get(long.index), Some(&ParticleLifetime { lifetime_ms: 200 }));
    remove_particles(&mut world, 10);
    world.maintain();
    assert!(world.is_alive(short));
    assert_eq!(world.particle_lifetimes.get(short.index), Some(&ParticleLifetime { lifetime_ms: 0 }));
    remove_particles(&mut world, 16);
    assert!(world.is_alive(short));
    world.maintain();
    assert!(!world.is_alive(short));
    assert!(world.is_alive(long));
    assert_eq!(world.particle_lifetimes.get(long.index), Some(&ParticleLifetime { lifetime_ms: 174 }));
}

#[test]
fn new_entity_in_a_reused_slot_has_no_components() {
    let mut world = open_world();
    let old = fighter(&mut world, "Old", 1, 1, 1, 1, 1);
    world.delete_entity(old);
    world.maintain();
    assert!(world.positions.get(old.index).is_some());
    let fresh = world.create_entity();
    assert_eq!(fresh.index, old.index);
    assert_ne!(fresh, old);
    assert!(!world.positions.contains(fresh.index));
    assert!(!world.names.contains(fresh.index));
    assert!(!world.combat_stats.contains(fresh.index));
    assert!(!world.pool_stats.contains(fresh.index));
    assert!(!world.is_alive(old));
}

#[test]
fn harmless_trigger_is_shown_and_revealed_all_the_same() {
    let mut world = open_world();
    let hero = fighter(&mut world, "Hero", 5, 5, 1, 1, 10);
    let plate = world.create_entity();
    world.positions.insert(plate.index, Position { x: 5, y: 5 });
    world.entry_triggers.insert(plate.index, EntryTrigger {});
    world.hidden.insert(plate.index, Hidden {});
    world.moved.insert(hero.index, EntityMoved {});
    MapIndexingSystem {}.run(&mut world);
    TriggerSystem {}.run(&mut world);
    assert!(!world.damages.contains(hero.index));
    assert!(!world.hidden.contains(plate.index));
    assert!(world.log.entries.is_empty());
    assert_eq!(
        world.particle_builder.requests,
        vec![ParticleRequest { x: 5, y: 5, fg: ORANGE, bg: BLACK, glyph: 19, lifetime: 200 }]
    );
}

use ekileugor::components::{Damage, Name, Position};
use ekileugor::entity::{Entities, Entity};
use ekileugor::messages::decimal_string;
use ekileugor::storage::Storage;
use ekileugor::table::{RandomEntry, RandomTable};

#[test]
fn create_issues_distinct_live_handles() {
    let mut entities = Entities::new();
    let a = entities.create();
    let b = entities.create();
    assert_ne!(a, b);
    assert_eq!(a, Entity { index: 0, generation: 0 });
    assert_eq!(b, Entity { index: 1, generation: 0 });
    assert!(entities.is_alive(a));
    assert!(entities.is_alive(b));
    assert_eq!(entities.len(), 2);
}

#[test]
fn delete_is_deferred_until_the_barrier() {
    let mut entities = Entities::new();
    let a = entities.create();
    assert!(entities.delete(a));
    assert!(entities.is_alive(a));
    entities.maintain();
    assert!(!entities.is_alive(a));
    assert!(!entities.delete(a));
}

#[test]
fn stale_handle_never_resolves_after_reuse() {
    let mut entities = Entities::new();
    let a = entities.create();
    let b = entities.create();
    entities.delete(a);
    entities.maintain();
    let c = entities.create();
    assert_eq!(c.index, a.index);
    assert_eq!(c.generation, a.generation + 1);
    assert!(entities.is_alive(c));
    assert!(!entities.is_alive(a));
    assert!(entities.is_alive(b));
    assert_eq!(entities.entity(0), Some(c));
    assert_eq!(entities.entity(7), None);
}

#[test]
fn unknown_handle_is_not_alive() {
    let entities = Entities::new();
    assert!(!entities.is_alive(Entity { index: 3, generation: 0 }));
}

#[test]
fn slot_with_spent_generation_is_not_reused() {
    let mut entities = Entities::new();
    let a = entities.create();
    entities.slots[0].generation = u32::MAX;
    entities.slots[0].alive = false;
    let b = entities.create();
    assert_eq!(b, Entity { index: 1, generation: 0 });
    assert!(!entities.is_alive(a));
}

#[test]
fn storage_insert_overwrites_and_get_never_fails() {
    let mut positions: Storage<Position> = Storage::new();
    assert!(positions.get(5).is_none());
    positions.insert(5, Position { x: 1, y: 2 });
    positions.insert(5, Position { x: 3, y: 4 });
    assert_eq!(positions.get(5), Some(&Position { x: 3, y: 4 }));
    assert!(positions.contains(5));
    assert!(!positions.contains(4));
}

#[test]
fn storage_remove_and_clear() {
    let mut names: Storage<Name> = Storage::new();
    names.insert(0, Name { name: "a".to_string() });
    names.insert(2, Name { name: "b".to_string() });
    let taken = names.remove(0);
    assert_eq!(taken.map(|n| n.name), Some("a".to_string()));
    assert!(names.remove(0).is_none());
    assert!(names.remove(99).is_none());
    assert!(names.contains(2));
    names.clear();
    assert!(!names.contains(2));
}

#[test]
fn damage_accumulates_in_order() {
    let mut damages: Storage<Damage> = Storage::new();
    let target = Entity { index: 4, generation: 0 };
    Damage::new(&mut damages, target, 3);
    Damage::new(&mut damages, target, 6);
    assert_eq!(damages.get(4).map(|d| d.amount.clone()), Some(vec![3, 6]));
}

#[test]
fn decimal_string_matches_std() {
    for n in [0, 7, 10, 42, 1000, -1, -305, i32::MAX, i32::MIN] {
        assert_eq!(decimal_string(n), format!("{}", n));
    }
}

#[test]
fn random_entry_keeps_name_and_weight() {
    let e = RandomEntry::new("Orc", 3);
    assert_eq!(e.name, "Orc");
    assert_eq!(e.weight, 3);
}

#[test]
fn table_picks_each_kind_by_its_share() {
    let table = RandomTable::new().add("A", 10).add("B", 1).add("C", 7);
    assert_eq!(table.total_weight(), 18);
    let mut a = 0;
    let mut b = 0;
    let mut c = 0;
    for roll in 0..18 {
        match table.pick(roll).as_str() {
            "A" => a += 1,
            "B" => b += 1,
            "C" => c += 1,
            other => panic!("unexpected kind {}", other),
        }
    }
    assert_eq!((a, b, c), (10, 1, 7));
    assert_eq!(table.pick(0), "A");
    assert_eq!(table.pick(9), "A");
    assert_eq!(table.pick(10), "B");
    assert_eq!(table.pick(11), "C");
    assert_eq!(table.pick(17), "C");
    assert_eq!(table.pick(18), "None");
}

#[test]
fn table_rolls_converge_to_the_weights() {
    let table = RandomTable::new().add("A", 10).add("B", 1).add("C", 7);
    let mut rng = bracket_lib::random::RandomNumberGenerator::seeded(7);
    let rolls = 18000;
    let mut a = 0;
    let mut b = 0;
    let mut c = 0;
    for _ in 0..rolls {
        match table.roll(&mut rng).as_str() {
            "A" => a += 1,
            "B" => b += 1,
            "C" => c += 1,
            other => panic!("unexpected kind {}", other),
        }
    }
    assert!((a as f64 / rolls as f64 - 10.0 / 18.0).abs() < 0.03);
    assert!((b as f64 / rolls as f64 - 1.0 / 18.0).abs() < 0.03);
    assert!((c as f64 / rolls as f64 - 7.0 / 18.0).abs() < 0.03);
}

#[test]
fn table_without_weight_rolls_none() {
    let mut rng = bracket_lib::random::RandomNumberGenerator::seeded(1);
    let empty = RandomTable::new();
    let weightless = RandomTable::new().add("A", 0).add("B", -4);
    for _ in 0..20 {
        assert_eq!(empty.roll(&mut rng), "None");
        assert_eq!(weightless.roll(&mut rng), "None");
    }
    assert_eq!(weightless.total_weight(), 0);
}

#[test]
fn components_resolve_only_through_live_handles() {
    let mut entities = Entities::new();
    let mut positions: Storage<Position> = Storage::new();
    let a = entities.create();
    let b = entities.create();
    positions.attach(&entities, a, Position { x: 1, y: 1 });
    positions.attach(&entities, b, Position { x: 2, y: 2 });
    positions.attach(&entities, a, Position { x: 3, y: 3 });
    assert_eq!(positions.component(&entities, a), Some(&Position { x: 3, y: 3 }));
    assert_eq!(positions.join(&entities), vec![a, b]);
    entities.delete(a);
    assert_eq!(positions.component(&entities, a), Some(&Position { x: 3, y: 3 }));
    entities.maintain();
    assert_eq!(positions.component(&entities, a), None);
    assert_eq!(positions.join(&entities), vec![b]);
    assert_eq!(positions.detach(&entities, a), None);
    let stale = Entity { index: b.index, generation: b.generation + 1 };
    assert_eq!(positions.component(&entities, stale), None);
    assert_eq!(positions.detach(&entities, stale), None);
    assert_eq!(positions.detach(&entities, b), Some(Position { x: 2, y: 2 }));
    assert_eq!(positions.component(&entities, b), None);
    assert!(positions.join(&entities).is_empty());
}

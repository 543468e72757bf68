//! The data that can be attached to an entity.
//!
//! Each component has a view, the value that contracts speak of. For a
//! component made of plain values the view is the component itself.

use vstd::prelude::*;
use crate::entity::Entity;
use crate::map::Coord;

verus! {

/// Where an entity stands.
#[derive(Clone, Copy, PartialEq, Eq, Structural, Debug)]
pub struct Position {
    pub x: i32,
    pub y: i32,
}

impl View for Position {
    type V = Position;

    open spec fn view(&self) -> Position {
        *self
    }
}

/// How an entity is drawn. Colours are `0xRRGGBB`. Lower `render_order` is
/// drawn later, on top.
#[derive(Clone, Copy, PartialEq, Eq, Structural, Debug)]
pub struct Renderable {
    pub glyph: u16,
    pub fg: u32,
    pub bg: u32,
    pub render_order: i32,
}

impl View for Renderable {
    type V = Renderable;

    open spec fn view(&self) -> Renderable {
        *self
    }
}

/// Marks the hero.
#[derive(Clone, Copy, PartialEq, Eq, Structural, Debug)]
pub struct Player {}

impl View for Player {
    type V = Player;

    open spec fn view(&self) -> Player {
        *self
    }
}

/// Marks a monster.
#[derive(Clone, Copy, PartialEq, Eq, Structural, Debug)]
pub struct Mob {}

impl View for Mob {
    type V = Mob;

    open spec fn view(&self) -> Mob {
        *self
    }
}

/// An entity that control can pass to.
#[derive(Clone, Copy, PartialEq, Eq, Structural, Debug)]
pub struct Controllable {
    pub current: bool,
}

impl View for Controllable {
    type V = Controllable;

    open spec fn view(&self) -> Controllable {
        *self
    }
}

/// The entity that the player's commands move.
#[derive(Clone, Copy, PartialEq, Eq, Structural, Debug)]
pub struct ActiveEntity {
    pub target: Entity,
}

impl View for ActiveEntity {
    type V = ActiveEntity;

    open spec fn view(&self) -> ActiveEntity {
        *self
    }
}

/// An entity that nothing can walk through.
#[derive(Clone, Copy, PartialEq, Eq, Structural, Debug)]
pub struct BlocksTile {}

impl View for BlocksTile {
    type V = BlocksTile;

    open spec fn view(&self) -> BlocksTile {
        *self
    }
}

/// One attribute with its bonus and modifiers.
#[derive(Clone, Copy, PartialEq, Eq, Structural, Debug)]
pub struct SingleStat {
    pub base: i32,
    pub bonus: i32,
    pub modifiers: i32,
}

impl View for SingleStat {
    type V = SingleStat;

    open spec fn view(&self) -> SingleStat {
        *self
    }
}

/// A pool with a current and a highest value.
#[derive(Clone, Copy, PartialEq, Eq, Structural, Debug)]
pub struct SinglePoolStat {
    pub current: i32,
    pub max: i32,
}

impl View for SinglePoolStat {
    type V = SinglePoolStat;

    open spec fn view(&self) -> SinglePoolStat {
        *self
    }
}

/// What an entity fights with.
#[derive(Clone, Copy, PartialEq, Eq, Structural, Debug)]
pub struct CombatStats {
    pub attack: i32,
    pub defense: i32,
    pub evade: i32,
}

impl View for CombatStats {
    type V = CombatStats;

    open spec fn view(&self) -> CombatStats {
        *self
    }
}

/// Hit points, experience, level and gold.
#[derive(Clone, Copy, PartialEq, Eq, Structural, Debug)]
pub struct PoolStats {
    pub hp: SinglePoolStat,
    pub xp: i32,
    pub level: i32,
    pub gold: i32,
}

impl View for PoolStats {
    type V = PoolStats;

    open spec fn view(&self) -> PoolStats {
        *self
    }
}

/// The bearer attacks `target` this pass.
#[derive(Clone, Copy, PartialEq, Eq, Structural, Debug)]
pub struct MeleeIntent {
    pub target: Entity,
}

impl View for MeleeIntent {
    type V = MeleeIntent;

    open spec fn view(&self) -> MeleeIntent {
        *self
    }
}

/// The damage that the bearer deals when it takes effect.
#[derive(Clone, Copy, PartialEq, Eq, Structural, Debug)]
pub struct InflictsDamage {
    pub amount: i32,
}

impl View for InflictsDamage {
    type V = InflictsDamage;

    open spec fn view(&self) -> InflictsDamage {
        *self
    }
}

/// A hazard nobody has sprung yet.
#[derive(Clone, Copy, PartialEq, Eq, Structural, Debug)]
pub struct Hidden {}

impl View for Hidden {
    type V = Hidden;

    open spec fn view(&self) -> Hidden {
        *self
    }
}

/// A hazard that fires when something steps onto its tile.
#[derive(Clone, Copy, PartialEq, Eq, Structural, Debug)]
pub struct EntryTrigger {}

impl View for EntryTrigger {
    type V = EntryTrigger;

    open spec fn view(&self) -> EntryTrigger {
        *self
    }
}

/// The bearer changed tile since the last trigger pass.
#[derive(Clone, Copy, PartialEq, Eq, Structural, Debug)]
pub struct EntityMoved {}

impl View for EntityMoved {
    type V = EntityMoved;

    open spec fn view(&self) -> EntityMoved {
        *self
    }
}

/// Marks something that can be picked up.
#[derive(Clone, Copy, PartialEq, Eq, Structural, Debug)]
pub struct Item {}

impl View for Item {
    type V = Item;

    open spec fn view(&self) -> Item {
        *self
    }
}

/// The bearer is carried by `owner`.
#[derive(Clone, Copy, PartialEq, Eq, Structural, Debug)]
pub struct ItemOwned {
    pub owner: Entity,
}

impl View for ItemOwned {
    type V = ItemOwned;

    open spec fn view(&self) -> ItemOwned {
        *self
    }
}

/// `picked_by` picks `item` up this pass.
#[derive(Clone, Copy, PartialEq, Eq, Structural, Debug)]
pub struct PickupItemIntent {
    pub picked_by: Entity,
    pub item: Entity,
}

impl View for PickupItemIntent {
    type V = PickupItemIntent;

    open spec fn view(&self) -> PickupItemIntent {
        *self
    }
}

/// The bearer uses `item` this pass, on itself when `target` is `None`.
#[derive(Clone, Copy, Debug)]
pub struct UseItemIntent {
    pub item: Entity,
    pub target: Option<Coord>,
}

impl View for UseItemIntent {
    type V = UseItemIntent;

    open spec fn view(&self) -> UseItemIntent {
        *self
    }
}

/// An item that is gone once used.
#[derive(Clone, Copy, PartialEq, Eq, Structural, Debug)]
pub struct Consumable {
    pub charges: i32,
}

impl View for Consumable {
    type V = Consumable;

    open spec fn view(&self) -> Consumable {
        *self
    }
}

/// An item that restores hit points.
#[derive(Clone, Copy, PartialEq, Eq, Structural, Debug)]
pub struct Heals {
    pub amount: i32,
}

impl View for Heals {
    type V = Heals;

    open spec fn view(&self) -> Heals {
        *self
    }
}

/// Whole milliseconds that an effect still has to live.
#[derive(Clone, Copy, PartialEq, Eq, Structural, Debug)]
pub struct ParticleLifetime {
    pub lifetime_ms: i32,
}

impl View for ParticleLifetime {
    type V = ParticleLifetime;

    open spec fn view(&self) -> ParticleLifetime {
        *self
    }
}

/// What an entity is called in the log.
#[derive(Debug)]
pub struct Name {
    pub name: String,
}

impl View for Name {
    type V = Seq<char>;

    open spec fn view(&self) -> Seq<char> {
        self.name@
    }
}

/// The damage an entity has taken this pass and not yet suffered.
#[derive(Debug)]
pub struct Damage {
    pub amount: Vec<i32>,
}

impl View for Damage {
    type V = Seq<i32>;

    open spec fn view(&self) -> Seq<i32> {
        self.amount@
    }
}

/// What an entity sees: the tiles in view, how far it looks, and whether
/// the tiles have to be worked out again.
#[derive(Debug)]
pub struct Viewshed {
    pub visible_tiles: Vec<Coord>,
    pub range: i32,
    pub dirty: bool,
}

/// A viewshed with its tiles as a set: their order means nothing.
pub struct ViewshedView {
    pub visible_tiles: Set<Coord>,
    pub range: i32,
    pub dirty: bool,
}

impl View for Viewshed {
    type V = ViewshedView;

    open spec fn view(&self) -> ViewshedView {
        ViewshedView {
            visible_tiles: self.visible_tiles@.to_set(),
            range: self.range,
            dirty: self.dirty,
        }
    }
}

} // verus!

//! The store: every component storage and the shared resources, with the
//! mathematical state that the systems' contracts are written over.

use vstd::prelude::*;
use bracket_lib::random::RandomNumberGenerator;
use crate::components::{
    ActiveEntity, BlocksTile, CombatStats, Consumable, Controllable, Damage, EntityMoved,
    EntryTrigger, Heals, Hidden, InflictsDamage, Item, ItemOwned, MeleeIntent, Mob, Name,
    ParticleLifetime, PickupItemIntent, Player, PoolStats, Position, Renderable,     UseItemIntent, Viewshed, ViewshedView,
};
use crate::entity::{after_create, alive_in, next_entity, Entities, Entity, Slot};
use crate::map::{GameMap, MapView};
use crate::storage::Storage;

verus! {

/// The phase of the turn cycle.
#[derive(Clone, Copy, PartialEq, Eq, Structural, Debug)]
pub enum RunState {
    AwaitingInput,
    PreRun,
    PlayerTurn,
    MonsterTurn,
    CurseTurn,
    NextLevel,
}

/// The scrolling text log, oldest entry first.
pub struct GameLog {
    pub entries: Vec<String>,
}

impl View for GameLog {
    type V = Seq<Seq<char>>;

    open spec fn view(&self) -> Seq<Seq<char>> {
        Seq::new(self.entries@.len(), |i: int| self.entries@[i]@)
    }
}

impl GameLog {
    /// An empty log.
    pub fn new() -> (log: GameLog)
        ensures
            log@ == Seq::<Seq<char>>::empty(),
    {
        let log = GameLog { entries: Vec::new() };
        assert(log@ =~= Seq::<Seq<char>>::empty());
        log
    }

    /// Appends one entry.
    pub fn push(&mut self, entry: String)
        ensures
            final(self)@ == old(self)@.push(entry@),
    {
        self.entries.push(entry);
        assert(self@ =~= old(self)@.push(entry@));
    }
}

/// A visual effect that has been asked for and not yet spawned.
#[derive(Clone, Copy, PartialEq, Eq, Structural, Debug)]
pub struct ParticleRequest {
    pub x: i32,
    pub y: i32,
    pub fg: u32,
    pub bg: u32,
    pub glyph: u16,
    pub lifetime: i32,
}

/// The queue of effects asked for during a pass.
pub struct ParticleBuilder {
    pub requests: Vec<ParticleRequest>,
}

impl View for ParticleBuilder {
    type V = Seq<ParticleRequest>;

    open spec fn view(&self) -> Seq<ParticleRequest> {
        self.requests@
    }
}

impl ParticleBuilder {
    /// An empty queue.
    pub fn new() -> (b: ParticleBuilder)
        ensures
            b@ == Seq::<ParticleRequest>::empty(),
    {
        ParticleBuilder { requests: Vec::new() }
    }

    /// Queues one effect at `(x, y)` that lives `lifetime` milliseconds.
    pub fn request(&mut self, x: i32, y: i32, fg: u32, bg: u32, glyph: u16, lifetime: i32)
        ensures
            final(self)@ == old(self)@.push(
                (ParticleRequest { x, y, fg, bg, glyph, lifetime }),
            ),
    {
        self.requests.push(ParticleRequest { x, y, fg, bg, glyph, lifetime })
    }
}

/// All component storages and the shared resources.
pub struct World {
    pub entities: Entities,
    pub positions: Storage<Position>,
    pub renderables: Storage<Renderable>,
    pub players: Storage<Player>,
    pub mobs: Storage<Mob>,
    pub controllables: Storage<Controllable>,
    pub names: Storage<Name>,
    pub viewsheds: Storage<Viewshed>,
    pub combat_stats: Storage<CombatStats>,
    pub pool_stats: Storage<PoolStats>,
    pub blockers: Storage<BlocksTile>,
    pub melee_intents: Storage<MeleeIntent>,
    pub damages: Storage<Damage>,
    pub inflicts_damage: Storage<InflictsDamage>,
    pub hidden: Storage<Hidden>,
    pub entry_triggers: Storage<EntryTrigger>,
    pub moved: Storage<EntityMoved>,
    pub items: Storage<Item>,
    pub items_owned: Storage<ItemOwned>,
    pub pickup_intents: Storage<PickupItemIntent>,
    pub use_intents: Storage<UseItemIntent>,
    pub consumables: Storage<Consumable>,
    pub heals: Storage<Heals>,
    pub particle_lifetimes: Storage<ParticleLifetime>,
    pub map: GameMap,
    pub rng: RandomNumberGenerator,
    pub active_entity: ActiveEntity,
    pub log: GameLog,
    pub run_state: RunState,
    pub particle_builder: ParticleBuilder,
}

/// The store as mathematics. Each storage is a map from slot index to the
/// view of the component there; a row counts only while its slot is alive.
/// The random generator has no part in it.
pub struct WorldView {
    pub entities: Seq<Slot>,
    pub positions: Map<int, Position>,
    pub renderables: Map<int, Renderable>,
    pub players: Map<int, Player>,
    pub mobs: Map<int, Mob>,
    pub controllables: Map<int, Controllable>,
    pub names: Map<int, Seq<char>>,
    pub viewsheds: Map<int, ViewshedView>,
    pub combat_stats: Map<int, CombatStats>,
    pub pool_stats: Map<int, PoolStats>,
    pub blockers: Map<int, BlocksTile>,
    pub melee_intents: Map<int, MeleeIntent>,
    pub damages: Map<int, Seq<i32>>,
    pub inflicts_damage: Map<int, InflictsDamage>,
    pub hidden: Map<int, Hidden>,
    pub entry_triggers: Map<int, EntryTrigger>,
    pub moved: Map<int, EntityMoved>,
    pub items: Map<int, Item>,
    pub items_owned: Map<int, ItemOwned>,
    pub pickup_intents: Map<int, PickupItemIntent>,
    pub use_intents: Map<int, UseItemIntent>,
    pub consumables: Map<int, Consumable>,
    pub heals: Map<int, Heals>,
    pub particle_lifetimes: Map<int, ParticleLifetime>,
    pub map: MapView,
    pub active_entity: ActiveEntity,
    pub log: Seq<Seq<char>>,
    pub run_state: RunState,
    pub requests: Seq<ParticleRequest>,
}

impl View for World {
    type V = WorldView;

    open spec fn view(&self) -> WorldView {
        WorldView {
            entities: self.entities@,
            positions: self.positions@,
            renderables: self.renderables@,
            players: self.players@,
            mobs: self.mobs@,
            controllables: self.controllables@,
            names: self.names@,
            viewsheds: self.viewsheds@,
            combat_stats: self.combat_stats@,
            pool_stats: self.pool_stats@,
            blockers: self.blockers@,
            melee_intents: self.melee_intents@,
            damages: self.damages@,
            inflicts_damage: self.inflicts_damage@,
            hidden: self.hidden@,
            entry_triggers: self.entry_triggers@,
            moved: self.moved@,
            items: self.items@,
            items_owned: self.items_owned@,
            pickup_intents: self.pickup_intents@,
            use_intents: self.use_intents@,
            consumables: self.consumables@,
            heals: self.heals@,
            particle_lifetimes: self.particle_lifetimes@,
            map: self.map@,
            active_entity: self.active_entity,
            log: self.log@,
            run_state: self.run_state,
            requests: self.particle_builder@,
        }
    }
}

impl WorldView {
    /// Whether slot `i` holds a live entity.
    pub open spec fn alive(self, i: int) -> bool {
        0 <= i < self.entities.len() && self.entities[i].alive
    }

    /// The handle of the entity in slot `i`.
    pub open spec fn handle(self, i: int) -> Entity {
        Entity { index: i as usize, generation: self.entities[i].generation }
    }

    /// Whether `e` resolves to a live row.
    pub open spec fn is_alive(self, e: Entity) -> bool {
        alive_in(self.entities, e)
    }

    /// The entity that commands move.
    pub open spec fn active(self) -> Entity {
        self.active_entity.target
    }

    /// One entry more in the log.
    pub open spec fn with_log(self, entry: Seq<char>) -> WorldView {
        WorldView { log: self.log.push(entry), ..self }
    }

    /// One effect more in the queue.
    pub open spec fn with_request(self, request: ParticleRequest) -> WorldView {
        WorldView { requests: self.requests.push(request), ..self }
    }

    /// `amount` more pending damage on the entity in slot `i`, after whatever
    /// is pending there already.
    pub open spec fn with_damage(self, i: int, amount: i32) -> WorldView {
        WorldView {
            damages: if self.damages.contains_key(i) {
                self.damages.insert(i, self.damages[i].push(amount))
            } else {
                self.damages.insert(i, seq![amount])
            },
            ..self
        }
    }

    /// No component in slot `i`.
    pub open spec fn with_row_cleared(self, i: int) -> WorldView {
        WorldView {
            positions: self.positions.remove(i),
            renderables: self.renderables.remove(i),
            players: self.players.remove(i),
            mobs: self.mobs.remove(i),
            controllables: self.controllables.remove(i),
            names: self.names.remove(i),
            viewsheds: self.viewsheds.remove(i),
            combat_stats: self.combat_stats.remove(i),
            pool_stats: self.pool_stats.remove(i),
            blockers: self.blockers.remove(i),
            melee_intents: self.melee_intents.remove(i),
            damages: self.damages.remove(i),
            inflicts_damage: self.inflicts_damage.remove(i),
            hidden: self.hidden.remove(i),
            entry_triggers: self.entry_triggers.remove(i),
            moved: self.moved.remove(i),
            items: self.items.remove(i),
            items_owned: self.items_owned.remove(i),
            pickup_intents: self.pickup_intents.remove(i),
            use_intents: self.use_intents.remove(i),
            consumables: self.consumables.remove(i),
            heals: self.heals.remove(i),
            particle_lifetimes: self.particle_lifetimes.remove(i),
            ..self
        }
    }

    /// Whether slot `i` holds no component at all.
    pub open spec fn row_is_empty(self, i: int) -> bool {
        &&& !self.positions.contains_key(i)
        &&& !self.renderables.contains_key(i)
        &&& !self.players.contains_key(i)
        &&& !self.mobs.contains_key(i)
        &&& !self.controllables.contains_key(i)
        &&& !self.names.contains_key(i)
        &&& !self.viewsheds.contains_key(i)
        &&& !self.combat_stats.contains_key(i)
        &&& !self.pool_stats.contains_key(i)
        &&& !self.blockers.contains_key(i)
        &&& !self.melee_intents.contains_key(i)
        &&& !self.damages.contains_key(i)
        &&& !self.inflicts_damage.contains_key(i)
        &&& !self.hidden.contains_key(i)
        &&& !self.entry_triggers.contains_key(i)
        &&& !self.moved.contains_key(i)
        &&& !self.items.contains_key(i)
        &&& !self.items_owned.contains_key(i)
        &&& !self.pickup_intents.contains_key(i)
        &&& !self.use_intents.contains_key(i)
        &&& !self.consumables.contains_key(i)
        &&& !self.heals.contains_key(i)
        &&& !self.particle_lifetimes.contains_key(i)
    }

    /// A fresh entity with no components.
    pub open spec fn with_created(self) -> WorldView {
        WorldView {
            entities: after_create(self.entities),
            ..self.with_row_cleared(next_entity(self.entities).index as int)
        }
    }

    /// The viewshed in slot `i`, if there is one, has to be worked out again.
    pub open spec fn with_dirty(self, i: int) -> WorldView {
        if self.viewsheds.contains_key(i) {
            WorldView {
                viewsheds: self.viewsheds.insert(
                    i,
                    ViewshedView { dirty: true, ..self.viewsheds[i] },
                ),
                ..self
            }
        } else {
            self
        }
    }

    /// Whether every intent still pending was pending in `before`.
    pub open spec fn intents_from(self, before: WorldView) -> bool {
        &&& forall|i: int|
            self.melee_intents.contains_key(i) ==> before.melee_intents.contains_key(i)
        &&& forall|i: int|
            self.pickup_intents.contains_key(i) ==> before.pickup_intents.contains_key(i)
        &&& forall|i: int| self.use_intents.contains_key(i) ==> before.use_intents.contains_key(i)
    }

    /// Whether no melee intent is pending.
    pub open spec fn no_melee_intents(self) -> bool {
        self.melee_intents == Map::<int, MeleeIntent>::empty()
    }

    /// Whether no pickup intent is pending.
    pub open spec fn no_pickup_intents(self) -> bool {
        self.pickup_intents == Map::<int, PickupItemIntent>::empty()
    }

    /// Whether no use intent is pending.
    pub open spec fn no_use_intents(self) -> bool {
        self.use_intents == Map::<int, UseItemIntent>::empty()
    }

    /// Whether no intent of any kind is pending.
    pub open spec fn no_intents(self) -> bool {
        self.no_melee_intents() && self.no_pickup_intents() && self.no_use_intents()
    }

    /// Whether each kind of intent that was cleared in `before` is still
    /// cleared.
    pub open spec fn keeps_intents_out(self, before: WorldView) -> bool {
        &&& before.no_melee_intents() ==> self.no_melee_intents()
        &&& before.no_pickup_intents() ==> self.no_pickup_intents()
        &&& before.no_use_intents() ==> self.no_use_intents()
    }

    /// Every queued deletion carried out.
    pub open spec fn maintained(self) -> WorldView {
        WorldView { entities: crate::entity::after_maintain(self.entities), ..self }
    }
}

/// A store whose pending intents all come from an earlier one has none of
/// a kind that the earlier one had none of.
pub proof fn lemma_intents_from(w: WorldView, before: WorldView)
    requires
        w.intents_from(before),
    ensures
        w.keeps_intents_out(before),
{
    if before.no_melee_intents() {
        assert(w.melee_intents =~= Map::<int, MeleeIntent>::empty());
    }
    if before.no_pickup_intents() {
        assert(w.pickup_intents =~= Map::<int, PickupItemIntent>::empty());
    }
    if before.no_use_intents() {
        assert(w.use_intents =~= Map::<int, UseItemIntent>::empty());
    }
}

impl World {
    /// A store with no entities, an empty log and an empty effect queue, in
    /// the `PreRun` phase. The active entity is a handle that resolves to
    /// nothing until an entity is created.
    pub fn new(map: GameMap, rng: RandomNumberGenerator) -> (world: World)
        ensures
            world@.entities == Seq::<Slot>::empty(),
            forall|i: int| world@.row_is_empty(i),
            world@.map == map@,
            world@.active_entity == (ActiveEntity { target: Entity { index: 0, generation: 0 } }),
            world@.log == Seq::<Seq<char>>::empty(),
            world@.run_state == RunState::PreRun,
            world@.requests == Seq::<ParticleRequest>::empty(),
    {
        World {
            entities: Entities::new(),
            positions: Storage::new(),
            renderables: Storage::new(),
            players: Storage::new(),
            mobs: Storage::new(),
            controllables: Storage::new(),
            names: Storage::new(),
            viewsheds: Storage::new(),
            combat_stats: Storage::new(),
            pool_stats: Storage::new(),
            blockers: Storage::new(),
            melee_intents: Storage::new(),
            damages: Storage::new(),
            inflicts_damage: Storage::new(),
            hidden: Storage::new(),
            entry_triggers: Storage::new(),
            moved: Storage::new(),
            items: Storage::new(),
            items_owned: Storage::new(),
            pickup_intents: Storage::new(),
            use_intents: Storage::new(),
            consumables: Storage::new(),
            heals: Storage::new(),
            particle_lifetimes: Storage::new(),
            map,
            rng,
            active_entity: ActiveEntity { target: Entity { index: 0, generation: 0 } },
            log: GameLog::new(),
            run_state: RunState::PreRun,
            particle_builder: ParticleBuilder::new(),
        }
    }

    /// Whether `e` resolves to a live row.
    pub fn is_alive(&self, e: Entity) -> (r: bool)
        ensures
            r == self@.is_alive(e),
    {
        self.entities.is_alive(e)
    }

    /// Issues a fresh handle: never issued before, live at once, with no
    /// components, whatever the slot held for an earlier entity.
    pub fn create_entity(&mut self) -> (e: Entity)
        ensures
            e == next_entity(old(self)@.entities),
            final(self)@ == old(self)@.with_created(),
            final(self)@.is_alive(e),
            final(self)@.row_is_empty(e.index as int),
            !crate::entity::issued_in(old(self)@.entities, e),
    {
        let e = self.entities.create();
        let i: usize = e.index;
        self.positions.remove(i);
        self.renderables.remove(i);
        self.players.remove(i);
        self.mobs.remove(i);
        self.controllables.remove(i);
        self.names.remove(i);
        self.viewsheds.remove(i);
        self.combat_stats.remove(i);
        self.pool_stats.remove(i);
        self.blockers.remove(i);
        self.melee_intents.remove(i);
        self.damages.remove(i);
        self.inflicts_damage.remove(i);
        self.hidden.remove(i);
        self.entry_triggers.remove(i);
        self.moved.remove(i);
        self.items.remove(i);
        self.items_owned.remove(i);
        self.pickup_intents.remove(i);
        self.use_intents.remove(i);
        self.consumables.remove(i);
        self.heals.remove(i);
        self.particle_lifetimes.remove(i);
        e
    }

    /// Marks the viewshed in slot `i`, if there is one, as dirty.
    pub fn mark_dirty(&mut self, i: usize)
        ensures
            final(self)@ == old(self)@.with_dirty(i as int),
    {
        match self.viewsheds.remove(i) {
            Some(mut viewshed) => {
                viewshed.dirty = true;
                self.viewsheds.insert(i, viewshed);
                assert(self.viewsheds@ =~= old(self)@.with_dirty(i as int).viewsheds);
            },
            None => {
                assert(self.viewsheds@ =~= old(self).viewsheds@);
            },
        }
    }

    /// Queues `e` for deletion at the next barrier. Returns whether `e` was live.
    pub fn delete_entity(&mut self, e: Entity) -> (was_alive: bool)
        ensures
            was_alive == old(self)@.is_alive(e),
            final(self)@ == (WorldView {
                entities: crate::entity::after_delete(old(self)@.entities, e),
                ..old(self)@
            }),
    {
        self.entities.delete(e)
    }

    /// The barrier: every queued deletion takes effect. The handles deleted
    /// resolve to nothing from here on; every other handle is untouched.
    pub fn maintain(&mut self)
        ensures
            final(self)@ == old(self)@.maintained(),
    {
        self.entities.maintain();
    }
}

} // verus!

//! Entity handles and the allocator that issues and retires them.
//!
//! A handle names a slot together with the generation the slot had when the
//! handle was issued. A slot is reused only under a higher generation, so a
//! handle to a deleted entity never resolves again.

use vstd::prelude::*;

verus! {

/// A handle to one row of the store: a slot index and the slot's generation.
#[derive(Clone, Copy, PartialEq, Eq, Structural, Debug, Hash)]
pub struct Entity {
    pub index: usize,
    pub generation: u32,
}

/// The allocator's record of one slot.
#[derive(Clone, Copy, PartialEq, Eq, Structural, Debug)]
pub struct Slot {
    /// Generation of the newest handle issued for this slot.
    pub generation: u32,
    /// Whether that handle is still live.
    pub alive: bool,
    /// Whether the live handle is queued for deletion at the next barrier.
    pub doomed: bool,
}

/// `e` resolves to a live row.
pub open spec fn alive_in(slots: Seq<Slot>, e: Entity) -> bool {
    &&& e.index < slots.len()
    &&& slots[e.index as int].alive
    &&& slots[e.index as int].generation == e.generation
}

/// `e` has been handed out at some point, whether or not it is still live.
pub open spec fn issued_in(slots: Seq<Slot>, e: Entity) -> bool {
    &&& e.index < slots.len()
    &&& e.generation <= slots[e.index as int].generation
}

/// `e` is live and queued for deletion.
pub open spec fn doomed_in(slots: Seq<Slot>, e: Entity) -> bool {
    alive_in(slots, e) && slots[e.index as int].doomed
}

/// The live handle of slot `i`, if the slot holds one.
pub open spec fn entity_at(slots: Seq<Slot>, i: int) -> Option<Entity> {
    if 0 <= i < slots.len() && slots[i].alive {
        Some(Entity { index: i as usize, generation: slots[i].generation })
    } else {
        None
    }
}

/// A dead slot whose generation can still be raised.
pub open spec fn reusable(s: Slot) -> bool {
    !s.alive && s.generation < u32::MAX
}

/// The first reusable slot at or after `from`, or `slots.len()` if there is none.
pub open spec fn first_reusable(slots: Seq<Slot>, from: int) -> int
    decreases slots.len() - from,
{
    if from < 0 || from >= slots.len() {
        slots.len() as int
    } else if reusable(slots[from]) {
        from
    } else {
        first_reusable(slots, from + 1)
    }
}

/// The handle that the next creation issues.
pub open spec fn next_entity(slots: Seq<Slot>) -> Entity {
    let i = first_reusable(slots, 0);
    if i < slots.len() {
        Entity { index: i as usize, generation: (slots[i].generation + 1) as u32 }
    } else {
        Entity { index: slots.len() as usize, generation: 0 }
    }
}

/// The slots after the next creation.
pub open spec fn after_create(slots: Seq<Slot>) -> Seq<Slot> {
    let e = next_entity(slots);
    let fresh = Slot { generation: e.generation, alive: true, doomed: false };
    if e.index < slots.len() {
        slots.update(e.index as int, fresh)
    } else {
        slots.push(fresh)
    }
}

/// The slots after `e` has been queued for deletion.
pub open spec fn after_delete(slots: Seq<Slot>, e: Entity) -> Seq<Slot> {
    if alive_in(slots, e) {
        slots.update(e.index as int, Slot { doomed: true, ..slots[e.index as int] })
    } else {
        slots
    }
}

/// One slot after the barrier: a doomed slot is dead, any other is untouched.
pub open spec fn settled(s: Slot) -> Slot {
    if s.alive && s.doomed {
        Slot { generation: s.generation, alive: false, doomed: false }
    } else {
        s
    }
}

/// The slots after the barrier.
pub open spec fn after_maintain(slots: Seq<Slot>) -> Seq<Slot> {
    Seq::new(slots.len(), |i: int| settled(slots[i]))
}

/// `first_reusable` lands on a reusable slot or on the end, and skips none.
pub proof fn lemma_first_reusable(slots: Seq<Slot>, from: int)
    requires
        0 <= from <= slots.len(),
    ensures
        from <= first_reusable(slots, from) <= slots.len(),
        first_reusable(slots, from) < slots.len() ==> reusable(slots[first_reusable(slots, from)]),
        forall|j: int| from <= j < first_reusable(slots, from) ==> !reusable(#[trigger] slots[j]),
    decreases slots.len() - from,
{
    if from < slots.len() && !reusable(slots[from]) {
        lemma_first_reusable(slots, from + 1);
    }
}

/// Creation issues a handle that was never issued before, makes it live, and
/// changes the standing of no other handle.
pub proof fn lemma_create_is_fresh(slots: Seq<Slot>)
    requires
        slots.len() <= usize::MAX,
    ensures
        !issued_in(slots, next_entity(slots)),
        alive_in(after_create(slots), next_entity(slots)),
        !doomed_in(after_create(slots), next_entity(slots)),
        forall|o: Entity|
            o != next_entity(slots) ==> (alive_in(after_create(slots), o) == alive_in(slots, o)),
        forall|o: Entity|
            o != next_entity(slots) ==> (doomed_in(after_create(slots), o) == doomed_in(slots, o)),
        forall|o: Entity| issued_in(slots, o) ==> issued_in(after_create(slots), o),
{
    lemma_first_reusable(slots, 0);
}

/// The barrier kills exactly the doomed handles, revives none, and forgets no
/// handle that was issued.
pub proof fn lemma_maintain_kills_the_doomed(slots: Seq<Slot>)
    ensures
        forall|o: Entity|
            alive_in(after_maintain(slots), o) == (alive_in(slots, o) && !doomed_in(slots, o)),
        forall|o: Entity| !doomed_in(after_maintain(slots), o),
        forall|o: Entity| issued_in(after_maintain(slots), o) == issued_in(slots, o),
{
}

/// A handle that was issued and is dead stays dead: no creation, no
/// queued deletion and no barrier brings it back.
pub proof fn lemma_dead_stays_dead(slots: Seq<Slot>, e: Entity, other: Entity)
    requires
        slots.len() <= usize::MAX,
        issued_in(slots, e),
        !alive_in(slots, e),
    ensures
        !alive_in(after_create(slots), e),
        !alive_in(after_delete(slots, other), e),
        !alive_in(after_maintain(slots), e),
        issued_in(after_create(slots), e),
        issued_in(after_delete(slots, other), e),
        issued_in(after_maintain(slots), e),
{
    lemma_first_reusable(slots, 0);
}

/// The allocator: one record per slot ever used.
pub struct Entities {
    pub slots: Vec<Slot>,
}

impl View for Entities {
    type V = Seq<Slot>;

    open spec fn view(&self) -> Seq<Slot> {
        self.slots@
    }
}

impl Entities {
    /// An allocator that has issued no handle.
    pub fn new() -> (r: Entities)
        ensures
            r@ == Seq::<Slot>::empty(),
    {
        Entities { slots: Vec::new() }
    }

    /// Number of slots, live or dead.
    pub fn len(&self) -> (n: usize)
        ensures
            n == self@.len(),
    {
        self.slots.len()
    }

    /// Whether `e` resolves to a live row.
    pub fn is_alive(&self, e: Entity) -> (r: bool)
        ensures
            r == alive_in(self@, e),
    {
        e.index < self.slots.len() && self.slots[e.index].alive && self.slots[e.index].generation
            == e.generation
    }

    /// The live handle of slot `i`, if any.
    pub fn entity(&self, i: usize) -> (r: Option<Entity>)
        ensures
            r == entity_at(self@, i as int),
    {
        if i < self.slots.len() && self.slots[i].alive {
            Some(Entity { index: i, generation: self.slots[i].generation })
        } else {
            None
        }
    }

    /// Issues a fresh handle, reusing the first dead slot whose generation can
    /// still grow and appending a slot otherwise.
    pub fn create(&mut self) -> (e: Entity)
        ensures
            e == next_entity(old(self)@),
            final(self)@ == after_create(old(self)@),
            !issued_in(old(self)@, e),
            alive_in(final(self)@, e),
    {
        let n: usize = self.slots.len();
        let mut i: usize = 0;
        while i < n && !(!self.slots[i].alive && self.slots[i].generation < u32::MAX)
            invariant
                0 <= i <= n,
                n == self.slots.len(),
                self.slots == old(self).slots,
                first_reusable(self@, 0) == first_reusable(self@, i as int),
            decreases n - i,
        {
            i += 1;
        }
        proof {
            lemma_create_is_fresh(self@);
        }
        if i < n {
            let generation: u32 = self.slots[i].generation + 1;
            self.slots[i] = Slot { generation, alive: true, doomed: false };
            Entity { index: i, generation }
        } else {
            self.slots.push(Slot { generation: 0, alive: true, doomed: false });
            Entity { index: n, generation: 0 }
        }
    }

    /// Queues `e` for deletion at the next barrier. Returns whether `e` was live.
    pub fn delete(&mut self, e: Entity) -> (was_alive: bool)
        ensures
            was_alive == alive_in(old(self)@, e),
            final(self)@ == after_delete(old(self)@, e),
    {
        if self.is_alive(e) {
            let s: Slot = self.slots[e.index];
            self.slots[e.index] = Slot { generation: s.generation, alive: s.alive, doomed: true };
            true
        } else {
            false
        }
    }

    /// The barrier: every queued deletion takes effect.
    pub fn maintain(&mut self)
        ensures
            final(self)@ == after_maintain(old(self)@),
    {
        let n: usize = self.slots.len();
        let mut i: usize = 0;
        while i < n
            invariant
                0 <= i <= n,
                n == self.slots.len(),
                n == old(self).slots.len(),
                forall|j: int| 0 <= j < i ==> #[trigger] self.slots@[j] == settled(old(self).slots@[j]),
                forall|j: int| i <= j < n ==> #[trigger] self.slots@[j] == old(self).slots@[j],
            decreases n - i,
        {
            let s: Slot = self.slots[i];
            if s.alive && s.doomed {
                self.slots[i] = Slot { generation: s.generation, alive: false, doomed: false };
            }
            i += 1;
        }
        assert(self@ =~= after_maintain(old(self)@));
    }
}

} // verus!

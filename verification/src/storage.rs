//! Sparse per-slot storage for one component type.

use vstd::prelude::*;
use crate::entity::{alive_in, entity_at, Entities, Entity, Slot};

verus! {

/// The components of one type, keyed by slot index.
///
/// The storage itself is keyed by slot and knows nothing of generations.
/// `component`, `attach`, `detach` and `join` go through the allocator, so
/// that a handle to a deleted entity finds nothing.
pub struct Storage<T> {
    pub slots: Vec<Option<T>>,
}

impl<T: View> View for Storage<T> {
    type V = Map<int, T::V>;

    open spec fn view(&self) -> Map<int, T::V> {
        Map::new(
            |i: int| 0 <= i < self.slots@.len() && self.slots@[i] is Some,
            |i: int| self.slots@[i]->0@,
        )
    }
}

/// Whether `e` is alive and has a component in `components`.
pub open spec fn held_by<V>(slots: Seq<Slot>, components: Map<int, V>, e: Entity) -> bool {
    alive_in(slots, e) && components.contains_key(e.index as int)
}

/// The live entities among the first `n` slots that have a component in
/// `components`, in slot order.
pub open spec fn holders<V>(slots: Seq<Slot>, components: Map<int, V>, n: nat) -> Seq<Entity>
    decreases n,
{
    if n == 0 {
        Seq::empty()
    } else if entity_at(slots, n - 1) is Some && components.contains_key(n - 1) {
        holders(slots, components, (n - 1) as nat).push(entity_at(slots, n - 1)->0)
    } else {
        holders(slots, components, (n - 1) as nat)
    }
}

impl<T: View> Storage<T> {
    /// An empty storage.
    pub fn new() -> (r: Storage<T>)
        ensures
            r@ == Map::<int, T::V>::empty(),
    {
        let r = Storage { slots: Vec::new() };
        assert(r@ =~= Map::<int, T::V>::empty());
        r
    }

    /// Whether slot `i` holds a component.
    pub fn contains(&self, i: usize) -> (r: bool)
        ensures
            r == self@.contains_key(i as int),
    {
        i < self.slots.len() && self.slots[i].is_some()
    }

    /// The component of slot `i`, if any.
    pub fn get(&self, i: usize) -> (r: Option<&T>)
        ensures
            r is Some == self@.contains_key(i as int),
            r is Some ==> r->0@ == self@[i as int],
    {
        if i < self.slots.len() {
            self.slots[i].as_ref()
        } else {
            None
        }
    }

    /// Sets the component of slot `i`, replacing any earlier one.
    pub fn insert(&mut self, i: usize, value: T)
        ensures
            final(self)@ == old(self)@.insert(i as int, value@),
    {
        while self.slots.len() <= i
            invariant
                self@ =~= old(self)@,
            decreases i + 1 - self.slots.len(),
        {
            self.slots.push(None);
        }
        self.slots[i] = Some(value);
        assert(self@ =~= old(self)@.insert(i as int, value@));
    }

    /// Takes the component of slot `i` out, if there is one.
    pub fn remove(&mut self, i: usize) -> (r: Option<T>)
        ensures
            final(self)@ == old(self)@.remove(i as int),
            r is Some == old(self)@.contains_key(i as int),
            r is Some ==> r->0@ == old(self)@[i as int],
    {
        if i < self.slots.len() {
            let r = self.slots[i].take();
            assert(self@ =~= old(self)@.remove(i as int));
            r
        } else {
            assert(self@ =~= old(self)@.remove(i as int));
            None
        }
    }

    /// Drops every component.
    pub fn clear(&mut self)
        ensures
            final(self)@ == Map::<int, T::V>::empty(),
    {
        self.slots.clear();
        assert(self@ =~= Map::<int, T::V>::empty());
    }

    /// The component of `e`, if `e` is alive and has one. A stale handle
    /// resolves to nothing, whatever its slot holds by now.
    pub fn component(&self, entities: &Entities, e: Entity) -> (r: Option<&T>)
        ensures
            r is Some == held_by(entities@, self@, e),
            r is Some ==> r->0@ == self@[e.index as int],
    {
        if entities.is_alive(e) {
            self.get(e.index)
        } else {
            None
        }
    }

    /// Attaches `value` to the live entity `e`, replacing any earlier
    /// component of this type.
    pub fn attach(&mut self, entities: &Entities, e: Entity, value: T)
        requires
            alive_in(entities@, e),
        ensures
            final(self)@ == old(self)@.insert(e.index as int, value@),
            held_by(entities@, final(self)@, e),
    {
        self.insert(e.index, value);
    }

    /// Takes the component of `e` off, if `e` is alive and has one.
    pub fn detach(&mut self, entities: &Entities, e: Entity) -> (r: Option<T>)
        ensures
            r is Some == held_by(entities@, old(self)@, e),
            r is Some ==> r->0@ == old(self)@[e.index as int],
            final(self)@ == if alive_in(entities@, e) {
                old(self)@.remove(e.index as int)
            } else {
                old(self)@
            },
    {
        if entities.is_alive(e) {
            self.remove(e.index)
        } else {
            None
        }
    }

    /// The live entities that have a component of this type, in slot order.
    pub fn join(&self, entities: &Entities) -> (found: Vec<Entity>)
        ensures
            found@ == holders(entities@, self@, entities@.len()),
    {
        let mut found: Vec<Entity> = Vec::new();
        let n: usize = entities.len();
        let mut i: usize = 0;
        while i < n
            invariant
                0 <= i <= n,
                n == entities@.len(),
                found@ == holders(entities@, self@, i as nat),
            decreases n - i,
        {
            match entities.entity(i) {
                Some(e) => {
                    if self.contains(i) {
                        found.push(e);
                    }
                },
                None => {},
            }
            i += 1;
        }
        found
    }
}

} // verus!

//! The curse: control passes to another entity.

use vstd::prelude::*;
use crate::components::ActiveEntity;
use crate::entity::Entity;
use crate::messages::{cursed_message, cursed_text};
use crate::rng::{random_slice_entry, roll_dice};
use crate::world::{World, WorldView};

verus! {

/// Whether control can pass to the entity in slot `i`: it is alive,
/// controllable, named, and stands somewhere.
pub open spec fn is_host(w: WorldView, i: int) -> bool {
    &&& w.alive(i)
    &&& w.controllables.contains_key(i)
    &&& w.names.contains_key(i)
    &&& w.positions.contains_key(i)
}

/// The entities among the first `n` slots that control can pass to, in
/// slot order.
pub open spec fn hosts(w: WorldView, n: nat) -> Seq<Entity>
    decreases n,
{
    if n == 0 {
        Seq::empty()
    } else if is_host(w, n - 1) {
        hosts(w, (n - 1) as nat).push(w.handle(n - 1))
    } else {
        hosts(w, (n - 1) as nat)
    }
}

/// Control passes to `host`: it is the active entity, its viewshed is
/// dirty, and the log says what it is called. A host that is gone or has no
/// name leaves everything as it was.
pub open spec fn with_control(w: WorldView, host: Entity) -> WorldView {
    let i = host.index as int;
    if w.is_alive(host) && w.names.contains_key(i) {
        WorldView { active_entity: ActiveEntity { target: host }, ..w }.with_dirty(i).with_log(
            cursed_text(w.names[i]),
        )
    } else {
        w
    }
}

/// What a throw of the curse's die does: on a three, control passes to
/// `choice`; on anything else, and with nobody to pass it to, nothing
/// happens.
pub open spec fn after_curse(w: WorldView, roll: int, choice: Option<Entity>) -> WorldView {
    if roll == 3 && choice is Some {
        with_control(w, choice->0)
    } else {
        w
    }
}

/// The entities that control can pass to, in slot order.
pub fn possible_hosts(ecs: &World) -> (found: Vec<Entity>)
    ensures
        found@ == hosts(ecs@, ecs@.entities.len()),
{
    let mut found: Vec<Entity> = Vec::new();
    let n: usize = ecs.entities.len();
    let mut i: usize = 0;
    while i < n
        invariant
            0 <= i <= n,
            n == ecs@.entities.len(),
            found@ == hosts(ecs@, i as nat),
        decreases n - i,
    {
        match ecs.entities.entity(i) {
            Some(e) => {
                if ecs.controllables.contains(i) && ecs.names.contains(i) && ecs.positions.contains(
                    i,
                ) {
                    found.push(e);
                }
            },
            None => {},
        }
        i += 1;
    }
    found
}

/// Passes control to `host`.
pub fn take_control(ecs: &mut World, host: Entity)
    ensures
        final(ecs)@ == with_control(old(ecs)@, host),
{
    if ecs.entities.is_alive(host) {
        let line = match ecs.names.get(host.index) {
            Some(name) => cursed_message(&name.name),
            None => {
                return ;
            },
        };
        ecs.active_entity = ActiveEntity { target: host };
        ecs.mark_dirty(host.index);
        ecs.log.push(line);
    }
}

/// Carries the curse out once the die has shown `roll` and `choice` has
/// been picked among the possible hosts: on a three control passes to the
/// pick, if there is one, and anything else changes nothing.
pub fn curse(ecs: &mut World, roll: i32, choice: Option<Entity>)
    ensures
        final(ecs)@ == after_curse(old(ecs)@, roll as int, choice),
{
    if roll == 3 {
        match choice {
            Some(host) => {
                take_control(ecs, host);
            },
            None => {},
        }
    }
}

/// Throws the curse's four-sided die, picks an entity at random among those
/// that can take control, and carries the curse out with the two.
///
/// Whatever the draws, either nothing changes or control has passed to one
/// of the possible hosts.
pub fn try_change_control(ecs: &mut World)
    requires
        old(ecs)@.entities.len() < i32::MAX,
    ensures
        exists|roll: int, choice: Option<Entity>|
            1 <= roll <= 4 && (choice is Some ==> hosts(
                old(ecs)@,
                old(ecs)@.entities.len(),
            ).contains(choice->0)) && (choice is None <==> hosts(
                old(ecs)@,
                old(ecs)@.entities.len(),
            ).len() == 0) && final(ecs)@ == #[trigger] after_curse(old(ecs)@, roll, choice),
{
    let roll: i32 = roll_dice(&mut ecs.rng, 1, 4);
    let data = possible_hosts(ecs);
    proof {
        lemma_hosts_len(ecs@, ecs@.entities.len());
    }
    let choice = random_slice_entry(&mut ecs.rng, &data);
    curse(ecs, roll, choice);
    assert(ecs@ == after_curse(old(ecs)@, roll as int, choice));
}

/// Throws the curse: the same as `try_change_control`.
pub fn _try_curse(ecs: &mut World)
    requires
        old(ecs)@.entities.len() < i32::MAX,
    ensures
        exists|roll: int, choice: Option<Entity>|
            1 <= roll <= 4 && (choice is Some ==> hosts(
                old(ecs)@,
                old(ecs)@.entities.len(),
            ).contains(choice->0)) && (choice is None <==> hosts(
                old(ecs)@,
                old(ecs)@.entities.len(),
            ).len() == 0) && final(ecs)@ == #[trigger] after_curse(old(ecs)@, roll, choice),
{
    try_change_control(ecs);
}

/// There are no more hosts than slots.
pub proof fn lemma_hosts_len(w: WorldView, n: nat)
    ensures
        hosts(w, n).len() <= n,
    decreases n,
{
    if n > 0 {
        lemma_hosts_len(w, (n - 1) as nat);
    }
}

} // verus!

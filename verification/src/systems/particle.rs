//! Particles: short-lived effects that mean nothing to the game.

use vstd::prelude::*;
use crate::components::{ParticleLifetime, Position, Renderable};
use crate::entity::{after_delete, next_entity};
use crate::systems::damage::clamped;
use crate::world::{lemma_intents_from, ParticleRequest, World, WorldView};

verus! {

/// One request turned into an entity with a position, a look and a lifetime.
pub open spec fn spawn_step(w: WorldView, r: ParticleRequest) -> WorldView {
    let i = next_entity(w.entities).index as int;
    let c = w.with_created();
    WorldView {
        positions: c.positions.insert(i, Position { x: r.x, y: r.y }),
        renderables: c.renderables.insert(
            i,
            Renderable { glyph: r.glyph, fg: r.fg, bg: r.bg, render_order: 0 },
        ),
        particle_lifetimes: c.particle_lifetimes.insert(
            i,
            ParticleLifetime { lifetime_ms: r.lifetime },
        ),
        ..c
    }
}

/// The first `k` requests spawned, in order.
pub open spec fn spawn_pass(w: WorldView, requests: Seq<ParticleRequest>, k: nat) -> WorldView
    decreases k,
{
    if k == 0 {
        w
    } else {
        spawn_step(spawn_pass(w, requests, (k - 1) as nat), requests[k - 1])
    }
}

/// The whole step: every request spawned, the queue empty.
#[verifier::opaque]
pub open spec fn particles_spawned(w: WorldView) -> WorldView {
    WorldView {
        requests: Seq::empty(),
        ..spawn_pass(w, w.requests, w.requests.len())
    }
}

/// The particle in slot `i` grows older by `elapsed` milliseconds, and is
/// queued for deletion once its lifetime is below zero.
pub open spec fn age_step(w: WorldView, i: int, elapsed: i32) -> WorldView {
    if w.alive(i) && w.particle_lifetimes.contains_key(i) {
        let left = clamped(w.particle_lifetimes[i].lifetime_ms - elapsed);
        let aged = WorldView {
            particle_lifetimes: w.particle_lifetimes.insert(i, ParticleLifetime { lifetime_ms: left }),
            ..w
        };
        if left < 0 {
            WorldView { entities: after_delete(aged.entities, w.handle(i)), ..aged }
        } else {
            aged
        }
    } else {
        w
    }
}

/// The particles in the first `n` slots aged, in slot order.
pub open spec fn age_pass(w: WorldView, n: nat, elapsed: i32) -> WorldView
    decreases n,
{
    if n == 0 {
        w
    } else {
        age_step(age_pass(w, (n - 1) as nat, elapsed), n - 1, elapsed)
    }
}

/// Every particle aged by `elapsed` milliseconds.
#[verifier::opaque]
pub open spec fn particles_aged(w: WorldView, elapsed: i32) -> WorldView {
    age_pass(w, w.entities.len(), elapsed)
}

/// Turns queued effects into entities.
pub struct ParticleSpawnSystem {}

impl ParticleSpawnSystem {
    /// Turns every queued request into an entity and empties the queue.
    pub fn run(&mut self, world: &mut World)
        ensures
            final(world)@ == particles_spawned(old(world)@),
            final(world)@.keeps_intents_out(old(world)@),
            final(world)@.map == old(world)@.map,
    {
        reveal(particles_spawned);
        let n: usize = world.particle_builder.requests.len();
        let mut k: usize = 0;
        while k < n
            invariant
                0 <= k <= n,
                n == old(world)@.requests.len(),
                world@.requests == old(world)@.requests,
                world@ == spawn_pass(old(world)@, old(world)@.requests, k as nat),
                world@.intents_from(old(world)@),
                world@.map == old(world)@.map,
            decreases n - k,
        {
            let ghost before = world@;
            let r: ParticleRequest = world.particle_builder.requests[k];
            let particle = world.create_entity();
            world.positions.insert(particle.index, Position { x: r.x, y: r.y });
            world.renderables.insert(
                particle.index,
                Renderable { glyph: r.glyph, fg: r.fg, bg: r.bg, render_order: 0 },
            );
            world.particle_lifetimes.insert(
                particle.index,
                ParticleLifetime { lifetime_ms: r.lifetime },
            );
            assert(world@ == spawn_step(before, r));
            k += 1;
        }
        world.particle_builder.requests.clear();
        proof {
            lemma_intents_from(world@, old(world)@);
        }
    }
}

/// Ages every particle by `frame_time_ms` and queues the expired ones for
/// deletion. Runs once per frame, whatever the turn state.
pub fn remove_particles(world: &mut World, frame_time_ms: i32)
    ensures
        final(world)@ == particles_aged(old(world)@, frame_time_ms),
        final(world)@.map == old(world)@.map,
        final(world)@.run_state == old(world)@.run_state,
        final(world)@.entities.len() == old(world)@.entities.len(),
{
    reveal(particles_aged);
    let n: usize = world.entities.len();
    let mut i: usize = 0;
    while i < n
        invariant
            0 <= i <= n,
            n == old(world)@.entities.len(),
            n == world@.entities.len(),
            world@ == age_pass(old(world)@, i as nat, frame_time_ms),
            world@.map == old(world)@.map,
            world@.run_state == old(world)@.run_state,
        decreases n - i,
    {
        let ghost before = world@;
        match world.entities.entity(i) {
            Some(e) => {
                match world.particle_lifetimes.get(i) {
                    Some(particle) => {
                        let v: i64 = particle.lifetime_ms as i64 - frame_time_ms as i64;
                        let left: i32 = if v < i32::MIN as i64 {
                            i32::MIN
                        } else if v > i32::MAX as i64 {
                            i32::MAX
                        } else {
                            v as i32
                        };
                        world.particle_lifetimes.insert(i, ParticleLifetime { lifetime_ms: left });
                        if left < 0 {
                            world.entities.delete(e);
                        }
                    },
                    None => {},
                }
            },
            None => {},
        }
        assert(world@ == age_step(before, i as int, frame_time_ms));
        i += 1;
    }
}

/// Spawning particles adds no intent: whatever is pending afterwards was
/// pending before.
pub proof fn lemma_particles_spawned_adds_no_intent(w: WorldView)
    ensures
        particles_spawned(w).intents_from(w),
{
    reveal(particles_spawned);
    lemma_spawn_pass_adds_no_intent(w, w.requests, w.requests.len());
}

/// The first `k` requests add no intent.
pub proof fn lemma_spawn_pass_adds_no_intent(w: WorldView, requests: Seq<ParticleRequest>, k: nat)
    ensures
        spawn_pass(w, requests, k).intents_from(w),
    decreases k,
{
    if k > 0 {
        lemma_spawn_pass_adds_no_intent(w, requests, (k - 1) as nat);
    }
}

} // verus!

//! The systems of the turn pipeline, one module each.

pub mod damage;
pub mod fov;
pub mod inventory;
pub mod map_indexing;
pub mod melee_combat;
pub mod particle;
pub mod trigger;

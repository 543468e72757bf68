//! The simulation kernel of a turn-based dungeon game: an entity-component
//! store, the ordered systems that run over it each turn, and the map
//! generator and visibility pass those systems depend on.

pub mod entity;
pub mod storage;
pub mod rng;
pub mod map;
pub mod dungeon;
pub mod components;
pub mod world;
pub mod messages;
pub mod glyphs;
pub mod systems;
pub mod table;
pub mod spawner;
pub mod player;
pub mod control;
pub mod game;
pub mod camera;

//! Lost-Signal: the rules of a multiplayer roguelike about perception and time.
//!
//! The crate holds the shared game vocabulary (positions, tiles, avatars, foes,
//! senses, events), the server-side simulation (stages with rollback, foe
//! behaviour, sense bounds, field of view) and the client-side world view.

pub mod board;
pub mod types;
pub mod sense;
pub mod events;
pub mod leaderboard;
pub mod fov;
pub mod maps;
pub mod world;
pub mod stage;
pub mod stage_events;
pub mod bounds;
pub mod action;
pub mod gather;
pub mod foes;
pub mod network;
pub mod game;
pub mod logs;
pub mod client_world;
pub mod client;
pub mod pages;
pub mod tiled_map;

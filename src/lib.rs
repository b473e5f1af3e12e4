//! Session lifecycle for a multiplayer card-game server: a table of session
//! slots with a participant directory, the decisions of a connection pump,
//! and a game of Snap that plugs into the table.

pub mod cards;
pub mod game;
pub mod manager;
pub mod message;
pub mod pump;

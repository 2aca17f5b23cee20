//! The rules of a small multiplayer world: players appear on a map, click to
//! walk, and see each other move.
//!
//! The server's state and the client's view of it live here, with the messages
//! they exchange. Sockets, the database, the game loop and the arithmetic on
//! coordinates are the business of the programs built on top.
pub mod canvas;
pub mod client;
pub mod clients;
pub mod laws;
pub mod login;
pub mod session;
pub mod shared;
pub mod wire;
pub mod world;

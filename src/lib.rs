//! Server core of a terminal drawing-and-guessing game: the shared data
//! model, the word engine, the per-room game state, the frame codec and the
//! room, session and matchmaking state machines.

pub mod data;
pub mod word;
pub mod message;
pub mod network;
pub mod skribbl;
pub mod text;
pub mod rng;
pub mod room;
pub mod game_server;
pub mod session;
pub mod client;
pub mod config;

//! Authoritative server logic of a multiplayer snake game on a wrap-around
//! grid, with the client's side of the protocol.
//!
//! One server owns the world: the snakes, the apples and the grid. Players
//! send intents; the server checks them, advances the world once per tick
//! and tells everybody what the world looks like. Every function of this
//! crate carries a contract, and Verus proves that the code meets it.
//!
//! - [`grid`], [`snake`], [`session`]: the world and how a snake moves in it.
//! - [`sim`], [`spawn`]: what a tick does after the move, and where apples
//!   come from.
//! - [`identity`], [`connected`], [`registry`]: users, their order, who is
//!   connected and who owns which snake.
//! - [`messages`], [`wire`], [`encode`], [`decode`]: the messages and their
//!   bytes.
//! - [`model`], [`laws`], [`controller`]: the server's state machine, what
//!   is proved of it, and the code that runs it.
//! - [`client`], [`render`]: what a client remembers and sends, and where
//!   things are drawn.

pub mod client;
pub mod connected;
pub mod controller;
pub mod decode;
pub mod encode;
pub mod grid;
pub mod identity;
pub mod laws;
pub mod messages;
pub mod model;
pub mod registry;
pub mod render;
pub mod session;
pub mod sim;
pub mod snake;
pub mod spawn;
pub mod wire;

//! A verified core for a small websocket chat: the server's room state
//! (players, messages, reactions), the client's view of the room, and the
//! JSON frames the two exchange.

pub mod text;
pub mod frame;
pub mod search;
pub mod server;
pub mod client;

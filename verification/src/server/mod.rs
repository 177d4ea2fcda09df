//! The broker's protocol logic: clients and the packet handler. Accepting
//! connections and moving bytes is the application's part.

pub mod client;
pub mod driver;
pub mod handler;
pub mod server;

pub use client::{Client, ClientId, ClientState, ClientStats};
pub use driver::{connection_step, ConnectionAction, ConnectionEvent, ConnectionPhase};
pub use handler::{HandleResult, PacketHandler};
pub use server::{ServerError, ServerStats};

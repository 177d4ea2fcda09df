//! Storage of session state (for clean_session false), pending QoS 1/2
//! messages, behind the `SessionStore` and `MessageStore` interfaces.

pub mod memory;
pub mod traits;

pub use memory::MemoryStore;
pub use traits::{
    MessageStore, PendingMessage, PersistedSession, PersistenceError, Qos2State, SessionStore,
};

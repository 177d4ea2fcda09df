//! MQTT session state: packet identifiers, the connection state machine, the
//! QoS delivery state machines and the session.

pub mod connection;
pub mod packet_id;
pub mod qos;
pub mod session;

pub use connection::{ConnectionError, ConnectionState, ConnectionStateMachine, DisconnectReason};
pub use packet_id::PacketIdAllocator;
pub use qos::{PendingPublish, QoS1State, QoS2InboundState, QoS2OutboundState, QoSConfig, QoSError};
pub use session::{QueuedMessage, Session, SessionConfig, SessionStats};

//! Transport: framing MQTT packets over a byte stream, and the connection
//! settings and errors.

pub mod codec;
pub mod connection;

pub use codec::{CodecError, MqttCodec, DEFAULT_MAX_PACKET_SIZE, MAX_PACKET_SIZE};
pub use connection::{ConnectionConfig, ConnectionError};

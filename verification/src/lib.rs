//! MQTT 3.1.1 broker library: wire codec, topic matching, session state
//! machines, message routing and storage, with their contracts proved.

pub mod buf;
pub mod clients;
pub mod clock;
pub mod codec;
pub mod persistence;
pub mod router;
pub mod server;
pub mod session;
pub mod strings;
pub mod topic_matcher;
pub mod transport;

//! Connection settings and errors. Reading and writing the TCP stream is
//! the application's part; it frames packets with `MqttCodec`.

use vstd::prelude::*;

use std::time::Duration;

use crate::clock::{duration_from_secs, duration_of_secs};
use crate::transport::codec::CodecError;

verus! {

/// Configuration of MQTT connections.
#[derive(Debug, Clone)]
pub struct ConnectionConfig {
    /// Maximum packet size in bytes.
    pub max_packet_size: usize,
    /// Read timeout.
    pub read_timeout: Duration,
    /// Write timeout.
    pub write_timeout: Duration,
    /// Read buffer size.
    pub read_buffer_size: usize,
    /// Write buffer size.
    pub write_buffer_size: usize,
}

impl Default for ConnectionConfig {
    fn default() -> (r: Self)
        ensures
            r.max_packet_size == 1024 * 1024,
            r.read_timeout == duration_of_secs(30),
            r.write_timeout == duration_of_secs(30),
            r.read_buffer_size == 8192,
            r.write_buffer_size == 8192,
    {
        ConnectionConfig {
            // 1 MB
            max_packet_size: 1024 * 1024,
            read_timeout: duration_from_secs(30),
            write_timeout: duration_from_secs(30),
            read_buffer_size: 8192,
            write_buffer_size: 8192,
        }
    }
}

/// Errors of connection operations.
#[derive(Debug)]
pub enum ConnectionError {
    /// An I/O error.
    Io(std::io::Error),
    /// A framing error.
    Codec(CodecError),
    /// Reading timed out.
    ReadTimeout,
    /// Writing timed out.
    WriteTimeout,
    /// The connection is closed.
    ConnectionClosed,
}

} // verus!

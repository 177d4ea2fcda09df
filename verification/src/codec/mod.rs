//! MQTT 3.1.1 protocol codec: `&[u8]` to `Packet` and back, with no I/O.

pub mod decode;
pub mod encode;
pub mod error;
pub mod packet;
pub mod roundtrip;
pub mod types;
pub mod varint;

pub use error::{DecodeError, EncodeError};
pub use varint::{decode_variable_int, encode_variable_int, varint_len};
pub use types::{
    ConnectFlags, ConnectReturnCode, FixedHeader, PacketId, QoS, SubAckCode, Subscription, Will,
    DEFAULT_MAX_PACKET_SIZE, MAX_REMAINING_LENGTH, PROTOCOL_LEVEL_3_1_1, PROTOCOL_NAME,
};
pub use packet::{
    ConnAck, Connect, Packet, PubAck, PubComp, PubRec, PubRel, Publish, SubAck, Subscribe,
    UnsubAck, Unsubscribe,
};
pub use decode::decode_packet;
pub use encode::encode_packet;

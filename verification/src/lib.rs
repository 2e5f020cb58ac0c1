//! A binary codec for MQTT control packets.
//!
//! Packets are read from and written to a `bytes::BytesMut`. Every function
//! states, over the bytes that the buffer holds, what it consumes or appends
//! and which value or error it returns.

pub mod buffer;
pub mod connect;
pub mod decoder;
pub mod encoder;
pub mod error;
pub mod header;
pub mod packet;
pub mod packet_laws;
pub mod publish;
pub mod round_trip;
pub mod subscribe;
pub mod utils;
pub mod wire;

pub use crate::connect::{Connack, Connect};
pub use crate::error::CodecError;
pub use crate::header::{Header, PacketType};
pub use crate::packet::{decode, encode, Packet};
pub use crate::publish::Publish;
pub use crate::subscribe::{Suback, Subscribe, SubscribeReturnCodes, SubscribeTopic, Unsubscribe};
pub use crate::utils::{ConnectReturnCode, LastWill, PacketIdentifier, Protocol, QoS, QosPid};

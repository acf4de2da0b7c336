//! The messages exchanged with the administrator and their wire format.

pub mod cbor;
pub mod codec;
pub mod decode;
pub mod encode;
pub mod frame;
pub mod message;
pub mod wire;

//! Host-side protocol engine for talking to a Meta Quest headset's companion
//! server over Bluetooth Low Energy: packet framing, the protobuf envelope,
//! the encrypted session with its claim / authenticate handshake, and the
//! request dispatcher's polling decisions.

pub mod error;
pub mod framer;
pub mod wire;
pub mod messages;
pub mod crypto;
pub mod session;
pub mod dispatch;
pub mod commands;

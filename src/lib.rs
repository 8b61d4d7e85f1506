//! A client for a length-prefixed, state-dependent game protocol: the VarInt codec,
//! packet framing, the handshake, status, login and play messages, the player registry
//! and the chat renderer, each with its contract.
use vstd::prelude::*;

pub mod chat;
pub mod command;
pub mod packet;
pub mod play;
pub mod registry;
pub mod session;
pub mod status;
pub mod varint;
pub mod wire;

verus! {

} // verus!

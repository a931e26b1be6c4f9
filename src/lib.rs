//! The core of a BitTorrent leech client: the peer wire codec, the per-peer
//! protocol state, the piece table that hands out and assembles pieces, and the
//! tracker request and answer formats.

pub mod assembly;
pub mod bitfield;
pub mod bytes;
pub mod download;
pub mod handler;
pub mod handshake;
pub mod message;
pub mod meta;
pub mod peer;
pub mod peers;
pub mod protocol;
pub mod session;
pub mod swarm;
pub mod tracker;
pub mod utils;
pub mod wire;

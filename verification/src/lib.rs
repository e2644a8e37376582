//! In-memory core of a BitTorrent tracker: the peer registry that lets peers
//! of one swarm discover each other, the announce handler that validates a
//! request and assembles the response, and the bencode encoding of that
//! response. Transport (HTTP) and the clock are supplied by the caller.

pub mod ascii;
pub mod addr;
pub mod peer;
pub mod registry;
pub mod response;
pub mod bencode;
pub mod service;

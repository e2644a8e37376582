//! The peer data model: the wire-level peer entry handed back to announcing
//! peers, and the registry's per-peer record. A peer's identity within a
//! swarm is its (IP address, port) pair; the client-chosen peer id is carried
//! as metadata only, since distinct peers may announce colliding peer ids.

use vstd::prelude::*;
use crate::addr::Ipv4Addr;

verus! {

/// Lifecycle token of an announce request.
#[derive(Clone, Copy, PartialEq, Eq, Structural, Debug)]
pub enum Event {
    Started,
    Completed,
    Stopped,
}

/// A peer entry as returned to announcing peers: id, address, port.
#[derive(Debug, PartialEq, Eq)]
pub struct Peer {
    pub peer_id: Vec<u8>,
    pub ip: Ipv4Addr,
    pub port: u16,
}

/// Mathematical value of a [`Peer`].
pub ghost struct PeerV {
    pub peer_id: Seq<u8>,
    pub ip: Ipv4Addr,
    pub port: u16,
}

impl View for Peer {
    type V = PeerV;

    open spec fn view(&self) -> PeerV {
        PeerV { peer_id: self.peer_id@, ip: self.ip, port: self.port }
    }
}

/// A peer's record inside one swarm: the wire fields plus the bookkeeping
/// the registry needs for seeder counting and staleness expiry.
#[derive(Debug)]
pub struct PeerRecord {
    pub peer_id: Vec<u8>,
    pub ip: Ipv4Addr,
    pub port: u16,
    pub left: u64,
    pub last_announce: u64,
}

/// Mathematical value of a [`PeerRecord`].
pub ghost struct RecV {
    pub peer_id: Seq<u8>,
    pub ip: Ipv4Addr,
    pub port: u16,
    pub left: u64,
    pub last_announce: u64,
}

impl View for PeerRecord {
    type V = RecV;

    open spec fn view(&self) -> RecV {
        RecV {
            peer_id: self.peer_id@,
            ip: self.ip,
            port: self.port,
            left: self.left,
            last_announce: self.last_announce,
        }
    }
}

/// The wire-level projection of a record.
pub open spec fn rec_wire(r: RecV) -> PeerV {
    PeerV { peer_id: r.peer_id, ip: r.ip, port: r.port }
}

impl PeerRecord {
    /// The wire-level peer entry of this record.
    pub fn wire(&self) -> (p: Peer)
        ensures
            p@ == rec_wire(self@),
    {
        Peer { peer_id: self.peer_id.clone(), ip: self.ip, port: self.port }
    }

    /// A deep copy of this record.
    pub fn duplicate(&self) -> (r: PeerRecord)
        ensures
            r@ == self@,
    {
        PeerRecord {
            peer_id: self.peer_id.clone(),
            ip: self.ip,
            port: self.port,
            left: self.left,
            last_announce: self.last_announce,
        }
    }
}

} // verus!

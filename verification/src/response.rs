//! The announce response record. A failure response carries only
//! `failure_reason`; a success carries the interval and one of the two peer
//! list forms. Optional fields that are absent are never emitted on the wire.

use vstd::prelude::*;
use crate::peer::Peer;

verus! {

/// The response to one announce request, before wire encoding.
#[derive(Debug, PartialEq, Eq)]
pub struct AnnounceResponse {
    /// Present exactly on malformed requests; then no other field is set.
    pub failure_reason: Option<Vec<u8>>,
    /// Non-fatal notice, e.g. an unrecognized event token.
    pub warning_message: Option<Vec<u8>>,
    /// Seconds until the client should announce again.
    pub interval: Option<u16>,
    /// Dictionary-list form of the peer list.
    pub peers: Option<Vec<Peer>>,
    /// Compact form: packed 6-byte records, 4 address bytes and 2 port
    /// bytes each, both big-endian.
    pub peers_compact: Option<Vec<u8>>,
}

impl AnnounceResponse {
    /// At most one of the two peer list forms is present.
    pub open spec fn wf(self) -> bool {
        !(self.peers is Some && self.peers_compact is Some)
    }
}

impl Default for AnnounceResponse {
    /// The all-absent response, to be filled in by the handler.
    fn default() -> (r: AnnounceResponse)
        ensures
            r.failure_reason is None,
            r.warning_message is None,
            r.interval is None,
            r.peers is None,
            r.peers_compact is None,
            r.wf(),
    {
        AnnounceResponse {
            failure_reason: None,
            warning_message: None,
            interval: None,
            peers: None,
            peers_compact: None,
        }
    }
}

} // verus!

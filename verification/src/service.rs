//! Validation and orchestration of one announce exchange: checks the raw
//! request fields, resolves the announcing peer's address, applies the
//! announce to the registry, and assembles the response record. Failures are
//! reported in-band as a `failure_reason` response, never as a transport
//! error.

use vstd::prelude::*;
use crate::addr::{Ipv4Addr, parse_ipv4, spec_parse_ipv4};
use crate::ascii::{all_digits, before_byte, bytes_eq, dec_val, parse_u64, spec_before};
use crate::bencode::{compact_bytes, compact_encode};
use crate::peer::Event;
use crate::registry::{
    PeerRegistry, SwarmV, peers_view, registry_upsert_spec, remove_id, upserted_records, wire_all,
};
use crate::response::AnnounceResponse;

verus! {

/// Largest number of peers ever put in one response; `numwant` is clamped
/// to it.
pub const MAX_PEERS: u16 = 50;

/// Why an announce request was rejected.
#[derive(Clone, Copy, PartialEq, Eq, Structural, Debug)]
pub enum FailureReason {
    MissingInfoHash,
    MissingPeerId,
    MissingPort,
    InvalidPort,
    MissingDownloaded,
    InvalidDownloaded,
    MissingLeft,
    InvalidLeft,
    InvalidUploaded,
    UnresolvedIp,
}

/// The raw announce fields as they arrive from the query string, each one
/// optional and uninterpreted. The transport layer only splits the query;
/// every check happens here.
#[derive(Debug)]
pub struct RawAnnounce {
    pub info_hash: Option<Vec<u8>>,
    pub peer_id: Option<Vec<u8>>,
    pub port: Option<Vec<u8>>,
    pub downloaded: Option<Vec<u8>>,
    pub uploaded: Option<Vec<u8>>,
    pub left: Option<Vec<u8>>,
    pub compact: Option<Vec<u8>>,
    pub no_peer_id: Option<Vec<u8>>,
    pub event: Option<Vec<u8>>,
    pub ip: Option<Vec<u8>>,
    pub numwant: Option<Vec<u8>>,
    pub key: Option<Vec<u8>>,
    pub trackerid: Option<Vec<u8>>,
}

/// A validated announce request.
#[derive(Debug, PartialEq, Eq)]
pub struct AnnounceParams {
    /// Swarm identifier; non-empty.
    pub info_hash: Vec<u8>,
    /// Client-chosen peer identifier; non-empty, metadata only.
    pub peer_id: Vec<u8>,
    /// Listening port, 1 to 65535.
    pub port: u16,
    pub downloaded: u64,
    /// Defaults to zero when absent.
    pub uploaded: u64,
    pub left: u64,
    /// Whether the compact peer list form was requested.
    pub compact: bool,
    pub no_peer_id: Option<Vec<u8>>,
    /// Recognized lifecycle event; `None` for a periodic refresh and for
    /// unrecognized tokens (those also raise a warning).
    pub event: Option<Event>,
    /// Peer-asserted address override, kept only when it parses.
    pub ip: Option<Ipv4Addr>,
    /// Requested peer list bound, clamped to `u16` range.
    pub numwant: Option<u16>,
    pub key: Option<Vec<u8>>,
    pub trackerid: Option<Vec<u8>>,
}

/// The text sent back for each rejection.
pub open spec fn spec_failure_text(f: FailureReason) -> Seq<u8> {
    match f {
        FailureReason::MissingInfoHash => seq![
            'i' as u8,
            'n' as u8,
            'f' as u8,
            'o' as u8,
            '_' as u8,
            'h' as u8,
            'a' as u8,
            's' as u8,
            'h' as u8,
            ' ' as u8,
            'i' as u8,
            's' as u8,
            ' ' as u8,
            'r' as u8,
            'e' as u8,
            'q' as u8,
            'u' as u8,
            'i' as u8,
            'r' as u8,
            'e' as u8,
            'd' as u8,
        ],
        FailureReason::MissingPeerId => seq![
            'p' as u8,
            'e' as u8,
            'e' as u8,
            'r' as u8,
            '_' as u8,
            'i' as u8,
            'd' as u8,
            ' ' as u8,
            'i' as u8,
            's' as u8,
            ' ' as u8,
            'r' as u8,
            'e' as u8,
            'q' as u8,
            'u' as u8,
            'i' as u8,
            'r' as u8,
            'e' as u8,
            'd' as u8,
        ],
        FailureReason::MissingPort => seq![
            'p' as u8,
            'o' as u8,
            'r' as u8,
            't' as u8,
            ' ' as u8,
            'i' as u8,
            's' as u8,
            ' ' as u8,
            'r' as u8,
            'e' as u8,
            'q' as u8,
            'u' as u8,
            'i' as u8,
            'r' as u8,
            'e' as u8,
            'd' as u8,
        ],
        FailureReason::InvalidPort => seq![
            'i' as u8,
            'n' as u8,
            'v' as u8,
            'a' as u8,
            'l' as u8,
            'i' as u8,
            'd' as u8,
            ' ' as u8,
            'p' as u8,
            'o' as u8,
            'r' as u8,
            't' as u8,
        ],
        FailureReason::MissingDownloaded => seq![
            'd' as u8,
            'o' as u8,
            'w' as u8,
            'n' as u8,
            'l' as u8,
            'o' as u8,
            'a' as u8,
            'd' as u8,
            'e' as u8,
            'd' as u8,
            ' ' as u8,
            'i' as u8,
            's' as u8,
            ' ' as u8,
            'r' as u8,
            'e' as u8,
            'q' as u8,
            'u' as u8,
            'i' as u8,
            'r' as u8,
            'e' as u8,
            'd' as u8,
        ],
        FailureReason::InvalidDownloaded => seq![
            'i' as u8,
            'n' as u8,
            'v' as u8,
            'a' as u8,
            'l' as u8,
            'i' as u8,
            'd' as u8,
            ' ' as u8,
            'd' as u8,
            'o' as u8,
            'w' as u8,
            'n' as u8,
            'l' as u8,
            'o' as u8,
            'a' as u8,
            'd' as u8,
            'e' as u8,
            'd' as u8,
        ],
        FailureReason::MissingLeft => seq![
            'l' as u8,
            'e' as u8,
            'f' as u8,
            't' as u8,
            ' ' as u8,
            'i' as u8,
            's' as u8,
            ' ' as u8,
            'r' as u8,
            'e' as u8,
            'q' as u8,
            'u' as u8,
            'i' as u8,
            'r' as u8,
            'e' as u8,
            'd' as u8,
        ],
        FailureReason::InvalidLeft => seq![
            'i' as u8,
            'n' as u8,
            'v' as u8,
            'a' as u8,
            'l' as u8,
            'i' as u8,
            'd' as u8,
            ' ' as u8,
            'l' as u8,
            'e' as u8,
            'f' as u8,
            't' as u8,
        ],
        FailureReason::InvalidUploaded => seq![
            'i' as u8,
            'n' as u8,
            'v' as u8,
            'a' as u8,
            'l' as u8,
            'i' as u8,
            'd' as u8,
            ' ' as u8,
            'u' as u8,
            'p' as u8,
            'l' as u8,
            'o' as u8,
            'a' as u8,
            'd' as u8,
            'e' as u8,
            'd' as u8,
        ],
        FailureReason::UnresolvedIp => seq![
            'i' as u8,
            'n' as u8,
            'v' as u8,
            'a' as u8,
            'l' as u8,
            'i' as u8,
            'd' as u8,
            ' ' as u8,
            'i' as u8,
            'p' as u8,
        ],
    }
}

/// Renders the failure text of `f`.
pub fn failure_text(f: FailureReason) -> (r: Vec<u8>)
    ensures
        r@ == spec_failure_text(f),
{
    match f {
        FailureReason::MissingInfoHash => {
            let m: Vec<u8> = vec![
                'i' as u8,
                'n' as u8,
                'f' as u8,
                'o' as u8,
                '_' as u8,
                'h' as u8,
                'a' as u8,
                's' as u8,
                'h' as u8,
                ' ' as u8,
                'i' as u8,
                's' as u8,
                ' ' as u8,
                'r' as u8,
                'e' as u8,
                'q' as u8,
                'u' as u8,
                'i' as u8,
                'r' as u8,
                'e' as u8,
                'd' as u8,
            ];
            proof {
                assert(m@ =~= spec_failure_text(f));
            }
            m
        },
        FailureReason::MissingPeerId => {
            let m: Vec<u8> = vec![
                'p' as u8,
                'e' as u8,
                'e' as u8,
                'r' as u8,
                '_' as u8,
                'i' as u8,
                'd' as u8,
                ' ' as u8,
                'i' as u8,
                's' as u8,
                ' ' as u8,
                'r' as u8,
                'e' as u8,
                'q' as u8,
                'u' as u8,
                'i' as u8,
                'r' as u8,
                'e' as u8,
                'd' as u8,
            ];
            proof {
                assert(m@ =~= spec_failure_text(f));
            }
            m
        },
        FailureReason::MissingPort => {
            let m: Vec<u8> = vec![
                'p' as u8,
                'o' as u8,
                'r' as u8,
                't' as u8,
                ' ' as u8,
                'i' as u8,
                's' as u8,
                ' ' as u8,
                'r' as u8,
                'e' as u8,
                'q' as u8,
                'u' as u8,
                'i' as u8,
                'r' as u8,
                'e' as u8,
                'd' as u8,
            ];
            proof {
                assert(m@ =~= spec_failure_text(f));
            }
            m
        },
        FailureReason::InvalidPort => {
            let m: Vec<u8> = vec![
                'i' as u8,
                'n' as u8,
                'v' as u8,
                'a' as u8,
                'l' as u8,
                'i' as u8,
                'd' as u8,
                ' ' as u8,
                'p' as u8,
                'o' as u8,
                'r' as u8,
                't' as u8,
            ];
            proof {
                assert(m@ =~= spec_failure_text(f));
            }
            m
        },
        FailureReason::MissingDownloaded => {
            let m: Vec<u8> = vec![
                'd' as u8,
                'o' as u8,
                'w' as u8,
                'n' as u8,
                'l' as u8,
                'o' as u8,
                'a' as u8,
                'd' as u8,
                'e' as u8,
                'd' as u8,
                ' ' as u8,
                'i' as u8,
                's' as u8,
                ' ' as u8,
                'r' as u8,
                'e' as u8,
                'q' as u8,
                'u' as u8,
                'i' as u8,
                'r' as u8,
                'e' as u8,
                'd' as u8,
            ];
            proof {
                assert(m@ =~= spec_failure_text(f));
            }
            m
        },
        FailureReason::InvalidDownloaded => {
            let m: Vec<u8> = vec![
                'i' as u8,
                'n' as u8,
                'v' as u8,
                'a' as u8,
                'l' as u8,
                'i' as u8,
                'd' as u8,
                ' ' as u8,
                'd' as u8,
                'o' as u8,
                'w' as u8,
                'n' as u8,
                'l' as u8,
                'o' as u8,
                'a' as u8,
                'd' as u8,
                'e' as u8,
                'd' as u8,
            ];
            proof {
                assert(m@ =~= spec_failure_text(f));
            }
            m
        },
        FailureReason::MissingLeft => {
            let m: Vec<u8> = vec![
                'l' as u8,
                'e' as u8,
                'f' as u8,
                't' as u8,
                ' ' as u8,
                'i' as u8,
                's' as u8,
                ' ' as u8,
                'r' as u8,
                'e' as u8,
                'q' as u8,
                'u' as u8,
                'i' as u8,
                'r' as u8,
                'e' as u8,
                'd' as u8,
            ];
            proof {
                assert(m@ =~= spec_failure_text(f));
            }
            m
        },
        FailureReason::InvalidLeft => {
            let m: Vec<u8> = vec![
                'i' as u8,
                'n' as u8,
                'v' as u8,
                'a' as u8,
                'l' as u8,
                'i' as u8,
                'd' as u8,
                ' ' as u8,
                'l' as u8,
                'e' as u8,
                'f' as u8,
                't' as u8,
            ];
            proof {
                assert(m@ =~= spec_failure_text(f));
            }
            m
        },
        FailureReason::InvalidUploaded => {
            let m: Vec<u8> = vec![
                'i' as u8,
                'n' as u8,
                'v' as u8,
                'a' as u8,
                'l' as u8,
                'i' as u8,
                'd' as u8,
                ' ' as u8,
                'u' as u8,
                'p' as u8,
                'l' as u8,
                'o' as u8,
                'a' as u8,
                'd' as u8,
                'e' as u8,
                'd' as u8,
            ];
            proof {
                assert(m@ =~= spec_failure_text(f));
            }
            m
        },
        FailureReason::UnresolvedIp => {
            let m: Vec<u8> = vec![
                'i' as u8,
                'n' as u8,
                'v' as u8,
                'a' as u8,
                'l' as u8,
                'i' as u8,
                'd' as u8,
                ' ' as u8,
                'i' as u8,
                'p' as u8,
            ];
            proof {
                assert(m@ =~= spec_failure_text(f));
            }
            m
        },
    }
}

/// The warning attached when an event token is not recognized.
pub open spec fn warn_unknown_event() -> Seq<u8> {
    seq![
        'u' as u8,
        'n' as u8,
        'k' as u8,
        'n' as u8,
        'o' as u8,
        'w' as u8,
        'n' as u8,
        ' ' as u8,
        'e' as u8,
        'v' as u8,
        'e' as u8,
        'n' as u8,
        't' as u8,
    ]
}

/// The event token `started`.
pub open spec fn token_started() -> Seq<u8> {
    seq![
        's' as u8,
        't' as u8,
        'a' as u8,
        'r' as u8,
        't' as u8,
        'e' as u8,
        'd' as u8,
    ]
}

/// The event token `completed`.
pub open spec fn token_completed() -> Seq<u8> {
    seq![
        'c' as u8,
        'o' as u8,
        'm' as u8,
        'p' as u8,
        'l' as u8,
        'e' as u8,
        't' as u8,
        'e' as u8,
        'd' as u8,
    ]
}

/// The event token `stopped`.
pub open spec fn token_stopped() -> Seq<u8> {
    seq![
        's' as u8,
        't' as u8,
        'o' as u8,
        'p' as u8,
        'p' as u8,
        'e' as u8,
        'd' as u8,
    ]
}

/// A decimal field that parses as a `u64`.
pub open spec fn valid_u64(s: Seq<u8>) -> bool {
    s.len() > 0 && all_digits(s) && dec_val(s) <= u64::MAX
}

/// A decimal field that names a usable port: 1 to 65535.
pub open spec fn valid_port(s: Seq<u8>) -> bool {
    s.len() > 0 && all_digits(s) && 1 <= dec_val(s) && dec_val(s) <= 65535
}

/// A compact flag value counts as truthy unless it is empty or `0`.
pub open spec fn spec_truthy(s: Seq<u8>) -> bool {
    s.len() > 0 && s != seq!['0' as u8]
}

/// The event named by a token; `None` for unrecognized tokens.
pub open spec fn spec_event_token(s: Seq<u8>) -> Option<Event> {
    if s == token_started() {
        Some(Event::Started)
    } else if s == token_completed() {
        Some(Event::Completed)
    } else if s == token_stopped() {
        Some(Event::Stopped)
    } else {
        None
    }
}

/// The event of a raw request: absent and unrecognized both mean a plain
/// refresh.
pub open spec fn spec_parsed_event(o: Option<Vec<u8>>) -> Option<Event> {
    match o {
        Some(s) => spec_event_token(s@),
        None => None,
    }
}

/// An unrecognized event token was supplied, which downgrades to a refresh
/// with a warning.
pub open spec fn spec_event_unknown(o: Option<Vec<u8>>) -> bool {
    o is Some && spec_event_token(o->0@) is None
}

/// The address override taken from the `ip` field; kept only if it parses.
pub open spec fn spec_param_ip(o: Option<Vec<u8>>) -> Option<Ipv4Addr> {
    match o {
        Some(s) => spec_parse_ipv4(s@),
        None => None,
    }
}

/// The `numwant` field; non-numeric values are ignored, huge ones clamped
/// to the `u16` range.
pub open spec fn spec_numwant(o: Option<Vec<u8>>) -> Option<u16> {
    match o {
        Some(s) => if valid_u64(s@) {
            if dec_val(s@) > 65535 {
                Some(65535u16)
            } else {
                Some(dec_val(s@) as u16)
            }
        } else {
            None
        },
        None => None,
    }
}

/// The first failed check, in field order; `None` when the request is
/// acceptable.
pub open spec fn spec_validate_err(raw: RawAnnounce) -> Option<FailureReason> {
    if raw.info_hash is None || raw.info_hash->0@.len() == 0 {
        Some(FailureReason::MissingInfoHash)
    } else if raw.peer_id is None || raw.peer_id->0@.len() == 0 {
        Some(FailureReason::MissingPeerId)
    } else if raw.port is None {
        Some(FailureReason::MissingPort)
    } else if !valid_port(raw.port->0@) {
        Some(FailureReason::InvalidPort)
    } else if raw.downloaded is None {
        Some(FailureReason::MissingDownloaded)
    } else if !valid_u64(raw.downloaded->0@) {
        Some(FailureReason::InvalidDownloaded)
    } else if raw.left is None {
        Some(FailureReason::MissingLeft)
    } else if !valid_u64(raw.left->0@) {
        Some(FailureReason::InvalidLeft)
    } else if raw.uploaded is Some && !valid_u64(raw.uploaded->0@) {
        Some(FailureReason::InvalidUploaded)
    } else {
        None
    }
}

/// Checks whether a compact flag value is truthy.
fn is_truthy(s: &Vec<u8>) -> (r: bool)
    ensures
        r == spec_truthy(s@),
{
    if s.len() == 0 {
        false
    } else if s.len() == 1 && s[0] == 48 {
        proof {
            assert(s@ =~= seq!['0' as u8]);
        }
        false
    } else {
        proof {
            if s@ == seq!['0' as u8] {
                assert(s@.len() == 1 && s@[0] == 48);
            }
        }
        true
    }
}

/// Reads an event token.
fn parse_event(s: &Vec<u8>) -> (r: Option<Event>)
    ensures
        r == spec_event_token(s@),
{
    let started: Vec<u8> = vec![
        's' as u8,
        't' as u8,
        'a' as u8,
        'r' as u8,
        't' as u8,
        'e' as u8,
        'd' as u8,
    ];
    proof {
        assert(started@ =~= token_started());
    }
    if bytes_eq(s, &started) {
        return Some(Event::Started);
    }
    let completed: Vec<u8> = vec![
        'c' as u8,
        'o' as u8,
        'm' as u8,
        'p' as u8,
        'l' as u8,
        'e' as u8,
        't' as u8,
        'e' as u8,
        'd' as u8,
    ];
    proof {
        assert(completed@ =~= token_completed());
    }
    if bytes_eq(s, &completed) {
        return Some(Event::Completed);
    }
    let stopped: Vec<u8> = vec![
        's' as u8,
        't' as u8,
        'o' as u8,
        'p' as u8,
        'p' as u8,
        'e' as u8,
        'd' as u8,
    ];
    proof {
        assert(stopped@ =~= token_stopped());
    }
    if bytes_eq(s, &stopped) {
        return Some(Event::Stopped);
    }
    None
}

/// Clones an optional byte string field.
fn clone_opt(o: &Option<Vec<u8>>) -> (r: Option<Vec<u8>>)
    ensures
        r is Some <==> o is Some,
        r is Some ==> r->0@ == o->0@,
{
    match o {
        Some(v) => Some(v.clone()),
        None => None,
    }
}

/// Validates and normalizes a raw announce. Fails with the first broken
/// field check, in field order; recognizes the three event tokens and
/// downgrades unknown ones to `None`; keeps the `ip` override only when it
/// parses; ignores a non-numeric `numwant`.
pub fn validate(raw: &RawAnnounce) -> (r: Result<AnnounceParams, FailureReason>)
    ensures
        r is Err <==> spec_validate_err(*raw) is Some,
        r is Err ==> r->Err_0 == spec_validate_err(*raw)->0,
        r is Ok ==> ({
            let p = r->Ok_0;
            &&& p.info_hash@ == raw.info_hash->0@
            &&& p.peer_id@ == raw.peer_id->0@
            &&& p.port == dec_val(raw.port->0@)
            &&& p.downloaded == dec_val(raw.downloaded->0@)
            &&& (raw.uploaded is Some ==> p.uploaded == dec_val(raw.uploaded->0@))
            &&& (raw.uploaded is None ==> p.uploaded == 0)
            &&& p.left == dec_val(raw.left->0@)
            &&& p.compact == (raw.compact is Some && spec_truthy(raw.compact->0@))
            &&& p.event == spec_parsed_event(raw.event)
            &&& p.ip == spec_param_ip(raw.ip)
            &&& p.numwant == spec_numwant(raw.numwant)
            &&& (p.no_peer_id is Some <==> raw.no_peer_id is Some)
            &&& (p.no_peer_id is Some ==> p.no_peer_id->0@ == raw.no_peer_id->0@)
            &&& (p.key is Some <==> raw.key is Some)
            &&& (p.key is Some ==> p.key->0@ == raw.key->0@)
            &&& (p.trackerid is Some <==> raw.trackerid is Some)
            &&& (p.trackerid is Some ==> p.trackerid->0@ == raw.trackerid->0@)
        }),
{
    let info_hash: Vec<u8> = match &raw.info_hash {
        Some(v) => {
            if v.len() == 0 {
                return Err(FailureReason::MissingInfoHash);
            }
            v.clone()
        },
        None => {
            return Err(FailureReason::MissingInfoHash);
        },
    };
    let peer_id: Vec<u8> = match &raw.peer_id {
        Some(v) => {
            if v.len() == 0 {
                return Err(FailureReason::MissingPeerId);
            }
            v.clone()
        },
        None => {
            return Err(FailureReason::MissingPeerId);
        },
    };
    let port: u16 = match &raw.port {
        Some(v) => {
            match parse_u64(v) {
                Some(x) => {
                    if x < 1 || x > 65535 {
                        return Err(FailureReason::InvalidPort);
                    }
                    x as u16
                },
                None => {
                    return Err(FailureReason::InvalidPort);
                },
            }
        },
        None => {
            return Err(FailureReason::MissingPort);
        },
    };
    let downloaded: u64 = match &raw.downloaded {
        Some(v) => {
            match parse_u64(v) {
                Some(x) => x,
                None => {
                    return Err(FailureReason::InvalidDownloaded);
                },
            }
        },
        None => {
            return Err(FailureReason::MissingDownloaded);
        },
    };
    let left: u64 = match &raw.left {
        Some(v) => {
            match parse_u64(v) {
                Some(x) => x,
                None => {
                    return Err(FailureReason::InvalidLeft);
                },
            }
        },
        None => {
            return Err(FailureReason::MissingLeft);
        },
    };
    let uploaded: u64 = match &raw.uploaded {
        Some(v) => {
            match parse_u64(v) {
                Some(x) => x,
                None => {
                    return Err(FailureReason::InvalidUploaded);
                },
            }
        },
        None => 0,
    };
    let compact: bool = match &raw.compact {
        Some(v) => is_truthy(v),
        None => false,
    };
    let event: Option<Event> = match &raw.event {
        Some(v) => parse_event(v),
        None => None,
    };
    let ip: Option<Ipv4Addr> = match &raw.ip {
        Some(v) => parse_ipv4(v),
        None => None,
    };
    let numwant: Option<u16> = match &raw.numwant {
        Some(v) => {
            match parse_u64(v) {
                Some(x) => Some(
                    if x > 65535 {
                        65535u16
                    } else {
                        x as u16
                    },
                ),
                None => None,
            }
        },
        None => None,
    };
    Ok(
        AnnounceParams {
            info_hash,
            peer_id,
            port,
            downloaded,
            uploaded,
            left,
            compact,
            no_peer_id: clone_opt(&raw.no_peer_id),
            event,
            ip,
            numwant,
            key: clone_opt(&raw.key),
            trackerid: clone_opt(&raw.trackerid),
        },
    )
}

/// The address an announce is registered under: the parsing `ip` override
/// when present, else the transport-reported remote address with any
/// `:port` suffix stripped.
pub open spec fn spec_resolved_ip(raw: RawAnnounce, remote: Seq<u8>) -> Option<Ipv4Addr> {
    if spec_param_ip(raw.ip) is Some {
        spec_param_ip(raw.ip)
    } else {
        spec_parse_ipv4(spec_before(remote, 58))
    }
}

/// The peer list bound for one response: `numwant` clamped to the server
/// maximum, which also applies when `numwant` is absent.
pub open spec fn spec_limit(numwant: Option<u16>) -> int {
    match numwant {
        Some(n) => if n < MAX_PEERS {
            n as int
        } else {
            MAX_PEERS as int
        },
        None => MAX_PEERS as int,
    }
}

/// The tracker's whole state: configuration plus the peer registry.
#[derive(Debug)]
pub struct AppState {
    /// Seconds until the next announce, echoed as `interval`.
    pub min_interval: u16,
    pub registry: PeerRegistry,
}

impl AppState {
    /// The registry is well-formed.
    pub open spec fn wf(self) -> bool {
        self.registry.wf()
    }

    /// A fresh tracker with no swarms.
    pub fn new(min_interval: u16) -> (s: AppState)
        ensures
            s.wf(),
            s.min_interval == min_interval,
            s.registry@ == Seq::<SwarmV>::empty(),
    {
        AppState { min_interval, registry: PeerRegistry::new() }
    }
}

/// Handles one announce exchange against `state`, with `remote` the
/// transport-reported peer address and `now` the current time. A rejected
/// request leaves the registry untouched and yields a response that carries
/// only `failure_reason`; an accepted one applies the announce to the
/// registry and yields the interval and the snapshot of the other peers,
/// truncated to the peer list bound, in compact form when requested. The
/// registry also reports seeder and leecher counts; the response record
/// built here omits them, so they are left for scrape-style callers.
pub fn announce(state: &mut AppState, raw: &RawAnnounce, remote: &Vec<u8>, now: u64) -> (resp:
    AnnounceResponse)
    requires
        old(state).wf(),
    ensures
        final(state).wf(),
        final(state).min_interval == old(state).min_interval,
        resp.wf(),
        (spec_validate_err(*raw) is Some || spec_resolved_ip(*raw, remote@) is None) ==> {
            &&& final(state).registry@ == old(state).registry@
            &&& resp.failure_reason is Some
            &&& resp.warning_message is None
            &&& resp.interval is None
            &&& resp.peers is None
            &&& resp.peers_compact is None
        },
        spec_validate_err(*raw) is Some ==> resp.failure_reason->0@ == spec_failure_text(
            spec_validate_err(*raw)->0,
        ),
        (spec_validate_err(*raw) is None && spec_resolved_ip(*raw, remote@) is None)
            ==> resp.failure_reason->0@ == spec_failure_text(FailureReason::UnresolvedIp),
        (spec_validate_err(*raw) is None && spec_resolved_ip(*raw, remote@) is Some) ==> ({
            let ip = spec_resolved_ip(*raw, remote@)->0;
            let port = dec_val(raw.port->0@) as u16;
            let h = raw.info_hash->0@;
            let pid = raw.peer_id->0@;
            let left = dec_val(raw.left->0@) as u64;
            let stopped = spec_parsed_event(raw.event) == Some(Event::Stopped);
            let snapshot = wire_all(
                remove_id(
                    upserted_records(old(state).registry@, h, pid, ip, port, left, stopped, now),
                    ip,
                    port,
                ),
            );
            let limit = spec_limit(spec_numwant(raw.numwant));
            let shown = if snapshot.len() <= limit {
                snapshot
            } else {
                snapshot.take(limit)
            };
            &&& final(state).registry@ == registry_upsert_spec(
                old(state).registry@,
                h,
                pid,
                ip,
                port,
                left,
                stopped,
                now,
            )
            &&& resp.failure_reason is None
            &&& resp.interval == Some(old(state).min_interval)
            &&& (resp.warning_message is Some <==> spec_event_unknown(raw.event))
            &&& (resp.warning_message is Some ==> resp.warning_message->0@ == warn_unknown_event())
            &&& (if raw.compact is Some && spec_truthy(raw.compact->0@) {
                resp.peers is None && resp.peers_compact is Some && resp.peers_compact->0@
                    == compact_bytes(shown)
            } else {
                resp.peers_compact is None && resp.peers is Some && peers_view(resp.peers->0@)
                    == shown
            })
            &&& (resp.peers is Some ==> forall|k: int|
                0 <= k < resp.peers->0@.len() ==> !((#[trigger] resp.peers->0@[k]).ip == ip
                    && resp.peers->0@[k].port == port))
        }),
{
    let mut resp = AnnounceResponse::default();
    let params = match validate(raw) {
        Err(f) => {
            resp.failure_reason = Some(failure_text(f));
            return resp;
        },
        Ok(p) => p,
    };
    let ip = match params.ip {
        Some(a) => a,
        None => {
            let stripped = before_byte(remote, 58);
            match parse_ipv4(&stripped) {
                Some(a) => a,
                None => {
                    resp.failure_reason = Some(failure_text(FailureReason::UnresolvedIp));
                    return resp;
                },
            }
        },
    };
    let stopped = match params.event {
        Some(Event::Stopped) => true,
        _ => false,
    };
    let result = state.registry.upsert(
        &params.info_hash,
        &params.peer_id,
        ip,
        params.port,
        params.left,
        stopped,
        now,
    );
    let mut others = result.0;
    let ghost full = peers_view(others@);
    let limit: usize = match params.numwant {
        Some(n) => if n < MAX_PEERS {
            n as usize
        } else {
            MAX_PEERS as usize
        },
        None => MAX_PEERS as usize,
    };
    others.truncate(limit);
    proof {
        let limit_s = spec_limit(spec_numwant(raw.numwant));
        let shown = if full.len() <= limit_s {
            full
        } else {
            full.take(limit_s)
        };
        assert(peers_view(others@) =~= shown);
    }
    resp.interval = Some(state.min_interval);
    if raw.event.is_some() && params.event.is_none() {
        let w: Vec<u8> = vec![
            'u' as u8,
            'n' as u8,
            'k' as u8,
            'n' as u8,
            'o' as u8,
            'w' as u8,
            'n' as u8,
            ' ' as u8,
            'e' as u8,
            'v' as u8,
            'e' as u8,
            'n' as u8,
            't' as u8,
        ];
        proof {
            assert(w@ =~= warn_unknown_event());
        }
        resp.warning_message = Some(w);
    }
    if params.compact {
        resp.peers_compact = Some(compact_encode(&others));
    } else {
        resp.peers = Some(others);
    }
    resp
}

} // verus!

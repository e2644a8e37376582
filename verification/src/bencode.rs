//! Wire encoding of the announce response: a bencoded dictionary whose keys
//! appear in sorted order and whose absent optional fields are omitted, plus
//! the compact packed form of the peer list. The format is stated byte for
//! byte by spec functions and the encoders are proved against them.

use vstd::prelude::*;
use crate::addr::{Ipv4Addr, spec_ipv4_text};
use crate::ascii::{dec_digits, u64_to_dec};
use crate::peer::{Peer, PeerV};
use crate::registry::peers_view;
use crate::response::AnnounceResponse;

verus! {

/// Bencoding of a non-negative integer: `i<digits>e`.
pub open spec fn ben_int_bytes(n: nat) -> Seq<u8> {
    seq!['i' as u8] + dec_digits(n) + seq!['e' as u8]
}

/// Bencoding of a byte string: `<length>:<bytes>`.
pub open spec fn ben_str_bytes(s: Seq<u8>) -> Seq<u8> {
    dec_digits(s.len() as nat) + seq![':' as u8] + s
}

/// The dictionary key `ip`.
pub open spec fn key_ip() -> Seq<u8> {
    seq!['i' as u8, 'p' as u8]
}

/// The dictionary key `peer id`.
pub open spec fn key_peer_id() -> Seq<u8> {
    seq![
        'p' as u8,
        'e' as u8,
        'e' as u8,
        'r' as u8,
        ' ' as u8,
        'i' as u8,
        'd' as u8,
    ]
}

/// The dictionary key `port`.
pub open spec fn key_port() -> Seq<u8> {
    seq!['p' as u8, 'o' as u8, 'r' as u8, 't' as u8]
}

/// The dictionary key `interval`.
pub open spec fn key_interval() -> Seq<u8> {
    seq![
        'i' as u8,
        'n' as u8,
        't' as u8,
        'e' as u8,
        'r' as u8,
        'v' as u8,
        'a' as u8,
        'l' as u8,
    ]
}

/// The dictionary key `peers`.
pub open spec fn key_peers() -> Seq<u8> {
    seq!['p' as u8, 'e' as u8, 'e' as u8, 'r' as u8, 's' as u8]
}

/// The dictionary key `failure reason`.
pub open spec fn key_failure_reason() -> Seq<u8> {
    seq![
        'f' as u8,
        'a' as u8,
        'i' as u8,
        'l' as u8,
        'u' as u8,
        'r' as u8,
        'e' as u8,
        ' ' as u8,
        'r' as u8,
        'e' as u8,
        'a' as u8,
        's' as u8,
        'o' as u8,
        'n' as u8,
    ]
}

/// The dictionary key `warning message`.
pub open spec fn key_warning_message() -> Seq<u8> {
    seq![
        'w' as u8,
        'a' as u8,
        'r' as u8,
        'n' as u8,
        'i' as u8,
        'n' as u8,
        'g' as u8,
        ' ' as u8,
        'm' as u8,
        'e' as u8,
        's' as u8,
        's' as u8,
        'a' as u8,
        'g' as u8,
        'e' as u8,
    ]
}

/// Bencoding of one peer entry: a dictionary with keys `ip`, `peer id`,
/// `port`, in that (sorted) order; the address in dotted-decimal text.
pub open spec fn ben_peer_bytes(p: PeerV) -> Seq<u8> {
    seq!['d' as u8] + ben_str_bytes(key_ip()) + ben_str_bytes(spec_ipv4_text(p.ip))
        + ben_str_bytes(key_peer_id()) + ben_str_bytes(p.peer_id) + ben_str_bytes(key_port())
        + ben_int_bytes(p.port as nat) + seq!['e' as u8]
}

/// Concatenated bencodings of a peer sequence.
pub open spec fn ben_peer_items(ps: Seq<PeerV>) -> Seq<u8>
    decreases ps.len(),
{
    if ps.len() == 0 {
        Seq::empty()
    } else {
        ben_peer_items(ps.drop_last()) + ben_peer_bytes(ps.last())
    }
}

/// Bencoding of the dictionary-list peer list: `l<entries>e`.
pub open spec fn ben_peer_list_bytes(ps: Seq<PeerV>) -> Seq<u8> {
    seq!['l' as u8] + ben_peer_items(ps) + seq!['e' as u8]
}

/// Bencoding of the whole response dictionary. Keys appear in sorted order:
/// `failure reason`, `interval`, `peers`, `warning message`; absent fields
/// are omitted entirely.
pub open spec fn encode_response_spec(r: AnnounceResponse) -> Seq<u8> {
    seq!['d' as u8] + (if r.failure_reason is Some {
        ben_str_bytes(key_failure_reason()) + ben_str_bytes(r.failure_reason->0@)
    } else {
        Seq::empty()
    }) + (if r.interval is Some {
        ben_str_bytes(key_interval()) + ben_int_bytes(r.interval->0 as nat)
    } else {
        Seq::empty()
    }) + (if r.peers is Some {
        ben_str_bytes(key_peers()) + ben_peer_list_bytes(peers_view(r.peers->0@))
    } else if r.peers_compact is Some {
        ben_str_bytes(key_peers()) + ben_str_bytes(r.peers_compact->0@)
    } else {
        Seq::empty()
    }) + (if r.warning_message is Some {
        ben_str_bytes(key_warning_message()) + ben_str_bytes(r.warning_message->0@)
    } else {
        Seq::empty()
    }) + seq!['e' as u8]
}

/// Appends all of `s` to `out`.
fn push_bytes(out: &mut Vec<u8>, s: &Vec<u8>)
    ensures
        final(out)@ == old(out)@ + s@,
{
    let n = s.len();
    let mut i: usize = 0;
    while i < n
        invariant
            0 <= i <= n,
            n == s@.len(),
            out@ == old(out)@ + s@.take(i as int),
        decreases n - i,
    {
        out.push(s[i]);
        proof {
            assert(old(out)@ + s@.take(i + 1) =~= (old(out)@ + s@.take(i as int)).push(
                s@[i as int],
            ));
        }
        i = i + 1;
    }
    proof {
        assert(old(out)@ + s@.take(n as int) =~= old(out)@ + s@);
    }
}

/// Appends the bencoding of the byte string `s` to `out`.
fn push_ben_str(out: &mut Vec<u8>, s: &Vec<u8>)
    ensures
        final(out)@ == old(out)@ + ben_str_bytes(s@),
{
    let mut digits = u64_to_dec(s.len() as u64);
    out.append(&mut digits);
    out.push(':' as u8);
    push_bytes(out, s);
    proof {
        assert(out@ =~= old(out)@ + ben_str_bytes(s@));
    }
}

/// Appends the bencoding of the integer `n` to `out`.
fn push_ben_int(out: &mut Vec<u8>, n: u64)
    ensures
        final(out)@ == old(out)@ + ben_int_bytes(n as nat),
{
    out.push('i' as u8);
    let mut digits = u64_to_dec(n);
    out.append(&mut digits);
    out.push('e' as u8);
    proof {
        assert(out@ =~= old(out)@ + ben_int_bytes(n as nat));
    }
}

/// Appends the bencoded dictionary of one peer to `out`.
fn push_ben_peer(out: &mut Vec<u8>, p: &Peer)
    ensures
        final(out)@ == old(out)@ + ben_peer_bytes(p@),
{
    out.push('d' as u8);
    let k_ip: Vec<u8> = vec!['i' as u8, 'p' as u8];
    proof {
        assert(k_ip@ =~= key_ip());
    }
    push_ben_str(out, &k_ip);
    let ip_text = p.ip.text();
    push_ben_str(out, &ip_text);
    let k_peer_id: Vec<u8> = vec![
        'p' as u8,
        'e' as u8,
        'e' as u8,
        'r' as u8,
        ' ' as u8,
        'i' as u8,
        'd' as u8,
    ];
    proof {
        assert(k_peer_id@ =~= key_peer_id());
    }
    push_ben_str(out, &k_peer_id);
    push_ben_str(out, &p.peer_id);
    let k_port: Vec<u8> = vec!['p' as u8, 'o' as u8, 'r' as u8, 't' as u8];
    proof {
        assert(k_port@ =~= key_port());
    }
    push_ben_str(out, &k_port);
    push_ben_int(out, p.port as u64);
    out.push('e' as u8);
    proof {
        assert(out@ =~= old(out)@ + ben_peer_bytes(p@));
    }
}

/// Encodes the response dictionary, key by sorted key, omitting absent
/// fields.
#[verifier::rlimit(100)]
pub fn encode_response(r: &AnnounceResponse) -> (out: Vec<u8>)
    ensures
        out@ == encode_response_spec(*r),
{
    let ghost s_fail: Seq<u8> = if r.failure_reason is Some {
        ben_str_bytes(key_failure_reason()) + ben_str_bytes(r.failure_reason->0@)
    } else {
        Seq::empty()
    };
    let ghost s_int: Seq<u8> = if r.interval is Some {
        ben_str_bytes(key_interval()) + ben_int_bytes(r.interval->0 as nat)
    } else {
        Seq::empty()
    };
    let ghost s_peers: Seq<u8> = if r.peers is Some {
        ben_str_bytes(key_peers()) + ben_peer_list_bytes(peers_view(r.peers->0@))
    } else if r.peers_compact is Some {
        ben_str_bytes(key_peers()) + ben_str_bytes(r.peers_compact->0@)
    } else {
        Seq::empty()
    };
    let ghost s_warn: Seq<u8> = if r.warning_message is Some {
        ben_str_bytes(key_warning_message()) + ben_str_bytes(r.warning_message->0@)
    } else {
        Seq::empty()
    };
    let mut out: Vec<u8> = Vec::new();
    out.push('d' as u8);
    match &r.failure_reason {
        Some(msg) => {
            let k: Vec<u8> = vec![
                'f' as u8,
                'a' as u8,
                'i' as u8,
                'l' as u8,
                'u' as u8,
                'r' as u8,
                'e' as u8,
                ' ' as u8,
                'r' as u8,
                'e' as u8,
                'a' as u8,
                's' as u8,
                'o' as u8,
                'n' as u8,
            ];
            proof {
                assert(k@ =~= key_failure_reason());
            }
            push_ben_str(&mut out, &k);
            push_ben_str(&mut out, msg);
        },
        None => {},
    }
    proof {
        assert(out@ =~= seq!['d' as u8] + s_fail);
    }
    match &r.interval {
        Some(iv) => {
            let k: Vec<u8> = vec![
                'i' as u8,
                'n' as u8,
                't' as u8,
                'e' as u8,
                'r' as u8,
                'v' as u8,
                'a' as u8,
                'l' as u8,
            ];
            proof {
                assert(k@ =~= key_interval());
            }
            push_ben_str(&mut out, &k);
            push_ben_int(&mut out, *iv as u64);
        },
        None => {},
    }
    proof {
        assert(out@ =~= seq!['d' as u8] + s_fail + s_int);
    }
    match &r.peers {
        Some(ps) => {
            let k: Vec<u8> = vec!['p' as u8, 'e' as u8, 'e' as u8, 'r' as u8, 's' as u8];
            proof {
                assert(k@ =~= key_peers());
            }
            push_ben_str(&mut out, &k);
            out.push('l' as u8);
            let ghost pv = peers_view(ps@);
            let ghost list_start = out@;
            let n = ps.len();
            let mut i: usize = 0;
            while i < n
                invariant
                    0 <= i <= n,
                    n == ps@.len(),
                    pv == peers_view(ps@),
                    out@ == list_start + ben_peer_items(pv.take(i as int)),
                decreases n - i,
            {
                proof {
                    assert(pv.take(i + 1).drop_last() =~= pv.take(i as int));
                    assert(pv.take(i + 1).last() == pv[i as int]);
                }
                push_ben_peer(&mut out, &ps[i]);
                proof {
                    assert(ps@[i as int]@ == pv[i as int]);
                    assert(out@ =~= list_start + ben_peer_items(pv.take(i + 1)));
                }
                i = i + 1;
            }
            proof {
                assert(pv.take(n as int) =~= pv);
            }
            out.push('e' as u8);
        },
        None => {
            match &r.peers_compact {
                Some(blob) => {
                    let k: Vec<u8> = vec![
                        'p' as u8,
                        'e' as u8,
                        'e' as u8,
                        'r' as u8,
                        's' as u8,
                    ];
                    proof {
                        assert(k@ =~= key_peers());
                    }
                    push_ben_str(&mut out, &k);
                    push_ben_str(&mut out, blob);
                },
                None => {},
            }
        },
    }
    proof {
        assert(out@ =~= seq!['d' as u8] + s_fail + s_int + s_peers);
    }
    match &r.warning_message {
        Some(msg) => {
            let k: Vec<u8> = vec![
                'w' as u8,
                'a' as u8,
                'r' as u8,
                'n' as u8,
                'i' as u8,
                'n' as u8,
                'g' as u8,
                ' ' as u8,
                'm' as u8,
                'e' as u8,
                's' as u8,
                's' as u8,
                'a' as u8,
                'g' as u8,
                'e' as u8,
            ];
            proof {
                assert(k@ =~= key_warning_message());
            }
            push_ben_str(&mut out, &k);
            push_ben_str(&mut out, msg);
        },
        None => {},
    }
    out.push('e' as u8);
    proof {
        assert(encode_response_spec(*r) == seq!['d' as u8] + s_fail + s_int + s_peers + s_warn
            + seq!['e' as u8]);
        assert(out@ =~= seq!['d' as u8] + s_fail + s_int + s_peers + s_warn + seq!['e' as u8]);
    }
    out
}

/// The 6-byte compact record of one peer: the four address octets, then the
/// port, big-endian.
pub open spec fn compact_pair_bytes(ip: Ipv4Addr, port: u16) -> Seq<u8> {
    seq![ip.o0, ip.o1, ip.o2, ip.o3, (port / 256) as u8, (port % 256) as u8]
}

/// The compact peer list: the 6-byte records in peer order.
pub open spec fn compact_bytes(ps: Seq<PeerV>) -> Seq<u8>
    decreases ps.len(),
{
    if ps.len() == 0 {
        Seq::empty()
    } else {
        compact_bytes(ps.drop_last()) + compact_pair_bytes(ps.last().ip, ps.last().port)
    }
}

/// The (address, port) pairs read back from a compact blob whose length is
/// a multiple of six.
pub open spec fn compact_pairs(b: Seq<u8>) -> Seq<(Ipv4Addr, u16)>
    decreases b.len(),
{
    if b.len() < 6 {
        Seq::empty()
    } else {
        let head = b.take(b.len() - 6);
        let k = b.len();
        compact_pairs(head).push(
            (
                Ipv4Addr { o0: b[k - 6], o1: b[k - 5], o2: b[k - 4], o3: b[k - 3] },
                (b[k - 2] as u16 * 256 + b[k - 1] as u16) as u16,
            ),
        )
    }
}

/// Packs the peer list into the compact wire form.
pub fn compact_encode(peers: &Vec<Peer>) -> (out: Vec<u8>)
    ensures
        out@ == compact_bytes(peers_view(peers@)),
{
    let ghost pv = peers_view(peers@);
    let mut out: Vec<u8> = Vec::new();
    let n = peers.len();
    let mut i: usize = 0;
    while i < n
        invariant
            0 <= i <= n,
            n == peers@.len(),
            pv == peers_view(peers@),
            out@ == compact_bytes(pv.take(i as int)),
        decreases n - i,
    {
        proof {
            assert(pv.take(i + 1).drop_last() =~= pv.take(i as int));
            assert(pv.take(i + 1).last() == pv[i as int]);
            assert(peers@[i as int]@ == pv[i as int]);
        }
        let p = &peers[i];
        out.push(p.ip.o0);
        out.push(p.ip.o1);
        out.push(p.ip.o2);
        out.push(p.ip.o3);
        out.push((p.port / 256) as u8);
        out.push((p.port % 256) as u8);
        proof {
            assert(out@ =~= compact_bytes(pv.take(i + 1)));
        }
        i = i + 1;
    }
    proof {
        assert(pv.take(n as int) =~= pv);
    }
    out
}

/// Unpacks a compact blob. Succeeds exactly when the length is a multiple
/// of six.
pub fn compact_decode(b: &Vec<u8>) -> (r: Option<Vec<(Ipv4Addr, u16)>>)
    ensures
        r is Some <==> b@.len() % 6 == 0,
        r is Some ==> r->0@ == compact_pairs(b@),
{
    let n = b.len();
    if n % 6 != 0 {
        return None;
    }
    let mut out: Vec<(Ipv4Addr, u16)> = Vec::new();
    let mut i: usize = 0;
    while i < n
        invariant
            0 <= i <= n,
            i % 6 == 0,
            n % 6 == 0,
            n == b@.len(),
            out@ == compact_pairs(b@.take(i as int)),
        decreases n - i,
    {
        let ip = Ipv4Addr { o0: b[i], o1: b[i + 1], o2: b[i + 2], o3: b[i + 3] };
        let port: u16 = b[i + 4] as u16 * 256 + b[i + 5] as u16;
        out.push((ip, port));
        proof {
            assert(b@.take(i + 6).take(i as int) =~= b@.take(i as int));
            assert(b@.take(i + 6).len() == i + 6);
            assert(out@ =~= compact_pairs(b@.take(i + 6)));
        }
        i = i + 6;
    }
    proof {
        assert(b@.take(n as int) =~= b@);
    }
    Some(out)
}

/// Compact encode/decode round-trips: unpacking the packed form of a peer
/// list yields exactly the (address, port) pairs of the dictionary-list
/// form, in order.
pub proof fn lemma_compact_round_trip(ps: Seq<PeerV>)
    ensures
        compact_bytes(ps).len() == 6 * ps.len(),
        compact_bytes(ps).len() % 6 == 0,
        compact_pairs(compact_bytes(ps)) == ps.map_values(|p: PeerV| (p.ip, p.port)),
    decreases ps.len(),
{
    if ps.len() == 0 {
        assert(compact_pairs(compact_bytes(ps)) =~= ps.map_values(|p: PeerV| (p.ip, p.port)));
    } else {
        lemma_compact_round_trip(ps.drop_last());
        let b = compact_bytes(ps);
        let last = ps.last();
        assert(b.take(b.len() - 6) =~= compact_bytes(ps.drop_last()));
        assert(b[b.len() - 6] == last.ip.o0);
        assert(b[b.len() - 2] == (last.port / 256) as u8);
        assert(b[b.len() - 1] == (last.port % 256) as u8);
        assert((last.port / 256) as u8 as u16 * 256 + (last.port % 256) as u8 as u16
            == last.port) by {
            assert(last.port / 256 < 256);
            assert(last.port % 256 < 256);
        }
        assert(Ipv4Addr { o0: last.ip.o0, o1: last.ip.o1, o2: last.ip.o2, o3: last.ip.o3 }
            == last.ip);
        assert(compact_pairs(b) =~= ps.map_values(|p: PeerV| (p.ip, p.port)));
    }
}

} // verus!

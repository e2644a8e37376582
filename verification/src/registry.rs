//! The peer registry: every swarm, keyed by info hash, each swarm a set of
//! peer records keyed by (IP, port) identity. The registry owns all mutation
//! of swarm state; callers get back copied snapshots, never live views.
//!
//! Concurrency is the caller's concern: the embedding program serialises
//! access (for example behind a lock), and every operation here is a single
//! atomic step from one well-formed registry value to the next.

use vstd::prelude::*;
use crate::ascii::bytes_eq;
use crate::addr::Ipv4Addr;
use crate::peer::{Peer, PeerRecord, PeerV, RecV, rec_wire};

verus! {

/// Record `r` has the swarm identity `(ip, port)`.
pub open spec fn id_matches(r: RecV, ip: Ipv4Addr, port: u16) -> bool {
    r.ip == ip && r.port == port
}

/// Some record of `rs` has the identity `(ip, port)`.
pub open spec fn contains_id(rs: Seq<RecV>, ip: Ipv4Addr, port: u16) -> bool {
    exists|k: int| 0 <= k < rs.len() && id_matches(rs[k], ip, port)
}

/// The position of the record with identity `(ip, port)`; meaningful when
/// that identity occurs exactly once.
pub open spec fn index_of_id(rs: Seq<RecV>, ip: Ipv4Addr, port: u16) -> int {
    choose|k: int| 0 <= k < rs.len() && id_matches(rs[k], ip, port)
}

/// No two records of `rs` share an identity.
pub open spec fn unique_ids(rs: Seq<RecV>) -> bool {
    forall|k1: int, k2: int|
        0 <= k1 < k2 < rs.len() ==> !(rs[k1].ip == rs[k2].ip && rs[k1].port == rs[k2].port)
}

/// `rs` without every record of identity `(ip, port)`, order kept.
pub open spec fn remove_id(rs: Seq<RecV>, ip: Ipv4Addr, port: u16) -> Seq<RecV>
    decreases rs.len(),
{
    if rs.len() == 0 {
        rs
    } else {
        let rest = remove_id(rs.drop_last(), ip, port);
        if id_matches(rs.last(), ip, port) {
            rest
        } else {
            rest.push(rs.last())
        }
    }
}

/// Record `r` is fresh at time `now` under time-to-live `ttl`.
pub open spec fn fresh_at(r: RecV, now: u64, ttl: u64) -> bool {
    r.last_announce + ttl >= now
}

/// `rs` without the records that have gone stale, order kept.
pub open spec fn prune_records(rs: Seq<RecV>, now: u64, ttl: u64) -> Seq<RecV>
    decreases rs.len(),
{
    if rs.len() == 0 {
        rs
    } else {
        let rest = prune_records(rs.drop_last(), now, ttl);
        if fresh_at(rs.last(), now, ttl) {
            rest.push(rs.last())
        } else {
            rest
        }
    }
}

/// Number of seeders in `rs`: records with nothing left to download.
pub open spec fn count_complete(rs: Seq<RecV>) -> int
    decreases rs.len(),
{
    if rs.len() == 0 {
        0
    } else {
        count_complete(rs.drop_last()) + if rs.last().left == 0 {
            1int
        } else {
            0int
        }
    }
}

/// Number of leechers in `rs`: records still downloading.
pub open spec fn count_incomplete(rs: Seq<RecV>) -> int
    decreases rs.len(),
{
    if rs.len() == 0 {
        0
    } else {
        count_incomplete(rs.drop_last()) + if rs.last().left > 0 {
            1int
        } else {
            0int
        }
    }
}

/// The record a non-stopped announce writes.
pub open spec fn fresh_rec(peer_id: Seq<u8>, ip: Ipv4Addr, port: u16, left: u64, now: u64) -> RecV {
    RecV { peer_id: peer_id, ip: ip, port: port, left: left, last_announce: now }
}

/// One announce applied to a swarm's records: a stop removes the identity,
/// anything else refreshes its record in place or appends a new one.
pub open spec fn upsert_records(
    rs: Seq<RecV>,
    peer_id: Seq<u8>,
    ip: Ipv4Addr,
    port: u16,
    left: u64,
    stopped: bool,
    now: u64,
) -> Seq<RecV> {
    if stopped {
        remove_id(rs, ip, port)
    } else if contains_id(rs, ip, port) {
        rs.update(index_of_id(rs, ip, port), fresh_rec(peer_id, ip, port, left, now))
    } else {
        rs.push(fresh_rec(peer_id, ip, port, left, now))
    }
}

/// The wire-level projection of a record sequence.
pub open spec fn wire_all(rs: Seq<RecV>) -> Seq<PeerV> {
    rs.map_values(|r: RecV| rec_wire(r))
}

/// Mathematical value of a sequence of wire peers.
pub open spec fn peers_view(ps: Seq<Peer>) -> Seq<PeerV> {
    ps.map_values(|p: Peer| p@)
}

/// No record of `remove_id(rs, ip, port)` carries the removed identity:
/// the snapshot taken after an upsert never includes the peer just processed.
pub proof fn lemma_remove_id_excludes(rs: Seq<RecV>, ip: Ipv4Addr, port: u16)
    ensures
        forall|k: int|
            0 <= k < remove_id(rs, ip, port).len() ==> !id_matches(
                #[trigger] remove_id(rs, ip, port)[k],
                ip,
                port,
            ),
    decreases rs.len(),
{
    if rs.len() > 0 {
        lemma_remove_id_excludes(rs.drop_last(), ip, port);
        let rest = remove_id(rs.drop_last(), ip, port);
        let out = remove_id(rs, ip, port);
        assert forall|k: int| 0 <= k < out.len() implies !id_matches(out[k], ip, port) by {
            if id_matches(rs.last(), ip, port) || k < out.len() - 1 {
                assert(out[k] == rest[k]);
            }
        }
    }
}

/// Removing an identity keeps the remaining records free of duplicates, and
/// introduces no identity that was not already present.
pub proof fn lemma_remove_id_unique(rs: Seq<RecV>, ip: Ipv4Addr, port: u16)
    requires
        unique_ids(rs),
    ensures
        unique_ids(remove_id(rs, ip, port)),
        forall|ip2: Ipv4Addr, port2: u16|
            contains_id(remove_id(rs, ip, port), ip2, port2) ==> contains_id(rs, ip2, port2),
    decreases rs.len(),
{
    if rs.len() > 0 {
        let dl = rs.drop_last();
        lemma_remove_id_unique(dl, ip, port);
        let rest = remove_id(dl, ip, port);
        assert forall|ip2: Ipv4Addr, port2: u16|
            contains_id(remove_id(rs, ip, port), ip2, port2) implies contains_id(
            rs,
            ip2,
            port2,
        ) by {
            let out = remove_id(rs, ip, port);
            let k = choose|k: int| 0 <= k < out.len() && id_matches(out[k], ip2, port2);
            if !id_matches(rs.last(), ip, port) && k == out.len() - 1 {
                assert(id_matches(rs[rs.len() - 1], ip2, port2));
            } else {
                assert(contains_id(rest, ip2, port2));
                assert(contains_id(dl, ip2, port2));
                let j = choose|j: int| 0 <= j < dl.len() && id_matches(dl[j], ip2, port2);
                assert(id_matches(rs[j], ip2, port2));
            }
        }
        if !id_matches(rs.last(), ip, port) {
            let last = rs.last();
            if contains_id(rest, last.ip, last.port) {
                assert(contains_id(dl, last.ip, last.port));
                let j = choose|j: int| 0 <= j < dl.len() && id_matches(dl[j], last.ip, last.port);
                assert(rs[j].ip == rs[rs.len() - 1].ip && rs[j].port == rs[rs.len() - 1].port);
                assert(false);
            }
            assert forall|k1: int, k2: int|
                0 <= k1 < k2 < rest.push(last).len() implies !(rest.push(last)[k1].ip == rest.push(
                last,
            )[k2].ip && rest.push(last)[k1].port == rest.push(last)[k2].port) by {
                if k2 == rest.len() {
                    if rest.push(last)[k1].ip == last.ip && rest.push(last)[k1].port == last.port {
                        assert(contains_id(rest, last.ip, last.port));
                    }
                }
            }
        }
    }
}

/// Pruning keeps the records free of duplicates and introduces no identity.
pub proof fn lemma_prune_unique(rs: Seq<RecV>, now: u64, ttl: u64)
    requires
        unique_ids(rs),
    ensures
        unique_ids(prune_records(rs, now, ttl)),
        forall|ip2: Ipv4Addr, port2: u16|
            contains_id(prune_records(rs, now, ttl), ip2, port2) ==> contains_id(rs, ip2, port2),
    decreases rs.len(),
{
    if rs.len() > 0 {
        let dl = rs.drop_last();
        lemma_prune_unique(dl, now, ttl);
        let rest = prune_records(dl, now, ttl);
        assert forall|ip2: Ipv4Addr, port2: u16|
            contains_id(prune_records(rs, now, ttl), ip2, port2) implies contains_id(
            rs,
            ip2,
            port2,
        ) by {
            let out = prune_records(rs, now, ttl);
            let k = choose|k: int| 0 <= k < out.len() && id_matches(out[k], ip2, port2);
            if fresh_at(rs.last(), now, ttl) && k == out.len() - 1 {
                assert(id_matches(rs[rs.len() - 1], ip2, port2));
            } else {
                assert(contains_id(rest, ip2, port2));
                assert(contains_id(dl, ip2, port2));
                let j = choose|j: int| 0 <= j < dl.len() && id_matches(dl[j], ip2, port2);
                assert(id_matches(rs[j], ip2, port2));
            }
        }
        if fresh_at(rs.last(), now, ttl) {
            let last = rs.last();
            if contains_id(rest, last.ip, last.port) {
                assert(contains_id(dl, last.ip, last.port));
                let j = choose|j: int| 0 <= j < dl.len() && id_matches(dl[j], last.ip, last.port);
                assert(rs[j].ip == rs[rs.len() - 1].ip && rs[j].port == rs[rs.len() - 1].port);
                assert(false);
            }
            assert forall|k1: int, k2: int|
                0 <= k1 < k2 < rest.push(last).len() implies !(rest.push(last)[k1].ip == rest.push(
                last,
            )[k2].ip && rest.push(last)[k1].port == rest.push(last)[k2].port) by {
                if k2 == rest.len() {
                    if rest.push(last)[k1].ip == last.ip && rest.push(last)[k1].port == last.port {
                        assert(contains_id(rest, last.ip, last.port));
                    }
                }
            }
        }
    }
}

/// Removing an identity that is not present changes nothing.
pub proof fn lemma_remove_id_absent(rs: Seq<RecV>, ip: Ipv4Addr, port: u16)
    requires
        !contains_id(rs, ip, port),
    ensures
        remove_id(rs, ip, port) == rs,
    decreases rs.len(),
{
    if rs.len() > 0 {
        let dl = rs.drop_last();
        assert forall|k: int| 0 <= k < dl.len() implies !id_matches(#[trigger] dl[k], ip, port) by {
            assert(dl[k] == rs[k]);
        }
        lemma_remove_id_absent(dl, ip, port);
        assert(!id_matches(rs.last(), ip, port));
        assert(remove_id(rs, ip, port) =~= rs);
    }
}

/// When `(ip, port)` occurs exactly once, at `i`, the chosen index is `i`.
pub proof fn lemma_index_of_id(rs: Seq<RecV>, ip: Ipv4Addr, port: u16, i: int)
    requires
        unique_ids(rs),
        0 <= i < rs.len(),
        id_matches(rs[i], ip, port),
    ensures
        contains_id(rs, ip, port),
        index_of_id(rs, ip, port) == i,
{
    assert(contains_id(rs, ip, port));
    let k = index_of_id(rs, ip, port);
    if k != i {
        assert(rs[k].ip == rs[i].ip && rs[k].port == rs[i].port);
    }
}

/// Any announce leaves a duplicate-free swarm duplicate-free.
pub proof fn lemma_upsert_preserves_unique(
    rs: Seq<RecV>,
    peer_id: Seq<u8>,
    ip: Ipv4Addr,
    port: u16,
    left: u64,
    stopped: bool,
    now: u64,
)
    requires
        unique_ids(rs),
    ensures
        unique_ids(upsert_records(rs, peer_id, ip, port, left, stopped, now)),
{
    let out = upsert_records(rs, peer_id, ip, port, left, stopped, now);
    if stopped {
        lemma_remove_id_unique(rs, ip, port);
    } else if contains_id(rs, ip, port) {
        let i = index_of_id(rs, ip, port);
        assert(id_matches(rs[i], ip, port));
        assert forall|k1: int, k2: int| 0 <= k1 < k2 < out.len() implies !(out[k1].ip == out[k2].ip
            && out[k1].port == out[k2].port) by {
            assert(out[k1].ip == rs[k1].ip && out[k1].port == rs[k1].port);
            assert(out[k2].ip == rs[k2].ip && out[k2].port == rs[k2].port);
        }
    } else {
        assert forall|k1: int, k2: int| 0 <= k1 < k2 < out.len() implies !(out[k1].ip == out[k2].ip
            && out[k1].port == out[k2].port) by {
            if k2 == rs.len() {
                if out[k1].ip == ip && out[k1].port == port {
                    assert(id_matches(rs[k1], ip, port));
                    assert(contains_id(rs, ip, port));
                }
            }
        }
    }
}

/// A stop announce leaves the announcing identity absent from the swarm.
pub proof fn lemma_stopped_removes_identity(
    rs: Seq<RecV>,
    peer_id: Seq<u8>,
    ip: Ipv4Addr,
    port: u16,
    left: u64,
    now: u64,
)
    ensures
        !contains_id(upsert_records(rs, peer_id, ip, port, left, true, now), ip, port),
{
    lemma_remove_id_excludes(rs, ip, port);
}

/// Repeating an identical refresh announce changes nothing: the second
/// application returns the very record sequence of the first, so in
/// particular the swarm size is unchanged.
pub proof fn lemma_refresh_idempotent(
    rs: Seq<RecV>,
    peer_id: Seq<u8>,
    ip: Ipv4Addr,
    port: u16,
    left: u64,
    now: u64,
)
    requires
        unique_ids(rs),
    ensures
        upsert_records(
            upsert_records(rs, peer_id, ip, port, left, false, now),
            peer_id,
            ip,
            port,
            left,
            false,
            now,
        ) == upsert_records(rs, peer_id, ip, port, left, false, now),
{
    let fresh = fresh_rec(peer_id, ip, port, left, now);
    let once = upsert_records(rs, peer_id, ip, port, left, false, now);
    lemma_upsert_preserves_unique(rs, peer_id, ip, port, left, false, now);
    if contains_id(rs, ip, port) {
        let i = index_of_id(rs, ip, port);
        assert(id_matches(once[i], ip, port));
        lemma_index_of_id(once, ip, port, i);
        assert(once.update(i, fresh) =~= once);
    } else {
        let i = rs.len() as int;
        assert(id_matches(once[i], ip, port));
        lemma_index_of_id(once, ip, port, i);
        assert(once.update(i, fresh) =~= once);
    }
}

/// One swarm: the records of the peers currently announced for one torrent.
#[derive(Debug)]
pub struct Swarm {
    pub info_hash: Vec<u8>,
    pub records: Vec<PeerRecord>,
}

/// Mathematical value of a [`Swarm`].
pub ghost struct SwarmV {
    pub info_hash: Seq<u8>,
    pub records: Seq<RecV>,
}

impl View for Swarm {
    type V = SwarmV;

    open spec fn view(&self) -> SwarmV {
        SwarmV {
            info_hash: self.info_hash@,
            records: self.records@.map_values(|r: PeerRecord| r@),
        }
    }
}

impl Swarm {
    /// No two records of the swarm share an identity.
    pub open spec fn wf(self) -> bool {
        unique_ids(self@.records)
    }

    /// Position of the record with identity `(ip, port)`, if any.
    fn find_index(&self, ip: Ipv4Addr, port: u16) -> (r: Option<usize>)
        ensures
            r is Some ==> 0 <= r->0 < self@.records.len() && id_matches(
                self@.records[r->0 as int],
                ip,
                port,
            ),
            r is None ==> !contains_id(self@.records, ip, port),
    {
        let n = self.records.len();
        let mut i: usize = 0;
        while i < n
            invariant
                0 <= i <= n,
                n == self.records@.len(),
                forall|j: int| #![auto] 0 <= j < i ==> !id_matches(self.records@[j]@, ip, port),
            decreases n - i,
        {
            let r = &self.records[i];
            if r.ip == ip && r.port == port {
                return Some(i);
            }
            i = i + 1;
        }
        None
    }

    /// Applies one announce to this swarm and returns the snapshot of all
    /// other peers, taken after the mutation, so the announcing identity is
    /// never part of it.
    pub fn upsert(
        &mut self,
        peer_id: &Vec<u8>,
        ip: Ipv4Addr,
        port: u16,
        left: u64,
        stopped: bool,
        now: u64,
    ) -> (others: Vec<Peer>)
        requires
            old(self).wf(),
        ensures
            final(self).wf(),
            final(self)@.info_hash == old(self)@.info_hash,
            final(self)@.records == upsert_records(
                old(self)@.records,
                peer_id@,
                ip,
                port,
                left,
                stopped,
                now,
            ),
            peers_view(others@) == wire_all(remove_id(final(self)@.records, ip, port)),
            forall|k: int|
                0 <= k < others@.len() ==> !((#[trigger] others@[k]).ip == ip && others@[k].port
                    == port),
    {
        let ghost rs0 = self@.records;
        if stopped {
            let mut kept: Vec<PeerRecord> = Vec::new();
            let n = self.records.len();
            let mut i: usize = 0;
            while i < n
                invariant
                    0 <= i <= n,
                    n == self.records@.len(),
                    rs0 == self.records@.map_values(|r: PeerRecord| r@),
                    kept@.map_values(|r: PeerRecord| r@) == remove_id(
                        rs0.take(i as int),
                        ip,
                        port,
                    ),
                decreases n - i,
            {
                proof {
                    assert(rs0.take(i + 1).drop_last() =~= rs0.take(i as int));
                    assert(rs0.take(i + 1).last() == rs0[i as int]);
                }
                let ghost pre = kept@.map_values(|r: PeerRecord| r@);
                let r = &self.records[i];
                if !(r.ip == ip && r.port == port) {
                    kept.push(r.duplicate());
                    proof {
                        assert(kept@.map_values(|r: PeerRecord| r@) =~= pre.push(rs0[i as int]));
                    }
                }
                i = i + 1;
            }
            proof {
                assert(rs0.take(n as int) =~= rs0);
            }
            self.records = kept;
            proof {
                lemma_remove_id_unique(rs0, ip, port);
            }
        } else {
            let rec = PeerRecord {
                peer_id: peer_id.clone(),
                ip: ip,
                port: port,
                left: left,
                last_announce: now,
            };
            let ghost fresh = fresh_rec(peer_id@, ip, port, left, now);
            match self.find_index(ip, port) {
                Some(i) => {
                    proof {
                        lemma_index_of_id(rs0, ip, port, i as int);
                    }
                    self.records.remove(i);
                    self.records.insert(i, rec);
                    proof {
                        assert(self.records@.map_values(|r: PeerRecord| r@) =~= rs0.update(
                            i as int,
                            fresh,
                        ));
                    }
                },
                None => {
                    self.records.push(rec);
                    proof {
                        assert(self.records@.map_values(|r: PeerRecord| r@) =~= rs0.push(fresh));
                    }
                },
            }
            proof {
                lemma_upsert_preserves_unique(rs0, peer_id@, ip, port, left, false, now);
            }
        }
        let ghost rv = self@.records;
        let mut others: Vec<Peer> = Vec::new();
        let n = self.records.len();
        let mut i: usize = 0;
        while i < n
            invariant
                0 <= i <= n,
                n == self.records@.len(),
                rv == self.records@.map_values(|r: PeerRecord| r@),
                peers_view(others@) == wire_all(remove_id(rv.take(i as int), ip, port)),
            decreases n - i,
        {
            proof {
                assert(rv.take(i + 1).drop_last() =~= rv.take(i as int));
                assert(rv.take(i + 1).last() == rv[i as int]);
            }
            let ghost pre = peers_view(others@);
            let r = &self.records[i];
            if !(r.ip == ip && r.port == port) {
                others.push(r.wire());
                proof {
                    assert(peers_view(others@) =~= pre.push(rec_wire(rv[i as int])));
                    assert(wire_all(remove_id(rv.take(i + 1), ip, port)) =~= wire_all(
                        remove_id(rv.take(i as int), ip, port),
                    ).push(rec_wire(rv[i as int])));
                }
            }
            i = i + 1;
        }
        proof {
            assert(rv.take(n as int) =~= rv);
            lemma_remove_id_excludes(rv, ip, port);
            assert forall|k: int|
                0 <= k < others@.len() implies !((#[trigger] others@[k]).ip == ip
                && others@[k].port == port) by {
                assert(others@[k]@ == peers_view(others@)[k]);
                assert(peers_view(others@)[k] == rec_wire(remove_id(rv, ip, port)[k]));
            }
        }
        others
    }

    /// Counts this swarm's seeders and leechers, in that order.
    pub fn counts(&self) -> (c: (usize, usize))
        ensures
            c.0 == count_complete(self@.records),
            c.1 == count_incomplete(self@.records),
    {
        let ghost rv = self@.records;
        let mut complete: usize = 0;
        let mut incomplete: usize = 0;
        let n = self.records.len();
        let mut i: usize = 0;
        while i < n
            invariant
                0 <= i <= n,
                n == self.records@.len(),
                rv == self.records@.map_values(|r: PeerRecord| r@),
                complete == count_complete(rv.take(i as int)),
                incomplete == count_incomplete(rv.take(i as int)),
                complete + incomplete == i,
            decreases n - i,
        {
            proof {
                assert(rv.take(i + 1).drop_last() =~= rv.take(i as int));
                assert(rv.take(i + 1).last() == rv[i as int]);
            }
            if self.records[i].left == 0 {
                complete = complete + 1;
            } else {
                incomplete = incomplete + 1;
            }
            i = i + 1;
        }
        proof {
            assert(rv.take(n as int) =~= rv);
        }
        (complete, incomplete)
    }

    /// Drops every record of this swarm that has gone stale at `now`.
    pub fn prune(&mut self, now: u64, ttl: u64)
        requires
            old(self).wf(),
        ensures
            final(self).wf(),
            final(self)@.info_hash == old(self)@.info_hash,
            final(self)@.records == prune_records(old(self)@.records, now, ttl),
    {
        let ghost rs0 = self@.records;
        let mut kept: Vec<PeerRecord> = Vec::new();
        let n = self.records.len();
        let mut i: usize = 0;
        while i < n
            invariant
                0 <= i <= n,
                n == self.records@.len(),
                rs0 == self.records@.map_values(|r: PeerRecord| r@),
                kept@.map_values(|r: PeerRecord| r@) == prune_records(rs0.take(i as int), now, ttl),
            decreases n - i,
        {
            proof {
                assert(rs0.take(i + 1).drop_last() =~= rs0.take(i as int));
                assert(rs0.take(i + 1).last() == rs0[i as int]);
            }
            let ghost pre = kept@.map_values(|r: PeerRecord| r@);
            let r = &self.records[i];
            let stale = now > ttl && r.last_announce < now - ttl;
            proof {
                assert(stale == !fresh_at(rs0[i as int], now, ttl));
            }
            if !stale {
                kept.push(r.duplicate());
                proof {
                    assert(kept@.map_values(|r: PeerRecord| r@) =~= pre.push(rs0[i as int]));
                }
            }
            i = i + 1;
        }
        proof {
            assert(rs0.take(n as int) =~= rs0);
        }
        self.records = kept;
        proof {
            lemma_prune_unique(rs0, now, ttl);
        }
    }
}

/// Some swarm of `v` has the info hash `h`.
pub open spec fn contains_swarm(v: Seq<SwarmV>, h: Seq<u8>) -> bool {
    exists|k: int| 0 <= k < v.len() && v[k].info_hash == h
}

/// The position of the swarm with info hash `h`; meaningful when that hash
/// occurs exactly once.
pub open spec fn swarm_index(v: Seq<SwarmV>, h: Seq<u8>) -> int {
    choose|k: int| 0 <= k < v.len() && v[k].info_hash == h
}

/// Well-formed registry value: info hashes are unique and every swarm is
/// free of duplicate identities.
pub open spec fn wf_v(v: Seq<SwarmV>) -> bool {
    &&& forall|i: int, j: int| 0 <= i < j < v.len() ==> v[i].info_hash != v[j].info_hash
    &&& forall|i: int| 0 <= i < v.len() ==> unique_ids(#[trigger] v[i].records)
}

/// When `h` occurs exactly once, at `j`, the chosen index is `j`.
pub proof fn lemma_swarm_index(v: Seq<SwarmV>, h: Seq<u8>, j: int)
    requires
        wf_v(v),
        0 <= j < v.len(),
        v[j].info_hash == h,
    ensures
        contains_swarm(v, h),
        swarm_index(v, h) == j,
{
    assert(contains_swarm(v, h));
    let k = swarm_index(v, h);
    if k != j {
        assert(v[k].info_hash == v[j].info_hash);
    }
}

/// The record sequence that one announce leaves in the addressed swarm: the
/// existing swarm's records upserted, a fresh single-record swarm for an
/// unseen info hash, and nothing for a stop aimed at an unseen info hash.
pub open spec fn upserted_records(
    v: Seq<SwarmV>,
    h: Seq<u8>,
    peer_id: Seq<u8>,
    ip: Ipv4Addr,
    port: u16,
    left: u64,
    stopped: bool,
    now: u64,
) -> Seq<RecV> {
    if contains_swarm(v, h) {
        upsert_records(v[swarm_index(v, h)].records, peer_id, ip, port, left, stopped, now)
    } else if !stopped {
        upsert_records(Seq::empty(), peer_id, ip, port, left, stopped, now)
    } else {
        Seq::empty()
    }
}

/// One announce applied to the whole registry. A swarm is created lazily on
/// the first non-stop announce for its info hash; a stop aimed at an unseen
/// info hash changes nothing.
pub open spec fn registry_upsert_spec(
    v: Seq<SwarmV>,
    h: Seq<u8>,
    peer_id: Seq<u8>,
    ip: Ipv4Addr,
    port: u16,
    left: u64,
    stopped: bool,
    now: u64,
) -> Seq<SwarmV> {
    let records = upserted_records(v, h, peer_id, ip, port, left, stopped, now);
    if contains_swarm(v, h) {
        v.update(swarm_index(v, h), SwarmV { info_hash: h, records })
    } else if !stopped {
        v.push(SwarmV { info_hash: h, records })
    } else {
        v
    }
}

/// All swarms, keyed by info hash. The process-wide registry state.
#[derive(Debug)]
pub struct PeerRegistry {
    pub swarms: Vec<Swarm>,
}

impl View for PeerRegistry {
    type V = Seq<SwarmV>;

    open spec fn view(&self) -> Seq<SwarmV> {
        self.swarms@.map_values(|s: Swarm| s@)
    }
}

impl PeerRegistry {
    /// Info hashes are unique and no swarm holds a duplicate identity.
    pub open spec fn wf(self) -> bool {
        wf_v(self@)
    }

    /// An empty registry.
    pub fn new() -> (r: PeerRegistry)
        ensures
            r.wf(),
            r@ == Seq::<SwarmV>::empty(),
    {
        let r = PeerRegistry { swarms: Vec::new() };
        proof {
            assert(r@ =~= Seq::<SwarmV>::empty());
        }
        r
    }

    /// Position of the swarm with the given info hash, if any.
    fn find_swarm(&self, info_hash: &Vec<u8>) -> (r: Option<usize>)
        ensures
            r is Some ==> 0 <= r->0 < self@.len() && self@[r->0 as int].info_hash == info_hash@,
            r is None ==> !contains_swarm(self@, info_hash@),
    {
        let n = self.swarms.len();
        let mut i: usize = 0;
        while i < n
            invariant
                0 <= i <= n,
                n == self.swarms@.len(),
                forall|j: int| #![auto] 0 <= j < i ==> self.swarms@[j]@.info_hash != info_hash@,
            decreases n - i,
        {
            if bytes_eq(&self.swarms[i].info_hash, info_hash) {
                return Some(i);
            }
            i = i + 1;
        }
        None
    }

    /// Applies one announce: a stop removes the identity from its swarm,
    /// anything else inserts or refreshes its record, creating the swarm
    /// lazily. Returns the snapshot of all other peers of that swarm, taken
    /// after the mutation, together with its seeder and leecher counts.
    pub fn upsert(
        &mut self,
        info_hash: &Vec<u8>,
        peer_id: &Vec<u8>,
        ip: Ipv4Addr,
        port: u16,
        left: u64,
        stopped: bool,
        now: u64,
    ) -> (r: (Vec<Peer>, usize, usize))
        requires
            old(self).wf(),
        ensures
            final(self).wf(),
            final(self)@ == registry_upsert_spec(
                old(self)@,
                info_hash@,
                peer_id@,
                ip,
                port,
                left,
                stopped,
                now,
            ),
            peers_view(r.0@) == wire_all(
                remove_id(
                    upserted_records(old(self)@, info_hash@, peer_id@, ip, port, left, stopped, now),
                    ip,
                    port,
                ),
            ),
            r.1 == count_complete(
                upserted_records(old(self)@, info_hash@, peer_id@, ip, port, left, stopped, now),
            ),
            r.2 == count_incomplete(
                upserted_records(old(self)@, info_hash@, peer_id@, ip, port, left, stopped, now),
            ),
            forall|k: int|
                0 <= k < r.0@.len() ==> !((#[trigger] r.0@[k]).ip == ip && r.0@[k].port == port),
    {
        let ghost v0 = self@;
        match self.find_swarm(info_hash) {
            Some(j) => {
                proof {
                    lemma_swarm_index(v0, info_hash@, j as int);
                }
                let mut sw = self.swarms.remove(j);
                let others = sw.upsert(peer_id, ip, port, left, stopped, now);
                let c = sw.counts();
                let ghost swv = sw@;
                self.swarms.insert(j, sw);
                proof {
                    assert(self@ =~= v0.update(j as int, swv));
                    assert(swv == SwarmV {
                        info_hash: info_hash@,
                        records: upserted_records(
                            v0,
                            info_hash@,
                            peer_id@,
                            ip,
                            port,
                            left,
                            stopped,
                            now,
                        ),
                    });
                    assert forall|i1: int, i2: int|
                        0 <= i1 < i2 < self@.len() implies self@[i1].info_hash
                        != self@[i2].info_hash by {
                        assert(v0[i1].info_hash != v0[i2].info_hash);
                    }
                }
                (others, c.0, c.1)
            },
            None => {
                if stopped {
                    let others: Vec<Peer> = Vec::new();
                    proof {
                        assert(upserted_records(
                            v0,
                            info_hash@,
                            peer_id@,
                            ip,
                            port,
                            left,
                            stopped,
                            now,
                        ) =~= Seq::<RecV>::empty());
                        assert(peers_view(others@) =~= wire_all(
                            remove_id(Seq::<RecV>::empty(), ip, port),
                        ));
                    }
                    (others, 0, 0)
                } else {
                    let mut sw = Swarm { info_hash: info_hash.clone(), records: Vec::new() };
                    proof {
                        assert(sw@.records =~= Seq::<RecV>::empty());
                    }
                    let others = sw.upsert(peer_id, ip, port, left, stopped, now);
                    let c = sw.counts();
                    let ghost swv = sw@;
                    self.swarms.push(sw);
                    proof {
                        assert(self@ =~= v0.push(swv));
                        assert(swv == SwarmV {
                            info_hash: info_hash@,
                            records: upserted_records(
                                v0,
                                info_hash@,
                                peer_id@,
                                ip,
                                port,
                                left,
                                stopped,
                                now,
                            ),
                        });
                        assert forall|i1: int, i2: int|
                            0 <= i1 < i2 < self@.len() implies self@[i1].info_hash
                            != self@[i2].info_hash by {
                            if i2 == v0.len() {
                                assert(self@[i1] == v0[i1]);
                                if v0[i1].info_hash == info_hash@ {
                                    assert(contains_swarm(v0, info_hash@));
                                }
                            } else {
                                assert(v0[i1].info_hash != v0[i2].info_hash);
                            }
                        }
                    }
                    (others, c.0, c.1)
                }
            },
        }
    }

    /// Drops every stale record from every swarm. Emptied swarms are kept;
    /// they revive on the next announce for their info hash.
    pub fn prune(&mut self, now: u64, ttl: u64)
        requires
            old(self).wf(),
        ensures
            final(self).wf(),
            final(self)@.len() == old(self)@.len(),
            forall|i: int|
                0 <= i < old(self)@.len() ==> (#[trigger] final(self)@[i]).info_hash
                    == old(self)@[i].info_hash && final(self)@[i].records == prune_records(
                    old(self)@[i].records,
                    now,
                    ttl,
                ),
    {
        let ghost v0 = self@;
        let n = self.swarms.len();
        let mut j: usize = 0;
        while j < n
            invariant
                0 <= j <= n,
                n == self.swarms@.len(),
                v0.len() == n,
                wf_v(v0),
                forall|k: int|
                    0 <= k < j ==> (#[trigger] self@[k]).info_hash == v0[k].info_hash
                        && self@[k].records == prune_records(v0[k].records, now, ttl)
                        && unique_ids(self@[k].records),
                forall|k: int| j <= k < n ==> self@[k] == v0[k],
            decreases n - j,
        {
            let ghost vstart = self@;
            let mut sw = self.swarms.remove(j);
            proof {
                assert(sw@ == v0[j as int]);
            }
            sw.prune(now, ttl);
            let ghost swv = sw@;
            self.swarms.insert(j, sw);
            proof {
                assert(self@ =~= vstart.update(j as int, swv));
            }
            j = j + 1;
        }
        proof {
            assert forall|i1: int, i2: int|
                0 <= i1 < i2 < self@.len() implies self@[i1].info_hash != self@[i2].info_hash by {
                assert(v0[i1].info_hash != v0[i2].info_hash);
            }
        }
    }

    /// Number of peers currently registered for `info_hash`; zero when the
    /// swarm does not exist.
    pub fn swarm_size(&self, info_hash: &Vec<u8>) -> (n: usize)
        requires
            self.wf(),
        ensures
            contains_swarm(self@, info_hash@) ==> n == self@[swarm_index(
                self@,
                info_hash@,
            )].records.len(),
            !contains_swarm(self@, info_hash@) ==> n == 0,
    {
        match self.find_swarm(info_hash) {
            Some(j) => {
                proof {
                    lemma_swarm_index(self@, info_hash@, j as int);
                }
                self.swarms[j].records.len()
            },
            None => 0,
        }
    }

    /// Whether the identity `(ip, port)` is currently registered in the
    /// swarm of `info_hash`.
    pub fn contains_peer(&self, info_hash: &Vec<u8>, ip: Ipv4Addr, port: u16) -> (b: bool)
        requires
            self.wf(),
        ensures
            b <==> (contains_swarm(self@, info_hash@) && contains_id(
                self@[swarm_index(self@, info_hash@)].records,
                ip,
                port,
            )),
    {
        match self.find_swarm(info_hash) {
            Some(j) => {
                proof {
                    lemma_swarm_index(self@, info_hash@, j as int);
                }
                let r = self.swarms[j].find_index(ip, port);
                r.is_some()
            },
            None => false,
        }
    }
}

} // verus!

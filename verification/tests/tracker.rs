use sunflower::addr::{parse_ipv4, Ipv4Addr};
use sunflower::ascii::parse_u64;
use sunflower::bencode::{compact_decode, compact_encode, encode_response};
use sunflower::peer::Peer;
use sunflower::response::AnnounceResponse;
use sunflower::service::{announce, validate, AppState, FailureReason, RawAnnounce};

fn empty_raw() -> RawAnnounce {
    RawAnnounce {
        info_hash: None,
        peer_id: None,
        port: None,
        downloaded: None,
        uploaded: None,
        left: None,
        compact: None,
        no_peer_id: None,
        event: None,
        ip: None,
        numwant: None,
        key: None,
        trackerid: None,
    }
}

fn basic_raw() -> RawAnnounce {
    let mut r = empty_raw();
    r.info_hash = Some(b"bobloblawlawblog".to_vec());
    r.peer_id = Some(b"somepeerid".to_vec());
    r.port = Some(b"9023".to_vec());
    r.downloaded = Some(b"0".to_vec());
    r.left = Some(b"1024".to_vec());
    r
}

#[test]
fn it_works() {
    assert_eq!(2 + 2, 4);
}

#[test]
fn test_announce() {
    let mut state = AppState::new(30);

    let resp = announce(&mut state, &basic_raw(), &b"88.88.88.88".to_vec(), 0);
    let body = encode_response(&resp);
    assert_eq!(body, b"d8:intervali30e5:peerslee".to_vec());

    let resp = announce(&mut state, &basic_raw(), &b"99.99.99.99".to_vec(), 1);
    let body = encode_response(&resp);
    assert_eq!(
        body,
        b"d8:intervali30e5:peersld2:ip11:88.88.88.887:peer id10:somepeerid4:porti9023eeee"
            .to_vec()
    );
}

#[test]
fn first_announce_sees_empty_swarm_then_first_peer() {
    let mut state = AppState::new(30);

    let resp = announce(&mut state, &basic_raw(), &b"88.88.88.88".to_vec(), 0);
    assert_eq!(resp.interval, Some(30));
    assert_eq!(resp.peers, Some(vec![]));
    assert!(resp.failure_reason.is_none());

    let mut second = basic_raw();
    second.peer_id = Some(b"otherpeer2".to_vec());
    let resp = announce(&mut state, &second, &b"99.99.99.99".to_vec(), 1);
    assert_eq!(resp.interval, Some(30));
    assert_eq!(
        resp.peers,
        Some(vec![Peer {
            peer_id: b"somepeerid".to_vec(),
            ip: Ipv4Addr { o0: 88, o1: 88, o2: 88, o3: 88 },
            port: 9023,
        }])
    );
}

#[test]
fn repeat_announce_does_not_duplicate() {
    let mut state = AppState::new(30);
    announce(&mut state, &basic_raw(), &b"88.88.88.88".to_vec(), 0);
    announce(&mut state, &basic_raw(), &b"99.99.99.99".to_vec(), 1);
    // A third announce from the first address repeats the same peer_id/port.
    announce(&mut state, &basic_raw(), &b"88.88.88.88".to_vec(), 2);

    let mut observer = basic_raw();
    observer.peer_id = Some(b"watcherpid".to_vec());
    let resp = announce(&mut state, &observer, &b"99.99.99.99:1234".to_vec(), 3);
    let peers = resp.peers.unwrap();
    assert_eq!(peers.len(), 1);
    assert_eq!(peers[0].ip, Ipv4Addr { o0: 88, o1: 88, o2: 88, o3: 88 });
    assert_eq!(state.registry.swarm_size(&b"bobloblawlawblog".to_vec()), 2);
}

#[test]
fn idempotent_refresh_keeps_swarm_size() {
    let mut state = AppState::new(30);
    announce(&mut state, &basic_raw(), &b"88.88.88.88".to_vec(), 0);
    let size_once = state.registry.swarm_size(&b"bobloblawlawblog".to_vec());
    announce(&mut state, &basic_raw(), &b"88.88.88.88".to_vec(), 0);
    let size_twice = state.registry.swarm_size(&b"bobloblawlawblog".to_vec());
    assert_eq!(size_once, 1);
    assert_eq!(size_twice, 1);
}

#[test]
fn stopped_removes_identity() {
    let mut state = AppState::new(30);
    announce(&mut state, &basic_raw(), &b"88.88.88.88".to_vec(), 0);
    let hash = b"bobloblawlawblog".to_vec();
    let ip = Ipv4Addr { o0: 88, o1: 88, o2: 88, o3: 88 };
    assert!(state.registry.contains_peer(&hash, ip, 9023));

    let mut stop = basic_raw();
    stop.event = Some(b"stopped".to_vec());
    let resp = announce(&mut state, &stop, &b"88.88.88.88".to_vec(), 1);
    assert!(resp.failure_reason.is_none());
    assert_eq!(resp.peers, Some(vec![]));
    assert!(!state.registry.contains_peer(&hash, ip, 9023));
    assert_eq!(state.registry.swarm_size(&hash), 0);
}

#[test]
fn stop_on_unseen_swarm_is_a_no_op() {
    let mut state = AppState::new(30);
    let mut stop = basic_raw();
    stop.event = Some(b"stopped".to_vec());
    let resp = announce(&mut state, &stop, &b"88.88.88.88".to_vec(), 0);
    assert!(resp.failure_reason.is_none());
    assert_eq!(resp.peers, Some(vec![]));
    assert_eq!(state.registry.swarm_size(&b"bobloblawlawblog".to_vec()), 0);
}

#[test]
fn compact_round_trip_matches_dictionary_form() {
    let peers = vec![
        Peer {
            peer_id: b"one".to_vec(),
            ip: Ipv4Addr { o0: 10, o1: 0, o2: 0, o3: 1 },
            port: 6881,
        },
        Peer {
            peer_id: b"two".to_vec(),
            ip: Ipv4Addr { o0: 192, o1: 168, o2: 1, o3: 200 },
            port: 51413,
        },
    ];
    let blob = compact_encode(&peers);
    assert_eq!(blob.len(), 12);
    assert_eq!(&blob[0..6], &[10, 0, 0, 1, 26, 225]);
    let pairs = compact_decode(&blob).unwrap();
    let expected: Vec<(Ipv4Addr, u16)> = peers.iter().map(|p| (p.ip, p.port)).collect();
    assert_eq!(pairs, expected);
}

#[test]
fn compact_decode_rejects_ragged_blob() {
    assert!(compact_decode(&vec![1, 2, 3, 4, 5]).is_none());
    assert_eq!(compact_decode(&vec![]), Some(vec![]));
}

#[test]
fn compact_announce_returns_packed_peers() {
    let mut state = AppState::new(30);
    announce(&mut state, &basic_raw(), &b"88.88.88.88".to_vec(), 0);
    let mut second = basic_raw();
    second.peer_id = Some(b"otherpeer2".to_vec());
    second.compact = Some(b"1".to_vec());
    let resp = announce(&mut state, &second, &b"99.99.99.99".to_vec(), 1);
    assert!(resp.peers.is_none());
    let blob = resp.peers_compact.unwrap();
    assert_eq!(blob, vec![88, 88, 88, 88, 35, 63]); // 9023 == 35 * 256 + 63
}

#[test]
fn malformed_request_yields_failure_reason_only() {
    let mut state = AppState::new(30);
    let mut raw = basic_raw();
    raw.left = None;
    let resp = announce(&mut state, &raw, &b"88.88.88.88".to_vec(), 0);
    assert_eq!(resp.failure_reason, Some(b"left is required".to_vec()));
    assert!(resp.interval.is_none());
    assert!(resp.peers.is_none());
    assert!(resp.peers_compact.is_none());
    assert!(resp.warning_message.is_none());
    let body = encode_response(&resp);
    assert_eq!(body, b"d14:failure reason16:left is requirede".to_vec());
    assert_eq!(state.registry.swarm_size(&b"bobloblawlawblog".to_vec()), 0);
}

#[test]
fn validation_reports_the_first_broken_field() {
    let mut raw = empty_raw();
    assert_eq!(validate(&raw), Err(FailureReason::MissingInfoHash));
    raw.info_hash = Some(vec![]);
    assert_eq!(validate(&raw), Err(FailureReason::MissingInfoHash));
    raw.info_hash = Some(b"x".to_vec());
    assert_eq!(validate(&raw), Err(FailureReason::MissingPeerId));
    raw.peer_id = Some(b"p".to_vec());
    assert_eq!(validate(&raw), Err(FailureReason::MissingPort));
    raw.port = Some(b"0".to_vec());
    assert_eq!(validate(&raw), Err(FailureReason::InvalidPort));
    raw.port = Some(b"70000".to_vec());
    assert_eq!(validate(&raw), Err(FailureReason::InvalidPort));
    raw.port = Some(b"abc".to_vec());
    assert_eq!(validate(&raw), Err(FailureReason::InvalidPort));
    raw.port = Some(b"6881".to_vec());
    assert_eq!(validate(&raw), Err(FailureReason::MissingDownloaded));
    raw.downloaded = Some(b"-1".to_vec());
    assert_eq!(validate(&raw), Err(FailureReason::InvalidDownloaded));
    raw.downloaded = Some(b"12".to_vec());
    assert_eq!(validate(&raw), Err(FailureReason::MissingLeft));
    raw.left = Some(b"99x".to_vec());
    assert_eq!(validate(&raw), Err(FailureReason::InvalidLeft));
    raw.left = Some(b"0".to_vec());
    raw.uploaded = Some(b"ten".to_vec());
    assert_eq!(validate(&raw), Err(FailureReason::InvalidUploaded));
    raw.uploaded = Some(b"10".to_vec());
    let params = validate(&raw).unwrap();
    assert_eq!(params.port, 6881);
    assert_eq!(params.downloaded, 12);
    assert_eq!(params.uploaded, 10);
    assert_eq!(params.left, 0);
    assert!(!params.compact);
}

#[test]
fn unresolvable_remote_is_a_malformed_request() {
    let mut state = AppState::new(30);
    let resp = announce(&mut state, &basic_raw(), &b"not an address".to_vec(), 0);
    assert_eq!(resp.failure_reason, Some(b"invalid ip".to_vec()));
    assert!(resp.interval.is_none());
    assert!(resp.peers.is_none());
}

#[test]
fn unknown_event_downgrades_with_warning() {
    let mut state = AppState::new(30);
    let mut raw = basic_raw();
    raw.event = Some(b"paused".to_vec());
    let resp = announce(&mut state, &raw, &b"88.88.88.88".to_vec(), 0);
    assert!(resp.failure_reason.is_none());
    assert_eq!(resp.warning_message, Some(b"unknown event".to_vec()));
    assert_eq!(resp.interval, Some(30));
    assert_eq!(state.registry.swarm_size(&b"bobloblawlawblog".to_vec()), 1);
}

#[test]
fn ip_override_beats_remote_address() {
    let mut state = AppState::new(30);
    let mut raw = basic_raw();
    raw.ip = Some(b"10.1.2.3".to_vec());
    announce(&mut state, &raw, &b"88.88.88.88".to_vec(), 0);
    let hash = b"bobloblawlawblog".to_vec();
    assert!(state.registry.contains_peer(&hash, Ipv4Addr { o0: 10, o1: 1, o2: 2, o3: 3 }, 9023));
    assert!(!state.registry.contains_peer(&hash, Ipv4Addr { o0: 88, o1: 88, o2: 88, o3: 88 }, 9023));
}

#[test]
fn unparsable_ip_override_falls_back_to_remote() {
    let mut state = AppState::new(30);
    let mut raw = basic_raw();
    raw.ip = Some(b"300.1.2.3".to_vec());
    announce(&mut state, &raw, &b"88.88.88.88:4567".to_vec(), 0);
    let hash = b"bobloblawlawblog".to_vec();
    assert!(state.registry.contains_peer(&hash, Ipv4Addr { o0: 88, o1: 88, o2: 88, o3: 88 }, 9023));
}

#[test]
fn numwant_truncates_the_peer_list() {
    let mut state = AppState::new(30);
    for i in 0..5u8 {
        let mut raw = basic_raw();
        raw.peer_id = Some(vec![b'p', b'e', b'e', b'r', b'0' + i, b'x']);
        let remote = format!("10.0.0.{}", i + 1).into_bytes();
        announce(&mut state, &raw, &remote, i as u64);
    }
    let mut raw = basic_raw();
    raw.peer_id = Some(b"watcherpid".to_vec());
    raw.numwant = Some(b"2".to_vec());
    let resp = announce(&mut state, &raw, &b"99.99.99.99".to_vec(), 9);
    assert_eq!(resp.peers.unwrap().len(), 2);

    // A non-numeric numwant is ignored, so the full list comes back.
    let mut raw = basic_raw();
    raw.peer_id = Some(b"watcherpid".to_vec());
    raw.numwant = Some(b"lots".to_vec());
    let resp = announce(&mut state, &raw, &b"99.99.99.99".to_vec(), 10);
    assert_eq!(resp.peers.unwrap().len(), 5);
}

#[test]
fn prune_drops_only_stale_records() {
    let mut state = AppState::new(30);
    announce(&mut state, &basic_raw(), &b"88.88.88.88".to_vec(), 0);
    let mut second = basic_raw();
    second.peer_id = Some(b"otherpeer2".to_vec());
    announce(&mut state, &second, &b"99.99.99.99".to_vec(), 100);

    state.registry.prune(200, 150);
    let hash = b"bobloblawlawblog".to_vec();
    assert_eq!(state.registry.swarm_size(&hash), 1);
    assert!(!state.registry.contains_peer(&hash, Ipv4Addr { o0: 88, o1: 88, o2: 88, o3: 88 }, 9023));
    assert!(state.registry.contains_peer(&hash, Ipv4Addr { o0: 99, o1: 99, o2: 99, o3: 99 }, 9023));
}

#[test]
fn seeder_becomes_complete_count() {
    let mut state = AppState::new(30);
    let mut seeder = basic_raw();
    seeder.left = Some(b"0".to_vec());
    announce(&mut state, &seeder, &b"88.88.88.88".to_vec(), 0);
    let (others, complete, incomplete) = state.registry.upsert(
        &b"bobloblawlawblog".to_vec(),
        &b"otherpeer2".to_vec(),
        Ipv4Addr { o0: 99, o1: 99, o2: 99, o3: 99 },
        9023,
        1024,
        false,
        1,
    );
    assert_eq!(others.len(), 1);
    assert_eq!(complete, 1);
    assert_eq!(incomplete, 1);
}

#[test]
fn parse_ipv4_accepts_dotted_quads_only() {
    assert_eq!(
        parse_ipv4(&b"88.88.88.88".to_vec()),
        Some(Ipv4Addr { o0: 88, o1: 88, o2: 88, o3: 88 })
    );
    assert_eq!(
        parse_ipv4(&b"0.0.0.0".to_vec()),
        Some(Ipv4Addr { o0: 0, o1: 0, o2: 0, o3: 0 })
    );
    assert_eq!(
        parse_ipv4(&b"255.255.255.255".to_vec()),
        Some(Ipv4Addr { o0: 255, o1: 255, o2: 255, o3: 255 })
    );
    assert_eq!(parse_ipv4(&b"256.1.1.1".to_vec()), None);
    assert_eq!(parse_ipv4(&b"1.2.3".to_vec()), None);
    assert_eq!(parse_ipv4(&b"1.2.3.4.5".to_vec()), None);
    assert_eq!(parse_ipv4(&b"1.2.3.".to_vec()), None);
    assert_eq!(parse_ipv4(&b"a.b.c.d".to_vec()), None);
    assert_eq!(parse_ipv4(&b"".to_vec()), None);
}

#[test]
fn ipv4_text_renders_dotted_decimal() {
    let a = Ipv4Addr { o0: 88, o1: 0, o2: 255, o3: 7 };
    assert_eq!(a.text(), b"88.0.255.7".to_vec());
}

#[test]
fn parse_u64_handles_bounds() {
    assert_eq!(parse_u64(&b"0".to_vec()), Some(0));
    assert_eq!(parse_u64(&b"007".to_vec()), Some(7));
    assert_eq!(parse_u64(&b"18446744073709551615".to_vec()), Some(u64::MAX));
    assert_eq!(parse_u64(&b"18446744073709551616".to_vec()), None);
    assert_eq!(parse_u64(&b"".to_vec()), None);
    assert_eq!(parse_u64(&b"1x".to_vec()), None);
}

#[test]
fn default_response_is_all_absent() {
    let r = AnnounceResponse::default();
    assert!(r.failure_reason.is_none());
    assert!(r.warning_message.is_none());
    assert!(r.interval.is_none());
    assert!(r.peers.is_none());
    assert!(r.peers_compact.is_none());
    assert_eq!(encode_response(&r), b"de".to_vec());
}

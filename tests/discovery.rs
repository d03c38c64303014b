use libp2p_zeroconf::{
    Error, FromWorker, IpAddr, MdnsEvent, MdnsPacket, Multiaddr, PeerId, PollStep, Protocol,
    ResponsePeer, ServiceHandle, ToWorker, Zeroconf,
};

fn peer(b: u8) -> PeerId {
    PeerId::new(vec![0x12, 0x20, b])
}

fn udp(host: u32, port: u16) -> Multiaddr {
    Multiaddr::new(vec![Protocol::Ip4(host), Protocol::Udp(port)])
}

fn listening() -> Vec<Multiaddr> {
    vec![udp(0, 5000)]
}

/// A state machine that has published its addresses and has a fetch
/// outstanding.
fn started(now: u64) -> Zeroconf {
    let mut z = Zeroconf::new();
    match z.poll(now, &peer(0), &listening(), None) {
        PollStep::SendToWorker(ToWorker::ReInit { peer_id, addrs }) => {
            assert!(peer_id.same(&peer(0)));
            assert_eq!(addrs.len(), 1);
            assert!(addrs[0].same(&udp(0, 5000)));
        }
        other => panic!("expected ReInit, got {:?}", other),
    }
    assert!(matches!(z.poll(now, &peer(0), &listening(), None), PollStep::StartFetch));
    z
}

fn response(peers: Vec<ResponsePeer>) -> MdnsPacket {
    MdnsPacket::Response {
        remote_ip: IpAddr::V4(0x01020304),
        remote_port: 55000,
        peers,
    }
}

#[test]
fn response_records_literal_and_translated_address() {
    let mut z = started(0);
    let q = peer(7);
    let packet = response(vec![
        ResponsePeer { id: peer(0), addrs: vec![udp(0, 5000)], ttl_secs: 120 },
        ResponsePeer { id: q.copy(), addrs: vec![udp(0, 4001)], ttl_secs: 120 },
    ]);
    match z.poll(1000, &peer(0), &listening(), Some(packet)) {
        PollStep::Event(MdnsEvent::Discovered(mut it)) => {
            assert_eq!(it.len(), 2);
            let (p1, a1) = it.next().unwrap();
            assert!(p1.same(&q));
            assert!(a1.same(&udp(0x01020304, 4001)));
            let (p2, a2) = it.next().unwrap();
            assert!(p2.same(&q));
            assert!(a2.same(&udp(0, 4001)));
            assert!(it.next().is_none());
        }
        other => panic!("expected Discovered, got {:?}", other),
    }
    assert!(z.has_node(&q));
    assert!(!z.has_node(&peer(0)));
    let addrs = z.addresses_of_peer(&q, 1000);
    assert_eq!(addrs.len(), 2);
    assert!(addrs[0].same(&udp(0x01020304, 4001)));
    assert!(addrs[1].same(&udp(0, 4001)));
    assert_eq!(z.discovered_nodes().len(), 2);
}

#[test]
fn response_naming_only_the_local_peer_yields_no_event() {
    let mut z = started(0);
    let packet = response(vec![ResponsePeer { id: peer(0), addrs: vec![udp(0, 5000)], ttl_secs: 60 }]);
    assert!(matches!(z.poll(0, &peer(0), &listening(), Some(packet)), PollStep::Continue));
    assert!(z.discovered_nodes().is_empty());
    assert!(matches!(z.poll(0, &peer(0), &listening(), None), PollStep::StartFetch));
}

#[test]
fn a_second_fetch_waits_for_the_first() {
    let mut z = started(0);
    assert!(matches!(z.poll(0, &peer(0), &listening(), None), PollStep::Pending));
    assert!(matches!(z.poll(0, &peer(0), &listening(), None), PollStep::Pending));
    let packet = MdnsPacket::ServiceDiscovery { query_id: 3 };
    assert!(matches!(
        z.poll(0, &peer(0), &listening(), Some(packet)),
        PollStep::RespondServiceDiscovery { query_id: 3, ttl_secs: 300 }
    ));
    assert!(matches!(z.poll(0, &peer(0), &listening(), None), PollStep::StartFetch));
}

#[test]
fn handle_moves_between_free_and_busy() {
    let mut h = ServiceHandle::Free;
    h.begin_fetch();
    assert_eq!(h, ServiceHandle::Busy);
    h.resolve();
    assert_eq!(h, ServiceHandle::Free);
}

#[test]
fn idle_polls_yield_no_event() {
    let mut z = started(0);
    assert!(matches!(z.poll(10, &peer(0), &listening(), None), PollStep::Pending));
    assert!(matches!(z.poll(20, &peer(0), &listening(), None), PollStep::Pending));
}

#[test]
fn query_is_answered_with_local_addresses() {
    let mut z = started(0);
    match z.poll(0, &peer(0), &listening(), Some(MdnsPacket::Query { query_id: 9 })) {
        PollStep::Respond(r) => {
            assert_eq!(r.query_id, 9);
            assert!(r.peer_id.same(&peer(0)));
            assert_eq!(r.addrs.len(), 1);
            assert!(r.addrs[0].same(&udp(0, 5000)));
            assert_eq!(r.ttl_secs, 300);
        }
        other => panic!("expected Respond, got {:?}", other),
    }
}

#[test]
fn records_expire_when_their_ttl_lapses() {
    let mut z = started(0);
    let packet = response(vec![ResponsePeer { id: peer(4), addrs: vec![udp(9, 4001)], ttl_secs: 2 }]);
    assert!(matches!(
        z.poll(1000, &peer(0), &listening(), Some(packet)),
        PollStep::Event(MdnsEvent::Discovered(_))
    ));
    assert!(matches!(z.poll(2999, &peer(0), &listening(), None), PollStep::StartFetch));
    match z.poll(3000, &peer(0), &listening(), None) {
        PollStep::Event(MdnsEvent::Expired(mut it)) => {
            assert_eq!(it.len(), 1);
            let (p, a) = it.next().unwrap();
            assert!(p.same(&peer(4)));
            assert!(a.same(&udp(9, 4001)));
        }
        other => panic!("expected Expired, got {:?}", other),
    }
    assert!(!z.has_node(&peer(4)));
    assert!(matches!(z.poll(3001, &peer(0), &listening(), None), PollStep::Pending));
}

#[test]
fn new_listening_addresses_reinitialize_the_service() {
    let mut z = started(0);
    let moved = vec![udp(0, 6000)];
    match z.poll(0, &peer(0), &moved, None) {
        PollStep::SendToWorker(ToWorker::ReInit { addrs, .. }) => {
            assert_eq!(addrs.len(), 1);
            assert!(addrs[0].same(&udp(0, 6000)));
        }
        other => panic!("expected ReInit, got {:?}", other),
    }
    assert!(matches!(z.poll(0, &peer(0), &moved, None), PollStep::StartFetch));
}

#[test]
fn nothing_is_sent_to_a_worker_that_quit() {
    let mut z = started(0);
    let err = z.on_worker_message(FromWorker::QuitWithError(Error::RegisterServiceFailed(
        "daemon not running".to_string(),
    )));
    assert!(matches!(err, Some(Error::RegisterServiceFailed(_))));
    assert!(z
        .on_worker_message(FromWorker::ServiceRegistered(Ok("node".to_string())))
        .is_none());
    assert!(matches!(z.poll(0, &peer(0), &vec![udp(0, 6000)], None), PollStep::Continue));
}

#[test]
fn packet_fetched_during_an_expiry_is_dispatched_next() {
    let mut z = started(0);
    let first = response(vec![ResponsePeer { id: peer(4), addrs: vec![udp(9, 4001)], ttl_secs: 1 }]);
    assert!(matches!(
        z.poll(1000, &peer(0), &listening(), Some(first)),
        PollStep::Event(MdnsEvent::Discovered(_))
    ));
    assert!(matches!(z.poll(1000, &peer(0), &listening(), None), PollStep::StartFetch));
    let second = response(vec![ResponsePeer { id: peer(5), addrs: vec![udp(8, 4002)], ttl_secs: 60 }]);
    match z.poll(2500, &peer(0), &listening(), Some(second)) {
        PollStep::Event(MdnsEvent::Expired(it)) => assert_eq!(it.len(), 1),
        other => panic!("expected Expired, got {:?}", other),
    }
    match z.poll(2500, &peer(0), &listening(), None) {
        PollStep::Event(MdnsEvent::Discovered(mut it)) => {
            assert_eq!(it.len(), 1);
            let (p, a) = it.next().unwrap();
            assert!(p.same(&peer(5)));
            assert!(a.same(&udp(8, 4002)));
        }
        other => panic!("expected Discovered, got {:?}", other),
    }
    assert!(z.has_node(&peer(5)));
    assert!(!z.has_node(&peer(4)));
    assert!(matches!(z.poll(2500, &peer(0), &listening(), None), PollStep::StartFetch));
    assert!(matches!(z.poll(2500, &peer(0), &listening(), None), PollStep::Pending));
}

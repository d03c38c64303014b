use libp2p_zeroconf::{DiscoveryRegistry, Multiaddr, PeerId, Protocol};

fn peer(b: u8) -> PeerId {
    PeerId::new(vec![0x12, 0x20, b])
}

fn udp(host: u32, port: u16) -> Multiaddr {
    Multiaddr::new(vec![Protocol::Ip4(host), Protocol::Udp(port)])
}

#[test]
fn upsert_keeps_the_latest_expiry() {
    let mut r = DiscoveryRegistry::new();
    let p = peer(1);
    let a = udp(0x0a000001, 4001);
    assert!(r.upsert(&p, &a, 0, 100));
    assert_eq!(r.next_expiry(), Some(100));
    assert!(!r.upsert(&p, &a, 10, 50));
    assert_eq!(r.next_expiry(), Some(100));
    assert!(!r.upsert(&p, &a, 50, 100));
    assert_eq!(r.next_expiry(), Some(150));
    assert_eq!(r.len(), 1);
}

#[test]
fn same_peer_under_two_addresses() {
    let mut r = DiscoveryRegistry::new();
    let p = peer(1);
    assert!(r.upsert(&p, &udp(1, 4001), 0, 10));
    assert!(r.upsert(&p, &udp(2, 4001), 0, 20));
    assert_eq!(r.len(), 2);
    assert_eq!(r.discovered_nodes().len(), 2);
    assert!(r.has_node(&p));
    assert!(!r.has_node(&peer(2)));
}

#[test]
fn expire_twice_returns_nothing_the_second_time() {
    let mut r = DiscoveryRegistry::new();
    r.upsert(&peer(1), &udp(1, 1), 0, 10);
    r.upsert(&peer(2), &udp(2, 2), 0, 30);
    let first = r.expire(20);
    assert_eq!(first.len(), 1);
    assert!(first[0].0.same(&peer(1)));
    assert!(first[0].1.same(&udp(1, 1)));
    assert!(r.expire(20).is_empty());
    assert_eq!(r.len(), 1);
}

#[test]
fn expire_takes_records_due_exactly_now() {
    let mut r = DiscoveryRegistry::new();
    r.upsert(&peer(1), &udp(1, 1), 0, 10);
    assert!(r.expire(9).is_empty());
    assert_eq!(r.expire(10).len(), 1);
    assert_eq!(r.next_expiry(), None);
}

#[test]
fn next_expiry_follows_the_earliest_record() {
    let mut r = DiscoveryRegistry::new();
    assert_eq!(r.next_expiry(), None);
    r.upsert(&peer(2), &udp(2, 2), 0, 200);
    r.upsert(&peer(3), &udp(3, 3), 0, 300);
    r.upsert(&peer(1), &udp(1, 1), 0, 100);
    assert_eq!(r.next_expiry(), Some(100));
    let gone = r.expire(100);
    assert_eq!(gone.len(), 1);
    assert!(gone[0].0.same(&peer(1)));
    assert_eq!(r.next_expiry(), Some(200));
}

#[test]
fn addresses_of_lists_only_valid_addresses_of_the_peer() {
    let mut r = DiscoveryRegistry::new();
    let p = peer(1);
    r.upsert(&p, &udp(1, 1), 0, 10);
    r.upsert(&p, &udp(2, 2), 0, 30);
    r.upsert(&peer(9), &udp(3, 3), 0, 30);
    let at5 = r.addresses_of(&p, 5);
    assert_eq!(at5.len(), 2);
    assert!(at5[0].same(&udp(1, 1)));
    assert!(at5[1].same(&udp(2, 2)));
    let at10 = r.addresses_of(&p, 10);
    assert_eq!(at10.len(), 1);
    assert!(at10[0].same(&udp(2, 2)));
    assert!(r.addresses_of(&peer(7), 0).is_empty());
}

#[test]
fn many_records_beyond_the_inline_room() {
    let mut r = DiscoveryRegistry::new();
    let p = peer(1);
    for i in 0..20u16 {
        assert!(r.upsert(&p, &udp(1, i), 0, 1000 - i as u64));
    }
    assert_eq!(r.len(), 20);
    assert_eq!(r.next_expiry(), Some(981));
    assert_eq!(r.expire(990).len(), 10);
    assert_eq!(r.len(), 10);
    assert_eq!(r.next_expiry(), Some(991));
    let nodes = r.discovered_nodes();
    assert!(nodes.iter().all(|n| n.same(&p)));
}

#[test]
fn translation_replaces_only_an_unspecified_host() {
    let observed = Multiaddr::new(vec![Protocol::Ip4(0x01020304), Protocol::Udp(55000)]);
    let t = udp(0, 4001).translate(&observed).unwrap();
    assert!(t.same(&udp(0x01020304, 4001)));
    assert!(udp(0x0a000001, 4001).translate(&observed).is_none());
    let v6 = Multiaddr::new(vec![Protocol::Ip6(0), Protocol::Tcp(1)]);
    let t6 = v6.translate(&observed).unwrap();
    assert!(t6.same(&Multiaddr::new(vec![Protocol::Ip4(0x01020304), Protocol::Tcp(1)])));
}

#[test]
fn peer_id_copy_and_compare() {
    let p = peer(5);
    assert!(p.copy().same(&p));
    assert!(!p.same(&peer(6)));
    assert!(!p.same(&PeerId::new(vec![0x12])));
}

use libp2p_zeroconf::worker::get_tcp_udp_port;
use libp2p_zeroconf::{
    Error, Multiaddr, PeerId, Port, Protocol, ToWorker, Worker, WorkerAction, WorkerEvent,
    WorkerPhase,
};

fn peer() -> PeerId {
    PeerId::new(vec![0x12, 0x20, 1])
}

fn tcp(host: u32, port: u16) -> Multiaddr {
    Multiaddr::new(vec![Protocol::Ip4(host), Protocol::Tcp(port)])
}

#[test]
fn port_of_an_address() {
    assert_eq!(get_tcp_udp_port(&tcp(1, 4001)), Some(Port::Tcp(4001)));
    let quic = Multiaddr::new(vec![Protocol::Ip4(1), Protocol::Udp(9), Protocol::Quic]);
    assert_eq!(get_tcp_udp_port(&quic), Some(Port::Udp(9)));
    assert_eq!(get_tcp_udp_port(&Multiaddr::new(vec![Protocol::Ip4(1)])), None);
    assert_eq!(Port::Udp(7).get_port(), 7);
}

#[test]
fn session_takes_the_shared_port() {
    let addrs = vec![Multiaddr::new(vec![Protocol::Ip4(1)]), tcp(1, 4001), tcp(2, 4001)];
    let w = Worker::new(&peer(), addrs);
    assert_eq!(w.port, 4001);
    assert_eq!(w.addrs.len(), 3);
    assert!(w.peer_id.same(&peer()));
    assert_eq!(Worker::service_type(), "_p2p._udp.local");
    assert_eq!(Worker::txt_key(), "dnsaddr");
}

#[test]
fn quit_after_reinit_ends_without_error() {
    let mut phase = WorkerPhase::AwaitingInit;
    let a = Worker::run(&mut phase, WorkerEvent::NothingReceived);
    assert!(matches!(a, WorkerAction::WaitForMessage));
    let reinit = ToWorker::ReInit { peer_id: peer(), addrs: vec![tcp(1, 4001)] };
    let a = Worker::run(&mut phase, WorkerEvent::Received(reinit));
    assert!(matches!(a, WorkerAction::StartSession));
    assert!(matches!(&phase, WorkerPhase::Serving(w) if w.port == 4001));
    let a = Worker::run(&mut phase, WorkerEvent::NothingReceived);
    assert!(matches!(a, WorkerAction::PollEventLoop));
    let a = Worker::run(&mut phase, WorkerEvent::Received(ToWorker::Quit));
    assert!(matches!(a, WorkerAction::Exit));
    assert!(matches!(phase, WorkerPhase::Stopped));
}

#[test]
fn reinit_rebuilds_the_session() {
    let mut phase = WorkerPhase::AwaitingInit;
    Worker::run(&mut phase, WorkerEvent::Received(ToWorker::ReInit { peer_id: peer(), addrs: vec![tcp(1, 4001)] }));
    let a = Worker::run(&mut phase, WorkerEvent::Received(ToWorker::ReInit { peer_id: peer(), addrs: vec![tcp(1, 5001)] }));
    assert!(matches!(a, WorkerAction::StartSession));
    assert!(matches!(&phase, WorkerPhase::Serving(w) if w.port == 5001));
}

#[test]
fn failure_is_reported_and_ends_the_loop() {
    let mut phase = WorkerPhase::AwaitingInit;
    Worker::run(&mut phase, WorkerEvent::Received(ToWorker::ReInit { peer_id: peer(), addrs: vec![tcp(1, 4001)] }));
    let a = Worker::run(&mut phase, WorkerEvent::Failed(Error::SetTxtRecordFailed("too long".to_string())));
    assert!(matches!(a, WorkerAction::ExitWithError(Error::SetTxtRecordFailed(_))));
    assert!(matches!(phase, WorkerPhase::Stopped));
    assert!(matches!(Worker::run(&mut phase, WorkerEvent::NothingReceived), WorkerAction::Exit));
}

#[test]
fn closed_channel_ends_the_loop() {
    let mut phase = WorkerPhase::AwaitingInit;
    assert!(matches!(Worker::run(&mut phase, WorkerEvent::Disconnected), WorkerAction::Exit));
    assert!(matches!(phase, WorkerPhase::Stopped));
}

#[test]
fn error_messages() {
    assert_eq!(
        Error::RegisterServiceFailed(String::new()).message(),
        "Registering the service on Avahi/Bonjour failed."
    );
    assert_eq!(
        Error::SetTxtRecordFailed(String::new()).message(),
        "Setting the txt record for the MDNS service failed."
    );
}

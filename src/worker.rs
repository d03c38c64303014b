//! The protocol between the polling side and the background worker that owns
//! the native multicast-DNS service, and the worker's decisions.
use crate::addr::{addrs_view, Multiaddr, PeerId, Protocol};
use crate::error::Error;
use vstd::prelude::*;

verus! {

/// A TCP or UDP port.
#[derive(Clone, Copy, Debug, PartialEq, Eq, Structural)]
pub enum Port {
    Tcp(u16),
    Udp(u16),
}

pub open spec fn port_number(p: Port) -> u16 {
    match p {
        Port::Tcp(n) => n,
        Port::Udp(n) => n,
    }
}

impl Port {
    pub fn get_port(&self) -> (r: u16)
        ensures
            r == port_number(*self),
    {
        match self {
            Port::Tcp(p) => *p,
            Port::Udp(p) => *p,
        }
    }
}

/// The first TCP or UDP component of an address, if any.
pub open spec fn first_port(a: Seq<Protocol>) -> Option<Port>
    decreases a.len(),
{
    if a.len() == 0 {
        None
    } else {
        match a[0] {
            Protocol::Tcp(n) => Some(Port::Tcp(n)),
            Protocol::Udp(n) => Some(Port::Udp(n)),
            _ => first_port(a.subrange(1, a.len() as int)),
        }
    }
}

/// The port of an address: its first TCP or UDP component.
pub fn get_tcp_udp_port(addr: &Multiaddr) -> (r: Option<Port>)
    ensures
        r == first_port(addr@),
{
    let ghost a = addr@;
    let n = addr.components.len();
    let mut i: usize = 0;
    assert(a.subrange(0, n as int) =~= a);
    while i < n
        invariant
            n == a.len(),
            a == addr@,
            i <= n,
            first_port(a) == first_port(a.subrange(i as int, n as int)),
        decreases n - i,
    {
        assert(a.subrange(i as int, n as int).subrange(1, n - i) =~= a.subrange(i + 1, n as int));
        match addr.components[i] {
            Protocol::Tcp(p) => {
                return Some(Port::Tcp(p));
            },
            Protocol::Udp(p) => {
                return Some(Port::Udp(p));
            },
            _ => {},
        }
        i = i + 1;
    }
    None
}

/// The port of the first address that has one.
pub open spec fn advertised_port(addrs: Seq<Seq<Protocol>>) -> Option<Port>
    decreases addrs.len(),
{
    if addrs.len() == 0 {
        None
    } else {
        match first_port(addrs[0]) {
            Some(p) => Some(p),
            None => advertised_port(addrs.subrange(1, addrs.len() as int)),
        }
    }
}

/// The addresses that a service can be advertised with: at least one has a
/// port, and every address that has one has the same.
pub open spec fn valid_config(addrs: Seq<Seq<Protocol>>) -> bool {
    &&& advertised_port(addrs) is Some
    &&& forall|i: int|
        0 <= i < addrs.len() && (#[trigger] first_port(addrs[i])) is Some ==> first_port(addrs[i])
            == advertised_port(addrs)
}

/// The configuration of one session of the native service: the local peer,
/// the port it is advertised on, and the addresses put in its text record.
#[derive(Debug)]
pub struct Worker {
    pub peer_id: PeerId,
    pub port: u16,
    pub addrs: Vec<Multiaddr>,
}

/// A session configuration as plain values: (peer, port, addresses).
pub type WorkerView = (Seq<u8>, u16, Seq<Seq<Protocol>>);

impl View for Worker {
    type V = WorkerView;

    open spec fn view(&self) -> WorkerView {
        (self.peer_id@, self.port, addrs_view(self.addrs@))
    }
}

/// The session that advertises `peer` at `addrs`.
pub open spec fn session_for(peer: Seq<u8>, addrs: Seq<Seq<Protocol>>) -> WorkerView {
    (peer, port_number(advertised_port(addrs).unwrap()), addrs)
}

/// Messages going to the worker.
#[derive(Debug)]
pub enum ToWorker {
    /// (Re-)initialize the service for this peer and these addresses.
    ReInit { peer_id: PeerId, addrs: Vec<Multiaddr> },
    /// Stop the worker.
    Quit,
}

/// Messages sent by the worker.
#[derive(Debug)]
pub enum FromWorker {
    /// The native registration finished: the registered service's name, or
    /// the native service's description of its failure.
    ServiceRegistered(Result<String, String>),
    /// The worker stopped because of this error.
    QuitWithError(Error),
}

/// Where the worker's run loop stands.
#[derive(Debug)]
pub enum WorkerPhase {
    /// No `ReInit` has arrived yet.
    AwaitingInit,
    /// A session with this configuration is registered and being driven.
    Serving(Worker),
    /// The loop has ended.
    Stopped,
}

pub enum PhaseView {
    AwaitingInit,
    Serving(WorkerView),
    Stopped,
}

impl View for WorkerPhase {
    type V = PhaseView;

    open spec fn view(&self) -> PhaseView {
        match self {
            WorkerPhase::AwaitingInit => PhaseView::AwaitingInit,
            WorkerPhase::Serving(w) => PhaseView::Serving(w@),
            WorkerPhase::Stopped => PhaseView::Stopped,
        }
    }
}

/// What happened since the worker's last turn.
#[derive(Debug)]
pub enum WorkerEvent {
    /// A control message arrived.
    Received(ToWorker),
    /// No control message is waiting.
    NothingReceived,
    /// The control channel is closed.
    Disconnected,
    /// Building or registering the session failed.
    Failed(Error),
}

/// What the worker does next.
#[derive(Debug)]
pub enum WorkerAction {
    /// Block until a control message arrives.
    WaitForMessage,
    /// Discard any current session, then build and register one with the
    /// configuration of the new phase.
    StartSession,
    /// Advance the native event loop by one bounded step.
    PollEventLoop,
    /// Leave the loop.
    Exit,
    /// Report the error to the polling side, then leave the loop.
    ExitWithError(Error),
}

/// Whether the worker may be handed `e` in phase `p`: the first message must
/// be `ReInit`, and every `ReInit` must carry addresses it can advertise.
pub open spec fn acceptable(p: PhaseView, e: WorkerEvent) -> bool {
    match e {
        WorkerEvent::Received(ToWorker::Quit) => !(p is AwaitingInit),
        WorkerEvent::Received(ToWorker::ReInit { addrs, .. }) => valid_config(addrs_view(addrs@)),
        _ => true,
    }
}

/// One turn of the worker's loop: the phase after `e` in phase `p`, and what
/// to do.
pub open spec fn worker_step(p: PhaseView, e: WorkerEvent) -> (PhaseView, WorkerAction) {
    match p {
        PhaseView::Stopped => (PhaseView::Stopped, WorkerAction::Exit),
        _ => match e {
            WorkerEvent::Received(ToWorker::ReInit { peer_id, addrs }) => (
                PhaseView::Serving(session_for(peer_id@, addrs_view(addrs@))),
                WorkerAction::StartSession,
            ),
            WorkerEvent::Received(ToWorker::Quit) => (PhaseView::Stopped, WorkerAction::Exit),
            WorkerEvent::Disconnected => (PhaseView::Stopped, WorkerAction::Exit),
            WorkerEvent::Failed(err) => (PhaseView::Stopped, WorkerAction::ExitWithError(err)),
            WorkerEvent::NothingReceived => match p {
                PhaseView::AwaitingInit => (PhaseView::AwaitingInit, WorkerAction::WaitForMessage),
                _ => (p, WorkerAction::PollEventLoop),
            },
        },
    }
}

impl Worker {
    /// The configuration that advertises `peer_id` at `addrs`. The service
    /// is always announced as UDP, on the port that the addresses share.
    pub fn new(peer_id: &PeerId, addrs: Vec<Multiaddr>) -> (r: Worker)
        requires
            valid_config(addrs_view(addrs@)),
        ensures
            r@ == session_for(peer_id@, addrs_view(addrs@)),
    {
        let ghost v = addrs_view(addrs@);
        let n = addrs.len();
        let mut i: usize = 0;
        assert(v.subrange(0, n as int) =~= v);
        while i < n
            invariant
                n == v.len(),
                v == addrs_view(addrs@),
                i <= n,
                advertised_port(v) == advertised_port(v.subrange(i as int, n as int)),
                advertised_port(v) is Some,
            decreases n - i,
        {
            assert(v.subrange(i as int, n as int).subrange(1, n - i) =~= v.subrange(i + 1, n as int));
            assert(v.subrange(i as int, n as int)[0] == addrs@[i as int]@);
            match get_tcp_udp_port(&addrs[i]) {
                Some(p) => {
                    let port = p.get_port();
                    return Worker { peer_id: peer_id.copy(), port, addrs };
                },
                None => {},
            }
            i = i + 1;
        }
        Worker { peer_id: peer_id.copy(), port: 0, addrs }
    }

    /// The service type announced: libp2p peers over UDP.
    pub fn service_type() -> (r: &'static str)
        ensures
            r@ == "_p2p._udp.local"@,
    {
        "_p2p._udp.local"
    }

    /// The text record key under which each address is published.
    pub fn txt_key() -> (r: &'static str)
        ensures
            r@ == "dnsaddr"@,
    {
        "dnsaddr"
    }

    /// One turn of the run loop: in phase `*phase`, after `event`, moves to
    /// the next phase and says what the loop does next.
    pub fn run(phase: &mut WorkerPhase, event: WorkerEvent) -> (r: WorkerAction)
        requires
            acceptable(old(phase)@, event),
        ensures
            (final(phase)@, r) == worker_step(old(phase)@, event),
    {
        if let WorkerPhase::Stopped = phase {
            return WorkerAction::Exit;
        }
        match event {
            WorkerEvent::Received(ToWorker::ReInit { peer_id, addrs }) => {
                *phase = WorkerPhase::Serving(Worker::new(&peer_id, addrs));
                WorkerAction::StartSession
            },
            WorkerEvent::Received(ToWorker::Quit) => {
                *phase = WorkerPhase::Stopped;
                WorkerAction::Exit
            },
            WorkerEvent::Disconnected => {
                *phase = WorkerPhase::Stopped;
                WorkerAction::Exit
            },
            WorkerEvent::Failed(err) => {
                *phase = WorkerPhase::Stopped;
                WorkerAction::ExitWithError(err)
            },
            WorkerEvent::NothingReceived => {
                if let WorkerPhase::AwaitingInit = phase {
                    WorkerAction::WaitForMessage
                } else {
                    WorkerAction::PollEventLoop
                }
            },
        }
    }
}

/// A worker that received `ReInit` and then `Quit` ends its loop without
/// reporting an error; `Quit` before any `ReInit` is not a message the worker
/// may be handed.
pub proof fn lemma_quit_after_reinit(peer_id: PeerId, addrs: Vec<Multiaddr>)
    requires
        valid_config(addrs_view(addrs@)),
    ensures
        ({
            let (p1, a1) = worker_step(
                PhaseView::AwaitingInit,
                WorkerEvent::Received(ToWorker::ReInit { peer_id, addrs }),
            );
            let (p2, a2) = worker_step(p1, WorkerEvent::Received(ToWorker::Quit));
            &&& acceptable(PhaseView::AwaitingInit, WorkerEvent::Received(ToWorker::ReInit { peer_id, addrs }))
            &&& acceptable(p1, WorkerEvent::Received(ToWorker::Quit))
            &&& a1 is StartSession
            &&& p2 is Stopped
            &&& a2 is Exit
        }),
        !acceptable(PhaseView::AwaitingInit, WorkerEvent::Received(ToWorker::Quit)),
{
}

/// In any phase after the first `ReInit`, `Quit` ends the loop without an
/// error report.
pub proof fn lemma_quit_ends_quietly(p: PhaseView)
    requires
        !(p is AwaitingInit),
    ensures
        acceptable(p, WorkerEvent::Received(ToWorker::Quit)),
        worker_step(p, WorkerEvent::Received(ToWorker::Quit)).0 is Stopped,
        worker_step(p, WorkerEvent::Received(ToWorker::Quit)).1 is Exit,
{
}

} // verus!

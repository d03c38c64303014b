//! The poll-driven discovery state machine.
use crate::addr::{addrs_view, copy_addrs, same_addrs, translation, Multiaddr, PeerId, Protocol};
use crate::error::Error;
use crate::handle::ServiceHandle;
use crate::registry::{
    lemma_kept_contains, lemma_min_expiry,
    expired_pairs, has_pair, kept, min_expiry, pairs_view, same_pair, upserted, DiscoveryRegistry,
    PairView, RecordView,
};
use crate::worker::{FromWorker, ToWorker};
use vstd::prelude::*;

verus! {

/// The time-to-live, in seconds, of the responses this node sends.
pub const RESPONSE_TTL_SECS: u32 = 300;

/// The longest time-to-live a response can declare, in milliseconds.
pub const MAX_TTL_MS: u64 = 4_294_967_295_000;

/// The source host of a received packet.
#[derive(Clone, Copy, Debug, PartialEq, Eq, Structural)]
pub enum IpAddr {
    V4(u32),
    V6(u128),
}

pub open spec fn host_component(ip: IpAddr) -> Protocol {
    match ip {
        IpAddr::V4(a) => Protocol::Ip4(a),
        IpAddr::V6(a) => Protocol::Ip6(a),
    }
}

/// The address a packet was observed from: its source host and UDP port.
pub open spec fn observed_addr(ip: IpAddr, port: u16) -> Seq<Protocol> {
    seq![host_component(ip), Protocol::Udp(port)]
}

/// One peer named in a response: its identity, its advertised addresses and
/// for how many seconds they may be trusted.
#[derive(Debug)]
pub struct ResponsePeer {
    pub id: PeerId,
    pub addrs: Vec<Multiaddr>,
    pub ttl_secs: u32,
}

/// A packet handed over by the service.
#[derive(Debug)]
pub enum MdnsPacket {
    /// Someone asks which peers are present.
    Query { query_id: u64 },
    /// Someone asks whether this service type is present at all.
    ServiceDiscovery { query_id: u64 },
    /// Peers announce themselves; the packet came from `remote_ip`:`remote_port`.
    Response { remote_ip: IpAddr, remote_port: u16, peers: Vec<ResponsePeer> },
}

/// The expiry of a record seen at `now` with a time-to-live of `ttl_secs`.
pub open spec fn expiry_at(now: u64, ttl_secs: u32) -> u64 {
    (now + ttl_secs * 1000) as u64
}

/// The records that one advertised address `a` of peer `id` refreshes: its
/// translation for the observer first, when it has one, then `a` itself.
pub open spec fn addr_touches(id: Seq<u8>, a: Seq<Protocol>, obs: Seq<Protocol>, e: u64) -> Seq<RecordView> {
    match translation(a, obs) {
        Some(t) => seq![(id, t, e), (id, a, e)],
        None => seq![(id, a, e)],
    }
}

/// The records that the advertised addresses of peer `id` refresh, in order.
pub open spec fn peer_touches(id: Seq<u8>, addrs: Seq<Seq<Protocol>>, obs: Seq<Protocol>, e: u64) -> Seq<RecordView>
    decreases addrs.len(),
{
    if addrs.len() == 0 {
        Seq::empty()
    } else {
        peer_touches(id, addrs.drop_last(), obs, e) + addr_touches(id, addrs.last(), obs, e)
    }
}

/// The records that a response refreshes, in order; the local peer is
/// skipped.
pub open spec fn response_touches(peers: Seq<ResponsePeer>, local: Seq<u8>, obs: Seq<Protocol>, now: u64) -> Seq<RecordView>
    decreases peers.len(),
{
    if peers.len() == 0 {
        Seq::empty()
    } else {
        let p = peers.last();
        let sub = response_touches(peers.drop_last(), local, obs, now);
        if p.id@ == local {
            sub
        } else {
            sub + peer_touches(p.id@, addrs_view(p.addrs@), obs, expiry_at(now, p.ttl_secs))
        }
    }
}

/// The records after each record of `t` was upserted, in order.
pub open spec fn apply_all(s: Seq<RecordView>, t: Seq<RecordView>) -> Seq<RecordView>
    decreases t.len(),
{
    if t.len() == 0 {
        s
    } else {
        let r = t.last();
        upserted(apply_all(s, t.drop_last()), r.0, r.1, r.2)
    }
}

/// The (peer, address) pairs of some records.
pub open spec fn touched_pairs(t: Seq<RecordView>) -> Seq<PairView> {
    Seq::new(t.len(), |i: int| (t[i].0, t[i].1))
}

/// Upserts one record and notes its pair among those touched.
fn touch(
    reg: &mut DiscoveryRegistry,
    out: &mut Vec<(PeerId, Multiaddr)>,
    peer: &PeerId,
    addr: Multiaddr,
    now: u64,
    ttl: u64,
    Ghost(s0): Ghost<Seq<RecordView>>,
    Ghost(done): Ghost<Seq<RecordView>>,
)
    requires
        old(reg).wf(),
        old(reg)@ == apply_all(s0, done),
        pairs_view(old(out)@) == touched_pairs(done),
        now + ttl <= u64::MAX,
    ensures
        final(reg).wf(),
        final(reg)@ == apply_all(s0, done.push((peer@, addr@, (now + ttl) as u64))),
        pairs_view(final(out)@) == touched_pairs(done.push((peer@, addr@, (now + ttl) as u64))),
{
    let ghost x = (peer@, addr@, (now + ttl) as u64);
    reg.upsert(peer, &addr, now, ttl);
    let ghost before = out@;
    let pair = (peer.copy(), addr);
    assert((pair.0@, pair.1@) == (x.0, x.1));
    out.push(pair);
    proof {
        assert(done.push(x).drop_last() =~= done);
        assert(pairs_view(before).len() == before.len());
        assert(touched_pairs(done).len() == done.len());
        assert(before.len() == done.len());
        assert(out@.len() == touched_pairs(done.push(x)).len());
        assert forall|j: int| 0 <= j < out@.len() implies #[trigger] pairs_view(out@)[j] == touched_pairs(
            done.push(x),
        )[j] by {
            if j < before.len() {
                assert(out@[j] == before[j]);
                assert(pairs_view(before)[j] == touched_pairs(done)[j]);
            }
        }
        assert(pairs_view(out@) =~= touched_pairs(done.push(x)));
    }
}

/// Records what a response announces: every advertised address of every
/// peer but the local one, and its translation for the observer where it has
/// one, each valid for the peer's time-to-live from `now`. Returns the pairs
/// touched, new or refreshed, in order.
fn record_response(
    reg: &mut DiscoveryRegistry,
    now: u64,
    local: &PeerId,
    remote_ip: IpAddr,
    remote_port: u16,
    peers: &Vec<ResponsePeer>,
) -> (r: Vec<(PeerId, Multiaddr)>)
    requires
        old(reg).wf(),
        now + MAX_TTL_MS <= u64::MAX,
    ensures
        final(reg).wf(),
        final(reg)@ == apply_all(
            old(reg)@,
            response_touches(peers@, local@, observed_addr(remote_ip, remote_port), now),
        ),
        pairs_view(r@) == touched_pairs(
            response_touches(peers@, local@, observed_addr(remote_ip, remote_port), now),
        ),
{
    let host = match remote_ip {
        IpAddr::V4(a) => Protocol::Ip4(a),
        IpAddr::V6(a) => Protocol::Ip6(a),
    };
    let observed = Multiaddr::new(vec![host, Protocol::Udp(remote_port)]);
    let ghost obs = observed_addr(remote_ip, remote_port);
    assert(observed@ =~= obs);
    let ghost s0 = reg@;
    let ghost mut done: Seq<RecordView> = Seq::empty();
    let mut out: Vec<(PeerId, Multiaddr)> = Vec::new();
    assert(pairs_view(out@) =~= touched_pairs(done));
    let mut i: usize = 0;
    while i < peers.len()
        invariant
            i <= peers.len(),
            reg.wf(),
            now + MAX_TTL_MS <= u64::MAX,
            observed@ == obs,
            reg@ == apply_all(s0, done),
            done == response_touches(peers@.subrange(0, i as int), local@, obs, now),
            pairs_view(out@) == touched_pairs(done),
        decreases peers.len() - i,
    {
        let p = &peers[i];
        assert(peers@.subrange(0, i + 1).drop_last() =~= peers@.subrange(0, i as int));
        assert(peers@.subrange(0, i + 1).last() == p);
        if !p.id.same(local) {
            let ttl: u64 = p.ttl_secs as u64 * 1000;
            let ghost e = expiry_at(now, p.ttl_secs);
            let ghost base = done;
            let mut j: usize = 0;
            assert(addrs_view(p.addrs@.subrange(0, 0)) =~= Seq::<Seq<Protocol>>::empty());
            assert(done =~= base + peer_touches(p.id@, addrs_view(p.addrs@.subrange(0, 0)), obs, e));
            while j < p.addrs.len()
                invariant
                    j <= p.addrs.len(),
                    p == peers@[i as int],
                    reg.wf(),
                    now + MAX_TTL_MS <= u64::MAX,
                    ttl == p.ttl_secs * 1000,
                    e == (now + ttl) as u64,
                    observed@ == obs,
                    reg@ == apply_all(s0, done),
                    done == base + peer_touches(p.id@, addrs_view(p.addrs@.subrange(0, j as int)), obs, e),
                    pairs_view(out@) == touched_pairs(done),
                decreases p.addrs.len() - j,
            {
                let a = &p.addrs[j];
                let ghost pre = addrs_view(p.addrs@.subrange(0, j as int));
                assert(addrs_view(p.addrs@.subrange(0, j + 1)).drop_last() =~= pre);
                assert(addrs_view(p.addrs@.subrange(0, j + 1)).last() == a@);
                match a.translate(&observed) {
                    Some(t) => {
                        let ghost tv = t@;
                        touch(reg, &mut out, &p.id, t, now, ttl, Ghost(s0), Ghost(done));
                        proof {
                            done = done.push((p.id@, tv, e));
                        }
                    },
                    None => {},
                }
                touch(reg, &mut out, &p.id, a.copy(), now, ttl, Ghost(s0), Ghost(done));
                proof {
                    done = done.push((p.id@, a@, e));
                    assert(done =~= base + peer_touches(p.id@, addrs_view(p.addrs@.subrange(0, j + 1)), obs, e));
                }
                j = j + 1;
            }
            assert(p.addrs@.subrange(0, p.addrs.len() as int) =~= p.addrs@);
        }
        i = i + 1;
    }
    assert(peers@.subrange(0, peers.len() as int) =~= peers@);
    out
}

/// The pairs of a discovery event.
#[derive(Debug)]
pub struct DiscoveredAddrsIter {
    inner: Vec<(PeerId, Multiaddr)>,
}

/// The pairs of an expiry event.
#[derive(Debug)]
pub struct ExpiredAddrsIter {
    inner: Vec<(PeerId, Multiaddr)>,
}

impl View for DiscoveredAddrsIter {
    type V = Seq<PairView>;

    closed spec fn view(&self) -> Seq<PairView> {
        pairs_view(self.inner@)
    }
}

impl View for ExpiredAddrsIter {
    type V = Seq<PairView>;

    closed spec fn view(&self) -> Seq<PairView> {
        pairs_view(self.inner@)
    }
}

impl DiscoveredAddrsIter {
    /// The number of pairs left.
    pub fn len(&self) -> (r: usize)
        ensures
            r == self@.len(),
    {
        self.inner.len()
    }

    /// Takes out the first pair left, if any.
    pub fn next(&mut self) -> (r: Option<(PeerId, Multiaddr)>)
        ensures
            old(self)@.len() == 0 ==> r is None && final(self)@ == old(self)@,
            old(self)@.len() > 0 ==> (r matches Some(x) && (x.0@, x.1@) == old(self)@[0] && final(self)@
                == old(self)@.subrange(1, old(self)@.len() as int)),
    {
        if self.inner.len() == 0 {
            return None;
        }
        let ghost before = self.inner@;
        let x = self.inner.remove(0);
        assert(pairs_view(self.inner@) =~= pairs_view(before).subrange(1, before.len() as int));
        Some(x)
    }
}

impl ExpiredAddrsIter {
    /// The number of pairs left.
    pub fn len(&self) -> (r: usize)
        ensures
            r == self@.len(),
    {
        self.inner.len()
    }

    /// Takes out the first pair left, if any.
    pub fn next(&mut self) -> (r: Option<(PeerId, Multiaddr)>)
        ensures
            old(self)@.len() == 0 ==> r is None && final(self)@ == old(self)@,
            old(self)@.len() > 0 ==> (r matches Some(x) && (x.0@, x.1@) == old(self)@[0] && final(self)@
                == old(self)@.subrange(1, old(self)@.len() as int)),
    {
        if self.inner.len() == 0 {
            return None;
        }
        let ghost before = self.inner@;
        let x = self.inner.remove(0);
        assert(pairs_view(self.inner@) =~= pairs_view(before).subrange(1, before.len() as int));
        Some(x)
    }
}

/// Event produced by the discovery state machine.
#[derive(Debug)]
pub enum MdnsEvent {
    /// These (peer, address) pairs were discovered or refreshed.
    Discovered(DiscoveredAddrsIter),
    /// These (peer, address) pairs expired and were removed.
    Expired(ExpiredAddrsIter),
}

/// A response to a query: the local peer and its listening addresses.
#[derive(Debug)]
pub struct QueryResponse {
    pub query_id: u64,
    pub peer_id: PeerId,
    pub addrs: Vec<Multiaddr>,
    pub ttl_secs: u32,
}

/// What one poll step asks of its caller.
#[derive(Debug)]
pub enum PollStep {
    /// Hand this event to the framework.
    Event(MdnsEvent),
    /// Send this message to the worker; any outstanding fetch belongs to the
    /// old session and is dropped. Poll again.
    SendToWorker(ToWorker),
    /// Begin fetching the next packet from the service, then poll again with
    /// the fetch's outcome.
    StartFetch,
    /// Have the service send this response to a query, then poll again.
    Respond(QueryResponse),
    /// Have the service send a service-discovery response, then poll again.
    RespondServiceDiscovery { query_id: u64, ttl_secs: u32 },
    /// Nothing to report yet: poll again.
    Continue,
    /// The outstanding fetch is not ready: wait until it can progress.
    Pending,
}

/// The discovery state machine as plain values.
pub struct ZView {
    pub records: Seq<RecordView>,
    pub service: Option<ServiceHandle>,
    pub published: Seq<Seq<Protocol>>,
    pub timer: Option<u64>,
    pub worker_alive: bool,
    /// A fetched packet not yet dispatched.
    pub held: Option<MdnsPacket>,
}

/// Whether the expiry timer has fired by `now`.
pub open spec fn expiry_due(z: ZView, now: u64) -> bool {
    match z.timer {
        Some(d) => d <= now,
        None => false,
    }
}

/// The state after an expiry check at `now`: expired records are gone and
/// the timer is set to the earliest remaining expiry.
pub open spec fn after_expiry(z: ZView, now: u64) -> ZView {
    ZView { records: kept(z.records, now), timer: min_expiry(kept(z.records, now)), ..z }
}

/// Whether the service must be (re)initialized for `listened`.
pub open spec fn needs_init(z: ZView, listened: Seq<Seq<Protocol>>) -> bool {
    z.service is None || z.published != listened
}

/// The state after dispatching packet `p` with the handle free.
pub open spec fn dispatch_next(z: ZView, now: u64, local: Seq<u8>, p: MdnsPacket) -> ZView {
    match p {
        MdnsPacket::Response { remote_ip, remote_port, peers } => {
            let t = response_touches(peers@, local, observed_addr(remote_ip, remote_port), now);
            let records = apply_all(z.records, t);
            ZView { records, timer: if t.len() > 0 { min_expiry(records) } else { z.timer }, ..z }
        },
        _ => z,
    }
}

/// Whether `r` is what dispatching packet `p` returns.
pub open spec fn dispatch_result(
    z: ZView,
    now: u64,
    local: Seq<u8>,
    listened: Seq<Seq<Protocol>>,
    p: MdnsPacket,
    r: PollStep,
) -> bool {
    match p {
        MdnsPacket::Query { query_id } => match r {
            PollStep::Respond(q) => q.query_id == query_id && q.peer_id@ == local && addrs_view(q.addrs@)
                == listened && q.ttl_secs == RESPONSE_TTL_SECS,
            _ => false,
        },
        MdnsPacket::ServiceDiscovery { query_id } => match r {
            PollStep::RespondServiceDiscovery { query_id: q, ttl_secs } => q == query_id && ttl_secs
                == RESPONSE_TTL_SECS,
            _ => false,
        },
        MdnsPacket::Response { remote_ip, remote_port, peers } => {
            let t = response_touches(peers@, local, observed_addr(remote_ip, remote_port), now);
            if t.len() > 0 {
                match r {
                    PollStep::Event(MdnsEvent::Discovered(it)) => it@ == touched_pairs(t),
                    _ => false,
                }
            } else {
                r is Continue
            }
        },
    }
}

/// Whether dispatching packet `p` yields an event.
pub open spec fn dispatch_emits(now: u64, local: Seq<u8>, p: MdnsPacket) -> bool {
    match p {
        MdnsPacket::Response { remote_ip, remote_port, peers } => response_touches(
            peers@,
            local,
            observed_addr(remote_ip, remote_port),
            now,
        ).len() > 0,
        _ => false,
    }
}

/// Whether the expiry check at `now` removes records and so yields `Expired`.
pub open spec fn expiry_emits(z: ZView, now: u64) -> bool {
    expiry_due(z, now) && expired_pairs(z.records, now).len() > 0
}

/// The state after the expiry check at `now`, whether it fired or not.
pub open spec fn checked(z: ZView, now: u64) -> ZView {
    if expiry_due(z, now) { after_expiry(z, now) } else { z }
}

/// The state after one poll step at `now`, with `fetched` the outcome of the
/// outstanding fetch (`None` while it is not ready).
///
/// A packet fetched in a step that yields `Expired` is held, with the handle
/// free, and dispatched by the next step before any new fetch.
pub open spec fn poll_next(
    z: ZView,
    now: u64,
    local: Seq<u8>,
    listened: Seq<Seq<Protocol>>,
    fetched: Option<MdnsPacket>,
) -> ZView {
    let z1 = checked(z, now);
    if expiry_emits(z, now) {
        match fetched {
            Some(p) => if z.service == Some(ServiceHandle::Busy) {
                ZView { service: Some(ServiceHandle::Free), held: Some(p), ..z1 }
            } else {
                z1
            },
            None => z1,
        }
    } else if needs_init(z1, listened) {
        ZView { service: Some(ServiceHandle::Free), published: listened, held: None, ..z1 }
    } else if z1.held is Some {
        dispatch_next(ZView { held: None, ..z1 }, now, local, z1.held.unwrap())
    } else if z1.service == Some(ServiceHandle::Free) {
        ZView { service: Some(ServiceHandle::Busy), ..z1 }
    } else {
        match fetched {
            None => z1,
            Some(p) => dispatch_next(ZView { service: Some(ServiceHandle::Free), ..z1 }, now, local, p),
        }
    }
}

/// Whether `r` is what one poll step returns; see `poll_next` for the state.
pub open spec fn poll_result(
    z: ZView,
    now: u64,
    local: Seq<u8>,
    listened: Seq<Seq<Protocol>>,
    fetched: Option<MdnsPacket>,
    r: PollStep,
) -> bool {
    let z1 = checked(z, now);
    if expiry_emits(z, now) {
        match r {
            PollStep::Event(MdnsEvent::Expired(it)) => it@ == expired_pairs(z.records, now),
            _ => false,
        }
    } else if needs_init(z1, listened) {
        if z1.worker_alive {
            match r {
                PollStep::SendToWorker(ToWorker::ReInit { peer_id, addrs }) => peer_id@ == local
                    && addrs_view(addrs@) == listened,
                _ => false,
            }
        } else {
            r is Continue
        }
    } else if z1.held is Some {
        dispatch_result(z1, now, local, listened, z1.held.unwrap(), r)
    } else if z1.service == Some(ServiceHandle::Free) {
        r is StartFetch
    } else {
        match fetched {
            None => r is Pending,
            Some(p) => dispatch_result(z1, now, local, listened, p, r),
        }
    }
}

/// Whether one poll step returns an event.
pub open spec fn poll_emits(
    z: ZView,
    now: u64,
    local: Seq<u8>,
    listened: Seq<Seq<Protocol>>,
    fetched: Option<MdnsPacket>,
) -> bool {
    let z1 = checked(z, now);
    if expiry_emits(z, now) {
        true
    } else if needs_init(z1, listened) {
        false
    } else if z1.held is Some {
        dispatch_emits(now, local, z1.held.unwrap())
    } else if z1.service == Some(ServiceHandle::Free) {
        false
    } else {
        match fetched {
            Some(p) => dispatch_emits(now, local, p),
            None => false,
        }
    }
}

/// Discovery of peers through the host's multicast-DNS service.
#[derive(Debug)]
pub struct Zeroconf {
    registry: DiscoveryRegistry,
    /// `None` until the service is first initialized.
    service: Option<ServiceHandle>,
    published_addresses: Vec<Multiaddr>,
    /// When the next expiry check is due.
    expiry_timer: Option<u64>,
    /// Cleared once the worker reports that it quit.
    worker_alive: bool,
    /// A fetched packet that a step yielding `Expired` left for the next.
    held: Option<MdnsPacket>,
}

impl View for Zeroconf {
    type V = ZView;

    closed spec fn view(&self) -> ZView {
        ZView {
            records: self.registry@,
            service: self.service,
            published: addrs_view(self.published_addresses@),
            timer: self.expiry_timer,
            worker_alive: self.worker_alive,
            held: self.held,
        }
    }
}

impl Zeroconf {
    pub closed spec fn wf(&self) -> bool {
        &&& self.registry.wf()
        &&& self.service != Some(ServiceHandle::Poisoned)
        &&& self.held is Some ==> self.service == Some(ServiceHandle::Free)
    }

    /// A state machine with nothing discovered and no service yet; the
    /// service is set up on the first poll.
    pub fn new() -> (r: Zeroconf)
        ensures
            r.wf(),
            r@.records == Seq::<RecordView>::empty(),
            r@.service is None,
            r@.published == Seq::<Seq<Protocol>>::empty(),
            r@.timer is None,
            r@.worker_alive,
            r@.held is None,
    {
        let published_addresses: Vec<Multiaddr> = Vec::new();
        assert(addrs_view(published_addresses@) =~= Seq::<Seq<Protocol>>::empty());
        Zeroconf {
            registry: DiscoveryRegistry::new(),
            service: None,
            published_addresses,
            expiry_timer: None,
            worker_alive: true,
            held: None,
        }
    }

    /// Whether `peer_id` is recorded under any address.
    pub fn has_node(&self, peer_id: &PeerId) -> (r: bool)
        ensures
            r == (exists|i: int| 0 <= i < self@.records.len() && (#[trigger] self@.records[i]).0 == peer_id@),
    {
        assert(self@.records == self.registry@);
        self.registry.has_node(peer_id)
    }

    /// The peer of each record, in order.
    pub fn discovered_nodes(&self) -> (r: Vec<PeerId>)
        ensures
            r@.len() == self@.records.len(),
            forall|i: int| 0 <= i < r@.len() ==> (#[trigger] r@[i])@ == self@.records[i].0,
    {
        self.registry.discovered_nodes()
    }

    /// The addresses of `peer_id` still valid at `now`.
    pub fn addresses_of_peer(&self, peer_id: &PeerId, now: u64) -> (r: Vec<Multiaddr>)
        ensures
            addrs_view(r@) == crate::registry::live_addresses(self@.records, peer_id@, now),
    {
        self.registry.addresses_of(peer_id, now)
    }

    /// Takes note of a message from the worker. Returns the error the worker
    /// quit with, if it did; from then on no message is sent to it.
    pub fn on_worker_message(&mut self, msg: FromWorker) -> (r: Option<Error>)
        requires
            old(self).wf(),
        ensures
            final(self).wf(),
            msg is QuitWithError ==> r is Some && final(self)@ == (ZView { worker_alive: false, ..old(self)@ }),
            msg is ServiceRegistered ==> r is None && final(self)@ == old(self)@,
    {
        match msg {
            FromWorker::QuitWithError(e) => {
                self.worker_alive = false;
                Some(e)
            },
            FromWorker::ServiceRegistered(_) => None,
        }
    }

    /// Answers or records packet `p`; the handle is free.
    fn dispatch(&mut self, now: u64, local: &PeerId, listened: &Vec<Multiaddr>, p: MdnsPacket) -> (r: PollStep)
        requires
            old(self).wf(),
            old(self).held is None,
            now + MAX_TTL_MS <= u64::MAX,
        ensures
            final(self).wf(),
            final(self)@ == dispatch_next(old(self)@, now, local@, p),
            dispatch_result(old(self)@, now, local@, addrs_view(listened@), p, r),
            (r is Event) == dispatch_emits(now, local@, p),
    {
        match p {
            MdnsPacket::Query { query_id } => PollStep::Respond(
                QueryResponse {
                    query_id,
                    peer_id: local.copy(),
                    addrs: copy_addrs(listened),
                    ttl_secs: RESPONSE_TTL_SECS,
                },
            ),
            MdnsPacket::ServiceDiscovery { query_id } => PollStep::RespondServiceDiscovery {
                query_id,
                ttl_secs: RESPONSE_TTL_SECS,
            },
            MdnsPacket::Response { remote_ip, remote_port, peers } => {
                let found = record_response(&mut self.registry, now, local, remote_ip, remote_port, &peers);
                proof {
                    let t = response_touches(peers@, local@, observed_addr(remote_ip, remote_port), now);
                    assert(pairs_view(found@).len() == found@.len());
                    assert(touched_pairs(t).len() == t.len());
                }
                if found.len() > 0 {
                    self.expiry_timer = self.registry.next_expiry();
                    PollStep::Event(MdnsEvent::Discovered(DiscoveredAddrsIter { inner: found }))
                } else {
                    PollStep::Continue
                }
            },
        }
    }

    /// One step of the state machine at time `now`, for the local peer
    /// `local` listening on `listened`; `fetched` is the outcome of the
    /// outstanding packet fetch (`None` while it is not ready, or when none
    /// was started).
    ///
    /// In order: a due expiry check that removes records yields `Expired`
    /// (a packet fetched meanwhile is held for the next step); a service that
    /// is missing or published other addresses is set up again; a held packet
    /// is dispatched; a free handle starts a fetch; a fetched packet is
    /// answered or recorded, and a response that touched records yields
    /// `Discovered`.
    pub fn poll(
        &mut self,
        now: u64,
        local: &PeerId,
        listened: &Vec<Multiaddr>,
        fetched: Option<MdnsPacket>,
    ) -> (r: PollStep)
        requires
            old(self).wf(),
            now + MAX_TTL_MS <= u64::MAX,
        ensures
            final(self).wf(),
            final(self)@ == poll_next(old(self)@, now, local@, addrs_view(listened@), fetched),
            poll_result(old(self)@, now, local@, addrs_view(listened@), fetched, r),
            (r is Event) == poll_emits(old(self)@, now, local@, addrs_view(listened@), fetched),
    {
        let due = match self.expiry_timer {
            Some(d) => d <= now,
            None => false,
        };
        if due {
            let expired = self.registry.expire(now);
            self.expiry_timer = self.registry.next_expiry();
            if expired.len() > 0 {
                match fetched {
                    Some(p) => {
                        if self.service == Some(ServiceHandle::Busy) {
                            self.service = Some(ServiceHandle::Free);
                            self.held = Some(p);
                        }
                    },
                    None => {},
                }
                return PollStep::Event(MdnsEvent::Expired(ExpiredAddrsIter { inner: expired }));
            }
        }
        let fresh = match self.service {
            None => true,
            Some(_) => !same_addrs(&self.published_addresses, listened),
        };
        if fresh {
            self.published_addresses = copy_addrs(listened);
            self.service = Some(ServiceHandle::Free);
            self.held = None;
            if self.worker_alive {
                return PollStep::SendToWorker(
                    ToWorker::ReInit { peer_id: local.copy(), addrs: copy_addrs(listened) },
                );
            } else {
                return PollStep::Continue;
            }
        }
        match self.held.take() {
            Some(p) => {
                return self.dispatch(now, local, listened, p);
            },
            None => {},
        }
        let mut handle = match self.service {
            Some(h) => h,
            None => ServiceHandle::Free,
        };
        if handle == ServiceHandle::Free {
            handle.begin_fetch();
            self.service = Some(handle);
            return PollStep::StartFetch;
        }
        match fetched {
            None => PollStep::Pending,
            Some(packet) => {
                handle.resolve();
                self.service = Some(handle);
                self.dispatch(now, local, listened, packet)
            },
        }
    }
}

/// With no packet arriving and no expiry due, polling twice yields no event
/// either time.
pub proof fn lemma_idle_polls(z: ZView, now1: u64, now2: u64, local: Seq<u8>, listened: Seq<Seq<Protocol>>)
    requires
        z.service != Some(ServiceHandle::Poisoned),
        z.held is None,
        !expiry_due(z, now1),
        !expiry_due(z, now2),
    ensures
        !poll_emits(z, now1, local, listened, None),
        !poll_emits(poll_next(z, now1, local, listened, None), now2, local, listened, None),
{
}

/// A packet fetched in a step that yields `Expired` is not lost: the handle
/// is free again, and the next step that neither expires records nor sets
/// the service up again dispatches that packet, before any new fetch.
pub proof fn lemma_fetched_packet_kept(
    z: ZView,
    now: u64,
    now2: u64,
    local: Seq<u8>,
    listened: Seq<Seq<Protocol>>,
    p: MdnsPacket,
    fetched2: Option<MdnsPacket>,
)
    requires
        z.service == Some(ServiceHandle::Busy),
        expiry_emits(z, now),
    ensures
        ({
            let z2 = poll_next(z, now, local, listened, Some(p));
            &&& z2.service == Some(ServiceHandle::Free)
            &&& z2.held == Some(p)
            &&& !expiry_emits(z2, now2) && !needs_init(checked(z2, now2), listened) ==> poll_next(
                z2,
                now2,
                local,
                listened,
                fetched2,
            ) == dispatch_next(ZView { held: None, ..checked(z2, now2) }, now2, local, p)
        }),
{
}

/// A step that yields an event leaves the expiry timer at the earliest
/// expiry of the records.
pub proof fn lemma_poll_rearms(
    z: ZView,
    now: u64,
    local: Seq<u8>,
    listened: Seq<Seq<Protocol>>,
    fetched: Option<MdnsPacket>,
)
    requires
        poll_emits(z, now, local, listened, fetched),
    ensures
        poll_next(z, now, local, listened, fetched).timer == min_expiry(
            poll_next(z, now, local, listened, fetched).records,
        ),
{
}

/// After a step that expired records at `now`, the expiry check is not due
/// again at `now`: a second expiry at the same instant finds nothing.
pub proof fn lemma_poll_drains(
    z: ZView,
    now: u64,
    local: Seq<u8>,
    listened: Seq<Seq<Protocol>>,
    fetched: Option<MdnsPacket>,
)
    requires
        expiry_emits(z, now),
    ensures
        !expiry_due(poll_next(z, now, local, listened, fetched), now),
        poll_next(z, now, local, listened, fetched).records == kept(z.records, now),
{
    let k = kept(z.records, now);
    lemma_kept_contains(z.records, now);
    lemma_min_expiry(k);
    match min_expiry(k) {
        Some(m) => {
            let j = choose|j: int| 0 <= j < k.len() && (#[trigger] k[j]).2 == m;
            assert(k[j].2 > now);
        },
        None => {},
    }
}

/// A step starts a fetch only when the handle is free: while a fetch is
/// outstanding, a step with no packet ready waits and the handle stays busy.
pub proof fn lemma_poll_single_fetch(
    z: ZView,
    now: u64,
    local: Seq<u8>,
    listened: Seq<Seq<Protocol>>,
    fetched: Option<MdnsPacket>,
    r: PollStep,
)
    requires
        poll_result(z, now, local, listened, fetched, r),
    ensures
        r is StartFetch ==> checked(z, now).service == Some(ServiceHandle::Free) && checked(z, now).held is None,
        z.service == Some(ServiceHandle::Busy) && z.held is None && fetched is None && !expiry_emits(z, now)
            && !needs_init(checked(z, now), listened) ==> r is Pending && poll_next(
            z,
            now,
            local,
            listened,
            fetched,
        ).service == Some(ServiceHandle::Busy),
{
}

/// A step that dispatches a fetched response records, for every peer other
/// than the local one, each advertised address and its translation for the
/// observer; the local peer gains no address.
pub proof fn lemma_poll_response(
    z: ZView,
    now: u64,
    local: Seq<u8>,
    listened: Seq<Seq<Protocol>>,
    ip: IpAddr,
    port: u16,
    peers: Vec<ResponsePeer>,
)
    requires
        z.service == Some(ServiceHandle::Busy),
        z.held is None,
        !expiry_emits(z, now),
        !needs_init(checked(z, now), listened),
    ensures
        ({
            let obs = observed_addr(ip, port);
            let before = checked(z, now).records;
            let res = poll_next(
                z,
                now,
                local,
                listened,
                Some(MdnsPacket::Response { remote_ip: ip, remote_port: port, peers }),
            ).records;
            &&& forall|k: int, j: int|
                0 <= k < peers@.len() && peers@[k].id@ != local && 0 <= j < peers@[k].addrs@.len()
                    ==> has_pair(res, peers@[k].id@, #[trigger] peers@[k].addrs@[j]@)
            &&& forall|k: int, j: int|
                0 <= k < peers@.len() && peers@[k].id@ != local && 0 <= j < peers@[k].addrs@.len()
                    && #[trigger] translation(peers@[k].addrs@[j]@, obs) is Some ==> has_pair(
                    res,
                    peers@[k].id@,
                    translation(peers@[k].addrs@[j]@, obs).unwrap(),
                )
            &&& forall|b: Seq<Protocol>| #[trigger] has_pair(res, local, b) ==> has_pair(before, local, b)
        }),
{
    lemma_response_records(checked(z, now).records, peers@, local, ip, port, now);
}

/// Whether `s` holds the pair (`p`, `a`) with an expiry of at least `e`.
pub open spec fn holds_until(s: Seq<RecordView>, p: Seq<u8>, a: Seq<Protocol>, e: u64) -> bool {
    exists|i: int| 0 <= i < s.len() && (#[trigger] s[i]).0 == p && s[i].1 == a && s[i].2 >= e
}

/// Upserting records never shortens an expiry, and leaves each upserted
/// pair valid at least until the expiry it was upserted with.
pub proof fn lemma_apply_never_shortens(s: Seq<RecordView>, t: Seq<RecordView>, p: Seq<u8>, a: Seq<Protocol>, e0: u64)
    ensures
        holds_until(s, p, a, e0) ==> holds_until(apply_all(s, t), p, a, e0),
        forall|j: int| 0 <= j < t.len() && (#[trigger] t[j]).0 == p && t[j].1 == a ==> holds_until(apply_all(s, t), p, a, t[j].2),
    decreases t.len(),
{
    if t.len() > 0 {
        let d = t.drop_last();
        let r = t.last();
        let v = apply_all(s, d);
        let u = upserted(v, r.0, r.1, r.2);
        assert(apply_all(s, t) == u);
        lemma_apply_never_shortens(s, d, p, a, e0);
        assert forall|e: u64| #[trigger] holds_until(v, p, a, e) implies holds_until(u, p, a, e) by {
            let i = choose|i: int| 0 <= i < v.len() && (#[trigger] v[i]).0 == p && v[i].1 == a && v[i].2 >= e;
            assert(u[i].0 == p && u[i].1 == a && u[i].2 >= e);
        }
        lemma_upserted_has(v, r.0, r.1, r.2, r.0, r.1);
        assert(holds_until(u, r.0, r.1, r.2)) by {
            let k = choose|k: int| 0 <= k < u.len() && same_pair(#[trigger] u[k], r.0, r.1);
            if has_pair(v, r.0, r.1) {
                assert(u[k].2 >= r.2);
            } else {
                assert(u[v.len() as int] == (r.0, r.1, r.2));
            }
        }
        assert forall|j: int| 0 <= j < t.len() && (#[trigger] t[j]).0 == p && t[j].1 == a implies holds_until(u, p, a, t[j].2) by {
            if j < d.len() {
                assert(d[j] == t[j]);
                lemma_apply_never_shortens(s, d, p, a, t[j].2);
            }
        }
    }
}

/// A step that dispatches a response never shortens the expiry of a pair,
/// and leaves each pair it touched valid at least until the touch's expiry
/// (`now` plus the peer's time-to-live); repeated over steps, a pair's
/// expiry is thus at least the latest `now + ttl` it was seen with.
pub proof fn lemma_poll_never_shortens(
    z: ZView,
    now: u64,
    local: Seq<u8>,
    listened: Seq<Seq<Protocol>>,
    ip: IpAddr,
    port: u16,
    peers: Vec<ResponsePeer>,
    p: Seq<u8>,
    a: Seq<Protocol>,
    e0: u64,
)
    requires
        z.service == Some(ServiceHandle::Busy),
        z.held is None,
        !expiry_emits(z, now),
        !needs_init(checked(z, now), listened),
    ensures
        ({
            let t = response_touches(peers@, local, observed_addr(ip, port), now);
            let res = poll_next(
                z,
                now,
                local,
                listened,
                Some(MdnsPacket::Response { remote_ip: ip, remote_port: port, peers }),
            ).records;
            &&& res == apply_all(checked(z, now).records, t)
            &&& holds_until(checked(z, now).records, p, a, e0) ==> holds_until(res, p, a, e0)
            &&& forall|j: int| 0 <= j < t.len() && (#[trigger] t[j]).0 == p && t[j].1 == a ==> holds_until(res, p, a, t[j].2)
        }),
{
    let t = response_touches(peers@, local, observed_addr(ip, port), now);
    lemma_apply_never_shortens(checked(z, now).records, t, p, a, e0);
}

/// Upserting a record never loses a pair, and holds the pair upserted.
proof fn lemma_upserted_has(s: Seq<RecordView>, p: Seq<u8>, a: Seq<Protocol>, e: u64, q: Seq<u8>, b: Seq<Protocol>)
    ensures
        has_pair(upserted(s, p, a, e), p, a),
        has_pair(s, q, b) ==> has_pair(upserted(s, p, a, e), q, b),
{
    let u = upserted(s, p, a, e);
    if has_pair(s, p, a) {
        let k = choose|k: int| 0 <= k < s.len() && same_pair(#[trigger] s[k], p, a);
        assert(same_pair(u[k], p, a));
        if has_pair(s, q, b) {
            let i = choose|i: int| 0 <= i < s.len() && same_pair(#[trigger] s[i], q, b);
            assert(same_pair(u[i], q, b));
        }
    } else {
        assert(same_pair(u[s.len() as int], p, a));
        if has_pair(s, q, b) {
            let i = choose|i: int| 0 <= i < s.len() && same_pair(#[trigger] s[i], q, b);
            assert(same_pair(u[i], q, b));
        }
    }
}

/// Every pair of `t` is held once the records of `t` are upserted.
proof fn lemma_apply_holds(s: Seq<RecordView>, t: Seq<RecordView>, i: int)
    requires
        0 <= i < t.len(),
    ensures
        has_pair(apply_all(s, t), t[i].0, t[i].1),
    decreases t.len(),
{
    let d = t.drop_last();
    let r = t.last();
    lemma_upserted_has(apply_all(s, d), r.0, r.1, r.2, t[i].0, t[i].1);
    if i < t.len() - 1 {
        lemma_apply_holds(s, d, i);
        assert(d[i] == t[i]);
    }
}

/// Upserting records of other peers never adds a pair of peer `q`.
proof fn lemma_apply_other(s: Seq<RecordView>, t: Seq<RecordView>, q: Seq<u8>, b: Seq<Protocol>)
    requires
        forall|i: int| 0 <= i < t.len() ==> (#[trigger] t[i]).0 != q,
        has_pair(apply_all(s, t), q, b),
    ensures
        has_pair(s, q, b),
    decreases t.len(),
{
    if t.len() > 0 {
        let d = t.drop_last();
        let r = t.last();
        let v = apply_all(s, d);
        let u = upserted(v, r.0, r.1, r.2);
        assert(r == t[t.len() - 1]);
        let i = choose|i: int| 0 <= i < u.len() && same_pair(#[trigger] u[i], q, b);
        if has_pair(v, r.0, r.1) {
            assert(same_pair(v[i], q, b));
        } else {
            if i < v.len() {
                assert(same_pair(v[i], q, b));
            }
        }
        assert forall|j: int| 0 <= j < d.len() implies (#[trigger] d[j]).0 != q by {
            assert(d[j] == t[j]);
        }
        lemma_apply_other(s, d, q, b);
    }
}

/// The records that a peer's addresses refresh are all for that peer, and
/// cover each address and its translation.
proof fn lemma_peer_touches(id: Seq<u8>, addrs: Seq<Seq<Protocol>>, obs: Seq<Protocol>, e: u64)
    ensures
        forall|i: int| 0 <= i < peer_touches(id, addrs, obs, e).len() ==> (#[trigger] peer_touches(id, addrs, obs, e)[i]).0 == id,
        forall|j: int| 0 <= j < addrs.len() ==> exists|i: int|
            0 <= i < peer_touches(id, addrs, obs, e).len() && #[trigger] peer_touches(id, addrs, obs, e)[i] == (
            id,
            #[trigger] addrs[j],
            e,
        ),
        forall|j: int| 0 <= j < addrs.len() && #[trigger] translation(addrs[j], obs) is Some ==> exists|i: int|
            0 <= i < peer_touches(id, addrs, obs, e).len() && #[trigger] peer_touches(id, addrs, obs, e)[i] == (
            id,
            translation(addrs[j], obs).unwrap(),
            e,
        ),
    decreases addrs.len(),
{
    if addrs.len() > 0 {
        let d = addrs.drop_last();
        lemma_peer_touches(id, d, obs, e);
        let pt = peer_touches(id, d, obs, e);
        let at = addr_touches(id, addrs.last(), obs, e);
        let all = peer_touches(id, addrs, obs, e);
        assert(all == pt + at);
        assert forall|j: int| 0 <= j < addrs.len() implies exists|i: int|
            0 <= i < all.len() && #[trigger] all[i] == (id, #[trigger] addrs[j], e) by {
            if j < addrs.len() - 1 {
                assert(d[j] == addrs[j]);
                let i = choose|i: int| 0 <= i < pt.len() && #[trigger] pt[i] == (id, d[j], e);
                assert(all[i] == pt[i]);
            } else {
                assert(all[all.len() - 1] == (id, addrs[j], e));
            }
        }
        assert forall|j: int| 0 <= j < addrs.len() && #[trigger] translation(addrs[j], obs) is Some implies exists|i: int|
            0 <= i < all.len() && #[trigger] all[i] == (id, translation(addrs[j], obs).unwrap(), e) by {
            if j < addrs.len() - 1 {
                assert(d[j] == addrs[j]);
                let i = choose|i: int|
                    0 <= i < pt.len() && #[trigger] pt[i] == (id, translation(d[j], obs).unwrap(), e);
                assert(all[i] == pt[i]);
            } else {
                assert(all[pt.len() as int] == (id, translation(addrs[j], obs).unwrap(), e));
            }
        }
    }
}

/// The records that a response refreshes: none is for the local peer, and
/// every other peer's addresses and their translations are among them.
proof fn lemma_response_touches(peers: Seq<ResponsePeer>, local: Seq<u8>, obs: Seq<Protocol>, now: u64)
    ensures
        forall|i: int| 0 <= i < response_touches(peers, local, obs, now).len() ==> (#[trigger] response_touches(peers, local, obs, now)[i]).0 != local,
        forall|k: int, j: int|
            0 <= k < peers.len() && peers[k].id@ != local && 0 <= j < peers[k].addrs@.len() ==> exists|i: int|
                0 <= i < response_touches(peers, local, obs, now).len() && #[trigger] response_touches(peers, local, obs, now)[i]
                    == (peers[k].id@, #[trigger] peers[k].addrs@[j]@, expiry_at(now, peers[k].ttl_secs)),
        forall|k: int, j: int|
            0 <= k < peers.len() && peers[k].id@ != local && 0 <= j < peers[k].addrs@.len() && #[trigger] translation(
                peers[k].addrs@[j]@,
                obs,
            ) is Some ==> exists|i: int|
                0 <= i < response_touches(peers, local, obs, now).len() && #[trigger] response_touches(peers, local, obs, now)[i]
                    == (
                    peers[k].id@,
                    translation(peers[k].addrs@[j]@, obs).unwrap(),
                    expiry_at(now, peers[k].ttl_secs),
                ),
    decreases peers.len(),
{
    if peers.len() > 0 {
        let d = peers.drop_last();
        let p = peers.last();
        lemma_response_touches(d, local, obs, now);
        let sub = response_touches(d, local, obs, now);
        let all = response_touches(peers, local, obs, now);
        let pv = addrs_view(p.addrs@);
        let e = expiry_at(now, p.ttl_secs);
        lemma_peer_touches(p.id@, pv, obs, e);
        let pt = peer_touches(p.id@, pv, obs, e);
        if p.id@ != local {
            assert(all == sub + pt);
        }
        assert forall|i: int| 0 <= i < all.len() implies (#[trigger] all[i]).0 != local by {
            if i >= sub.len() {
                assert(all[i] == pt[i - sub.len()]);
            } else {
                assert(all[i] == sub[i]);
            }
        }
        assert forall|k: int, j: int|
            0 <= k < peers.len() && peers[k].id@ != local && 0 <= j < peers[k].addrs@.len() implies exists|i: int|
                0 <= i < all.len() && #[trigger] all[i] == (
                peers[k].id@,
                #[trigger] peers[k].addrs@[j]@,
                expiry_at(now, peers[k].ttl_secs),
            ) by {
            if k < peers.len() - 1 {
                assert(d[k] == peers[k]);
                let i = choose|i: int|
                    0 <= i < sub.len() && #[trigger] sub[i] == (d[k].id@, d[k].addrs@[j]@, expiry_at(now, d[k].ttl_secs));
                assert(all[i] == sub[i]);
            } else {
                assert(pv[j] == p.addrs@[j]@);
                let i = choose|i: int| 0 <= i < pt.len() && #[trigger] pt[i] == (p.id@, pv[j], e);
                assert(all[sub.len() + i] == pt[i]);
            }
        }
        assert forall|k: int, j: int|
            0 <= k < peers.len() && peers[k].id@ != local && 0 <= j < peers[k].addrs@.len() && #[trigger] translation(
                peers[k].addrs@[j]@,
                obs,
            ) is Some implies exists|i: int|
                0 <= i < all.len() && #[trigger] all[i] == (
                peers[k].id@,
                translation(peers[k].addrs@[j]@, obs).unwrap(),
                expiry_at(now, peers[k].ttl_secs),
            ) by {
            if k < peers.len() - 1 {
                assert(d[k] == peers[k]);
                let i = choose|i: int|
                    0 <= i < sub.len() && #[trigger] sub[i] == (
                    d[k].id@,
                    translation(d[k].addrs@[j]@, obs).unwrap(),
                    expiry_at(now, d[k].ttl_secs),
                );
                assert(all[i] == sub[i]);
            } else {
                assert(pv[j] == p.addrs@[j]@);
                let i = choose|i: int|
                    0 <= i < pt.len() && #[trigger] pt[i] == (p.id@, translation(pv[j], obs).unwrap(), e);
                assert(all[sub.len() + i] == pt[i]);
            }
        }
    }
}

/// After a response observed from `ip`:`port` is recorded, every address
/// that a peer other than the local one advertised is held for it, and so is
/// the address translated for the observer (the observed host in place of
/// an unspecified one). The local peer gains no address.
pub proof fn lemma_response_records(
    s: Seq<RecordView>,
    peers: Seq<ResponsePeer>,
    local: Seq<u8>,
    ip: IpAddr,
    port: u16,
    now: u64,
)
    ensures
        ({
            let obs = observed_addr(ip, port);
            let res = apply_all(s, response_touches(peers, local, obs, now));
            &&& forall|k: int, j: int|
                0 <= k < peers.len() && peers[k].id@ != local && 0 <= j < peers[k].addrs@.len()
                    ==> has_pair(res, peers[k].id@, #[trigger] peers[k].addrs@[j]@)
            &&& forall|k: int, j: int|
                0 <= k < peers.len() && peers[k].id@ != local && 0 <= j < peers[k].addrs@.len()
                    && #[trigger] translation(peers[k].addrs@[j]@, obs) is Some ==> has_pair(
                    res,
                    peers[k].id@,
                    translation(peers[k].addrs@[j]@, obs).unwrap(),
                )
            &&& forall|b: Seq<Protocol>| #[trigger] has_pair(res, local, b) ==> has_pair(s, local, b)
        }),
{
    let obs = observed_addr(ip, port);
    let t = response_touches(peers, local, obs, now);
    let res = apply_all(s, t);
    lemma_response_touches(peers, local, obs, now);
    assert forall|k: int, j: int|
        0 <= k < peers.len() && peers[k].id@ != local && 0 <= j < peers[k].addrs@.len() implies has_pair(
        res,
        peers[k].id@,
        #[trigger] peers[k].addrs@[j]@,
    ) by {
        let i = choose|i: int|
            0 <= i < t.len() && #[trigger] t[i] == (peers[k].id@, peers[k].addrs@[j]@, expiry_at(now, peers[k].ttl_secs));
        lemma_apply_holds(s, t, i);
    }
    assert forall|k: int, j: int|
        0 <= k < peers.len() && peers[k].id@ != local && 0 <= j < peers[k].addrs@.len()
            && #[trigger] translation(peers[k].addrs@[j]@, obs) is Some implies has_pair(
        res,
        peers[k].id@,
        translation(peers[k].addrs@[j]@, obs).unwrap(),
    ) by {
        let i = choose|i: int|
            0 <= i < t.len() && #[trigger] t[i] == (
            peers[k].id@,
            translation(peers[k].addrs@[j]@, obs).unwrap(),
            expiry_at(now, peers[k].ttl_secs),
        );
        lemma_apply_holds(s, t, i);
    }
    assert forall|b: Seq<Protocol>| #[trigger] has_pair(res, local, b) implies has_pair(s, local, b) by {
        lemma_apply_other(s, t, local, b);
    }
}

} // verus!

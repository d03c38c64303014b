//! The registry of discovered (peer, address) pairs and when each expires.
use crate::addr::{addrs_view, Multiaddr, PeerId, Protocol};
use smallvec::SmallVec;
use vstd::prelude::*;

verus! {

/// A discovered peer under one of its addresses, valid until `expires`
/// (milliseconds on the caller's monotonic clock).
#[derive(Debug)]
pub struct PeerRecord {
    pub peer: PeerId,
    pub addr: Multiaddr,
    pub expires: u64,
}

/// A record as plain values: (peer, address, expiry).
pub type RecordView = (Seq<u8>, Seq<Protocol>, u64);

impl View for PeerRecord {
    type V = RecordView;

    open spec fn view(&self) -> RecordView {
        (self.peer@, self.addr@, self.expires)
    }
}

/// The records of a registry, in order, in a small vector with inline room
/// for eight; larger tables spill to the heap. Reached only through the
/// functions below.
#[verifier::external_body]
#[derive(Debug)]
pub struct RecordList {
    inner: SmallVec<[PeerRecord; 8]>,
}

/// The records that a small vector of records holds, in order.
pub uninterp spec fn records_of(v: RecordList) -> Seq<PeerRecord>;

/// Relies on `SmallVec::new`: a new vector holds nothing.
#[verifier::external_body]
fn records_new() -> (r: RecordList)
    ensures
        records_of(r) == Seq::<PeerRecord>::empty(),
{
    RecordList { inner: SmallVec::new() }
}

/// Relies on `SmallVec::len`: the number of items held.
#[verifier::external_body]
fn records_len(v: &RecordList) -> (r: usize)
    ensures
        r == records_of(*v).len(),
{
    v.inner.len()
}

/// Relies on `SmallVec`'s `Index<usize>`: the item at position `i`.
#[verifier::external_body]
fn records_get(v: &RecordList, i: usize) -> (r: &PeerRecord)
    requires
        i < records_of(*v).len(),
    ensures
        *r == records_of(*v)[i as int],
{
    &v.inner[i]
}

/// Relies on `SmallVec::push`: the item is appended at the end (growing the
/// storage as `Vec::push` does).
#[verifier::external_body]
fn records_push(v: &mut RecordList, x: PeerRecord)
    ensures
        records_of(*final(v)) == records_of(*old(v)).push(x),
{
    v.inner.push(x)
}

/// Relies on `SmallVec::remove`: takes out the item at position `i` and
/// shifts the later ones down; it panics when `i` is out of bounds.
#[verifier::external_body]
fn records_remove(v: &mut RecordList, i: usize) -> (r: PeerRecord)
    requires
        i < records_of(*old(v)).len(),
    ensures
        r == records_of(*old(v))[i as int],
        records_of(*final(v)) == records_of(*old(v)).remove(i as int),
{
    v.inner.remove(i)
}

/// Relies on `SmallVec`'s `IndexMut<usize>`: a place for the item at `i`.
#[verifier::external_body]
fn records_get_mut(v: &mut RecordList, i: usize) -> (r: &mut PeerRecord)
    requires
        i < records_of(*old(v)).len(),
    ensures
        *r == records_of(*old(v))[i as int],
        records_of(*final(v)) == records_of(*old(v)).update(i as int, *final(r)),
{
    &mut v.inner[i]
}

/// The plain values of a sequence of records.
pub open spec fn views_of(s: Seq<PeerRecord>) -> Seq<RecordView> {
    Seq::new(s.len(), |i: int| s[i]@)
}

/// A (peer, address) pair as plain values.
pub type PairView = (Seq<u8>, Seq<Protocol>);

/// The plain values of a list of (peer, address) pairs.
pub open spec fn pairs_view(s: Seq<(PeerId, Multiaddr)>) -> Seq<PairView> {
    Seq::new(s.len(), |i: int| (s[i].0@, s[i].1@))
}

pub open spec fn same_pair(r: RecordView, p: Seq<u8>, a: Seq<Protocol>) -> bool {
    r.0 == p && r.1 == a
}

/// Whether some record is for peer `p` under address `a`.
pub open spec fn has_pair(s: Seq<RecordView>, p: Seq<u8>, a: Seq<Protocol>) -> bool {
    exists|i: int| 0 <= i < s.len() && same_pair(#[trigger] s[i], p, a)
}

/// No (peer, address) pair occurs twice.
pub open spec fn unique_pairs(s: Seq<RecordView>) -> bool {
    forall|i: int, j: int|
        0 <= i < s.len() && 0 <= j < s.len() && i != j ==> !same_pair(#[trigger] s[i], s[j].0, #[trigger] s[j].1)
}

pub open spec fn later(a: u64, b: u64) -> u64 {
    if a >= b { a } else { b }
}

/// The records after peer `p` was seen at address `a` with expiry `e`: an
/// existing record for the pair keeps the later of its expiry and `e`;
/// otherwise a new record is appended.
pub open spec fn upserted(s: Seq<RecordView>, p: Seq<u8>, a: Seq<Protocol>, e: u64) -> Seq<RecordView> {
    if has_pair(s, p, a) {
        Seq::new(s.len(), |i: int| if same_pair(s[i], p, a) { (p, a, later(s[i].2, e)) } else { s[i] })
    } else {
        s.push((p, a, e))
    }
}

/// The earliest expiry among the records; `None` when there are none.
pub open spec fn min_expiry(s: Seq<RecordView>) -> Option<u64>
    decreases s.len(),
{
    if s.len() == 0 {
        None
    } else {
        let t = s.last().2;
        match min_expiry(s.drop_last()) {
            None => Some(t),
            Some(m) => Some(if m <= t { m } else { t }),
        }
    }
}

/// The records that remain valid at `now` (expiry after `now`), in order.
pub open spec fn kept(s: Seq<RecordView>, now: u64) -> Seq<RecordView>
    decreases s.len(),
{
    if s.len() == 0 {
        Seq::empty()
    } else {
        let r = s.last();
        let sub = kept(s.drop_last(), now);
        if r.2 > now { sub.push(r) } else { sub }
    }
}

/// The (peer, address) pairs of the records whose expiry is at or before
/// `now`, in order.
pub open spec fn expired_pairs(s: Seq<RecordView>, now: u64) -> Seq<PairView>
    decreases s.len(),
{
    if s.len() == 0 {
        Seq::empty()
    } else {
        let r = s.last();
        let sub = expired_pairs(s.drop_last(), now);
        if r.2 <= now { sub.push((r.0, r.1)) } else { sub }
    }
}

/// The addresses under which peer `p` is recorded and still valid at `now`.
pub open spec fn live_addresses(s: Seq<RecordView>, p: Seq<u8>, now: u64) -> Seq<Seq<Protocol>>
    decreases s.len(),
{
    if s.len() == 0 {
        Seq::empty()
    } else {
        let r = s.last();
        let sub = live_addresses(s.drop_last(), p, now);
        if r.0 == p && r.2 > now { sub.push(r.1) } else { sub }
    }
}

/// The table of discovered peers. Each (peer, address) pair occurs at most
/// once; a peer may occur under several addresses.
#[derive(Debug)]
pub struct DiscoveryRegistry {
    records: RecordList,
    next: Option<u64>,
}

impl View for DiscoveryRegistry {
    type V = Seq<RecordView>;

    closed spec fn view(&self) -> Seq<RecordView> {
        views_of(records_of(self.records))
    }
}

impl DiscoveryRegistry {
    pub closed spec fn wf(&self) -> bool {
        &&& unique_pairs(self@)
        &&& self.next == min_expiry(self@)
    }

    pub fn new() -> (r: DiscoveryRegistry)
        ensures
            r.wf(),
            r@ == Seq::<RecordView>::empty(),
    {
        let r = DiscoveryRegistry { records: records_new(), next: None };
        assert(r@ =~= Seq::<RecordView>::empty());
        r
    }

    pub fn len(&self) -> (r: usize)
        ensures
            r == self@.len(),
    {
        records_len(&self.records)
    }

    /// The earliest expiry among the records, or `None` when there are none.
    pub fn next_expiry(&self) -> (r: Option<u64>)
        requires
            self.wf(),
        ensures
            r == min_expiry(self@),
    {
        self.next
    }

    fn recompute_next(&mut self)
        requires
            unique_pairs(old(self)@),
        ensures
            final(self).wf(),
            final(self)@ == old(self)@,
    {
        let ghost v = self@;
        let n = records_len(&self.records);
        let mut m: Option<u64> = None;
        let mut i: usize = 0;
        while i < n
            invariant
                n == v.len(),
                v == self@,
                i <= n,
                m == min_expiry(v.subrange(0, i as int)),
            decreases n - i,
        {
            let t = records_get(&self.records, i).expires;
            assert(v.subrange(0, i + 1).drop_last() =~= v.subrange(0, i as int));
            m = match m {
                None => Some(t),
                Some(x) => Some(if x <= t { x } else { t }),
            };
            i = i + 1;
        }
        assert(v.subrange(0, n as int) =~= v);
        self.next = m;
    }

    fn find(&self, peer: &PeerId, addr: &Multiaddr) -> (r: Option<usize>)
        ensures
            match r {
                Some(i) => i < self@.len() && same_pair(self@[i as int], peer@, addr@),
                None => !has_pair(self@, peer@, addr@),
            },
    {
        let n = records_len(&self.records);
        let mut i: usize = 0;
        while i < n
            invariant
                n == self@.len(),
                i <= n,
                forall|j: int| 0 <= j < i ==> !same_pair(#[trigger] self@[j], peer@, addr@),
            decreases n - i,
        {
            let rec = records_get(&self.records, i);
            if rec.peer.same(peer) && rec.addr.same(addr) {
                return Some(i);
            }
            i = i + 1;
        }
        None
    }

    /// Records that `peer` was seen at `addr` at time `now` with time-to-live
    /// `ttl`. Returns whether the pair is new to the registry.
    pub fn upsert(&mut self, peer: &PeerId, addr: &Multiaddr, now: u64, ttl: u64) -> (r: bool)
        requires
            old(self).wf(),
            now + ttl <= u64::MAX,
        ensures
            final(self).wf(),
            final(self)@ == upserted(old(self)@, peer@, addr@, (now + ttl) as u64),
            r == !has_pair(old(self)@, peer@, addr@),
    {
        let e = now + ttl;
        let ghost v = self@;
        match self.find(peer, addr) {
            Some(i) => {
                let rec = records_get_mut(&mut self.records, i);
                if e > rec.expires {
                    rec.expires = e;
                }
                proof {
                    let u = upserted(v, peer@, addr@, e);
                    assert(has_pair(v, peer@, addr@));
                    assert forall|j: int| 0 <= j < v.len() implies #[trigger] self@[j] == u[j] by {
                        if j != i {
                            assert(!same_pair(v[j], peer@, addr@));
                        }
                    }
                    assert(self@ =~= u);
                    assert forall|j: int, k: int|
                        0 <= j < self@.len() && 0 <= k < self@.len() && j != k implies !same_pair(
                        #[trigger] self@[j],
                        self@[k].0,
                        #[trigger] self@[k].1,
                    ) by {
                        assert(!same_pair(v[j], v[k].0, v[k].1));
                    }
                }
                self.recompute_next();
                false
            },
            None => {
                let rec = PeerRecord { peer: peer.copy(), addr: addr.copy(), expires: e };
                records_push(&mut self.records, rec);
                proof {
                    assert(self@ =~= v.push((peer@, addr@, e)));
                    assert forall|j: int, k: int|
                        0 <= j < self@.len() && 0 <= k < self@.len() && j != k implies !same_pair(
                        #[trigger] self@[j],
                        self@[k].0,
                        #[trigger] self@[k].1,
                    ) by {
                        if j < v.len() && k < v.len() {
                            assert(!same_pair(v[j], v[k].0, v[k].1));
                        } else if j < v.len() {
                            assert(!same_pair(v[j], peer@, addr@));
                        } else {
                            assert(!same_pair(v[k], peer@, addr@));
                        }
                    }
                }
                self.recompute_next();
                true
            },
        }
    }

    /// Removes every record whose expiry is at or before `now`, and returns
    /// their (peer, address) pairs in registry order.
    pub fn expire(&mut self, now: u64) -> (r: Vec<(PeerId, Multiaddr)>)
        requires
            old(self).wf(),
        ensures
            final(self).wf(),
            final(self)@ == kept(old(self)@, now),
            pairs_view(r@) == expired_pairs(old(self)@, now),
    {
        let ghost v = self@;
        let ghost recs = records_of(self.records);
        let n = records_len(&self.records);
        let mut live = records_new();
        let mut gone: Vec<(PeerId, Multiaddr)> = Vec::new();
        let mut i: usize = 0;
        while i < n
            invariant
                n == v.len(),
                recs.len() == n,
                v == views_of(recs),
                i <= n,
                records_of(self.records) == recs.subrange(i as int, n as int),
                views_of(records_of(live)) == kept(v.subrange(0, i as int), now),
                pairs_view(gone@) == expired_pairs(v.subrange(0, i as int), now),
            decreases n - i,
        {
            let rec = records_remove(&mut self.records, 0);
            assert(records_of(self.records) =~= recs.subrange(i + 1, n as int));
            assert(v.subrange(0, i + 1).drop_last() =~= v.subrange(0, i as int));
            assert(rec@ == v[i as int]);
            if rec.expires > now {
                let ghost before = records_of(live);
                records_push(&mut live, rec);
                assert(views_of(records_of(live)) =~= views_of(before).push(v[i as int]));
            } else {
                let ghost before = gone@;
                gone.push((rec.peer, rec.addr));
                assert(pairs_view(gone@) =~= pairs_view(before).push((v[i as int].0, v[i as int].1)));
            }
            i = i + 1;
        }
        assert(v.subrange(0, n as int) =~= v);
        self.records = live;
        proof {
            lemma_kept_unique(v, now);
        }
        self.recompute_next();
        gone
    }

    /// The addresses under which `peer` is recorded and still valid at `now`.
    pub fn addresses_of(&self, peer: &PeerId, now: u64) -> (r: Vec<Multiaddr>)
        ensures
            addrs_view(r@) == live_addresses(self@, peer@, now),
    {
        let n = records_len(&self.records);
        let mut out: Vec<Multiaddr> = Vec::new();
        let mut i: usize = 0;
        while i < n
            invariant
                n == self@.len(),
                i <= n,
                addrs_view(out@) == live_addresses(self@.subrange(0, i as int), peer@, now),
            decreases n - i,
        {
            let rec = records_get(&self.records, i);
            assert(self@.subrange(0, i + 1).drop_last() =~= self@.subrange(0, i as int));
            assert(rec@ == self@[i as int]);
            if rec.expires > now && rec.peer.same(peer) {
                let ghost before = out@;
                out.push(rec.addr.copy());
                assert(addrs_view(out@) =~= addrs_view(before).push(self@[i as int].1));
            }
            i = i + 1;
        }
        assert(self@.subrange(0, n as int) =~= self@);
        out
    }

    /// Whether `peer` is recorded under any address.
    pub fn has_node(&self, peer: &PeerId) -> (r: bool)
        ensures
            r == (exists|i: int| 0 <= i < self@.len() && (#[trigger] self@[i]).0 == peer@),
    {
        let n = records_len(&self.records);
        let mut i: usize = 0;
        while i < n
            invariant
                n == self@.len(),
                i <= n,
                forall|j: int| 0 <= j < i ==> (#[trigger] self@[j]).0 != peer@,
            decreases n - i,
        {
            if records_get(&self.records, i).peer.same(peer) {
                assert(self@[i as int].0 == peer@);
                return true;
            }
            i = i + 1;
        }
        false
    }

    /// The peer of each record, in registry order (a peer recorded under
    /// several addresses occurs once for each).
    pub fn discovered_nodes(&self) -> (r: Vec<PeerId>)
        ensures
            r@.len() == self@.len(),
            forall|i: int| 0 <= i < r@.len() ==> (#[trigger] r@[i])@ == self@[i].0,
    {
        let n = records_len(&self.records);
        let mut out: Vec<PeerId> = Vec::new();
        let mut i: usize = 0;
        while i < n
            invariant
                n == self@.len(),
                i <= n,
                out@.len() == i,
                forall|j: int| 0 <= j < i ==> (#[trigger] out@[j])@ == self@[j].0,
            decreases n - i,
        {
            out.push(records_get(&self.records, i).peer.copy());
            i = i + 1;
        }
        out
    }
}

/// The records kept at `now` keep their pairs distinct.
proof fn lemma_kept_unique(s: Seq<RecordView>, now: u64)
    requires
        unique_pairs(s),
    ensures
        unique_pairs(kept(s, now)),
    decreases s.len(),
{
    if s.len() > 0 {
        let d = s.drop_last();
        let l = s.last();
        assert(unique_pairs(d));
        lemma_kept_unique(d, now);
        lemma_kept_contains(d, now);
        let f = kept(d, now);
        if l.2 > now {
            let g = f.push(l);
            assert forall|j: int| 0 <= j < f.len() implies !same_pair(#[trigger] f[j], l.0, l.1) by {
                assert(d.contains(f[j]));
                let k = choose|k: int| 0 <= k < d.len() && d[k] == f[j];
                assert(s[k] == d[k]);
                assert(!same_pair(s[k], s[s.len() - 1].0, s[s.len() - 1].1));
            }
            assert forall|j: int, k: int|
                0 <= j < g.len() && 0 <= k < g.len() && j != k implies !same_pair(
                #[trigger] g[j],
                g[k].0,
                #[trigger] g[k].1,
            ) by {
                if j < f.len() && k < f.len() {
                    assert(!same_pair(f[j], f[k].0, f[k].1));
                } else if j < f.len() {
                    assert(!same_pair(f[j], l.0, l.1));
                } else {
                    assert(!same_pair(f[k], l.0, l.1));
                }
            }
        }
    }
}


/// The records after peer `p` was seen at address `a` once for each call
/// `(now, ttl)` of `calls`, in order.
pub open spec fn upsert_all(s: Seq<RecordView>, p: Seq<u8>, a: Seq<Protocol>, calls: Seq<(u64, u64)>) -> Seq<RecordView>
    decreases calls.len(),
{
    if calls.len() == 0 {
        s
    } else {
        let c = calls.last();
        upserted(upsert_all(s, p, a, calls.drop_last()), p, a, (c.0 + c.1) as u64)
    }
}

/// The latest `now + ttl` among the calls.
pub open spec fn latest_deadline(calls: Seq<(u64, u64)>) -> u64
    decreases calls.len(),
{
    if calls.len() == 0 {
        0
    } else {
        let c = calls.last();
        later(latest_deadline(calls.drop_last()), (c.0 + c.1) as u64)
    }
}

/// Seeing a pair again never breaks the uniqueness of pairs.
pub proof fn lemma_upserted_unique(s: Seq<RecordView>, p: Seq<u8>, a: Seq<Protocol>, e: u64)
    requires
        unique_pairs(s),
    ensures
        unique_pairs(upserted(s, p, a, e)),
        has_pair(upserted(s, p, a, e), p, a),
{
    let u = upserted(s, p, a, e);
    if has_pair(s, p, a) {
        let k = choose|k: int| 0 <= k < s.len() && same_pair(#[trigger] s[k], p, a);
        assert(same_pair(u[k], p, a));
        assert forall|j: int, k: int|
            0 <= j < u.len() && 0 <= k < u.len() && j != k implies !same_pair(
            #[trigger] u[j],
            u[k].0,
            #[trigger] u[k].1,
        ) by {
            assert(!same_pair(s[j], s[k].0, s[k].1));
        }
    } else {
        assert(same_pair(u[s.len() as int], p, a));
        assert forall|j: int, k: int|
            0 <= j < u.len() && 0 <= k < u.len() && j != k implies !same_pair(
            #[trigger] u[j],
            u[k].0,
            #[trigger] u[k].1,
        ) by {
            if j < s.len() && k < s.len() {
                assert(!same_pair(s[j], s[k].0, s[k].1));
            } else if j < s.len() {
                assert(!same_pair(s[j], p, a));
            } else {
                assert(!same_pair(s[k], p, a));
            }
        }
    }
}

/// However often a new pair is seen, it is held once, and its expiry is the
/// latest `now + ttl` of all the sightings: an expiry is never shortened.
pub proof fn lemma_upsert_keeps_latest(s: Seq<RecordView>, p: Seq<u8>, a: Seq<Protocol>, calls: Seq<(u64, u64)>)
    requires
        unique_pairs(s),
        !has_pair(s, p, a),
        calls.len() > 0,
        forall|i: int| 0 <= i < calls.len() ==> (#[trigger] calls[i]).0 + calls[i].1 <= u64::MAX,
    ensures
        unique_pairs(upsert_all(s, p, a, calls)),
        exists|i: int|
            0 <= i < upsert_all(s, p, a, calls).len() && #[trigger] upsert_all(s, p, a, calls)[i] == (
            p,
            a,
            latest_deadline(calls),
        ),
    decreases calls.len(),
{
    let d = calls.drop_last();
    let c = calls.last();
    let e = (c.0 + c.1) as u64;
    if d.len() == 0 {
        assert(upsert_all(s, p, a, d) == s);
        assert(latest_deadline(d) == 0);
        let u = upsert_all(s, p, a, calls);
        assert(u == s.push((p, a, e)));
        assert(u[s.len() as int] == (p, a, latest_deadline(calls)));
        lemma_upserted_unique(s, p, a, e);
    } else {
        assert forall|i: int| 0 <= i < d.len() implies (#[trigger] d[i]).0 + d[i].1 <= u64::MAX by {
            assert(d[i] == calls[i]);
        }
        lemma_upsert_keeps_latest(s, p, a, d);
        let v = upsert_all(s, p, a, d);
        let k = choose|k: int| 0 <= k < v.len() && #[trigger] v[k] == (p, a, latest_deadline(d));
        assert(same_pair(v[k], p, a));
        lemma_upserted_unique(v, p, a, e);
        let u = upsert_all(s, p, a, calls);
        assert(u == upserted(v, p, a, e));
        assert(u[k] == (p, a, latest_deadline(calls)));
    }
}

/// The records kept at `now` are exactly the records of `s` still valid at
/// `now`.
pub proof fn lemma_kept_contains(s: Seq<RecordView>, now: u64)
    ensures
        forall|i: int| 0 <= i < s.len() && s[i].2 > now ==> kept(s, now).contains(#[trigger] s[i]),
        forall|j: int| 0 <= j < kept(s, now).len() ==> (#[trigger] kept(s, now)[j]).2 > now,
        forall|j: int| 0 <= j < kept(s, now).len() ==> s.contains(#[trigger] kept(s, now)[j]),
    decreases s.len(),
{
    if s.len() > 0 {
        let d = s.drop_last();
        lemma_kept_contains(d, now);
        let f = kept(d, now);
        assert forall|j: int| 0 <= j < kept(s, now).len() implies s.contains(#[trigger] kept(s, now)[j]) by {
            if j < f.len() {
                assert(kept(s, now)[j] == f[j]);
                assert(d.contains(f[j]));
                let k = choose|k: int| 0 <= k < d.len() && d[k] == f[j];
                assert(s[k] == f[j]);
            } else {
                assert(s[s.len() - 1] == kept(s, now)[j]);
            }
        }
        assert forall|i: int| 0 <= i < s.len() && s[i].2 > now implies kept(s, now).contains(#[trigger] s[i]) by {
            if i < s.len() - 1 {
                assert(d[i] == s[i]);
                assert(f.contains(d[i]));
                let j = choose|j: int| 0 <= j < f.len() && f[j] == d[i];
                assert(kept(s, now)[j] == s[i]);
            } else {
                assert(kept(s, now)[f.len() as int] == s[i]);
            }
        }
    }
}

/// Expiring twice at the same instant: the second run finds nothing left to
/// expire and keeps every record.
pub proof fn lemma_expire_drains(s: Seq<RecordView>, now: u64)
    ensures
        expired_pairs(kept(s, now), now) == Seq::<PairView>::empty(),
        kept(kept(s, now), now) == kept(s, now),
    decreases s.len(),
{
    if s.len() > 0 {
        let d = s.drop_last();
        lemma_expire_drains(d, now);
        let f = kept(d, now);
        if s.last().2 > now {
            let g = f.push(s.last());
            assert(g.drop_last() =~= f);
        }
    }
}

/// The earliest expiry is an expiry of some record and no later than any.
pub proof fn lemma_min_expiry(s: Seq<RecordView>)
    ensures
        s.len() == 0 <==> min_expiry(s) is None,
        match min_expiry(s) {
            Some(m) => (forall|i: int| 0 <= i < s.len() ==> m <= (#[trigger] s[i]).2) && exists|i: int|
                0 <= i < s.len() && (#[trigger] s[i]).2 == m,
            None => true,
        },
    decreases s.len(),
{
    if s.len() > 0 {
        let d = s.drop_last();
        lemma_min_expiry(d);
        let m = min_expiry(s).unwrap();
        assert forall|i: int| 0 <= i < s.len() implies m <= (#[trigger] s[i]).2 by {
            if i < s.len() - 1 {
                assert(d[i] == s[i]);
            }
        }
        match min_expiry(d) {
            Some(x) => {
                if x <= s.last().2 {
                    let k = choose|k: int| 0 <= k < d.len() && (#[trigger] d[k]).2 == x;
                    assert(s[k] == d[k]);
                } else {
                    assert(s[s.len() - 1].2 == m);
                }
            },
            None => {
                assert(s[s.len() - 1].2 == m);
            },
        }
    }
}

/// With three records expiring at `t1 < t2 < t3`, the next expiry is `t1`,
/// and once the records due at `t1` are expired it is `t2`.
pub proof fn lemma_next_expiry_in_order(s: Seq<RecordView>, t1: u64, t2: u64, t3: u64)
    requires
        t1 < t2 < t3,
        s.len() == 3,
        forall|i: int| 0 <= i < 3 ==> #[trigger] s[i].2 == t1 || s[i].2 == t2 || s[i].2 == t3,
        exists|i: int| 0 <= i < 3 && #[trigger] s[i].2 == t1,
        exists|i: int| 0 <= i < 3 && #[trigger] s[i].2 == t2,
        exists|i: int| 0 <= i < 3 && #[trigger] s[i].2 == t3,
    ensures
        min_expiry(s) == Some(t1),
        min_expiry(kept(s, t1)) == Some(t2),
{
    lemma_min_expiry(s);
    let i2 = choose|i: int| 0 <= i < 3 && #[trigger] s[i].2 == t2;
    assert(min_expiry(s) == Some(t1));
    let k = kept(s, t1);
    lemma_kept_contains(s, t1);
    lemma_min_expiry(k);
    assert(k.contains(s[i2]));
    let j2 = choose|j: int| 0 <= j < k.len() && k[j] == s[i2];
    assert forall|j: int| 0 <= j < k.len() implies t2 <= (#[trigger] k[j]).2 by {
        assert(k[j].2 > t1);
        assert(s.contains(k[j]));
    }
    let m = min_expiry(k).unwrap();
    assert(m <= k[j2].2);
    let jm = choose|j: int| 0 <= j < k.len() && (#[trigger] k[j]).2 == m;
    assert(t2 <= k[jm].2);
}

} // verus!

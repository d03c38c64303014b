//! Peer identifiers and network addresses, held as plain values.
use vstd::prelude::*;

verus! {

/// One component of a network address.
#[derive(Clone, Copy, Debug, PartialEq, Eq, Structural)]
pub enum Protocol {
    /// An IPv4 host, as a big-endian integer.
    Ip4(u32),
    /// An IPv6 host, as a big-endian integer.
    Ip6(u128),
    Tcp(u16),
    Udp(u16),
    Quic,
    Ws,
    Wss,
}

/// The identity of a node: the bytes of its multihash.
#[derive(Debug)]
pub struct PeerId {
    pub bytes: Vec<u8>,
}

/// A dialable address: a stack of protocol components.
#[derive(Debug)]
pub struct Multiaddr {
    pub components: Vec<Protocol>,
}

impl View for PeerId {
    type V = Seq<u8>;

    open spec fn view(&self) -> Seq<u8> {
        self.bytes@
    }
}

impl View for Multiaddr {
    type V = Seq<Protocol>;

    open spec fn view(&self) -> Seq<Protocol> {
        self.components@
    }
}

/// Whether `p` names the unspecified ("any") host of its IP family.
pub open spec fn is_unspecified_host(p: Protocol) -> bool {
    p == Protocol::Ip4(0) || p == Protocol::Ip6(0)
}

/// The address advertised as `a`, as seen from a peer that observed the
/// advertiser at `observed`: a leading unspecified host is replaced by the
/// observed host; any other address has no translation.
pub open spec fn translation(a: Seq<Protocol>, observed: Seq<Protocol>) -> Option<Seq<Protocol>> {
    if a.len() > 0 && observed.len() > 0 && is_unspecified_host(a[0]) {
        Some(a.update(0, observed[0]))
    } else {
        None
    }
}

impl PeerId {
    pub fn new(bytes: Vec<u8>) -> (r: PeerId)
        ensures
            r@ == bytes@,
    {
        PeerId { bytes }
    }

    pub fn copy(&self) -> (r: PeerId)
        ensures
            r@ == self@,
    {
        let mut bytes: Vec<u8> = Vec::new();
        let mut i: usize = 0;
        while i < self.bytes.len()
            invariant
                i <= self.bytes.len(),
                bytes@ == self.bytes@.subrange(0, i as int),
            decreases self.bytes.len() - i,
        {
            bytes.push(self.bytes[i]);
            i = i + 1;
        }
        assert(bytes@ == self.bytes@);
        PeerId { bytes }
    }

    pub fn same(&self, other: &PeerId) -> (r: bool)
        ensures
            r == (self@ == other@),
    {
        if self.bytes.len() != other.bytes.len() {
            return false;
        }
        let mut i: usize = 0;
        while i < self.bytes.len()
            invariant
                i <= self.bytes.len(),
                self.bytes.len() == other.bytes.len(),
                forall|j: int| 0 <= j < i ==> self.bytes@[j] == other.bytes@[j],
            decreases self.bytes.len() - i,
        {
            if self.bytes[i] != other.bytes[i] {
                return false;
            }
            i = i + 1;
        }
        assert(self@ =~= other@);
        true
    }
}

impl Multiaddr {
    pub fn new(components: Vec<Protocol>) -> (r: Multiaddr)
        ensures
            r@ == components@,
    {
        Multiaddr { components }
    }

    pub fn copy(&self) -> (r: Multiaddr)
        ensures
            r@ == self@,
    {
        let mut components: Vec<Protocol> = Vec::new();
        let mut i: usize = 0;
        while i < self.components.len()
            invariant
                i <= self.components.len(),
                components@ == self.components@.subrange(0, i as int),
            decreases self.components.len() - i,
        {
            components.push(self.components[i]);
            i = i + 1;
        }
        assert(components@ == self.components@);
        Multiaddr { components }
    }

    pub fn same(&self, other: &Multiaddr) -> (r: bool)
        ensures
            r == (self@ == other@),
    {
        if self.components.len() != other.components.len() {
            return false;
        }
        let mut i: usize = 0;
        while i < self.components.len()
            invariant
                i <= self.components.len(),
                self.components.len() == other.components.len(),
                forall|j: int| 0 <= j < i ==> self.components@[j] == other.components@[j],
            decreases self.components.len() - i,
        {
            if self.components[i] != other.components[i] {
                return false;
            }
            i = i + 1;
        }
        assert(self@ =~= other@);
        true
    }

    /// The address that a peer observed at `observed` is reachable at, when
    /// this address was advertised with an unspecified host.
    pub fn translate(&self, observed: &Multiaddr) -> (r: Option<Multiaddr>)
        ensures
            match r {
                Some(t) => translation(self@, observed@) == Some(t@),
                None => translation(self@, observed@) is None,
            },
    {
        if self.components.len() > 0 && observed.components.len() > 0 {
            let first = self.components[0];
            if first == Protocol::Ip4(0) || first == Protocol::Ip6(0) {
                let mut t = self.copy();
                t.components.set(0, observed.components[0]);
                return Some(t);
            }
        }
        None
    }
}

/// The addresses of a list, as plain component sequences.
pub open spec fn addrs_view(v: Seq<Multiaddr>) -> Seq<Seq<Protocol>> {
    Seq::new(v.len(), |i: int| v[i]@)
}

/// Whether two lists of addresses hold the same addresses in the same order.
pub fn same_addrs(a: &Vec<Multiaddr>, b: &Vec<Multiaddr>) -> (r: bool)
    ensures
        r == (addrs_view(a@) == addrs_view(b@)),
{
    if a.len() != b.len() {
        assert(addrs_view(a@).len() != addrs_view(b@).len());
        return false;
    }
    let mut i: usize = 0;
    while i < a.len()
        invariant
            i <= a.len(),
            a.len() == b.len(),
            forall|j: int| 0 <= j < i ==> a@[j]@ == b@[j]@,
        decreases a.len() - i,
    {
        if !a[i].same(&b[i]) {
            assert(addrs_view(a@)[i as int] != addrs_view(b@)[i as int]);
            return false;
        }
        i = i + 1;
    }
    assert(addrs_view(a@) =~= addrs_view(b@));
    true
}

pub fn copy_addrs(a: &Vec<Multiaddr>) -> (r: Vec<Multiaddr>)
    ensures
        addrs_view(r@) == addrs_view(a@),
{
    let mut r: Vec<Multiaddr> = Vec::new();
    let mut i: usize = 0;
    while i < a.len()
        invariant
            i <= a.len(),
            r@.len() == i,
            forall|j: int| 0 <= j < i ==> r@[j]@ == a@[j]@,
        decreases a.len() - i,
    {
        r.push(a[i].copy());
        i = i + 1;
    }
    assert(addrs_view(r@) =~= addrs_view(a@));
    r
}

} // verus!

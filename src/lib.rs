//! Peer discovery over the host's multicast-DNS service: the registry of
//! discovered peers, the poll-driven discovery state machine and the protocol
//! spoken with the background worker that owns the native service.

pub mod addr;
pub mod behaviour;
pub mod error;
pub mod handle;
pub mod registry;
pub mod worker;

pub use addr::{Multiaddr, PeerId, Protocol};
pub use behaviour::{
    DiscoveredAddrsIter, ExpiredAddrsIter, IpAddr, MdnsEvent, MdnsPacket, PollStep, QueryResponse,
    ResponsePeer, Zeroconf,
};
pub use error::Error;
pub use handle::ServiceHandle;
pub use registry::DiscoveryRegistry;
pub use worker::{FromWorker, Port, ToWorker, Worker, WorkerAction, WorkerEvent, WorkerPhase};

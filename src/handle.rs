//! The exclusive-ownership state of the native service handle: at most one
//! fetch of the next packet is outstanding at any time.
use vstd::prelude::*;

verus! {

/// The service handle's state.
#[derive(Clone, Copy, Debug, PartialEq, Eq, Structural)]
pub enum ServiceHandle {
    /// Idle: the next packet may be asked for.
    Free,
    /// A fetch of the next packet is outstanding and owns the handle.
    Busy,
    /// A fetch was dropped without being resolved; never reached.
    Poisoned,
}

/// A transition of the handle.
#[derive(Clone, Copy, Debug, PartialEq, Eq, Structural)]
pub enum HandleEvent {
    /// A fetch of the next packet begins.
    Begin,
    /// The outstanding fetch resolves and hands the handle back.
    Resolve,
}

/// The state after `e` in state `h`, or `None` when `e` is not allowed there.
pub open spec fn handle_step(h: ServiceHandle, e: HandleEvent) -> Option<ServiceHandle> {
    match (h, e) {
        (ServiceHandle::Free, HandleEvent::Begin) => Some(ServiceHandle::Busy),
        (ServiceHandle::Busy, HandleEvent::Resolve) => Some(ServiceHandle::Free),
        _ => None,
    }
}

/// The state after the events of `t` in order, or `None` when one of them is
/// not allowed where it comes.
pub open spec fn handle_run(h: ServiceHandle, t: Seq<HandleEvent>) -> Option<ServiceHandle>
    decreases t.len(),
{
    if t.len() == 0 {
        Some(h)
    } else {
        match handle_run(h, t.drop_last()) {
            Some(g) => handle_step(g, t.last()),
            None => None,
        }
    }
}

/// The number of events of `t` equal to `e`.
pub open spec fn count_of(t: Seq<HandleEvent>, e: HandleEvent) -> int
    decreases t.len(),
{
    if t.len() == 0 {
        0
    } else {
        count_of(t.drop_last(), e) + if t.last() == e { 1int } else { 0int }
    }
}

impl ServiceHandle {
    /// Hands the handle to a new fetch.
    pub fn begin_fetch(&mut self)
        requires
            *old(self) == ServiceHandle::Free,
        ensures
            *final(self) == ServiceHandle::Busy,
            handle_step(*old(self), HandleEvent::Begin) == Some(*final(self)),
    {
        *self = ServiceHandle::Busy;
    }

    /// Takes the handle back from the fetch that resolved.
    pub fn resolve(&mut self)
        requires
            *old(self) == ServiceHandle::Busy,
        ensures
            *final(self) == ServiceHandle::Free,
            handle_step(*old(self), HandleEvent::Resolve) == Some(*final(self)),
    {
        *self = ServiceHandle::Free;
    }
}

/// Starting from a free handle, every allowed run has begun at most one fetch
/// more than it resolved: a second fetch never begins before the first
/// resolves, and the handle is busy exactly while one is outstanding.
pub proof fn lemma_fetch_exclusive(t: Seq<HandleEvent>)
    requires
        handle_run(ServiceHandle::Free, t) is Some,
    ensures
        ({
            let d = count_of(t, HandleEvent::Begin) - count_of(t, HandleEvent::Resolve);
            &&& 0 <= d <= 1
            &&& (handle_run(ServiceHandle::Free, t) == Some(ServiceHandle::Busy)) == (d == 1)
            &&& (handle_run(ServiceHandle::Free, t) == Some(ServiceHandle::Free)) == (d == 0)
        }),
        handle_step(ServiceHandle::Busy, HandleEvent::Begin) is None,
    decreases t.len(),
{
    if t.len() > 0 {
        lemma_fetch_exclusive(t.drop_last());
    }
}

} // verus!

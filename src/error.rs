//! Failures of the native multicast-DNS service, as reported by the worker.
use vstd::prelude::*;

verus! {

/// Errors that can happen in this crate. Each carries the native service's
/// own description of what went wrong.
#[derive(Debug)]
pub enum Error {
    /// Registering the service with the host's mDNS daemon failed.
    RegisterServiceFailed(String),
    /// Setting a text record entry of the service failed.
    SetTxtRecordFailed(String),
}

impl Error {
    /// A one-line description of the error.
    pub fn message(&self) -> (r: &'static str)
        ensures
            self is RegisterServiceFailed ==> r@ == "Registering the service on Avahi/Bonjour failed."@,
            self is SetTxtRecordFailed ==> r@ == "Setting the txt record for the MDNS service failed."@,
    {
        match self {
            Error::RegisterServiceFailed(_) => "Registering the service on Avahi/Bonjour failed.",
            Error::SetTxtRecordFailed(_) => "Setting the txt record for the MDNS service failed.",
        }
    }
}

} // verus!

//! The task that sends the digests of batches to the primary.

use vstd::prelude::*;

use crate::types::Address;

verus! {

/// Sends batches' digests to the primary.
#[derive(Debug)]
pub struct PrimaryConnector {
    /// The primary network address.
    pub primary_address: Address,
}

impl PrimaryConnector {
    /// Makes a connector to a primary.
    pub fn new(primary_address: Address) -> (connector: PrimaryConnector)
        ensures
            connector.primary_address == primary_address,
    {
        PrimaryConnector { primary_address }
    }

    /// Tells where the message that carries a digest goes, and its bytes: to the primary, as it is.
    pub fn on_digest(&self, digest: Vec<u8>) -> (sent: (Address, Vec<u8>))
        ensures
            sent == (self.primary_address, digest),
    {
        (self.primary_address, digest)
    }
}

} // verus!

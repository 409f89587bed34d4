//! The plain values that the tasks exchange.

use vstd::prelude::*;

use crate::order;

verus! {

/// The height of a header in its author's chain.
pub type Height = u64;

/// The identifier of a worker of an authority.
pub type WorkerId = u32;

/// The slot (sequence) number of consensus.
pub type Slot = u64;

/// A transaction of a client.
pub type Transaction = Vec<u8>;

/// The transactions that are broadcast together.
pub type Batch = Vec<Transaction>;

/// The byte strings of a list.
pub open spec fn byte_strings(list: Seq<Vec<u8>>) -> Seq<Seq<u8>> {
    list.map_values(|bytes: Vec<u8>| bytes@)
}

/// The identifier of a header, of a batch or of a set of proposals: the first 32 bytes of a hash.
#[derive(Clone, Copy, Debug, PartialEq, Eq, PartialOrd, Ord, Hash)]
pub struct Digest(pub [u8; 32]);

/// The name of an authority.
#[derive(Clone, Copy, Debug, PartialEq, Eq, PartialOrd, Ord, Hash)]
pub struct PublicKey(pub [u8; 32]);

impl PublicKey {
    /// Tells whether two names are the same.
    pub fn is(&self, other: &PublicKey) -> (same: bool)
        ensures
            same == (*self == *other),
    {
        order::is_same(&self.0, &other.0)
    }
}

/// A network address.
#[allow(inconsistent_fields)]
#[derive(Clone, Copy, Debug, PartialEq, Eq)]
pub enum Address {
    V4 { octets: [u8; 4], port: u16 },
    V6 { octets: [u8; 16], port: u16, flowinfo: u32, scope_id: u32 },
}

/// What the tasks read of a header.
#[derive(Clone, Debug, PartialEq, Eq)]
pub struct Header {
    /// The digest under which the header is stored.
    pub id: Digest,
    /// The authority that made the header.
    pub author: PublicKey,
    /// The place of the header in its author's chain.
    pub height: Height,
    /// The batches that the header refers to, each with the worker that holds it.
    pub payload: Vec<(Digest, WorkerId)>,
    /// The digest of the header that the parent certificate certifies.
    pub parent_digest: Digest,
}

/// A header that consensus proposes for an authority.
#[derive(Clone, Copy, Debug, PartialEq, Eq)]
pub struct Proposal {
    pub header_digest: Digest,
    pub height: Height,
}

/// What the tasks read of a consensus message. Each message carries the digest of its proposals.
#[derive(Clone, Debug, PartialEq, Eq)]
pub enum ConsensusMessage {
    Prepare { digest: Digest, slot: Slot, view: u64, proposals: Vec<(PublicKey, Proposal)> },
    Confirm { digest: Digest, slot: Slot, view: u64, proposals: Vec<(PublicKey, Proposal)> },
    Commit { digest: Digest, slot: Slot, view: u64, proposals: Vec<(PublicKey, Proposal)> },
}

impl ConsensusMessage {
    /// The digest that identifies the proposals of the message.
    pub open spec fn spec_digest(self) -> Digest {
        match self {
            ConsensusMessage::Prepare { digest, .. } => digest,
            ConsensusMessage::Confirm { digest, .. } => digest,
            ConsensusMessage::Commit { digest, .. } => digest,
        }
    }

    /// The proposals of the message.
    pub open spec fn spec_proposals(self) -> Seq<(PublicKey, Proposal)> {
        match self {
            ConsensusMessage::Prepare { proposals, .. } => proposals@,
            ConsensusMessage::Confirm { proposals, .. } => proposals@,
            ConsensusMessage::Commit { proposals, .. } => proposals@,
        }
    }

    /// The digest that identifies the proposals of the message.
    pub fn proposal_digest(&self) -> (id: Digest)
        ensures
            id == self.spec_digest(),
    {
        match self {
            ConsensusMessage::Prepare { digest, .. } => *digest,
            ConsensusMessage::Confirm { digest, .. } => *digest,
            ConsensusMessage::Commit { digest, .. } => *digest,
        }
    }

    /// The proposals of the message.
    pub fn proposals(&self) -> (list: &Vec<(PublicKey, Proposal)>)
        ensures
            list@ == self.spec_proposals(),
    {
        match self {
            ConsensusMessage::Prepare { proposals, .. } => proposals,
            ConsensusMessage::Confirm { proposals, .. } => proposals,
            ConsensusMessage::Commit { proposals, .. } => proposals,
        }
    }
}

/// What a primary asks another primary for.
#[derive(Clone, Debug, PartialEq, Eq)]
pub enum PrimaryMessage {
    /// The headers with these digests are wanted by this authority.
    HeadersRequest(Vec<Digest>, PublicKey),
    /// The headers with these digests are wanted by this authority, each together with its
    /// ancestors above a height.
    FastSyncHeadersRequest(Vec<(Digest, Height)>, PublicKey),
}

/// What a primary tells one of its workers.
#[derive(Clone, Debug, PartialEq, Eq)]
pub enum PrimaryWorkerMessage {
    /// The worker has to get these batches from the workers of this authority.
    Synchronize(Vec<Digest>, PublicKey),
}

/// What a worker tells the workers of other authorities.
#[derive(Clone, Debug, PartialEq, Eq)]
pub enum WorkerMessage {
    /// A batch of transactions.
    Batch(Batch),
}

/// The byte strings of a list are those of its items, in their order.
pub proof fn law_byte_strings(list: Seq<Vec<u8>>)
    ensures
        byte_strings(list).len() == list.len(),
        forall|i: int| 0 <= i < list.len() ==> #[trigger] byte_strings(list)[i] == list[i]@,
{
}

/// A consensus message of any kind is identified by the digest that it carries and proposes the headers
/// that it carries.
pub proof fn law_consensus_message(
    digest: Digest,
    slot: Slot,
    view: u64,
    proposals: Vec<(PublicKey, Proposal)>,
    message: ConsensusMessage,
)
    requires
        message == (ConsensusMessage::Prepare { digest, slot, view, proposals }) || message == (
        ConsensusMessage::Confirm { digest, slot, view, proposals }) || message == (
        ConsensusMessage::Commit { digest, slot, view, proposals }),
    ensures
        message.spec_digest() == digest,
        message.spec_proposals() == proposals@,
{
}

} // verus!

//! The states of the header waiter and how each event changes them.

use vstd::prelude::*;

use crate::store_keys;
use crate::types::{ConsensusMessage, Digest, Header, Height, Proposal, PublicKey, WorkerId};

verus! {

/// What the waiter remembers.
#[verifier::ext_equal]
pub struct WaiterState {
    /// The headers and proposals that wait for their dependencies, with their heights.
    pub pending: Map<Digest, Height>,
    /// The headers that were asked for, with a height and the time of the request.
    pub parent_requests: Map<Digest, (Height, u128)>,
    /// The headers that were asked for by digest alone.
    pub header_requests: Map<Digest, (Height, u128)>,
    /// The batches that were asked for, with the height of the header that needs them.
    pub batch_requests: Map<Digest, Height>,
}

/// The digest is one of those in the list.
pub open spec fn asks_for(asked: Seq<(Digest, Height)>, digest: Digest) -> bool {
    exists|i: int| 0 <= i < asked.len() && (#[trigger] asked[i]).0 == digest
}

/// The candidates that are not known yet, each digest once, at its first place.
pub open spec fn fresh(candidates: Seq<(Digest, Height)>, known: Set<Digest>) -> Seq<
    (Digest, Height),
>
    decreases candidates.len(),
{
    if candidates.len() == 0 {
        Seq::empty()
    } else {
        let earlier = fresh(candidates.drop_last(), known);
        if known.contains(candidates.last().0) || asks_for(earlier, candidates.last().0) {
            earlier
        } else {
            earlier.push(candidates.last())
        }
    }
}

/// The requests after those in the list were made at the time `now`.
pub open spec fn noted(
    requests: Map<Digest, (Height, u128)>,
    asked: Seq<(Digest, Height)>,
    now: u128,
) -> Map<Digest, (Height, u128)>
    decreases asked.len(),
{
    if asked.len() == 0 {
        requests
    } else {
        noted(requests, asked.drop_last(), now).insert(asked.last().0, (asked.last().1, now))
    }
}

/// What to ask for so that the ancestors of the missing proposals come along: each proposal that
/// stands above its lower bound, with that bound.
pub open spec fn fast_candidates(missing: Seq<(PublicKey, Proposal, Height)>) -> Seq<
    (Digest, Height),
> {
    missing.filter(|m: (PublicKey, Proposal, Height)| m.1.height > m.2).map_values(
        |m: (PublicKey, Proposal, Height)| (m.1.header_digest, m.2),
    )
}

/// What to ask for one by one: each missing proposal, with its height.
pub open spec fn plain_candidates(missing: Seq<(PublicKey, Proposal, Height)>) -> Seq<
    (Digest, Height),
> {
    missing.map_values(|m: (PublicKey, Proposal, Height)| (m.1.header_digest, m.1.height))
}

/// The missing batches that were not asked for yet, in the order of the walk.
pub open spec fn fresh_batches(
    walk: Seq<Digest>,
    missing: Map<Digest, WorkerId>,
    known: Map<Digest, Height>,
) -> Seq<(Digest, WorkerId)> {
    walk.filter(|d: Digest| !known.contains_key(d)).map_values(|d: Digest| (d, missing[d]))
}

/// The workers that hold the batches, each once, at its first place.
pub open spec fn workers_of(batches: Seq<(Digest, WorkerId)>) -> Seq<WorkerId>
    decreases batches.len(),
{
    if batches.len() == 0 {
        Seq::empty()
    } else {
        let earlier = workers_of(batches.drop_last());
        if earlier.contains(batches.last().1) {
            earlier
        } else {
            earlier.push(batches.last().1)
        }
    }
}

/// The batch is one that the worker holds.
pub open spec fn held_by(worker_id: WorkerId) -> spec_fn((Digest, WorkerId)) -> bool {
    |b: (Digest, WorkerId)| b.1 == worker_id
}

/// The batches that one worker holds.
pub open spec fn batches_at(batches: Seq<(Digest, WorkerId)>, worker_id: WorkerId) -> Seq<Digest> {
    batches.filter(held_by(worker_id)).map_values(|b: (Digest, WorkerId)| b.0)
}

/// The digests of the batches that a header refers to.
pub open spec fn payload_digests(header: Header) -> Set<Digest> {
    Set::new(
        |d: Digest| exists|i: int| 0 <= i < header.payload@.len() && (#[trigger] header.payload@[i]).0 == d,
    )
}

/// The digests of the headers that a consensus message proposes.
pub open spec fn proposed_digests(message: ConsensusMessage) -> Set<Digest> {
    Set::new(
        |d: Digest|
            exists|i: int|
                0 <= i < message.spec_proposals().len() && (
                #[trigger] message.spec_proposals()[i]).1.header_digest == d,
    )
}

/// The keys to wait for where batches are missing.
pub open spec fn batch_keys(walk: Seq<Digest>, missing: Map<Digest, WorkerId>) -> Seq<Seq<u8>> {
    walk.map_values(|d: Digest| store_keys::spec_batch_key(d, missing[d]))
}

/// The keys to wait for where proposals are missing.
pub open spec fn proposal_keys(missing: Seq<(PublicKey, Proposal, Height)>) -> Seq<Seq<u8>> {
    missing.map_values(
        |m: (PublicKey, Proposal, Height)| store_keys::spec_header_key(m.1.header_digest),
    )
}

/// The keys to wait for where proposals are missing and their ancestors may be, too.
pub open spec fn tip_keys(missing: Seq<(PublicKey, Proposal, Height)>) -> Seq<Seq<u8>> {
    missing.map_values(
        |m: (PublicKey, Proposal, Height)| store_keys::spec_tip_key(m.1.header_digest),
    )
}

impl WaiterState {
    /// Nothing waits and nothing was asked for.
    pub open spec fn initial() -> Self {
        WaiterState {
            pending: Map::empty(),
            parent_requests: Map::empty(),
            header_requests: Map::empty(),
            batch_requests: Map::empty(),
        }
    }

    /// A header waits for batches; those that were not asked for yet now are.
    pub open spec fn sync_batches(self, missing: Map<Digest, WorkerId>, header: Header) -> Self {
        if self.pending.contains_key(header.id) {
            self
        } else {
            WaiterState {
                pending: self.pending.insert(header.id, header.height),
                batch_requests: missing.map_values(|w: WorkerId| header.height).union_prefer_right(
                    self.batch_requests,
                ),
                ..self
            }
        }
    }

    /// A header is asked for by digest alone, unless it was before.
    pub open spec fn sync_header(self, missing: Digest, now: u128) -> Self {
        if self.header_requests.contains_key(missing) {
            self
        } else {
            WaiterState {
                header_requests: self.header_requests.insert(missing, (0, now)),
                ..self
            }
        }
    }

    /// What a header that waits for its parent makes the waiter ask for. With fast
    /// synchronisation the ancestors above the lower bound come along, and nothing is asked for
    /// where the parent itself does not stand above the bound.
    pub open spec fn parent_asked(
        self,
        fast: bool,
        missing: Digest,
        header: Header,
        lower_bound: Height,
    ) -> Seq<(Digest, Height)> {
        if self.parent_requests.contains_key(missing) {
            Seq::empty()
        } else if !fast {
            seq![(missing, header.height)]
        } else if header.height - 1 > lower_bound {
            seq![(missing, lower_bound)]
        } else {
            Seq::empty()
        }
    }

    /// A header waits for its parent.
    pub open spec fn sync_parent(
        self,
        fast: bool,
        missing: Digest,
        header: Header,
        lower_bound: Height,
        now: u128,
    ) -> Self {
        let asked = self.parent_asked(fast, missing, header, lower_bound);
        if self.pending.contains_key(header.id) {
            self
        } else {
            WaiterState {
                pending: self.pending.insert(header.id, header.height),
                parent_requests: if asked.len() > 0 {
                    self.parent_requests.insert(missing, (asked[0].1, now))
                } else {
                    self.parent_requests
                },
                ..self
            }
        }
    }

    /// What proposals that wait for their headers make the waiter ask for. With fast
    /// synchronisation nothing is asked for while the same proposals already wait.
    pub open spec fn proposals_asked(
        self,
        fast: bool,
        missing: Seq<(PublicKey, Proposal, Height)>,
        message: ConsensusMessage,
    ) -> Seq<(Digest, Height)> {
        if !fast {
            fresh(plain_candidates(missing), self.parent_requests.dom())
        } else if self.pending.contains_key(message.spec_digest()) {
            Seq::empty()
        } else {
            fresh(fast_candidates(missing), self.parent_requests.dom())
        }
    }

    /// Proposals wait for their headers.
    pub open spec fn sync_proposals(
        self,
        fast: bool,
        missing: Seq<(PublicKey, Proposal, Height)>,
        message: ConsensusMessage,
        header: Header,
        now: u128,
    ) -> Self {
        WaiterState {
            pending: self.pending.insert(message.spec_digest(), header.height),
            parent_requests: noted(
                self.parent_requests,
                self.proposals_asked(fast, missing, message),
                now,
            ),
            ..self
        }
    }

    /// All that a header waited for has come.
    pub open spec fn header_ready(self, header: Header) -> Self {
        WaiterState {
            pending: self.pending.remove(header.id),
            batch_requests: self.batch_requests.remove_keys(payload_digests(header)),
            parent_requests: self.parent_requests.remove(header.parent_digest),
            ..self
        }
    }

    /// All that proposals waited for has come.
    pub open spec fn proposals_ready(self, message: ConsensusMessage, header: Header) -> Self {
        WaiterState {
            pending: self.pending.remove(message.spec_digest()),
            batch_requests: self.batch_requests.remove_keys(payload_digests(header)),
            parent_requests: self.parent_requests.remove_keys(proposed_digests(message)),
            ..self
        }
    }

    /// The header was asked for so long ago that the request has to be repeated.
    pub open spec fn overdue(self, digest: Digest, delay: u64, now: u128) -> bool {
        &&& self.parent_requests.contains_key(digest)
        &&& self.parent_requests[digest].1 + delay < now
    }

    /// Consensus has left the header or the proposals behind.
    pub open spec fn outdated(self, digest: Digest, gc_depth: Height, round: Height) -> bool {
        &&& self.pending.contains_key(digest)
        &&& round > gc_depth
        &&& self.pending[digest] <= round - gc_depth
    }
}

} // verus!

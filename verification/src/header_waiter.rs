//! The task that holds headers and proposals back until all that they refer to is in the store,
//! and asks other nodes for what is missing.

use vstd::prelude::*;

use crate::committee::Committee;
use crate::digest_map;
use crate::digest_map::DigestMap;
use crate::store_keys;
use crate::types;
use crate::types::{
    Address, ConsensusMessage, Digest, Header, Height, PrimaryMessage, PrimaryWorkerMessage,
    Proposal, PublicKey, WorkerId,
};
use crate::waiter_model;
use crate::waiter_model::WaiterState;

verus! {

/// The resolution, in milliseconds, of the timer that checks whether we received replies to our
/// sync requests.
pub const TIMER_RESOLUTION: u64 = 1_000;

/// The commands that can be sent to the waiter.
#[derive(Debug)]
pub enum WaiterMessage {
    /// Batches are missing, at these workers, that a header refers to. Whether the sender insists
    /// on a request makes no difference: one is always made.
    SyncBatches(DigestMap<WorkerId>, Header, bool),
    /// Proposed headers are missing, each with the height up to which we have its chain.
    SyncProposals(Vec<(PublicKey, Proposal, Height)>, ConsensusMessage, Header),
    /// The parent of a header is missing; we have its chain up to a height.
    SyncParent(Digest, Header, Height),
    /// A header is missing.
    SyncHeader(Digest),
}

/// Where something waits for its dependencies.
#[derive(Clone, Copy, Debug, PartialEq, Eq, Structural)]
pub enum Pool {
    /// Headers that go to the core.
    Headers,
    /// Proposals that go back to consensus.
    Proposals,
    /// Proposals that go back to consensus before the ancestors of their headers are there.
    OptimisticTips,
}

/// A wait to begin. It ends when all keys are in the store, or when it is called off; a wait that
/// stood under the same digest is called off.
#[derive(Clone, Debug, PartialEq, Eq)]
pub struct Wait {
    pub id: Digest,
    pub pool: Pool,
    pub keys: Vec<Vec<u8>>,
}

/// A message for one of our workers. It has no address where the committee knows no such worker.
#[derive(Clone, Debug, PartialEq, Eq)]
pub struct BatchRequest {
    pub worker_id: WorkerId,
    pub to: Option<Address>,
    pub message: PrimaryWorkerMessage,
}

/// A message for the primary of the author of a header. It has no address where the committee
/// does not know the author.
#[derive(Clone, Debug, PartialEq, Eq)]
pub struct HeaderRequest {
    pub to: Option<Address>,
    pub message: PrimaryMessage,
}

/// A message for some of the other primaries, picked at random.
#[derive(Clone, Debug, PartialEq, Eq)]
pub struct Broadcast {
    pub to: Vec<Address>,
    pub message: PrimaryMessage,
    /// How many primaries to pick.
    pub nodes: usize,
}

/// What the waiter decides on a command.
#[derive(Clone, Debug, PartialEq, Eq)]
pub enum Reaction {
    /// The header waits already: there is nothing to do, nor to clean up.
    Ignored,
    SyncBatches(Wait, Vec<BatchRequest>),
    SyncHeader(Option<Broadcast>),
    SyncParent(Wait, Option<HeaderRequest>),
    SyncProposals(Wait, Option<HeaderRequest>),
}

/// How a wait ended.
#[derive(Clone, Debug, PartialEq, Eq)]
pub enum WaitEnd<E> {
    /// Every key was read from the store.
    Stored,
    /// The store failed.
    Failed(E),
    /// The wait was called off.
    Cancelled,
}

/// What never changes while the waiter runs.
#[derive(Clone, Debug, PartialEq, Eq)]
pub struct WaiterConfig {
    /// The name of this authority.
    pub name: PublicKey,
    /// The committee information.
    pub committee: Committee,
    /// The depth of the garbage collector.
    pub gc_depth: Height,
    /// The delay, in milliseconds, to wait before re-trying sync requests.
    pub sync_retry_delay: u64,
    /// With how many nodes to sync when re-trying to send sync requests.
    pub sync_retry_nodes: usize,
    /// Whether a request also brings the ancestors of what it asks for.
    pub use_fast_sync: bool,
    /// Whether a proposal may be prepared before its ancestors are there.
    pub use_optimistic_tips: bool,
}

/// Waits for missing parents, batches and proposals.
#[derive(Debug)]
pub struct HeaderWaiter {
    config: WaiterConfig,
    /// The headers, and the sets of proposals, that wait for their dependencies.
    pending: DigestMap<Height>,
    /// The headers for which we sent a sync request, along with a timestamp indicating when we
    /// sent the request.
    parent_requests: DigestMap<(Height, u128)>,
    /// The same, for headers that were asked for by digest alone.
    header_requests: DigestMap<(Height, u128)>,
    /// The batches for which we sent a sync request.
    batch_requests: DigestMap<Height>,
}

impl View for HeaderWaiter {
    type V = WaiterState;

    closed spec fn view(&self) -> WaiterState {
        WaiterState {
            pending: self.pending@,
            parent_requests: self.parent_requests@,
            header_requests: self.header_requests@,
            batch_requests: self.batch_requests@,
        }
    }
}

/// The message asks for exactly these headers, in the name of `by`; with fast synchronisation each
/// comes with the height down to which its ancestors are wanted.
pub open spec fn asks(
    message: PrimaryMessage,
    fast: bool,
    asked: Seq<(Digest, Height)>,
    by: PublicKey,
) -> bool {
    match message {
        PrimaryMessage::HeadersRequest(digests, name) => {
            &&& !fast
            &&& digests@ == asked.map_values(|a: (Digest, Height)| a.0)
            &&& name == by
        },
        PrimaryMessage::FastSyncHeadersRequest(list, name) => {
            &&& fast
            &&& list@ == asked
            &&& name == by
        },
    }
}

/// Each worker that holds a batch of the list gets one message, which names all its batches.
pub open spec fn asks_workers(
    requests: Seq<BatchRequest>,
    batches: Seq<(Digest, WorkerId)>,
    author: PublicKey,
    config: WaiterConfig,
) -> bool {
    let workers = waiter_model::workers_of(batches);
    &&& requests.len() == workers.len()
    &&& forall|i: int|
        0 <= i < requests.len() ==> {
            &&& (#[trigger] requests[i]).worker_id == workers[i]
            &&& requests[i].to == config.committee.spec_worker(config.name, workers[i])
            &&& requests[i].message matches PrimaryWorkerMessage::Synchronize(digests, from)
            &&& digests@ == waiter_model::batches_at(batches, workers[i])
            &&& from == author
        }
}

/// The header waits for its batches, and the workers are asked for those that are not known yet.
pub open spec fn syncs_batches(
    config: WaiterConfig,
    state: WaiterState,
    missing: DigestMap<WorkerId>,
    header: Header,
    wait: Wait,
    requests: Seq<BatchRequest>,
) -> bool {
    &&& missing.walked_in_order()
    &&& wait.id == header.id
    &&& wait.pool == Pool::Headers
    &&& types::byte_strings(wait.keys@) == waiter_model::batch_keys(missing.keys(), missing@)
    &&& asks_workers(
        requests,
        waiter_model::fresh_batches(missing.keys(), missing@, state.batch_requests),
        header.author,
        config,
    )
}

/// The other primaries are asked for the header.
pub open spec fn syncs_header(config: WaiterConfig, missing: Digest, sent: Broadcast) -> bool {
    &&& sent.to@ == config.committee.spec_others_primaries(config.name)
    &&& asks(sent.message, false, seq![(missing, 0u64)], config.name)
    &&& sent.nodes == config.sync_retry_nodes
}

/// The header waits for its parent, and its author is asked for what is not known yet. With fast
/// synchronisation the author is sent a message wherever the parent stands above the bound, also
/// one that asks for nothing.
pub open spec fn syncs_parent(
    config: WaiterConfig,
    state: WaiterState,
    missing: Digest,
    header: Header,
    lower_bound: Height,
    wait: Wait,
    request: Option<HeaderRequest>,
) -> bool {
    let fast = config.use_fast_sync;
    let asked = state.parent_asked(fast, missing, header, lower_bound);
    &&& wait.id == header.id
    &&& wait.pool == Pool::Headers
    &&& types::byte_strings(wait.keys@) == seq![store_keys::spec_header_key(missing)]
    &&& request is Some <==> if fast {
        header.height - 1 > lower_bound
    } else {
        asked.len() > 0
    }
    &&& request matches Some(sent) ==> {
        &&& sent.to == config.committee.spec_primary(header.author)
        &&& asks(sent.message, fast, asked, config.name)
    }
}

/// The proposals wait for their headers, and the author of the header that carried them is asked
/// for what is not known yet.
pub open spec fn syncs_proposals(
    config: WaiterConfig,
    state: WaiterState,
    missing: Seq<(PublicKey, Proposal, Height)>,
    message: ConsensusMessage,
    header: Header,
    wait: Wait,
    request: Option<HeaderRequest>,
) -> bool {
    let fast = config.use_fast_sync;
    let asked = state.proposals_asked(fast, missing, message);
    let optimistic = message is Prepare && config.use_optimistic_tips;
    &&& wait.id == message.spec_digest()
    &&& wait.pool == if optimistic {
        Pool::OptimisticTips
    } else {
        Pool::Proposals
    }
    &&& types::byte_strings(wait.keys@) == if optimistic {
        waiter_model::tip_keys(missing)
    } else {
        waiter_model::proposal_keys(missing)
    }
    &&& request is Some <==> asked.len() > 0
    &&& request matches Some(sent) ==> {
        &&& sent.to == config.committee.spec_primary(header.author)
        &&& asks(sent.message, fast, asked, config.name)
    }
}

impl WaiterState {
    /// The state after a command.
    pub open spec fn on_message(self, fast: bool, message: WaiterMessage, now: u128) -> Self {
        match message {
            WaiterMessage::SyncBatches(missing, header, _) => self.sync_batches(missing@, header),
            WaiterMessage::SyncProposals(missing, consensus_message, header) => self.sync_proposals(
                fast,
                missing@,
                consensus_message,
                header,
                now,
            ),
            WaiterMessage::SyncParent(missing, header, lower_bound) => self.sync_parent(
                fast,
                missing,
                header,
                lower_bound,
                now,
            ),
            WaiterMessage::SyncHeader(missing) => self.sync_header(missing, now),
        }
    }
}

/// The reaction is the one that the command calls for in this state.
pub open spec fn reacts(
    config: WaiterConfig,
    state: WaiterState,
    message: WaiterMessage,
    reaction: Reaction,
) -> bool {
    match message {
        WaiterMessage::SyncBatches(missing, header, _) => match reaction {
            Reaction::Ignored => state.pending.contains_key(header.id),
            Reaction::SyncBatches(wait, requests) => {
                &&& !state.pending.contains_key(header.id)
                &&& syncs_batches(config, state, missing, header, wait, requests@)
            },
            _ => false,
        },
        WaiterMessage::SyncProposals(missing, consensus_message, header) => match reaction {
            Reaction::SyncProposals(wait, request) => syncs_proposals(
                config,
                state,
                missing@,
                consensus_message,
                header,
                wait,
                request,
            ),
            _ => false,
        },
        WaiterMessage::SyncParent(missing, header, lower_bound) => match reaction {
            Reaction::Ignored => state.pending.contains_key(header.id),
            Reaction::SyncParent(wait, request) => {
                &&& !state.pending.contains_key(header.id)
                &&& syncs_parent(config, state, missing, header, lower_bound, wait, request)
            },
            _ => false,
        },
        WaiterMessage::SyncHeader(missing) => match reaction {
            Reaction::SyncHeader(None) => state.header_requests.contains_key(missing),
            Reaction::SyncHeader(Some(sent)) => {
                &&& !state.header_requests.contains_key(missing)
                &&& syncs_header(config, missing, sent)
            },
            _ => false,
        },
    }
}

/// Adding a candidate adds at most that candidate.
proof fn lemma_fresh_step(candidates: Seq<(Digest, Height)>, known: Set<Digest>, i: int)
    requires
        0 <= i < candidates.len(),
    ensures
        waiter_model::fresh(candidates.take(i + 1), known) == {
            let earlier = waiter_model::fresh(candidates.take(i), known);
            if known.contains(candidates[i].0) || waiter_model::asks_for(earlier, candidates[i].0) {
                earlier
            } else {
                earlier.push(candidates[i])
            }
        },
{
    assert(candidates.take(i + 1).drop_last() =~= candidates.take(i));
}

/// What is known after a request is what was known before and what was asked for.
pub proof fn lemma_noted_keys(
    requests: Map<Digest, (Height, u128)>,
    asked: Seq<(Digest, Height)>,
    now: u128,
)
    ensures
        forall|d: Digest| #[trigger]
            waiter_model::noted(requests, asked, now).contains_key(d) <==> requests.contains_key(d)
                || waiter_model::asks_for(asked, d),
    decreases asked.len(),
{
    if asked.len() > 0 {
        let rest = asked.drop_last();
        lemma_noted_keys(requests, rest, now);
        assert forall|d: Digest| #[trigger]
            waiter_model::noted(requests, asked, now).contains_key(d) <==> requests.contains_key(d)
                || waiter_model::asks_for(asked, d) by {
            let earlier = waiter_model::noted(requests, rest, now);
            assert(earlier.contains_key(d) <==> requests.contains_key(d)
                || waiter_model::asks_for(rest, d));
            if waiter_model::asks_for(rest, d) {
                let i = choose|i: int| 0 <= i < rest.len() && (#[trigger] rest[i]).0 == d;
                assert(asked[i].0 == d);
            }
            if waiter_model::asks_for(asked, d) && asked.last().0 != d {
                let i = choose|i: int| 0 <= i < asked.len() && (#[trigger] asked[i]).0 == d;
                assert(rest[i].0 == d);
            }
            if asked.last().0 == d {
                assert(asked[asked.len() - 1].0 == d);
            }
        }
    }
}

/// One candidate is asked for unless it is known.
proof fn lemma_single_request(
    requests: Map<Digest, (Height, u128)>,
    candidate: (Digest, Height),
    now: u128,
)
    ensures
        waiter_model::fresh(seq![candidate], requests.dom()) == if requests.contains_key(
            candidate.0,
        ) {
            Seq::empty()
        } else {
            seq![candidate]
        },
        waiter_model::noted(requests, Seq::empty(), now) == requests,
        waiter_model::noted(requests, seq![candidate], now) == requests.insert(
            candidate.0,
            (candidate.1, now),
        ),
{
    assert(seq![candidate].drop_last() =~= Seq::empty());
    reveal_with_fuel(waiter_model::fresh, 2);
    reveal_with_fuel(waiter_model::noted, 2);
    assert(waiter_model::fresh(Seq::empty(), requests.dom()).push(candidate) =~= seq![candidate]);
}

/// Notes a request for each candidate that is not known yet, and tells which those are.
fn note_requests(
    requests: &mut DigestMap<(Height, u128)>,
    candidates: &Vec<(Digest, Height)>,
    now: u128,
) -> (asked: Vec<(Digest, Height)>)
    ensures
        asked@ == waiter_model::fresh(candidates@, old(requests)@.dom()),
        final(requests)@ == waiter_model::noted(old(requests)@, asked@, now),
{
    let ghost known = requests@.dom();
    let ghost before = requests@;
    let mut asked: Vec<(Digest, Height)> = Vec::new();
    let mut i: usize = 0;
    while i < candidates.len()
        invariant
            i <= candidates@.len(),
            known == before.dom(),
            asked@ == waiter_model::fresh(candidates@.take(i as int), known),
            requests@ == waiter_model::noted(before, asked@, now),
        decreases candidates@.len() - i,
    {
        let (digest, height) = candidates[i];
        proof {
            lemma_fresh_step(candidates@, known, i as int);
            lemma_noted_keys(before, asked@, now);
        }
        if !requests.contains_key(&digest) {
            let ghost earlier = asked@;
            requests.insert(digest, (height, now));
            asked.push((digest, height));
            assert(asked@.drop_last() =~= earlier);
        }
        i += 1;
    }
    assert(candidates@.take(i as int) =~= candidates@);
    asked
}

/// The digests of a list of requests.
fn digests_of(asked: &Vec<(Digest, Height)>) -> (digests: Vec<Digest>)
    ensures
        digests@ == asked@.map_values(|a: (Digest, Height)| a.0),
{
    let mut digests: Vec<Digest> = Vec::new();
    let mut i: usize = 0;
    while i < asked.len()
        invariant
            i <= asked@.len(),
            digests@ == asked@.take(i as int).map_values(|a: (Digest, Height)| a.0),
        decreases asked@.len() - i,
    {
        digests.push(asked[i].0);
        i += 1;
        assert(digests@ =~= asked@.take(i as int).map_values(|a: (Digest, Height)| a.0));
    }
    assert(asked@.take(i as int) =~= asked@);
    digests
}

/// The message that asks for headers.
fn request_message(fast: bool, asked: Vec<(Digest, Height)>, by: PublicKey) -> (message:
    PrimaryMessage)
    ensures
        asks(message, fast, asked@, by),
{
    if fast {
        PrimaryMessage::FastSyncHeadersRequest(asked, by)
    } else {
        PrimaryMessage::HeadersRequest(digests_of(&asked), by)
    }
}

/// The missing proposals that stand above their lower bounds, with those bounds.
fn fast_candidates(missing: &Vec<(PublicKey, Proposal, Height)>) -> (candidates: Vec<
    (Digest, Height),
>)
    ensures
        candidates@ == waiter_model::fast_candidates(missing@),
{
    let ghost above = |m: (PublicKey, Proposal, Height)| m.1.height > m.2;
    let ghost wanted = |m: (PublicKey, Proposal, Height)| (m.1.header_digest, m.2);
    let mut candidates: Vec<(Digest, Height)> = Vec::new();
    let mut i: usize = 0;
    assert(missing@.take(0).filter(above).map_values(wanted) =~= seq![]) by {
        reveal(Seq::filter);
    }
    while i < missing.len()
        invariant
            i <= missing@.len(),
            above == (|m: (PublicKey, Proposal, Height)| m.1.height > m.2),
            wanted == (|m: (PublicKey, Proposal, Height)| (m.1.header_digest, m.2)),
            candidates@ == missing@.take(i as int).filter(above).map_values(wanted),
        decreases missing@.len() - i,
    {
        let (_, proposal, lower_bound) = missing[i];
        proof {
            reveal(Seq::filter);
            assert(missing@.take(i + 1).drop_last() =~= missing@.take(i as int));
        }
        if proposal.height > lower_bound {
            candidates.push((proposal.header_digest, lower_bound));
        }
        i += 1;
        assert(candidates@ =~= missing@.take(i as int).filter(above).map_values(wanted));
    }
    assert(missing@.take(i as int) =~= missing@);
    candidates
}

/// The missing proposals, with their heights.
fn plain_candidates(missing: &Vec<(PublicKey, Proposal, Height)>) -> (candidates: Vec<
    (Digest, Height),
>)
    ensures
        candidates@ == waiter_model::plain_candidates(missing@),
{
    let mut candidates: Vec<(Digest, Height)> = Vec::new();
    let mut i: usize = 0;
    while i < missing.len()
        invariant
            i <= missing@.len(),
            candidates@ == waiter_model::plain_candidates(missing@.take(i as int)),
        decreases missing@.len() - i,
    {
        let (_, proposal, _) = missing[i];
        candidates.push((proposal.header_digest, proposal.height));
        i += 1;
        assert(candidates@ =~= waiter_model::plain_candidates(missing@.take(i as int)));
    }
    assert(missing@.take(i as int) =~= missing@);
    candidates
}

/// The keys of missing proposals, as the kind of wait has them.
fn proposal_keys(missing: &Vec<(PublicKey, Proposal, Height)>, pool: Pool) -> (keys: Vec<Vec<u8>>)
    ensures
        types::byte_strings(keys@) == if pool == Pool::OptimisticTips {
            waiter_model::tip_keys(missing@)
        } else {
            waiter_model::proposal_keys(missing@)
        },
{
    let ghost expected = if pool == Pool::OptimisticTips {
        waiter_model::tip_keys(missing@)
    } else {
        waiter_model::proposal_keys(missing@)
    };
    let mut keys: Vec<Vec<u8>> = Vec::new();
    let mut i: usize = 0;
    while i < missing.len()
        invariant
            i <= missing@.len(),
            expected == (if pool == Pool::OptimisticTips {
                waiter_model::tip_keys(missing@)
            } else {
                waiter_model::proposal_keys(missing@)
            }),
            keys@.len() == i,
            forall|j: int| 0 <= j < i ==> (#[trigger] keys@[j])@ == expected[j],
        decreases missing@.len() - i,
    {
        let (_, proposal, _) = missing[i];
        let key = if pool == Pool::OptimisticTips {
            store_keys::tip_key(&proposal.header_digest)
        } else {
            store_keys::header_key(&proposal.header_digest)
        };
        keys.push(key);
        i += 1;
    }
    assert(types::byte_strings(keys@) =~= expected);
    keys
}

/// The keys of missing batches.
fn batch_keys(missing: &DigestMap<WorkerId>) -> (keys: Vec<Vec<u8>>)
    ensures
        types::byte_strings(keys@) == waiter_model::batch_keys(missing.keys(), missing@),
        missing.walked_in_order(),
{
    let n = missing.len();
    let ghost expected = waiter_model::batch_keys(missing.keys(), missing@);
    let mut keys: Vec<Vec<u8>> = Vec::new();
    let mut i: usize = 0;
    while i < n
        invariant
            i <= n == missing.keys().len(),
            missing.walked_in_order(),
            expected == waiter_model::batch_keys(missing.keys(), missing@),
            keys@.len() == i,
            forall|j: int| 0 <= j < i ==> (#[trigger] keys@[j])@ == expected[j],
        decreases n - i,
    {
        keys.push(store_keys::batch_key(&missing.key_at(i), missing.value_at(i)));
        i += 1;
    }
    assert(types::byte_strings(keys@) =~= expected);
    keys
}

/// Takes the digests of the batches of a header out of the requests.
fn forget_payload(requests: &mut DigestMap<Height>, header: &Header)
    ensures
        final(requests)@ == old(requests)@.remove_keys(waiter_model::payload_digests(*header)),
{
    let ghost before = requests@;
    let ghost payload = header.payload@;
    let mut i: usize = 0;
    assert(before =~= before.remove_keys(
        Set::new(|d: Digest| exists|j: int| 0 <= j < 0 && (#[trigger] payload[j]).0 == d),
    ));
    while i < header.payload.len()
        invariant
            i <= header.payload@.len(),
            payload == header.payload@,
            requests@ == before.remove_keys(
                Set::new(|d: Digest| exists|j: int| 0 <= j < i && (#[trigger] payload[j]).0 == d),
            ),
        decreases header.payload@.len() - i,
    {
        requests.remove(&header.payload[i].0);
        assert(requests@ =~= before.remove_keys(
            Set::new(|d: Digest| exists|j: int| 0 <= j < i + 1 && (#[trigger] payload[j]).0 == d),
        )) by {
            assert(payload[i as int].0 == header.payload@[i as int].0);
        }
        i += 1;
    }
    assert(requests@ =~= before.remove_keys(waiter_model::payload_digests(*header)));
}

/// Takes the digests that a message proposes out of the requests.
fn forget_proposals(requests: &mut DigestMap<(Height, u128)>, message: &ConsensusMessage)
    ensures
        final(requests)@ == old(requests)@.remove_keys(waiter_model::proposed_digests(*message)),
{
    let ghost before = requests@;
    let list = message.proposals();
    let mut i: usize = 0;
    assert(before =~= before.remove_keys(
        Set::new(|d: Digest| exists|j: int| 0 <= j < 0 && (#[trigger] list@[j]).1.header_digest == d),
    ));
    while i < list.len()
        invariant
            i <= list@.len(),
            requests@ == before.remove_keys(
                Set::new(
                    |d: Digest|
                        exists|j: int| 0 <= j < i && (#[trigger] list@[j]).1.header_digest == d,
                ),
            ),
        decreases list@.len() - i,
    {
        requests.remove(&list[i].1.header_digest);
        assert(requests@ =~= before.remove_keys(
            Set::new(
                |d: Digest|
                    exists|j: int| 0 <= j < i + 1 && (#[trigger] list@[j]).1.header_digest == d,
            ),
        ));
        i += 1;
    }
    assert(requests@ =~= before.remove_keys(waiter_model::proposed_digests(*message)));
}

/// The missing batches that were not asked for yet.
fn fresh_batches(missing: &DigestMap<WorkerId>, requests: &DigestMap<Height>) -> (batches: Vec<
    (Digest, WorkerId),
>)
    ensures
        batches@ == waiter_model::fresh_batches(missing.keys(), missing@, requests@),
{
    let n = missing.len();
    let ghost walk = missing.keys();
    let ghost unknown = |d: Digest| !requests@.contains_key(d);
    let ghost located = |d: Digest| (d, missing@[d]);
    let mut batches: Vec<(Digest, WorkerId)> = Vec::new();
    let mut i: usize = 0;
    assert(walk.take(0).filter(unknown).map_values(located) =~= seq![]) by {
        reveal(Seq::filter);
    }
    while i < n
        invariant
            i <= n == walk.len(),
            walk == missing.keys(),
            unknown == (|d: Digest| !requests@.contains_key(d)),
            located == (|d: Digest| (d, missing@[d])),
            batches@ == walk.take(i as int).filter(unknown).map_values(located),
        decreases n - i,
    {
        let digest = missing.key_at(i);
        proof {
            reveal(Seq::filter);
            assert(walk.take(i + 1).drop_last() =~= walk.take(i as int));
        }
        if !requests.contains_key(&digest) {
            batches.push((digest, missing.value_at(i)));
        }
        i += 1;
        assert(batches@ =~= walk.take(i as int).filter(unknown).map_values(located));
    }
    assert(walk.take(i as int) =~= walk);
    batches
}

/// Tells whether a worker is in the list.
fn has_worker(workers: &Vec<WorkerId>, worker_id: WorkerId) -> (found: bool)
    ensures
        found == workers@.contains(worker_id),
{
    let mut i: usize = 0;
    while i < workers.len()
        invariant
            i <= workers@.len(),
            forall|j: int| 0 <= j < i ==> workers@[j] != worker_id,
        decreases workers@.len() - i,
    {
        if workers[i] == worker_id {
            return true;
        }
        i += 1;
    }
    false
}

/// The workers that hold the batches.
fn workers_of(batches: &Vec<(Digest, WorkerId)>) -> (workers: Vec<WorkerId>)
    ensures
        workers@ == waiter_model::workers_of(batches@),
{
    let mut workers: Vec<WorkerId> = Vec::new();
    let mut i: usize = 0;
    while i < batches.len()
        invariant
            i <= batches@.len(),
            workers@ == waiter_model::workers_of(batches@.take(i as int)),
        decreases batches@.len() - i,
    {
        assert(batches@.take(i + 1).drop_last() =~= batches@.take(i as int));
        if !has_worker(&workers, batches[i].1) {
            workers.push(batches[i].1);
        }
        i += 1;
    }
    assert(batches@.take(i as int) =~= batches@);
    workers
}

/// The batches that one worker holds.
fn batches_at(batches: &Vec<(Digest, WorkerId)>, worker_id: WorkerId) -> (digests: Vec<Digest>)
    ensures
        digests@ == waiter_model::batches_at(batches@, worker_id),
{
    let ghost here = waiter_model::held_by(worker_id);
    let ghost digest = |b: (Digest, WorkerId)| b.0;
    let mut digests: Vec<Digest> = Vec::new();
    let mut i: usize = 0;
    assert(batches@.take(0).filter(here).map_values(digest) =~= seq![]) by {
        reveal(Seq::filter);
    }
    while i < batches.len()
        invariant
            i <= batches@.len(),
            here == waiter_model::held_by(worker_id),
            digest == (|b: (Digest, WorkerId)| b.0),
            digests@ == batches@.take(i as int).filter(here).map_values(digest),
        decreases batches@.len() - i,
    {
        proof {
            reveal(Seq::filter);
            assert(batches@.take(i + 1).drop_last() =~= batches@.take(i as int));
        }
        if batches[i].1 == worker_id {
            digests.push(batches[i].0);
        }
        i += 1;
        assert(digests@ =~= batches@.take(i as int).filter(here).map_values(digest));
    }
    assert(batches@.take(i as int) =~= batches@);
    digests
}

/// One message for each worker that holds some of the batches.
fn batch_requests(
    config: &WaiterConfig,
    batches: &Vec<(Digest, WorkerId)>,
    author: PublicKey,
) -> (requests: Vec<BatchRequest>)
    ensures
        asks_workers(requests@, batches@, author, *config),
{
    let workers = workers_of(batches);
    let mut requests: Vec<BatchRequest> = Vec::new();
    let mut i: usize = 0;
    while i < workers.len()
        invariant
            i <= workers@.len(),
            workers@ == waiter_model::workers_of(batches@),
            requests@.len() == i,
            forall|j: int|
                0 <= j < i ==> {
                    &&& (#[trigger] requests@[j]).worker_id == workers@[j]
                    &&& requests@[j].to == config.committee.spec_worker(config.name, workers@[j])
                    &&& requests@[j].message matches PrimaryWorkerMessage::Synchronize(digests, from)
                    &&& digests@ == waiter_model::batches_at(batches@, workers@[j])
                    &&& from == author
                },
        decreases workers@.len() - i,
    {
        let worker_id = workers[i];
        requests.push(
            BatchRequest {
                worker_id,
                to: config.committee.worker(&config.name, &worker_id),
                message: PrimaryWorkerMessage::Synchronize(batches_at(batches, worker_id), author),
            },
        );
        i += 1;
    }
    requests
}

/// Notes a request for each missing batch that is not known yet.
fn note_batches(requests: &mut DigestMap<Height>, missing: &DigestMap<WorkerId>, height: Height)
    ensures
        final(requests)@ == missing@.map_values(|w: WorkerId| height).union_prefer_right(
            old(requests)@,
        ),
{
    let n = missing.len();
    let ghost before = requests@;
    let ghost walk = missing.keys();
    let mut i: usize = 0;
    while i < n
        invariant
            i <= n == walk.len(),
            walk == missing.keys(),
            forall|d: Digest| #[trigger]
                requests@.contains_key(d) <==> before.contains_key(d) || walk.take(
                    i as int,
                ).contains(d),
            forall|d: Digest|
                #![trigger requests@[d]]
                requests@.contains_key(d) ==> requests@[d] == if before.contains_key(d) {
                    before[d]
                } else {
                    height
                },
        decreases n - i,
    {
        let digest = missing.key_at(i);
        let ghost earlier = requests@;
        if !requests.contains_key(&digest) {
            requests.insert(digest, height);
        }
        assert forall|d: Digest| #[trigger]
            requests@.contains_key(d) <==> before.contains_key(d) || walk.take(i + 1).contains(d) by {
            assert(earlier.contains_key(d) <==> before.contains_key(d) || walk.take(
                i as int,
            ).contains(d));
            assert(walk.take(i + 1) =~= walk.take(i as int).push(digest));
            if walk.take(i as int).contains(d) {
                let j = choose|j: int| 0 <= j < i && walk.take(i as int)[j] == d;
                assert(walk.take(i + 1)[j] == d);
            }
            assert(walk.take(i + 1)[i as int] == digest);
        }
        i += 1;
    }
    assert(walk.take(i as int) =~= walk);
    assert(requests@ =~= missing@.map_values(|w: WorkerId| height).union_prefer_right(before)) by {
        assert forall|d: Digest| #[trigger] requests@.contains_key(d) <==> before.contains_key(d)
            || missing@.contains_key(d) by {
            assert(missing@.contains_key(d) <==> walk.contains(d));
        }
    }
}

/// A list of digests from the walk so far stays in order when the next of the walk is added.
proof fn lemma_walk_on(walk: Seq<Digest>, i: int, kept: Seq<Digest>)
    requires
        digest_map::ascending(walk),
        0 <= i < walk.len(),
        digest_map::ascending(kept),
        forall|x: int| 0 <= x < kept.len() ==> walk.take(i).contains(#[trigger] kept[x]),
    ensures
        digest_map::ascending(kept.push(walk[i])),
        forall|x: int| 0 <= x < kept.len() ==> walk.take(i + 1).contains(#[trigger] kept[x]),
        walk.take(i + 1).contains(walk[i]),
{
    assert forall|x: int| 0 <= x < kept.len() implies walk.take(i + 1).contains(
        #[trigger] kept[x],
    ) && crate::order::precedes(kept[x].0, walk[i].0) by {
        let j = choose|j: int| 0 <= j < i && walk.take(i)[j] == kept[x];
        assert(walk[j] == kept[x]);
        assert(walk.take(i + 1)[j] == kept[x]);
    }
    assert(walk.take(i + 1)[i] == walk[i]);
}

/// The list holds each digest of the walk that the predicate picks, in order.
proof fn lemma_walked(walk: Seq<Digest>, kept: Seq<Digest>, pick: spec_fn(Digest) -> bool)
    requires
        forall|x: int| 0 <= x < kept.len() ==> pick(#[trigger] kept[x]),
        forall|j: int| 0 <= j < walk.len() && pick(#[trigger] walk[j]) ==> kept.contains(walk[j]),
        forall|d: Digest| #[trigger] pick(d) ==> walk.contains(d),
    ensures
        forall|d: Digest| #[trigger] kept.contains(d) <==> pick(d),
{
    assert forall|d: Digest| #[trigger] kept.contains(d) <==> pick(d) by {
        if kept.contains(d) {
            let x = choose|x: int| 0 <= x < kept.len() && kept[x] == d;
            assert(pick(kept[x]));
        }
        if pick(d) {
            let j = choose|j: int| 0 <= j < walk.len() && walk[j] == d;
            assert(pick(walk[j]));
        }
    }
}

/// The message repeats, in the name of `by`, exactly the requests that are overdue, in ascending
/// order.
pub open spec fn repeats(
    message: PrimaryMessage,
    fast: bool,
    state: WaiterState,
    delay: u64,
    now: u128,
    by: PublicKey,
) -> bool {
    exists|asked: Seq<(Digest, Height)>|
        {
            &&& #[trigger] asks(message, fast, asked, by)
            &&& overdue_requests(asked, state, delay, now)
        }
}

/// The list holds exactly the requests that are overdue, with the heights noted for them, in
/// ascending order.
pub open spec fn overdue_requests(
    asked: Seq<(Digest, Height)>,
    state: WaiterState,
    delay: u64,
    now: u128,
) -> bool {
    let digests = asked.map_values(|a: (Digest, Height)| a.0);
    &&& digest_map::ascending(digests)
    &&& forall|d: Digest| #[trigger] digests.contains(d) <==> state.overdue(d, delay, now)
    &&& forall|i: int|
        0 <= i < asked.len() ==> (#[trigger] asked[i]).1 == state.parent_requests[asked[i].0].0
}

impl HeaderWaiter {
    /// What the waiter was set up with.
    pub closed spec fn config(self) -> WaiterConfig {
        self.config
    }

    /// Starts with nothing pending and nothing asked for.
    pub fn new(config: WaiterConfig) -> (waiter: HeaderWaiter)
        ensures
            waiter.config() == config,
            waiter@ == WaiterState::initial(),
    {
        HeaderWaiter {
            config,
            pending: DigestMap::new(),
            parent_requests: DigestMap::new(),
            header_requests: DigestMap::new(),
            batch_requests: DigestMap::new(),
        }
    }

    /// Tells whether a header or a set of proposals waits.
    pub fn is_pending(&self, id: &Digest) -> (pending: bool)
        ensures
            pending == self@.pending.contains_key(*id),
    {
        self.pending.contains_key(id)
    }

    /// Makes a header wait for the batches it refers to, and asks our workers for those that were
    /// not asked for yet. A header that waits already is left alone.
    pub fn sync_batches(&mut self, missing: &DigestMap<WorkerId>, header: &Header) -> (reaction:
        Option<(Wait, Vec<BatchRequest>)>)
        ensures
            final(self).config() == old(self).config(),
            final(self)@ == old(self)@.sync_batches(missing@, *header),
            match reaction {
                None => old(self)@.pending.contains_key(header.id),
                Some((wait, requests)) => {
                    &&& !old(self)@.pending.contains_key(header.id)
                    &&& syncs_batches(
                        old(self).config(),
                        old(self)@,
                        *missing,
                        *header,
                        wait,
                        requests@,
                    )
                },
            },
    {
        // Ensure we sync only once per header.
        if self.pending.contains_key(&header.id) {
            return None;
        }
        let wait = Wait { id: header.id, pool: Pool::Headers, keys: batch_keys(missing) };
        self.pending.insert(header.id, header.height);
        // Ensure we didn't already send a sync request for these batches.
        let batches = fresh_batches(missing, &self.batch_requests);
        note_batches(&mut self.batch_requests, missing, header.height);
        let requests = batch_requests(&self.config, &batches, header.author);
        Some((wait, requests))
    }

    /// Asks other primaries for a header, unless it was asked for before.
    pub fn sync_header(&mut self, missing: &Digest, now: u128) -> (broadcast: Option<Broadcast>)
        ensures
            final(self).config() == old(self).config(),
            final(self)@ == old(self)@.sync_header(*missing, now),
            match broadcast {
                None => old(self)@.header_requests.contains_key(*missing),
                Some(sent) => {
                    &&& !old(self)@.header_requests.contains_key(*missing)
                    &&& syncs_header(old(self).config(), *missing, sent)
                },
            },
    {
        let mut candidates: Vec<(Digest, Height)> = Vec::new();
        candidates.push((*missing, 0));
        assert(candidates@ =~= seq![(*missing, 0u64)]);
        proof {
            lemma_single_request(self.header_requests@, (*missing, 0u64), now);
        }
        let asked = note_requests(&mut self.header_requests, &candidates, now);
        if asked.is_empty() {
            return None;
        }
        Some(
            Broadcast {
                to: self.config.committee.others_primaries(&self.config.name),
                message: request_message(false, asked, self.config.name),
                nodes: self.config.sync_retry_nodes,
            },
        )
    }

    /// Makes a header wait for its parent, and asks its author for the parent. A header that waits
    /// already is left alone. With fast synchronisation the author is sent a message even where
    /// the parent was asked for before; it then asks for nothing.
    pub fn sync_parent(
        &mut self,
        missing: &Digest,
        header: &Header,
        lower_bound: Height,
        now: u128,
    ) -> (reaction: Option<(Wait, Option<HeaderRequest>)>)
        requires
            old(self).config().use_fast_sync && !old(self)@.pending.contains_key(header.id)
                ==> header.height > 0,
        ensures
            final(self).config() == old(self).config(),
            final(self)@ == old(self)@.sync_parent(
                old(self).config().use_fast_sync,
                *missing,
                *header,
                lower_bound,
                now,
            ),
            match reaction {
                None => old(self)@.pending.contains_key(header.id),
                Some((wait, request)) => {
                    &&& !old(self)@.pending.contains_key(header.id)
                    &&& syncs_parent(
                        old(self).config(),
                        old(self)@,
                        *missing,
                        *header,
                        lower_bound,
                        wait,
                        request,
                    )
                },
            },
    {
        // Ensure we sync only once per header.
        if self.pending.contains_key(&header.id) {
            return None;
        }
        let mut keys: Vec<Vec<u8>> = Vec::new();
        keys.push(store_keys::header_key(missing));
        assert(types::byte_strings(keys@) =~= seq![store_keys::spec_header_key(*missing)]);
        let wait = Wait { id: header.id, pool: Pool::Headers, keys };
        self.pending.insert(header.id, header.height);

        let fast = self.config.use_fast_sync;
        if fast && header.height - 1 <= lower_bound {
            // The ancestors above the bound were asked for before.
            return Some((wait, None));
        }
        // Ensure we didn't already send a sync request for this parent.
        let recorded: Height = if fast {
            lower_bound
        } else {
            header.height
        };
        let mut candidates: Vec<(Digest, Height)> = Vec::new();
        candidates.push((*missing, recorded));
        assert(candidates@ =~= seq![(*missing, recorded)]);
        proof {
            lemma_single_request(self.parent_requests@, (*missing, recorded), now);
        }
        let asked = note_requests(&mut self.parent_requests, &candidates, now);
        if !fast && asked.is_empty() {
            return Some((wait, None));
        }
        // Optimistically send the sync request to the node that created the header.
        let request = HeaderRequest {
            to: self.config.committee.primary(&header.author),
            message: request_message(fast, asked, self.config.name),
        };
        Some((wait, Some(request)))
    }

    /// Makes proposals wait for their headers, in place of an earlier wait for the same proposals,
    /// and asks the author of the header that carried them for what was not asked for yet.
    pub fn sync_proposals(
        &mut self,
        missing: &Vec<(PublicKey, Proposal, Height)>,
        message: &ConsensusMessage,
        header: &Header,
        now: u128,
    ) -> (reaction: (Wait, Option<HeaderRequest>))
        ensures
            final(self).config() == old(self).config(),
            final(self)@ == old(self)@.sync_proposals(
                old(self).config().use_fast_sync,
                missing@,
                *message,
                *header,
                now,
            ),
            syncs_proposals(
                old(self).config(),
                old(self)@,
                missing@,
                *message,
                *header,
                reaction.0,
                reaction.1,
            ),
    {
        let id = message.proposal_digest();
        let already_pending = self.pending.contains_key(&id);
        // If optimistic tips are enabled and it is a prepare message, the tips suffice.
        let pool = match message {
            ConsensusMessage::Prepare { .. } => {
                if self.config.use_optimistic_tips {
                    Pool::OptimisticTips
                } else {
                    Pool::Proposals
                }
            },
            _ => Pool::Proposals,
        };
        let wait = Wait { id, pool, keys: proposal_keys(missing, pool) };
        self.pending.insert(id, header.height);

        let fast = self.config.use_fast_sync;
        let candidates: Vec<(Digest, Height)> = if !fast {
            plain_candidates(missing)
        } else if already_pending {
            Vec::new()
        } else {
            fast_candidates(missing)
        };
        let asked = note_requests(&mut self.parent_requests, &candidates, now);
        if asked.is_empty() {
            return (wait, None);
        }
        let request = HeaderRequest {
            to: self.config.committee.primary(&header.author),
            message: request_message(fast, asked, self.config.name),
        };
        (wait, Some(request))
    }

    /// Carries out a command.
    pub fn handle(&mut self, message: &WaiterMessage, now: u128) -> (reaction: Reaction)
        requires
            message matches WaiterMessage::SyncParent(_, header, _) ==> old(
                self,
            ).config().use_fast_sync && !old(self)@.pending.contains_key(header.id)
                ==> header.height > 0,
        ensures
            final(self).config() == old(self).config(),
            final(self)@ == old(self)@.on_message(old(self).config().use_fast_sync, *message, now),
            reacts(old(self).config(), old(self)@, *message, reaction),
    {
        match message {
            WaiterMessage::SyncBatches(missing, header, _) => match self.sync_batches(
                missing,
                header,
            ) {
                Some((wait, requests)) => Reaction::SyncBatches(wait, requests),
                None => Reaction::Ignored,
            },
            WaiterMessage::SyncProposals(missing, consensus_message, header) => {
                let (wait, request) = self.sync_proposals(missing, consensus_message, header, now);
                Reaction::SyncProposals(wait, request)
            },
            WaiterMessage::SyncParent(missing, header, lower_bound) => match self.sync_parent(
                missing,
                header,
                *lower_bound,
                now,
            ) {
                Some((wait, request)) => Reaction::SyncParent(wait, request),
                None => Reaction::Ignored,
            },
            WaiterMessage::SyncHeader(missing) => Reaction::SyncHeader(
                self.sync_header(missing, now),
            ),
        }
    }

    /// Takes note that all that a header waited for has come.
    pub fn header_ready(&mut self, header: &Header)
        ensures
            final(self).config() == old(self).config(),
            final(self)@ == old(self)@.header_ready(*header),
    {
        self.pending.remove(&header.id);
        forget_payload(&mut self.batch_requests, header);
        self.parent_requests.remove(&header.parent_digest);
    }

    /// Takes note that all that proposals waited for has come.
    pub fn proposals_ready(&mut self, message: &ConsensusMessage, header: &Header)
        ensures
            final(self).config() == old(self).config(),
            final(self)@ == old(self)@.proposals_ready(*message, *header),
    {
        self.pending.remove(&message.proposal_digest());
        forget_payload(&mut self.batch_requests, header);
        forget_proposals(&mut self.parent_requests, message);
    }
}

impl HeaderWaiter {
    /// The requests that were sent so long ago that they have to be repeated.
    fn overdue(&self, now: u128) -> (asked: Vec<(Digest, Height)>)
        ensures
            overdue_requests(asked@, self@, self.config().sync_retry_delay, now),
    {
        let n = self.parent_requests.len();
        let delay = self.config.sync_retry_delay;
        let ghost walk = self.parent_requests.keys();
        let ghost digest = |a: (Digest, Height)| a.0;
        let ghost pick = |d: Digest| self@.overdue(d, delay, now);
        let mut asked: Vec<(Digest, Height)> = Vec::new();
        let mut i: usize = 0;
        while i < n
            invariant
                i <= n == walk.len(),
                delay == self.config.sync_retry_delay,
                walk == self.parent_requests.keys(),
                digest_map::ascending(walk),
                digest == (|a: (Digest, Height)| a.0),
                pick == (|d: Digest| self@.overdue(d, delay, now)),
                digest_map::ascending(asked@.map_values(digest)),
                forall|x: int|
                    0 <= x < asked@.len() ==> walk.take(i as int).contains(
                        #[trigger] asked@.map_values(digest)[x],
                    ),
                forall|x: int| 0 <= x < asked@.len() ==> pick(#[trigger] asked@.map_values(digest)[x]),
                forall|x: int|
                    0 <= x < asked@.len() ==> (#[trigger] asked@[x]).1
                        == self@.parent_requests[asked@[x].0].0,
                forall|j: int|
                    0 <= j < i && pick(#[trigger] walk[j]) ==> asked@.map_values(digest).contains(
                        walk[j],
                    ),
            decreases n - i,
        {
            let candidate = self.parent_requests.key_at(i);
            let (height, timestamp) = self.parent_requests.value_at(i);
            let ghost kept = asked@.map_values(digest);
            proof {
                lemma_walk_on(walk, i as int, kept);
            }
            if now > delay as u128 && timestamp < now - delay as u128 {
                asked.push((candidate, height));
                assert(asked@.map_values(digest) =~= kept.push(candidate));
                assert(asked@.map_values(digest)[kept.len() as int] == candidate);
                assert forall|j: int| 0 <= j < i + 1 && pick(#[trigger] walk[j]) implies asked@.map_values(
                    digest,
                ).contains(walk[j]) by {
                    if j < i {
                        let x = choose|x: int| 0 <= x < kept.len() && kept[x] == walk[j];
                        assert(asked@.map_values(digest)[x] == walk[j]);
                    }
                }
            }
            i += 1;
        }
        proof {
            lemma_walked(walk, asked@.map_values(digest), pick);
            assert forall|d: Digest| #[trigger] asked@.map_values(digest).contains(d)
                <==> self@.overdue(d, delay, now) by {
                assert(pick(d) == self@.overdue(d, delay, now));
            }
        }
        asked
    }

    /// Repeats, on a tick of the timer, the requests that were not answered in time: we optimistically
    /// sent them to a single node, and were wrong to trust it. The message goes out even where it
    /// asks for nothing.
    pub fn retry(&self, now: u128) -> (broadcast: Broadcast)
        ensures
            broadcast.to@ == self.config().committee.spec_others_primaries(self.config().name),
            repeats(
                broadcast.message,
                self.config().use_fast_sync,
                self@,
                self.config().sync_retry_delay,
                now,
                self.config().name,
            ),
            broadcast.nodes == self.config().sync_retry_nodes,
    {
        let asked = self.overdue(now);
        let ghost list = asked@;
        let message = request_message(self.config.use_fast_sync, asked, self.config.name);
        assert(asks(message, self.config.use_fast_sync, list, self.config.name));
        Broadcast {
            to: self.config.committee.others_primaries(&self.config.name),
            message,
            nodes: self.config.sync_retry_nodes,
        }
    }

    /// The waits to call off, in ascending order: those at heights that consensus, now at `round`,
    /// has left behind.
    pub fn cleanup(&self, round: Height) -> (cancelled: Vec<Digest>)
        ensures
            digest_map::ascending(cancelled@),
            forall|d: Digest| #[trigger]
                cancelled@.contains(d) <==> self@.outdated(d, self.config().gc_depth, round),
    {
        let mut cancelled: Vec<Digest> = Vec::new();
        if round <= self.config.gc_depth {
            return cancelled;
        }
        let gc_round: Height = round - self.config.gc_depth;
        let n = self.pending.len();
        let ghost walk = self.pending.keys();
        let ghost pick = |d: Digest| self@.outdated(d, self.config.gc_depth, round);
        let mut i: usize = 0;
        while i < n
            invariant
                i <= n == walk.len(),
                round > self.config.gc_depth,
                gc_round == round - self.config.gc_depth,
                walk == self.pending.keys(),
                digest_map::ascending(walk),
                pick == (|d: Digest| self@.outdated(d, self.config.gc_depth, round)),
                digest_map::ascending(cancelled@),
                forall|x: int|
                    0 <= x < cancelled@.len() ==> walk.take(i as int).contains(
                        #[trigger] cancelled@[x],
                    ),
                forall|x: int| 0 <= x < cancelled@.len() ==> pick(#[trigger] cancelled@[x]),
                forall|j: int|
                    0 <= j < i && pick(#[trigger] walk[j]) ==> cancelled@.contains(walk[j]),
            decreases n - i,
        {
            let candidate = self.pending.key_at(i);
            let ghost kept = cancelled@;
            proof {
                lemma_walk_on(walk, i as int, kept);
            }
            if self.pending.value_at(i) <= gc_round {
                cancelled.push(candidate);
                assert(cancelled@[kept.len() as int] == candidate);
                assert forall|j: int| 0 <= j < i + 1 && pick(#[trigger] walk[j]) implies cancelled@.contains(
                    walk[j],
                ) by {
                    if j < i {
                        let x = choose|x: int| 0 <= x < kept.len() && kept[x] == walk[j];
                        assert(cancelled@[x] == walk[j]);
                    }
                }
            }
            i += 1;
        }
        proof {
            lemma_walked(walk, cancelled@, pick);
            assert forall|d: Digest| #[trigger] cancelled@.contains(d) <==> self@.outdated(
                d,
                self.config.gc_depth,
                round,
            ) by {
                assert(pick(d) == self@.outdated(d, self.config.gc_depth, round));
            }
        }
        cancelled
    }
}

/// What becomes of something that waited: it is delivered if all came, dropped if the wait was
/// called off, and an error if the store failed.
pub fn settle<T, E>(end: WaitEnd<E>, deliver: T) -> (result: Result<Option<T>, E>)
    ensures
        result == match end {
            WaitEnd::Stored => Ok::<Option<T>, E>(Some(deliver)),
            WaitEnd::Cancelled => Ok(None),
            WaitEnd::Failed(error) => Err(error),
        },
{
    match end {
        WaitEnd::Stored => Ok(Some(deliver)),
        WaitEnd::Cancelled => Ok(None),
        WaitEnd::Failed(error) => Err(error),
    }
}

} // verus!

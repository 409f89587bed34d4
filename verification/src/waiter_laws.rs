//! What holds of the header waiter as a whole.

use vstd::prelude::*;

use crate::header_waiter;
use crate::header_waiter::WaiterMessage;
use crate::types::{ConsensusMessage, Digest, Header, Height, Proposal, PublicKey, WorkerId};
use crate::waiter_model;
use crate::waiter_model::WaiterState;

verus! {

/// A header is synchronised only once: after the first command for it, it waits, and while it
/// waits a further command for it changes nothing.
pub proof fn law_one_sync_per_header(
    state: WaiterState,
    header: Header,
    batches: Map<Digest, WorkerId>,
    fast: bool,
    parent: Digest,
    lower_bound: Height,
    now: u128,
)
    ensures
        state.sync_batches(batches, header).pending.contains_key(header.id),
        state.sync_parent(fast, parent, header, lower_bound, now).pending.contains_key(header.id),
        state.pending.contains_key(header.id) ==> {
            &&& state.sync_batches(batches, header) == state
            &&& state.sync_parent(fast, parent, header, lower_bound, now) == state
        },
{
}

/// The headers that are asked for are the candidates that are not known, each once.
pub proof fn law_fresh_candidates(candidates: Seq<(Digest, Height)>, known: Set<Digest>)
    ensures
        forall|d: Digest| #[trigger]
            waiter_model::asks_for(waiter_model::fresh(candidates, known), d)
                <==> waiter_model::asks_for(candidates, d) && !known.contains(d),
        waiter_model::fresh(candidates, known).map_values(
            |a: (Digest, Height)| a.0,
        ).no_duplicates(),
    decreases candidates.len(),
{
    let asked = waiter_model::fresh(candidates, known);
    let digest = |a: (Digest, Height)| a.0;
    if candidates.len() > 0 {
        let (rest, last) = (candidates.drop_last(), candidates.last());
        law_fresh_candidates(rest, known);
        let earlier = waiter_model::fresh(rest, known);
        assert forall|d: Digest| #[trigger]
            waiter_model::asks_for(candidates, d) <==> waiter_model::asks_for(rest, d) || last.0
                == d by {
            if waiter_model::asks_for(rest, d) {
                let i = choose|i: int| 0 <= i < rest.len() && (#[trigger] rest[i]).0 == d;
                assert(candidates[i].0 == d);
            }
            if waiter_model::asks_for(candidates, d) {
                let i = choose|i: int|
                    0 <= i < candidates.len() && (#[trigger] candidates[i]).0 == d;
                if i < rest.len() {
                    assert(rest[i].0 == d);
                }
            }
            assert(candidates[candidates.len() - 1] == last);
        }
        if !known.contains(last.0) && !waiter_model::asks_for(earlier, last.0) {
            assert(asked == earlier.push(last));
            assert forall|d: Digest| #[trigger]
                waiter_model::asks_for(asked, d) <==> waiter_model::asks_for(earlier, d) || last.0
                    == d by {
                if waiter_model::asks_for(earlier, d) {
                    let i = choose|i: int| 0 <= i < earlier.len() && (#[trigger] earlier[i]).0 == d;
                    assert(asked[i].0 == d);
                }
                if waiter_model::asks_for(asked, d) {
                    let i = choose|i: int| 0 <= i < asked.len() && (#[trigger] asked[i]).0 == d;
                    if i < earlier.len() {
                        assert(earlier[i].0 == d);
                    }
                }
                assert(asked[asked.len() - 1] == last);
            }
            assert(asked.map_values(digest) =~= earlier.map_values(digest).push(last.0));
            assert forall|i: int| 0 <= i < earlier.len() implies earlier.map_values(digest)[i]
                != last.0 by {
                assert(earlier[i].0 == earlier.map_values(digest)[i]);
            }
        }
        assert forall|d: Digest| #[trigger] waiter_model::asks_for(asked, d)
            <==> waiter_model::asks_for(candidates, d) && !known.contains(d) by {
            assert(waiter_model::asks_for(earlier, d) <==> waiter_model::asks_for(rest, d)
                && !known.contains(d));
            assert(waiter_model::asks_for(candidates, d) <==> waiter_model::asks_for(rest, d)
                || last.0 == d);
        }
    }
}

/// What was noted stays as it was noted: a command neither drops a request nor renews its time.
pub proof fn law_noted_requests_stay(
    state: WaiterState,
    fast: bool,
    message: WaiterMessage,
    now: u128,
)
    ensures
        state.parent_requests.submap_of(state.on_message(fast, message, now).parent_requests),
        state.header_requests.submap_of(state.on_message(fast, message, now).header_requests),
        state.batch_requests.submap_of(state.on_message(fast, message, now).batch_requests),
{
    if let WaiterMessage::SyncProposals(missing, consensus_message, _) = message {
        let asked = state.proposals_asked(fast, missing@, consensus_message);
        let known = state.parent_requests.dom();
        law_fresh_candidates(waiter_model::plain_candidates(missing@), known);
        law_fresh_candidates(waiter_model::fast_candidates(missing@), known);
        assert forall|i: int| 0 <= i < asked.len() implies !state.parent_requests.contains_key(
            (#[trigger] asked[i]).0,
        ) by {
            assert(waiter_model::asks_for(asked, asked[i].0));
        }
        lemma_noted_extends(state.parent_requests, asked, now);
    }
}

proof fn lemma_noted_extends(
    requests: Map<Digest, (Height, u128)>,
    asked: Seq<(Digest, Height)>,
    now: u128,
)
    requires
        forall|i: int| 0 <= i < asked.len() ==> !requests.contains_key((#[trigger] asked[i]).0),
    ensures
        requests.submap_of(waiter_model::noted(requests, asked, now)),
    decreases asked.len(),
{
    if asked.len() > 0 {
        let rest = asked.drop_last();
        assert forall|i: int| 0 <= i < rest.len() implies !requests.contains_key(
            (#[trigger] rest[i]).0,
        ) by {
            assert(rest[i] == asked[i]);
        }
        lemma_noted_extends(requests, rest, now);
        assert(!requests.contains_key(asked[asked.len() - 1].0));
    }
}

/// No header is asked for twice: what a command asked for is noted, and what is noted is not asked
/// for by a further command, whatever header or message it is for.
pub proof fn law_no_header_asked_twice(
    state: WaiterState,
    fast: bool,
    parent: Digest,
    header: Header,
    lower_bound: Height,
    missing: Seq<(PublicKey, Proposal, Height)>,
    message: ConsensusMessage,
    now: u128,
    digest: Digest,
)
    ensures
        waiter_model::asks_for(state.parent_asked(fast, parent, header, lower_bound), digest)
            && !state.pending.contains_key(header.id) ==> state.sync_parent(
            fast,
            parent,
            header,
            lower_bound,
            now,
        ).parent_requests.contains_key(digest),
        waiter_model::asks_for(state.proposals_asked(fast, missing, message), digest)
            ==> state.sync_proposals(fast, missing, message, header, now).parent_requests.contains_key(
            digest,
        ),
        state.parent_requests.contains_key(digest) ==> {
            &&& !waiter_model::asks_for(
                state.parent_asked(fast, parent, header, lower_bound),
                digest,
            )
            &&& !waiter_model::asks_for(state.proposals_asked(fast, missing, message), digest)
        },
{
    let known = state.parent_requests.dom();
    let for_proposals = state.proposals_asked(fast, missing, message);
    header_waiter::lemma_noted_keys(state.parent_requests, for_proposals, now);
    law_fresh_candidates(waiter_model::plain_candidates(missing), known);
    law_fresh_candidates(waiter_model::fast_candidates(missing), known);
}

/// Each missing batch that was not asked for before is asked for once, of the worker that holds it,
/// and no other batch is; no worker gets two messages.
pub proof fn law_each_batch_asked_once(batches: Seq<(Digest, WorkerId)>)
    ensures
        waiter_model::workers_of(batches).no_duplicates(),
        forall|d: Digest, w: WorkerId| #[trigger]
            batches.contains((d, w)) <==> {
                &&& waiter_model::workers_of(batches).contains(w)
                &&& waiter_model::batches_at(batches, w).contains(d)
            },
{
    lemma_workers(batches);
    assert forall|d: Digest, w: WorkerId| #[trigger] batches.contains((d, w)) <==> {
        &&& waiter_model::workers_of(batches).contains(w)
        &&& waiter_model::batches_at(batches, w).contains(d)
    } by {
        let here = batches.filter(waiter_model::held_by(w));
        let digests = waiter_model::batches_at(batches, w);
        if batches.contains((d, w)) {
            let i = choose|i: int| 0 <= i < batches.len() && batches[i] == (d, w);
            batches.lemma_filter_contains(waiter_model::held_by(w), i);
            assert(here.contains((d, w)));
            let j = choose|j: int| 0 <= j < here.len() && here[j] == (d, w);
            assert(digests[j] == d);
            assert(batches[i].1 == w);
        }
        if digests.contains(d) {
            let j = choose|j: int| 0 <= j < digests.len() && digests[j] == d;
            batches.lemma_filter_pred(waiter_model::held_by(w), j);
            assert(here.contains(here[j]));
            batches.lemma_filter_contains_rev(waiter_model::held_by(w), here[j]);
            assert(here[j] == (d, w));
        }
    }
}

proof fn lemma_workers(batches: Seq<(Digest, WorkerId)>)
    ensures
        waiter_model::workers_of(batches).no_duplicates(),
        forall|i: int|
            0 <= i < batches.len() ==> waiter_model::workers_of(batches).contains(
                (#[trigger] batches[i]).1,
            ),
    decreases batches.len(),
{
    if batches.len() > 0 {
        let rest = batches.drop_last();
        lemma_workers(rest);
        let (earlier, workers) = (waiter_model::workers_of(rest), waiter_model::workers_of(batches));
        assert forall|i: int| 0 <= i < batches.len() implies workers.contains(
            (#[trigger] batches[i]).1,
        ) by {
            if i < rest.len() {
                assert(earlier.contains(rest[i].1));
                let j = choose|j: int| 0 <= j < earlier.len() && earlier[j] == rest[i].1;
                assert(workers[j] == rest[i].1);
            } else if !earlier.contains(batches.last().1) {
                assert(workers[workers.len() - 1] == batches.last().1);
            }
        }
    }
}

/// What waiting for a parent brought about, its arrival undoes.
pub proof fn law_parent_arrival_undoes_sync(
    state: WaiterState,
    fast: bool,
    header: Header,
    lower_bound: Height,
    now: u128,
)
    requires
        !state.pending.contains_key(header.id),
        !state.parent_requests.contains_key(header.parent_digest),
        state.batch_requests.dom().disjoint(waiter_model::payload_digests(header)),
    ensures
        state.sync_parent(fast, header.parent_digest, header, lower_bound, now).header_ready(header)
            == state,
{
    let synced = state.sync_parent(fast, header.parent_digest, header, lower_bound, now);
    let restored = synced.header_ready(header);
    assert(restored.parent_requests =~= state.parent_requests);
    assert(restored.pending =~= state.pending);
    assert(restored.batch_requests =~= state.batch_requests) by {
        assert forall|d: Digest| state.batch_requests.contains_key(d) implies !(
        #[trigger] waiter_model::payload_digests(header).contains(d)) by {
            assert(state.batch_requests.dom().contains(d));
        }
    }
}

/// What waiting for batches brought about, their arrival undoes.
pub proof fn law_batch_arrival_undoes_sync(
    state: WaiterState,
    missing: Map<Digest, WorkerId>,
    header: Header,
)
    requires
        !state.pending.contains_key(header.id),
        !state.parent_requests.contains_key(header.parent_digest),
        missing.dom().subset_of(waiter_model::payload_digests(header)),
        state.batch_requests.dom().disjoint(waiter_model::payload_digests(header)),
    ensures
        state.sync_batches(missing, header).header_ready(header) == state,
{
    let restored = state.sync_batches(missing, header).header_ready(header);
    assert(restored.parent_requests =~= state.parent_requests);
    assert(restored.pending =~= state.pending);
    assert(restored.batch_requests =~= state.batch_requests) by {
        assert forall|d: Digest|
            state.batch_requests.contains_key(d) implies !waiter_model::payload_digests(
            header,
        ).contains(d) by {
            assert(state.batch_requests.dom().contains(d));
        }
        assert forall|d: Digest| missing.contains_key(d) implies waiter_model::payload_digests(
            header,
        ).contains(d) by {
            assert(missing.dom().contains(d));
        }
    }
}

/// What waiting for proposals brought about, their arrival undoes.
pub proof fn law_proposal_arrival_undoes_sync(
    state: WaiterState,
    fast: bool,
    missing: Seq<(PublicKey, Proposal, Height)>,
    message: ConsensusMessage,
    header: Header,
    now: u128,
)
    requires
        !state.pending.contains_key(message.spec_digest()),
        forall|i: int|
            0 <= i < missing.len() ==> waiter_model::proposed_digests(message).contains(
                (#[trigger] missing[i]).1.header_digest,
            ),
        state.parent_requests.dom().disjoint(waiter_model::proposed_digests(message)),
        state.batch_requests.dom().disjoint(waiter_model::payload_digests(header)),
    ensures
        state.sync_proposals(fast, missing, message, header, now).proposals_ready(message, header)
            == state,
{
    let synced = state.sync_proposals(fast, missing, message, header, now);
    let restored = synced.proposals_ready(message, header);
    let asked = state.proposals_asked(fast, missing, message);
    let proposed = waiter_model::proposed_digests(message);
    let known = state.parent_requests.dom();
    lemma_candidates_missing(missing, proposed);
    law_fresh_candidates(waiter_model::plain_candidates(missing), known);
    law_fresh_candidates(waiter_model::fast_candidates(missing), known);
    assert forall|i: int| 0 <= i < asked.len() implies proposed.contains((#[trigger] asked[i]).0)
        && !state.parent_requests.contains_key(asked[i].0) by {
        assert(waiter_model::asks_for(asked, asked[i].0));
    }
    lemma_noted_extends(state.parent_requests, asked, now);
    header_waiter::lemma_noted_keys(state.parent_requests, asked, now);
    assert(restored.parent_requests =~= state.parent_requests) by {
        assert forall|d: Digest| #[trigger]
            synced.parent_requests.contains_key(d) && !proposed.contains(
                d,
            ) implies state.parent_requests.contains_key(d) by {
            assert(synced.parent_requests.contains_key(d) <==> state.parent_requests.contains_key(d)
                || waiter_model::asks_for(asked, d));
        }
        assert forall|d: Digest| state.parent_requests.contains_key(d) implies !proposed.contains(
            d,
        ) by {
            assert(state.parent_requests.dom().contains(d));
        }
    }
    assert(restored.pending =~= state.pending);
    assert(restored.batch_requests =~= state.batch_requests) by {
        assert forall|d: Digest|
            state.batch_requests.contains_key(d) implies !waiter_model::payload_digests(
            header,
        ).contains(d) by {
            assert(state.batch_requests.dom().contains(d));
        }
    }
}

/// All candidates are missing proposals.
proof fn lemma_candidates_missing(
    missing: Seq<(PublicKey, Proposal, Height)>,
    proposed: Set<Digest>,
)
    requires
        forall|i: int|
            0 <= i < missing.len() ==> proposed.contains((#[trigger] missing[i]).1.header_digest),
    ensures
        forall|d: Digest| #[trigger]
            waiter_model::asks_for(waiter_model::plain_candidates(missing), d) ==> proposed.contains(d),
        forall|d: Digest| #[trigger]
            waiter_model::asks_for(waiter_model::fast_candidates(missing), d) ==> proposed.contains(d),
{
    let plain = waiter_model::plain_candidates(missing);
    let fast = waiter_model::fast_candidates(missing);
    let above = |m: (PublicKey, Proposal, Height)| m.1.height > m.2;
    assert forall|d: Digest| #[trigger] waiter_model::asks_for(plain, d) implies proposed.contains(
        d,
    ) by {
        let i = choose|i: int| 0 <= i < plain.len() && (#[trigger] plain[i]).0 == d;
        assert(missing[i].1.header_digest == d);
    }
    assert forall|d: Digest| #[trigger] waiter_model::asks_for(fast, d) implies proposed.contains(
        d,
    ) by {
        let i = choose|i: int| 0 <= i < fast.len() && (#[trigger] fast[i]).0 == d;
        let kept = missing.filter(above);
        assert(kept.contains(kept[i]));
        missing.lemma_filter_contains_rev(above, kept[i]);
        let j = choose|j: int| 0 <= j < missing.len() && missing[j] == kept[i];
        assert(missing[j].1.header_digest == d);
    }
}

/// A request is not overdue when it is made, and once overdue it stays so while it is noted.
pub proof fn law_overdue(state: WaiterState, digest: Digest, delay: u64, now: u128, later: u128)
    requires
        now <= later,
    ensures
        state.parent_requests.contains_key(digest) && state.parent_requests[digest].1 == now
            ==> !state.overdue(digest, delay, now),
        state.overdue(digest, delay, now) ==> state.overdue(digest, delay, later),
{
}

/// What consensus has left behind stays behind, and nothing is left behind within the depth of the
/// garbage collector.
pub proof fn law_outdated(
    state: WaiterState,
    digest: Digest,
    gc_depth: Height,
    round: Height,
    later: Height,
)
    requires
        round <= later,
    ensures
        state.outdated(digest, gc_depth, round) ==> state.outdated(digest, gc_depth, later),
        round <= gc_depth ==> !state.outdated(digest, gc_depth, round),
        state.pending.contains_key(digest) && state.pending[digest] + gc_depth > round
            ==> !state.outdated(digest, gc_depth, round),
{
}

/// A header that was asked for by digest alone stays noted when something arrives, too, so it is
/// never asked for in that way again.
pub proof fn law_header_requests_stay(
    state: WaiterState,
    header: Header,
    consensus_message: ConsensusMessage,
)
    ensures
        state.header_requests == state.header_ready(header).header_requests,
        state.header_requests == state.proposals_ready(consensus_message, header).header_requests,
{
}

/// What happens to the waiter.
pub enum WaiterEvent {
    /// A command comes, at a time.
    Command(WaiterMessage, u128),
    /// All that a header waited for has come.
    HeaderReady(Header),
    /// All that proposals waited for has come.
    ProposalsReady(ConsensusMessage, Header),
}

impl WaiterEvent {
    /// The event tells that a header that was asked for has come.
    pub open spec fn brings_header(self, digest: Digest) -> bool {
        match self {
            WaiterEvent::Command(_, _) => false,
            WaiterEvent::HeaderReady(header) => header.parent_digest == digest,
            WaiterEvent::ProposalsReady(message, _) => waiter_model::proposed_digests(
                message,
            ).contains(digest),
        }
    }

    /// The event tells that a batch that was asked for has come.
    pub open spec fn brings_batch(self, digest: Digest) -> bool {
        match self {
            WaiterEvent::Command(_, _) => false,
            WaiterEvent::HeaderReady(header) => waiter_model::payload_digests(header).contains(
                digest,
            ),
            WaiterEvent::ProposalsReady(_, header) => waiter_model::payload_digests(
                header,
            ).contains(digest),
        }
    }

    /// The event is the end of a wait.
    pub open spec fn ends_wait(self, id: Digest) -> bool {
        match self {
            WaiterEvent::Command(_, _) => false,
            WaiterEvent::HeaderReady(header) => header.id == id,
            WaiterEvent::ProposalsReady(message, _) => message.spec_digest() == id,
        }
    }
}

/// The state after an event.
pub open spec fn after(state: WaiterState, fast: bool, event: WaiterEvent) -> WaiterState {
    match event {
        WaiterEvent::Command(message, now) => state.on_message(fast, message, now),
        WaiterEvent::HeaderReady(header) => state.header_ready(header),
        WaiterEvent::ProposalsReady(message, header) => state.proposals_ready(message, header),
    }
}

/// The state after some events.
pub open spec fn after_all(state: WaiterState, fast: bool, events: Seq<WaiterEvent>) -> WaiterState
    decreases events.len(),
{
    if events.len() == 0 {
        state
    } else {
        after(after_all(state, fast, events.drop_last()), fast, events.last())
    }
}

/// A header that was asked for stays noted, with the time of the first request, until it comes. So
/// from when it is overdue it is asked for again on every tick, whatever else happens.
pub proof fn law_asked_until_it_comes(
    state: WaiterState,
    fast: bool,
    events: Seq<WaiterEvent>,
    digest: Digest,
    delay: u64,
    now: u128,
)
    requires
        state.parent_requests.contains_key(digest),
        forall|i: int| 0 <= i < events.len() ==> !(#[trigger] events[i]).brings_header(digest),
    ensures
        ({
            let later = after_all(state, fast, events);
            &&& later.parent_requests.contains_key(digest)
            &&& later.parent_requests[digest] == state.parent_requests[digest]
            &&& later.overdue(digest, delay, now) <==> state.overdue(digest, delay, now)
        }),
    decreases events.len(),
{
    if events.len() > 0 {
        let (rest, last) = (events.drop_last(), events.last());
        assert forall|i: int| 0 <= i < rest.len() implies !(#[trigger] rest[i]).brings_header(
            digest,
        ) by {
            assert(rest[i] == events[i]);
        }
        law_asked_until_it_comes(state, fast, rest, digest, delay, now);
        assert(!events[events.len() - 1].brings_header(digest));
        if let WaiterEvent::Command(message, time) = last {
            law_noted_requests_stay(after_all(state, fast, rest), fast, message, time);
        }
    }
}

/// A batch that was asked for stays noted until it comes, so it is asked for only once till then.
pub proof fn law_batch_noted_until_it_comes(
    state: WaiterState,
    fast: bool,
    events: Seq<WaiterEvent>,
    digest: Digest,
)
    requires
        state.batch_requests.contains_key(digest),
        forall|i: int| 0 <= i < events.len() ==> !(#[trigger] events[i]).brings_batch(digest),
    ensures
        ({
            let later = after_all(state, fast, events);
            &&& later.batch_requests.contains_key(digest)
            &&& later.batch_requests[digest] == state.batch_requests[digest]
        }),
    decreases events.len(),
{
    if events.len() > 0 {
        let (rest, last) = (events.drop_last(), events.last());
        assert forall|i: int| 0 <= i < rest.len() implies !(#[trigger] rest[i]).brings_batch(
            digest,
        ) by {
            assert(rest[i] == events[i]);
        }
        law_batch_noted_until_it_comes(state, fast, rest, digest);
        assert(!events[events.len() - 1].brings_batch(digest));
        if let WaiterEvent::Command(message, time) = last {
            law_noted_requests_stay(after_all(state, fast, rest), fast, message, time);
        }
    }
}

/// What waits, waits until all has come that it waits for: nothing else takes it out.
pub proof fn law_waits_until_ready(
    state: WaiterState,
    fast: bool,
    events: Seq<WaiterEvent>,
    id: Digest,
)
    requires
        state.pending.contains_key(id),
        forall|i: int| 0 <= i < events.len() ==> !(#[trigger] events[i]).ends_wait(id),
    ensures
        after_all(state, fast, events).pending.contains_key(id),
    decreases events.len(),
{
    if events.len() > 0 {
        let rest = events.drop_last();
        assert forall|i: int| 0 <= i < rest.len() implies !(#[trigger] rest[i]).ends_wait(id) by {
            assert(rest[i] == events[i]);
        }
        law_waits_until_ready(state, fast, rest, id);
        assert(!events[events.len() - 1].ends_wait(id));
    }
}

} // verus!

//! What the header waiter asks for, whom it asks, and what each event leaves behind.

use vstd::prelude::*;

use crate::digest_map;
use crate::digest_map::DigestMap;
use crate::header_waiter;
use crate::header_waiter::{
    BatchRequest, Broadcast, HeaderRequest, Pool, Reaction, Wait, WaiterConfig, WaiterMessage,
};
use crate::order;
use crate::store_keys;
use crate::types;
use crate::types::{
    ConsensusMessage, Digest, Header, Height, PrimaryMessage, PrimaryWorkerMessage, Proposal,
    PublicKey, WorkerId,
};
use crate::waiter_laws;
use crate::waiter_model;
use crate::waiter_model::WaiterState;

verus! {

/// A message names each header that is asked for, in order, with fast synchronisation beside its bound,
/// and the authority that asks.
pub proof fn law_message(
    message: PrimaryMessage,
    fast: bool,
    asked: Seq<(Digest, Height)>,
    by: PublicKey,
)
    requires
        header_waiter::asks(message, fast, asked, by),
    ensures
        fast ==> (message matches PrimaryMessage::FastSyncHeadersRequest(list, name) && name == by
            && list@ == asked),
        !fast ==> (message matches PrimaryMessage::HeadersRequest(digests, name) && name == by
            && digests@.len() == asked.len() && forall|i: int|
            0 <= i < asked.len() ==> #[trigger] digests@[i] == asked[i].0),
{
}

/// A header that is asked for by digest alone is asked of all other primaries, of which as many are picked
/// as requests are repeated to.
pub proof fn law_header_request(config: WaiterConfig, missing: Digest, sent: Broadcast)
    requires
        header_waiter::syncs_header(config, missing, sent),
    ensures
        sent.to@ == config.committee.spec_others_primaries(config.name),
        sent.nodes == config.sync_retry_nodes,
        sent.message matches PrimaryMessage::HeadersRequest(digests, name) && name == config.name
            && digests@ == seq![missing],
{
    let asked = seq![(missing, 0u64)];
    assert(asked.map_values(|a: (Digest, Height)| a.0) =~= seq![missing]);
}

/// A header asked for by digest alone is noted with the time, unless it was before; nothing else changes.
pub proof fn law_header_request_noted(state: WaiterState, missing: Digest, now: u128)
    ensures
        ({
            let later = state.sync_header(missing, now);
            &&& later.pending == state.pending
            &&& later.parent_requests == state.parent_requests
            &&& later.batch_requests == state.batch_requests
            &&& state.header_requests.contains_key(missing) ==> later.header_requests
                == state.header_requests
            &&& !state.header_requests.contains_key(missing) ==> later.header_requests
                == state.header_requests.insert(missing, (0u64, now))
        }),
{
}

/// A header waits for the key of its parent, which is the digest. Its author is asked for the parent unless
/// that was asked for before. With fast synchronisation the author is asked, too, for the ancestors above
/// the bound; it is sent a message if and only if the parent, one below the header, stands above the bound.
pub proof fn law_parent_request(
    config: WaiterConfig,
    state: WaiterState,
    missing: Digest,
    header: Header,
    lower_bound: Height,
    wait: Wait,
    request: Option<HeaderRequest>,
)
    requires
        header_waiter::syncs_parent(config, state, missing, header, lower_bound, wait, request),
    ensures
        wait.id == header.id,
        wait.pool == Pool::Headers,
        wait.keys@.len() == 1,
        wait.keys@[0]@ == missing.0@,
        config.use_fast_sync ==> (request is Some <==> header.height > lower_bound + 1),
        !config.use_fast_sync ==> (request is Some <==> !state.parent_requests.contains_key(missing)),
        request matches Some(sent) ==> {
            &&& sent.to == config.committee.spec_primary(header.author)
            &&& config.use_fast_sync ==> (sent.message matches PrimaryMessage::FastSyncHeadersRequest(
                list,
                name,
            ) && name == config.name && list@ == if state.parent_requests.contains_key(missing) {
                Seq::<(Digest, Height)>::empty()
            } else {
                seq![(missing, lower_bound)]
            })
            &&& !config.use_fast_sync ==> (sent.message matches PrimaryMessage::HeadersRequest(
                digests,
                name,
            ) && name == config.name && digests@ == seq![missing])
        },
{
    types::law_byte_strings(wait.keys@);
    store_keys::law_header_key_bytes(missing);
    assert(types::byte_strings(wait.keys@)[0] == wait.keys@[0]@);
    assert(wait.keys@[0]@ =~= missing.0@);
    assert(seq![(missing, header.height)].map_values(|a: (Digest, Height)| a.0) =~= seq![missing]);
    assert(Seq::<(Digest, Height)>::empty().map_values(|a: (Digest, Height)| a.0) =~= Seq::empty());
}

/// A header that waits already changes nothing. Else it waits, at its height, and what was asked for is
/// noted: with the height of the header, or with fast synchronisation with the bound.
pub proof fn law_parent_request_noted(
    state: WaiterState,
    fast: bool,
    missing: Digest,
    header: Header,
    lower_bound: Height,
    now: u128,
)
    ensures
        ({
            let later = state.sync_parent(fast, missing, header, lower_bound, now);
            let asked = !state.parent_requests.contains_key(missing) && (fast ==> header.height
                > lower_bound + 1);
            let noted = if fast {
                lower_bound
            } else {
                header.height
            };
            &&& state.pending.contains_key(header.id) ==> later == state
            &&& !state.pending.contains_key(header.id) ==> {
                &&& later.pending == state.pending.insert(header.id, header.height)
                &&& later.header_requests == state.header_requests
                &&& later.batch_requests == state.batch_requests
                &&& asked ==> later.parent_requests == state.parent_requests.insert(
                    missing,
                    (noted, now),
                )
                &&& !asked ==> later.parent_requests == state.parent_requests
            }
        }),
{
}

/// What one more missing proposal adds to what is asked for: itself, behind the others, unless it is asked
/// for already. With fast synchronisation it counts only above its bound, with which it is asked for, and
/// nothing is asked for while the proposals of the message wait.
pub proof fn law_one_more_proposal(
    state: WaiterState,
    fast: bool,
    missing: Seq<(PublicKey, Proposal, Height)>,
    one: (PublicKey, Proposal, Height),
    message: ConsensusMessage,
)
    ensures
        state.proposals_asked(fast, Seq::empty(), message).len() == 0,
        ({
            let earlier = state.proposals_asked(fast, missing, message);
            let all = state.proposals_asked(fast, missing.push(one), message);
            let wanted = fast ==> one.1.height > one.2 && !state.pending.contains_key(
                message.spec_digest(),
            );
            let new = !state.parent_requests.contains_key(one.1.header_digest) && forall|k: int|
                0 <= k < earlier.len() ==> (#[trigger] earlier[k]).0 != one.1.header_digest;
            let noted = if fast {
                one.2
            } else {
                one.1.height
            };
            &&& wanted && new ==> all == earlier.push((one.1.header_digest, noted))
            &&& !(wanted && new) ==> all == earlier
        }),
{
    let more = missing.push(one);
    let above = |m: (PublicKey, Proposal, Height)| m.1.height > m.2;
    reveal(Seq::filter);
    assert(more.drop_last() =~= missing);
    let (plain, plain_more) = (
        waiter_model::plain_candidates(missing),
        waiter_model::plain_candidates(more),
    );
    let (fast_list, fast_more) = (
        waiter_model::fast_candidates(missing),
        waiter_model::fast_candidates(more),
    );
    assert(plain_more =~= plain.push((one.1.header_digest, one.1.height)));
    assert(plain_more.drop_last() =~= plain);
    if one.1.height > one.2 {
        assert(fast_more =~= fast_list.push((one.1.header_digest, one.2)));
        assert(fast_more.drop_last() =~= fast_list);
    } else {
        assert(fast_more =~= fast_list);
    }
    assert(waiter_model::plain_candidates(Seq::empty()) =~= Seq::empty());
    assert(Seq::<(PublicKey, Proposal, Height)>::empty().filter(above) =~= Seq::empty());
    assert(waiter_model::fast_candidates(Seq::empty()) =~= Seq::empty());
}

/// Every missing proposal that is not known, and with fast synchronisation stands above its bound, is asked
/// for, unless with fast synchronisation the proposals of the message wait already.
pub proof fn law_missing_proposals_are_asked_for(
    state: WaiterState,
    fast: bool,
    missing: Seq<(PublicKey, Proposal, Height)>,
    message: ConsensusMessage,
    i: int,
)
    requires
        0 <= i < missing.len(),
        !state.parent_requests.contains_key(missing[i].1.header_digest),
        fast ==> missing[i].1.height > missing[i].2 && !state.pending.contains_key(
            message.spec_digest(),
        ),
    ensures
        exists|k: int|
            0 <= k < state.proposals_asked(fast, missing, message).len() && (
            #[trigger] state.proposals_asked(fast, missing, message)[k]).0
                == missing[i].1.header_digest,
    decreases missing.len(),
{
    let rest = missing.drop_last();
    let earlier = state.proposals_asked(fast, rest, message);
    let asked = state.proposals_asked(fast, missing, message);
    assert(missing =~= rest.push(missing.last()));
    law_one_more_proposal(state, fast, rest, missing.last(), message);
    if i < rest.len() {
        law_missing_proposals_are_asked_for(state, fast, rest, message, i);
        let k = choose|k: int|
            0 <= k < earlier.len() && (#[trigger] earlier[k]).0 == missing[i].1.header_digest;
        assert(asked[k] == earlier[k]);
    } else if forall|k: int|
        0 <= k < earlier.len() ==> (#[trigger] earlier[k]).0 != missing[i].1.header_digest {
        assert(asked[asked.len() - 1].0 == missing[i].1.header_digest);
    } else {
        let k = choose|k: int|
            0 <= k < earlier.len() && (#[trigger] earlier[k]).0 == missing[i].1.header_digest;
        assert(asked[k] == earlier[k]);
    }
}

/// Nothing else is asked for: each header that is, is a missing proposal that is not known, beside its bound
/// or height, and none is asked for twice.
pub proof fn law_only_missing_proposals_are_asked_for(
    state: WaiterState,
    fast: bool,
    missing: Seq<(PublicKey, Proposal, Height)>,
    message: ConsensusMessage,
)
    ensures
        ({
            let asked = state.proposals_asked(fast, missing, message);
            &&& forall|k: int|
                0 <= k < asked.len() ==> {
                    &&& !state.parent_requests.contains_key((#[trigger] asked[k]).0)
                    &&& exists|i: int|
                        0 <= i < missing.len() && (#[trigger] missing[i]).1.header_digest == asked[k].0
                            && if fast {
                            asked[k].1 == missing[i].2 && missing[i].1.height > missing[i].2
                        } else {
                            asked[k].1 == missing[i].1.height
                        }
                }
            &&& forall|k: int, l: int|
                0 <= k < l < asked.len() ==> (#[trigger] asked[k]).0 != (#[trigger] asked[l]).0
        }),
    decreases missing.len(),
{
    if missing.len() == 0 {
        assert(missing =~= Seq::empty());
        law_one_more_proposal(state, fast, missing, arbitrary(), message);
    } else {
        let rest = missing.drop_last();
        let earlier = state.proposals_asked(fast, rest, message);
        let asked = state.proposals_asked(fast, missing, message);
        assert(missing =~= rest.push(missing.last()));
        law_one_more_proposal(state, fast, rest, missing.last(), message);
        law_only_missing_proposals_are_asked_for(state, fast, rest, message);
        assert forall|k: int| 0 <= k < asked.len() implies {
            &&& !state.parent_requests.contains_key((#[trigger] asked[k]).0)
            &&& exists|i: int|
                0 <= i < missing.len() && (#[trigger] missing[i]).1.header_digest == asked[k].0
                    && if fast {
                    asked[k].1 == missing[i].2 && missing[i].1.height > missing[i].2
                } else {
                    asked[k].1 == missing[i].1.height
                }
        } by {
            if k < earlier.len() {
                assert(asked[k] == earlier[k]);
                let i = choose|i: int|
                    0 <= i < rest.len() && (#[trigger] rest[i]).1.header_digest == earlier[k].0
                        && if fast {
                        earlier[k].1 == rest[i].2 && rest[i].1.height > rest[i].2
                    } else {
                        earlier[k].1 == rest[i].1.height
                    };
                assert(missing[i] == rest[i]);
            } else {
                assert(missing[missing.len() - 1] == missing.last());
            }
        }
        assert forall|k: int, l: int| 0 <= k < l < asked.len() implies (#[trigger] asked[k]).0 != (
        #[trigger] asked[l]).0 by {
            assert(asked[k] == earlier[k]);
            if l < earlier.len() {
                assert(asked[l] == earlier[l]);
            }
        }
    }
}

/// Proposals wait for the keys of their headers, in order: the digests, or for a prepare message with
/// optimistic tips the digests with a one behind. The author of the header that carried them is sent what is
/// asked for, if there is anything.
pub proof fn law_proposals_request(
    config: WaiterConfig,
    state: WaiterState,
    missing: Seq<(PublicKey, Proposal, Height)>,
    message: ConsensusMessage,
    header: Header,
    wait: Wait,
    request: Option<HeaderRequest>,
)
    requires
        header_waiter::syncs_proposals(config, state, missing, message, header, wait, request),
    ensures
        wait.id == message.spec_digest(),
        wait.pool == Pool::OptimisticTips <==> message is Prepare && config.use_optimistic_tips,
        wait.pool != Pool::OptimisticTips ==> wait.pool == Pool::Proposals,
        wait.keys@.len() == missing.len(),
        forall|i: int|
            0 <= i < missing.len() ==> (#[trigger] wait.keys@[i])@ == if message is Prepare
                && config.use_optimistic_tips {
                missing[i].1.header_digest.0@.push(1u8)
            } else {
                missing[i].1.header_digest.0@
            },
        ({
            let asked = state.proposals_asked(config.use_fast_sync, missing, message);
            &&& request is Some <==> asked.len() > 0
            &&& request matches Some(sent) ==> {
                &&& sent.to == config.committee.spec_primary(header.author)
                &&& config.use_fast_sync ==> (
                sent.message matches PrimaryMessage::FastSyncHeadersRequest(list, name) && name
                    == config.name && list@ == asked)
                &&& !config.use_fast_sync ==> (sent.message matches PrimaryMessage::HeadersRequest(
                    digests,
                    name,
                ) && name == config.name && digests@.len() == asked.len() && forall|i: int|
                    0 <= i < asked.len() ==> #[trigger] digests@[i] == asked[i].0)
            }
        }),
{
    types::law_byte_strings(wait.keys@);
    assert forall|i: int| 0 <= i < missing.len() implies (#[trigger] wait.keys@[i])@ == if message
        is Prepare && config.use_optimistic_tips {
        missing[i].1.header_digest.0@.push(1u8)
    } else {
        missing[i].1.header_digest.0@
    } by {
        let digest = missing[i].1.header_digest;
        store_keys::law_header_key_bytes(digest);
        store_keys::law_tip_key_bytes(digest);
        assert(types::byte_strings(wait.keys@)[i] == wait.keys@[i]@);
        assert(store_keys::spec_tip_key(digest) =~= digest.0@.push(1u8));
        assert(store_keys::spec_header_key(digest) =~= digest.0@);
    }
}

/// The requests of a list are noted with their heights and the time.
proof fn lemma_noted(
    requests: Map<Digest, (Height, u128)>,
    asked: Seq<(Digest, Height)>,
    now: u128,
)
    requires
        forall|k: int, l: int|
            0 <= k < l < asked.len() ==> (#[trigger] asked[k]).0 != (#[trigger] asked[l]).0,
    ensures
        ({
            let noted = waiter_model::noted(requests, asked, now);
            &&& forall|k: int|
                0 <= k < asked.len() ==> noted.contains_key((#[trigger] asked[k]).0)
                    && noted[asked[k].0] == (asked[k].1, now)
            &&& forall|d: Digest|
                (forall|k: int| 0 <= k < asked.len() ==> (#[trigger] asked[k]).0 != d) ==> (
                #[trigger] noted.contains_key(d) <==> requests.contains_key(d)) && (
                requests.contains_key(d) ==> noted[d] == requests[d])
        }),
    decreases asked.len(),
{
    if asked.len() > 0 {
        let rest = asked.drop_last();
        assert forall|k: int, l: int| 0 <= k < l < rest.len() implies (#[trigger] rest[k]).0 != (
        #[trigger] rest[l]).0 by {
            assert(rest[k] == asked[k] && rest[l] == asked[l]);
        }
        lemma_noted(requests, rest, now);
        let earlier = waiter_model::noted(requests, rest, now);
        let noted = waiter_model::noted(requests, asked, now);
        let last = asked[asked.len() - 1];
        assert forall|k: int| 0 <= k < asked.len() implies noted.contains_key((#[trigger] asked[k]).0)
            && noted[asked[k].0] == (asked[k].1, now) by {
            if k < rest.len() {
                assert(rest[k] == asked[k]);
                assert(asked[k].0 != last.0);
            }
        }
        assert forall|d: Digest|
            (forall|k: int| 0 <= k < asked.len() ==> (#[trigger] asked[k]).0 != d) implies (
        #[trigger] noted.contains_key(d) <==> requests.contains_key(d)) && (requests.contains_key(d)
            ==> noted[d] == requests[d]) by {
            assert(last.0 != d);
            assert forall|k: int| 0 <= k < rest.len() implies (#[trigger] rest[k]).0 != d by {
                assert(rest[k] == asked[k]);
            }
            assert(earlier.contains_key(d) <==> requests.contains_key(d));
        }
    }
}

/// Proposals wait, at the height of the header that carried them. What is asked for is noted, beside its
/// height or bound and with the time, and what was noted before stays as it was.
pub proof fn law_proposals_request_noted(
    state: WaiterState,
    fast: bool,
    missing: Seq<(PublicKey, Proposal, Height)>,
    message: ConsensusMessage,
    header: Header,
    now: u128,
)
    ensures
        ({
            let later = state.sync_proposals(fast, missing, message, header, now);
            let asked = state.proposals_asked(fast, missing, message);
            &&& later.pending == state.pending.insert(message.spec_digest(), header.height)
            &&& later.header_requests == state.header_requests
            &&& later.batch_requests == state.batch_requests
            &&& forall|k: int|
                0 <= k < asked.len() ==> later.parent_requests.contains_key((#[trigger] asked[k]).0)
                    && later.parent_requests[asked[k].0] == (asked[k].1, now)
            &&& forall|d: Digest| #[trigger]
                state.parent_requests.contains_key(d) ==> later.parent_requests.contains_key(d)
                    && later.parent_requests[d] == state.parent_requests[d]
            &&& forall|d: Digest| #[trigger]
                later.parent_requests.contains_key(d) && !state.parent_requests.contains_key(d)
                    ==> exists|k: int| 0 <= k < asked.len() && (#[trigger] asked[k]).0 == d
        }),
{
    let asked = state.proposals_asked(fast, missing, message);
    law_only_missing_proposals_are_asked_for(state, fast, missing, message);
    lemma_noted(state.parent_requests, asked, now);
    let later = state.sync_proposals(fast, missing, message, header, now);
    assert forall|d: Digest| #[trigger]
        state.parent_requests.contains_key(d) implies later.parent_requests.contains_key(d)
        && later.parent_requests[d] == state.parent_requests[d] by {
        assert forall|k: int| 0 <= k < asked.len() implies (#[trigger] asked[k]).0 != d by {
            assert(!state.parent_requests.contains_key(asked[k].0));
        }
        assert(later.parent_requests.contains_key(d) <==> state.parent_requests.contains_key(d));
    }
}

/// The batches of one worker are each there once.
proof fn lemma_batches_once(batches: Seq<(Digest, WorkerId)>, worker_id: WorkerId)
    requires
        forall|i: int, j: int|
            0 <= i < j < batches.len() ==> (#[trigger] batches[i]).0 != (#[trigger] batches[j]).0,
    ensures
        waiter_model::batches_at(batches, worker_id).no_duplicates(),
        forall|d: Digest| #[trigger]
            waiter_model::batches_at(batches, worker_id).contains(d) ==> exists|i: int|
                0 <= i < batches.len() && #[trigger] batches[i] == (d, worker_id),
    decreases batches.len(),
{
    reveal(Seq::filter);
    if batches.len() > 0 {
        let rest = batches.drop_last();
        let last = batches.last();
        assert forall|i: int, j: int| 0 <= i < j < rest.len() implies (#[trigger] rest[i]).0 != (
        #[trigger] rest[j]).0 by {
            assert(rest[i] == batches[i] && rest[j] == batches[j]);
        }
        lemma_batches_once(rest, worker_id);
        let earlier = waiter_model::batches_at(rest, worker_id);
        let all = waiter_model::batches_at(batches, worker_id);
        if last.1 == worker_id {
            assert(all =~= earlier.push(last.0));
            assert(!earlier.contains(last.0)) by {
                if earlier.contains(last.0) {
                    let i = choose|i: int|
                        0 <= i < rest.len() && #[trigger] rest[i] == (last.0, worker_id);
                    assert(batches[i].0 == batches[batches.len() - 1].0);
                }
            }
            assert forall|i: int, j: int| 0 <= i < j < all.len() implies all[i] != all[j] by {
                assert(all[i] == earlier[i]);
                assert(earlier.contains(earlier[i]));
            }
        } else {
            assert(all =~= earlier);
        }
        assert forall|d: Digest| #[trigger] all.contains(d) implies exists|i: int|
            0 <= i < batches.len() && #[trigger] batches[i] == (d, worker_id) by {
            let x = choose|x: int| 0 <= x < all.len() && all[x] == d;
            if x < earlier.len() {
                assert(earlier[x] == d);
                assert(earlier.contains(d));
                let i = choose|i: int| 0 <= i < rest.len() && #[trigger] rest[i] == (d, worker_id);
                assert(batches[i] == (d, worker_id));
            } else {
                assert(batches[batches.len() - 1] == (d, worker_id));
            }
        }
    }
}

/// The batches that are asked for are the missing ones that are not known, each once.
proof fn lemma_fresh_batches(
    walk: Seq<Digest>,
    missing: Map<Digest, WorkerId>,
    known: Map<Digest, Height>,
)
    requires
        walk.no_duplicates(),
    ensures
        ({
            let batches = waiter_model::fresh_batches(walk, missing, known);
            &&& forall|d: Digest, w: WorkerId| #[trigger]
                batches.contains((d, w)) <==> walk.contains(d) && missing[d] == w
                    && !known.contains_key(d)
            &&& forall|i: int, j: int|
                0 <= i < j < batches.len() ==> (#[trigger] batches[i]).0 != (#[trigger] batches[j]).0
        }),
    decreases walk.len(),
{
    reveal(Seq::filter);
    let batches = waiter_model::fresh_batches(walk, missing, known);
    if walk.len() > 0 {
        let (rest, last) = (walk.drop_last(), walk.last());
        lemma_fresh_batches(rest, missing, known);
        let earlier = waiter_model::fresh_batches(rest, missing, known);
        if known.contains_key(last) {
            assert(batches =~= earlier);
        } else {
            assert(batches =~= earlier.push((last, missing[last])));
        }
        assert forall|d: Digest| #[trigger] walk.contains(d) <==> rest.contains(d) || d == last by {
            if rest.contains(d) {
                let i = choose|i: int| 0 <= i < rest.len() && rest[i] == d;
                assert(walk[i] == d);
            }
            if walk.contains(d) {
                let i = choose|i: int| 0 <= i < walk.len() && walk[i] == d;
                if i < rest.len() {
                    assert(rest[i] == d);
                }
            }
            assert(walk[walk.len() - 1] == last);
        }
        assert(!rest.contains(last)) by {
            if rest.contains(last) {
                let i = choose|i: int| 0 <= i < rest.len() && rest[i] == last;
                assert(walk[i] == walk[walk.len() - 1]);
            }
        }
        assert forall|d: Digest, w: WorkerId| #[trigger] batches.contains((d, w)) <==> walk.contains(d)
            && missing[d] == w && !known.contains_key(d) by {
            assert(earlier.contains((d, w)) <==> rest.contains(d) && missing[d] == w
                && !known.contains_key(d));
            if earlier.contains((d, w)) {
                let i = choose|i: int| 0 <= i < earlier.len() && earlier[i] == (d, w);
                assert(batches[i] == (d, w));
            }
            if batches.contains((d, w)) {
                let i = choose|i: int| 0 <= i < batches.len() && batches[i] == (d, w);
                if i < earlier.len() {
                    assert(earlier[i] == (d, w));
                }
            }
            if d == last && missing[d] == w && !known.contains_key(d) {
                assert(batches[batches.len() - 1] == (d, w));
            }
        }
        assert forall|i: int, j: int| 0 <= i < j < batches.len() implies (#[trigger] batches[i]).0 != (
        #[trigger] batches[j]).0 by {
            assert(batches[i] == earlier[i]);
            assert(earlier.contains((earlier[i].0, earlier[i].1)));
            if j < earlier.len() {
                assert(batches[j] == earlier[j]);
            }
        }
    }
}

/// A header waits for the key of each of its missing batches: the digest, and then the number of the worker
/// that holds it.
pub proof fn law_batch_wait(
    config: WaiterConfig,
    state: WaiterState,
    missing: DigestMap<WorkerId>,
    header: Header,
    wait: Wait,
    requests: Seq<BatchRequest>,
)
    requires
        header_waiter::syncs_batches(config, state, missing, header, wait, requests),
    ensures
        wait.id == header.id,
        wait.pool == Pool::Headers,
        wait.keys@.len() == missing.keys().len(),
        missing.keys().no_duplicates(),
        forall|d: Digest| #[trigger] missing@.contains_key(d) <==> missing.keys().contains(d),
        forall|i: int|
            0 <= i < missing.keys().len() ==> {
                let key = (#[trigger] wait.keys@[i])@;
                &&& key.len() == 36
                &&& key.take(32) == missing.keys()[i].0@
                &&& missing@[missing.keys()[i]] == key[32] + 0x100 * key[33] + 0x1_0000 * key[34]
                    + 0x100_0000 * key[35]
            },
{
    types::law_byte_strings(wait.keys@);
    digest_map::law_walk(missing);
    let keys = missing.keys();
    assert forall|i: int| 0 <= i < keys.len() implies {
        let key = (#[trigger] wait.keys@[i])@;
        &&& key.len() == 36
        &&& key.take(32) == keys[i].0@
        &&& missing@[keys[i]] == key[32] + 0x100 * key[33] + 0x1_0000 * key[34] + 0x100_0000
            * key[35]
    } by {
        store_keys::law_batch_key_bytes(keys[i], missing@[keys[i]]);
        assert(types::byte_strings(wait.keys@)[i] == wait.keys@[i]@);
        assert(store_keys::spec_batch_key(keys[i], missing@[keys[i]]).take(32) =~= keys[i].0@);
    }
}

/// Our workers are asked for exactly the missing batches that are not known: each worker that holds some of
/// them gets one message, at its own address, which names the author and all of these batches that it
/// holds, each once.
pub proof fn law_batch_requests(
    config: WaiterConfig,
    state: WaiterState,
    missing: DigestMap<WorkerId>,
    header: Header,
    wait: Wait,
    requests: Seq<BatchRequest>,
)
    requires
        header_waiter::syncs_batches(config, state, missing, header, wait, requests),
    ensures
        forall|i: int, j: int|
            0 <= i < j < requests.len() ==> (#[trigger] requests[i]).worker_id != (
            #[trigger] requests[j]).worker_id,
        forall|i: int|
            0 <= i < requests.len() ==> {
                &&& (#[trigger] requests[i]).to == config.committee.spec_worker(
                    config.name,
                    requests[i].worker_id,
                )
                &&& requests[i].message matches PrimaryWorkerMessage::Synchronize(digests, author)
                &&& author == header.author
                &&& digests@.no_duplicates()
                &&& digests@.len() > 0
                &&& forall|d: Digest| #[trigger]
                    digests@.contains(d) <==> missing@.contains_key(d) && missing@[d]
                        == requests[i].worker_id && !state.batch_requests.contains_key(d)
            },
        forall|d: Digest| #[trigger]
            missing@.contains_key(d) && !state.batch_requests.contains_key(d) ==> exists|i: int|
                0 <= i < requests.len() && (#[trigger] requests[i]).worker_id == missing@[d],
{
    digest_map::law_walk(missing);
    let batches = waiter_model::fresh_batches(missing.keys(), missing@, state.batch_requests);
    let workers = waiter_model::workers_of(batches);
    lemma_fresh_batches(missing.keys(), missing@, state.batch_requests);
    waiter_laws::law_each_batch_asked_once(batches);
    assert forall|i: int, j: int| 0 <= i < j < requests.len() implies (
    #[trigger] requests[i]).worker_id != (#[trigger] requests[j]).worker_id by {
        assert(workers[i] != workers[j]);
    }
    assert forall|i: int| 0 <= i < requests.len() implies {
        &&& (#[trigger] requests[i]).to == config.committee.spec_worker(
            config.name,
            requests[i].worker_id,
        )
        &&& requests[i].message matches PrimaryWorkerMessage::Synchronize(digests, author)
        &&& author == header.author
        &&& digests@.no_duplicates()
        &&& digests@.len() > 0
        &&& forall|d: Digest| #[trigger]
            digests@.contains(d) <==> missing@.contains_key(d) && missing@[d]
                == requests[i].worker_id && !state.batch_requests.contains_key(d)
    } by {
        let w = requests[i].worker_id;
        let here = waiter_model::batches_at(batches, w);
        lemma_batches_once(batches, w);
        assert(workers[i] == w);
        assert(workers.contains(w));
        assert forall|d: Digest| #[trigger] here.contains(d) <==> missing@.contains_key(d)
            && missing@[d] == w && !state.batch_requests.contains_key(d) by {
            assert(batches.contains((d, w)) <==> missing.keys().contains(d) && missing@[d] == w
                && !state.batch_requests.contains_key(d));
        }
        lemma_worker_has_batch(batches, i);
        let j = choose|j: int| 0 <= j < batches.len() && (#[trigger] batches[j]).1 == workers[i];
        assert(batches.contains((batches[j].0, w)));
        assert(here.contains(batches[j].0));
    }
    assert forall|d: Digest| #[trigger]
        missing@.contains_key(d) && !state.batch_requests.contains_key(d) implies exists|i: int|
        0 <= i < requests.len() && (#[trigger] requests[i]).worker_id == missing@[d] by {
        let w = missing@[d];
        assert(batches.contains((d, w)));
        assert(workers.contains(w));
        let i = choose|i: int| 0 <= i < workers.len() && workers[i] == w;
        assert(requests[i].worker_id == w);
    }
}

/// Each worker of the list holds a batch.
proof fn lemma_worker_has_batch(batches: Seq<(Digest, WorkerId)>, i: int)
    requires
        0 <= i < waiter_model::workers_of(batches).len(),
    ensures
        exists|j: int|
            0 <= j < batches.len() && (#[trigger] batches[j]).1 == waiter_model::workers_of(
                batches,
            )[i],
    decreases batches.len(),
{
    if batches.len() > 0 {
        let rest = batches.drop_last();
        let (earlier, all) = (waiter_model::workers_of(rest), waiter_model::workers_of(batches));
        if i < earlier.len() {
            lemma_worker_has_batch(rest, i);
            let j = choose|j: int| 0 <= j < rest.len() && (#[trigger] rest[j]).1 == earlier[i];
            assert(batches[j].1 == all[i]);
        } else {
            assert(batches[batches.len() - 1].1 == all[i]);
        }
    }
}

/// A header that waits already changes nothing. Else it waits, at its height, and each missing batch that is
/// not known is noted with that height; what was noted before stays as it was.
pub proof fn law_batch_requests_noted(
    state: WaiterState,
    missing: Map<Digest, WorkerId>,
    header: Header,
)
    ensures
        ({
            let later = state.sync_batches(missing, header);
            &&& state.pending.contains_key(header.id) ==> later == state
            &&& !state.pending.contains_key(header.id) ==> {
                &&& later.pending == state.pending.insert(header.id, header.height)
                &&& later.parent_requests == state.parent_requests
                &&& later.header_requests == state.header_requests
                &&& forall|d: Digest| #[trigger]
                    later.batch_requests.contains_key(d) <==> state.batch_requests.contains_key(d)
                        || missing.contains_key(d)
                &&& forall|d: Digest|
                    #![trigger later.batch_requests[d]]
                    later.batch_requests.contains_key(d) ==> later.batch_requests[d] == if
                        state.batch_requests.contains_key(d) {
                        state.batch_requests[d]
                    } else {
                        header.height
                    }
            }
        }),
{
}

/// When all that a header waited for has come, the header waits no longer, its batches and its parent can be
/// asked for again, and nothing else changes.
pub proof fn law_header_arrival(state: WaiterState, header: Header)
    ensures
        ({
            let later = state.header_ready(header);
            &&& later.pending == state.pending.remove(header.id)
            &&& later.parent_requests == state.parent_requests.remove(header.parent_digest)
            &&& later.header_requests == state.header_requests
            &&& forall|d: Digest| #[trigger]
                later.batch_requests.contains_key(d) <==> state.batch_requests.contains_key(d) && (
                forall|i: int|
                    0 <= i < header.payload@.len() ==> (#[trigger] header.payload@[i]).0 != d)
            &&& forall|d: Digest| #[trigger]
                later.batch_requests.contains_key(d) ==> later.batch_requests[d]
                    == state.batch_requests[d]
        }),
{
    let later = state.header_ready(header);
    assert forall|d: Digest| #[trigger]
        later.batch_requests.contains_key(d) <==> state.batch_requests.contains_key(d) && (forall|
        i: int,
    |
        0 <= i < header.payload@.len() ==> (#[trigger] header.payload@[i]).0 != d) by {
        assert(waiter_model::payload_digests(header).contains(d) <==> exists|i: int|
            0 <= i < header.payload@.len() && (#[trigger] header.payload@[i]).0 == d);
    }
}

/// When all that proposals waited for has come, they wait no longer, the batches of the header that carried
/// them and all headers that the message proposes can be asked for again, and nothing else changes.
pub proof fn law_proposals_arrival(state: WaiterState, message: ConsensusMessage, header: Header)
    ensures
        ({
            let later = state.proposals_ready(message, header);
            &&& later.pending == state.pending.remove(message.spec_digest())
            &&& later.header_requests == state.header_requests
            &&& forall|d: Digest| #[trigger]
                later.batch_requests.contains_key(d) <==> state.batch_requests.contains_key(d) && (
                forall|i: int|
                    0 <= i < header.payload@.len() ==> (#[trigger] header.payload@[i]).0 != d)
            &&& forall|d: Digest| #[trigger]
                later.batch_requests.contains_key(d) ==> later.batch_requests[d]
                    == state.batch_requests[d]
            &&& forall|d: Digest| #[trigger]
                later.parent_requests.contains_key(d) <==> state.parent_requests.contains_key(d) && (
                forall|i: int|
                    0 <= i < message.spec_proposals().len() ==> (
                    #[trigger] message.spec_proposals()[i]).1.header_digest != d)
            &&& forall|d: Digest| #[trigger]
                later.parent_requests.contains_key(d) ==> later.parent_requests[d]
                    == state.parent_requests[d]
        }),
{
    let later = state.proposals_ready(message, header);
    assert forall|d: Digest| #[trigger]
        later.batch_requests.contains_key(d) <==> state.batch_requests.contains_key(d) && (forall|
        i: int,
    |
        0 <= i < header.payload@.len() ==> (#[trigger] header.payload@[i]).0 != d) by {
        assert(waiter_model::payload_digests(header).contains(d) <==> exists|i: int|
            0 <= i < header.payload@.len() && (#[trigger] header.payload@[i]).0 == d);
    }
    assert forall|d: Digest| #[trigger]
        later.parent_requests.contains_key(d) <==> state.parent_requests.contains_key(d) && (forall|
        i: int,
    |
        0 <= i < message.spec_proposals().len() ==> (
        #[trigger] message.spec_proposals()[i]).1.header_digest != d) by {
        assert(waiter_model::proposed_digests(message).contains(d) <==> exists|i: int|
            0 <= i < message.spec_proposals().len() && (
            #[trigger] message.spec_proposals()[i]).1.header_digest == d);
    }
}

/// A tick repeats exactly the requests that were made more than the delay ago: for every delay, a request
/// made at some time is repeated if that time and the delay together lie before now, and else not. Each is
/// repeated once, with fast synchronisation beside the bound noted for it.
pub proof fn law_repeated(
    message: PrimaryMessage,
    fast: bool,
    state: WaiterState,
    delay: u64,
    now: u128,
    by: PublicKey,
)
    requires
        header_waiter::repeats(message, fast, state, delay, now, by),
    ensures
        !fast ==> {
            &&& message matches PrimaryMessage::HeadersRequest(digests, name)
            &&& name == by
            &&& digests@.no_duplicates()
            &&& forall|d: Digest| #[trigger]
                digests@.contains(d) <==> state.parent_requests.contains_key(d)
                    && state.parent_requests[d].1 + delay < now
        },
        fast ==> {
            &&& message matches PrimaryMessage::FastSyncHeadersRequest(list, name)
            &&& name == by
            &&& list@.no_duplicates()
            &&& forall|d: Digest, bound: Height| #[trigger]
                list@.contains((d, bound)) <==> {
                    &&& state.parent_requests.contains_key(d)
                    &&& state.parent_requests[d].1 + delay < now
                    &&& bound == state.parent_requests[d].0
                }
        },
{
    let asked = choose|asked: Seq<(Digest, Height)>|
        {
            &&& #[trigger] header_waiter::asks(message, fast, asked, by)
            &&& header_waiter::overdue_requests(asked, state, delay, now)
        };
    let digests = asked.map_values(|a: (Digest, Height)| a.0);
    assert forall|i: int, j: int| 0 <= i < j < digests.len() implies digests[i] != digests[j] by {
        digest_map::law_ascending(digests, i, j);
    }
    assert forall|d: Digest| #[trigger] digests.contains(d) <==> state.parent_requests.contains_key(d)
        && state.parent_requests[d].1 + delay < now by {
        assert(digests.contains(d) <==> state.overdue(d, delay, now));
    }
    assert forall|i: int, j: int| 0 <= i < j < asked.len() implies asked[i] != asked[j] by {
        assert(digests[i] == asked[i].0 && digests[j] == asked[j].0);
    }
    assert forall|d: Digest, bound: Height| #[trigger] asked.contains((d, bound)) <==> {
        &&& state.parent_requests.contains_key(d)
        &&& state.parent_requests[d].1 + delay < now
        &&& bound == state.parent_requests[d].0
    } by {
        if asked.contains((d, bound)) {
            let i = choose|i: int| 0 <= i < asked.len() && asked[i] == (d, bound);
            assert(digests[i] == d);
            assert(digests.contains(d));
        }
        if digests.contains(d) && bound == state.parent_requests[d].0 {
            let i = choose|i: int| 0 <= i < digests.len() && digests[i] == d;
            assert(asked[i] == (d, bound));
        }
        assert(digests.contains(d) <==> state.parent_requests.contains_key(d)
            && state.parent_requests[d].1 + delay < now);
    }
}

/// What is repeated comes in ascending order.
pub proof fn law_repeated_in_order(
    message: PrimaryMessage,
    fast: bool,
    state: WaiterState,
    delay: u64,
    now: u128,
    by: PublicKey,
)
    requires
        header_waiter::repeats(message, fast, state, delay, now, by),
    ensures
        message matches PrimaryMessage::HeadersRequest(digests, _) ==> forall|i: int, j: int|
            0 <= i < j < digests@.len() ==> order::precedes(
                (#[trigger] digests@[i]).0,
                (#[trigger] digests@[j]).0,
            ),
        message matches PrimaryMessage::FastSyncHeadersRequest(list, _) ==> forall|i: int, j: int|
            0 <= i < j < list@.len() ==> order::precedes(
                (#[trigger] list@[i]).0.0,
                (#[trigger] list@[j]).0.0,
            ),
{
    let asked = choose|asked: Seq<(Digest, Height)>|
        {
            &&& #[trigger] header_waiter::asks(message, fast, asked, by)
            &&& header_waiter::overdue_requests(asked, state, delay, now)
        };
    let digests = asked.map_values(|a: (Digest, Height)| a.0);
    assert forall|i: int, j: int| 0 <= i < j < asked.len() implies order::precedes(
        (#[trigger] asked[i]).0.0,
        (#[trigger] asked[j]).0.0,
    ) by {
        digest_map::law_ascending(digests, i, j);
    }
}

/// A parent that is asked for at some time is due for repetition at a later time if and only if more than the
/// delay has passed, whatever the delay is.
pub proof fn law_due_after_delay(
    state: WaiterState,
    fast: bool,
    missing: Digest,
    header: Header,
    lower_bound: Height,
    time: u128,
    delay: u64,
    now: u128,
)
    requires
        !state.pending.contains_key(header.id),
        !state.parent_requests.contains_key(missing),
        fast ==> header.height > lower_bound + 1,
    ensures
        state.sync_parent(fast, missing, header, lower_bound, time).overdue(missing, delay, now)
            <==> time + delay < now,
{
}

/// A wait is called off if and only if its height lies at least the depth of the garbage collector behind the
/// round, and the round is beyond that depth.
pub proof fn law_called_off(state: WaiterState, digest: Digest, gc_depth: Height, round: Height)
    ensures
        state.outdated(digest, gc_depth, round) <==> {
            &&& state.pending.contains_key(digest)
            &&& round > gc_depth
            &&& state.pending[digest] + gc_depth <= round
        },
{
}

/// Each command is answered with its own reaction: a header that waits already is ignored, a header that was
/// asked for by digest alone is not asked for again, and all else is carried out.
pub proof fn law_reaction(
    config: WaiterConfig,
    state: WaiterState,
    message: WaiterMessage,
    reaction: Reaction,
)
    requires
        header_waiter::reacts(config, state, message, reaction),
    ensures
        match message {
            WaiterMessage::SyncBatches(missing, header, _) => if state.pending.contains_key(header.id) {
                reaction == Reaction::Ignored
            } else {
                reaction matches Reaction::SyncBatches(wait, requests)
                    && header_waiter::syncs_batches(config, state, missing, header, wait, requests@)
            },
            WaiterMessage::SyncProposals(missing, consensus_message, header) => {
                reaction matches Reaction::SyncProposals(wait, request)
                    && header_waiter::syncs_proposals(
                    config,
                    state,
                    missing@,
                    consensus_message,
                    header,
                    wait,
                    request,
                )
            },
            WaiterMessage::SyncParent(missing, header, lower_bound) => if state.pending.contains_key(
                header.id,
            ) {
                reaction == Reaction::Ignored
            } else {
                reaction matches Reaction::SyncParent(wait, request) && header_waiter::syncs_parent(
                    config,
                    state,
                    missing,
                    header,
                    lower_bound,
                    wait,
                    request,
                )
            },
            WaiterMessage::SyncHeader(missing) => if state.header_requests.contains_key(missing) {
                reaction == Reaction::SyncHeader(None)
            } else {
                reaction matches Reaction::SyncHeader(Some(sent)) && header_waiter::syncs_header(
                    config,
                    missing,
                    sent,
                )
            },
        },
{
}

/// Each command changes the state as the one operation that it stands for.
pub proof fn law_command(
    state: WaiterState,
    fast: bool,
    now: u128,
    batches: DigestMap<WorkerId>,
    proposals: Vec<(PublicKey, Proposal, Height)>,
    consensus_message: ConsensusMessage,
    header: Header,
    digest: Digest,
    lower_bound: Height,
    force: bool,
)
    ensures
        state.on_message(fast, WaiterMessage::SyncBatches(batches, header, force), now)
            == state.sync_batches(batches@, header),
        state.on_message(
            fast,
            WaiterMessage::SyncProposals(proposals, consensus_message, header),
            now,
        ) == state.sync_proposals(fast, proposals@, consensus_message, header, now),
        state.on_message(fast, WaiterMessage::SyncParent(digest, header, lower_bound), now)
            == state.sync_parent(fast, digest, header, lower_bound, now),
        state.on_message(fast, WaiterMessage::SyncHeader(digest), now) == state.sync_header(digest, now),
{
}

/// At first nothing waits and nothing is noted.
pub proof fn law_beginning(digest: Digest)
    ensures
        !WaiterState::initial().pending.contains_key(digest),
        !WaiterState::initial().parent_requests.contains_key(digest),
        !WaiterState::initial().header_requests.contains_key(digest),
        !WaiterState::initial().batch_requests.contains_key(digest),
{
}

/// Between two ticks lies a second, so that a request that falls due is repeated within a second after its
/// delay has passed.
pub proof fn law_tick(time: u128, delay: u64, tick: u128)
    requires
        tick <= time + delay,
        time + delay < tick + header_waiter::TIMER_RESOLUTION,
    ensures
        time + delay < tick + 1_000,
        header_waiter::TIMER_RESOLUTION == 1_000,
{
}

} // verus!

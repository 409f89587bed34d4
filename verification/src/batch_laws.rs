//! What holds of the batches that are made.

use vstd::prelude::*;

use crate::asynchrony;
use crate::asynchrony::{Effect, Network, Peer};
use crate::batch_maker;
use crate::batch_maker::{
    AsyncEffectType, BatchMakerConfig, BatchState, Held, Released, SealedBatch,
};
use crate::encoding;
use crate::numbers;
use crate::partition;
use crate::types::{Address, PublicKey};

verus! {

/// What happens to the batch maker.
pub enum BatchEvent {
    /// A transaction comes.
    Transaction(Seq<u8>),
    /// The timer of the batch goes off.
    Timer,
    /// A timer of an effect goes off.
    AsyncTimer(Effect),
}

/// The state after an event.
pub open spec fn after(state: BatchState, batch_size: usize, event: BatchEvent) -> BatchState {
    match event {
        BatchEvent::Transaction(transaction) => state.on_transaction(batch_size, transaction),
        BatchEvent::Timer => state.on_timer(),
        BatchEvent::AsyncTimer(effect) => state.on_async_timer(effect),
    }
}

/// The batches, none or one, that an event makes the batch maker seal.
pub open spec fn sealed_by(state: BatchState, batch_size: usize, event: BatchEvent) -> Seq<
    Seq<Seq<u8>>,
> {
    match event {
        BatchEvent::Transaction(transaction) => if state.add(transaction).is_full(batch_size) {
            seq![state.add(transaction).current]
        } else {
            Seq::empty()
        },
        BatchEvent::Timer => if state.current.len() > 0 {
            seq![state.current]
        } else {
            Seq::empty()
        },
        BatchEvent::AsyncTimer(_) => Seq::empty(),
    }
}

/// The state after some events.
pub open spec fn after_all(state: BatchState, batch_size: usize, events: Seq<BatchEvent>) -> BatchState
    decreases events.len(),
{
    if events.len() == 0 {
        state
    } else {
        after(after_all(state, batch_size, events.drop_last()), batch_size, events.last())
    }
}

/// The batches that were sealed during some events, in order.
pub open spec fn sealed_by_all(state: BatchState, batch_size: usize, events: Seq<BatchEvent>) -> Seq<
    Seq<Seq<u8>>,
>
    decreases events.len(),
{
    if events.len() == 0 {
        Seq::empty()
    } else {
        sealed_by_all(state, batch_size, events.drop_last()) + sealed_by(
            after_all(state, batch_size, events.drop_last()),
            batch_size,
            events.last(),
        )
    }
}

/// The transactions that came, in order.
pub open spec fn transactions(events: Seq<BatchEvent>) -> Seq<Seq<u8>>
    decreases events.len(),
{
    if events.len() == 0 {
        Seq::empty()
    } else {
        match events.last() {
            BatchEvent::Transaction(transaction) => transactions(events.drop_last()).push(transaction),
            _ => transactions(events.drop_last()),
        }
    }
}

/// The transactions of some batches, one batch after the other.
pub open spec fn joined(batches: Seq<Seq<Seq<u8>>>) -> Seq<Seq<u8>>
    decreases batches.len(),
{
    if batches.len() == 0 {
        Seq::empty()
    } else {
        joined(batches.drop_last()) + batches.last()
    }
}

/// No transaction is lost, doubled or put out of order: the sealed batches and the current one
/// together hold what the current batch held at first and then all transactions that came.
pub proof fn law_no_transaction_lost(state: BatchState, batch_size: usize, events: Seq<BatchEvent>)
    ensures
        joined(sealed_by_all(state, batch_size, events)) + after_all(
            state,
            batch_size,
            events,
        ).current == state.current + transactions(events),
    decreases events.len(),
{
    if events.len() == 0 {
        assert(joined(sealed_by_all(state, batch_size, events)) + state.current =~= state.current
            + transactions(events));
    } else {
        let rest = events.drop_last();
        law_no_transaction_lost(state, batch_size, rest);
        let before = after_all(state, batch_size, rest);
        let earlier = sealed_by_all(state, batch_size, rest);
        let new = sealed_by(before, batch_size, events.last());
        let all = sealed_by_all(state, batch_size, events);
        if new.len() == 1 {
            assert(all =~= earlier.push(new[0]));
            assert(all.drop_last() =~= earlier);
            assert(joined(all) == joined(earlier) + new[0]);
        } else {
            assert(all =~= earlier);
        }
        let current = after(before, batch_size, events.last()).current;
        match events.last() {
            BatchEvent::Transaction(transaction) => {
                assert(joined(all) + current =~= (joined(earlier) + before.current).push(
                    transaction,
                ));
                assert((state.current + transactions(rest)).push(transaction) =~= state.current
                    + transactions(events));
            },
            _ => {
                assert(joined(all) + current =~= joined(earlier) + before.current);
            },
        }
        assert(joined(sealed_by_all(state, batch_size, events)) + after_all(
            state,
            batch_size,
            events,
        ).current =~= state.current + transactions(events));
    }
}

/// The current batch is empty or has not reached the size at which it is sealed.
pub open spec fn not_full(state: BatchState, batch_size: usize) -> bool {
    state.current.len() == 0 || encoding::total_bytes(state.current) < batch_size
}

/// A full batch never stays unsealed.
pub proof fn law_never_full(state: BatchState, batch_size: usize, events: Seq<BatchEvent>)
    requires
        not_full(state, batch_size),
    ensures
        not_full(after_all(state, batch_size, events), batch_size),
    decreases events.len(),
{
    if events.len() > 0 {
        law_never_full(state, batch_size, events.drop_last());
    }
}

/// A sealed batch is not empty, and without its last transaction it would not have been full: it is
/// sealed by the first transaction that fills it, if no timer seals it before.
pub proof fn law_sealed_batches(state: BatchState, batch_size: usize, events: Seq<BatchEvent>)
    requires
        not_full(state, batch_size),
    ensures
        forall|i: int|
            0 <= i < sealed_by_all(state, batch_size, events).len() ==> {
                let batch = #[trigger] sealed_by_all(state, batch_size, events)[i];
                &&& batch.len() > 0
                &&& batch.len() > 1 ==> encoding::total_bytes(batch.drop_last()) < batch_size
            },
    decreases events.len(),
{
    if events.len() > 0 {
        let rest = events.drop_last();
        let before = after_all(state, batch_size, rest);
        let earlier = sealed_by_all(state, batch_size, rest);
        let all = sealed_by_all(state, batch_size, events);
        law_sealed_batches(state, batch_size, rest);
        law_never_full(state, batch_size, rest);
        assert forall|i: int| 0 <= i < all.len() implies {
            let batch = #[trigger] all[i];
            &&& batch.len() > 0
            &&& batch.len() > 1 ==> encoding::total_bytes(batch.drop_last()) < batch_size
        } by {
            if i < earlier.len() {
                assert(all[i] == earlier[i]);
            } else {
                let batch = all[i];
                assert(batch == sealed_by(before, batch_size, events.last())[i - earlier.len()]);
                match events.last() {
                    BatchEvent::Transaction(transaction) => {
                        assert(batch.drop_last() =~= before.current);
                    },
                    _ => {
                        if batch.len() > 1 {
                            assert(batch.drop_last().push(batch.last()) =~= batch);
                            encoding::lemma_total_push(batch.drop_last(), batch.last());
                        }
                    },
                }
            }
        }
    }
}

/// An effect goes on from the first of its timers to the second, whatever other effects do meanwhile.
pub proof fn law_effect_lasts(
    state: BatchState,
    batch_size: usize,
    events: Seq<BatchEvent>,
    effect: Effect,
)
    requires
        forall|i: int| 0 <= i < events.len() ==> #[trigger] events[i] != BatchEvent::AsyncTimer(effect),
    ensures
        after_all(state, batch_size, events).network.ongoing.contains(effect)
            <==> state.network.ongoing.contains(effect),
        effect.reaches_us ==> (state.on_async_timer(effect).network.ongoing.contains(effect)
            <==> !state.network.ongoing.contains(effect)),
    decreases events.len(),
{
    if events.len() > 0 {
        let rest = events.drop_last();
        assert forall|i: int| 0 <= i < rest.len() implies #[trigger] rest[i]
            != BatchEvent::AsyncTimer(effect) by {
            assert(rest[i] == events[i]);
        }
        law_effect_lasts(state, batch_size, rest, effect);
        assert(events[events.len() - 1] != BatchEvent::AsyncTimer(effect));
    }
}

/// An effect that does not reach us changes nothing and releases nothing.
pub proof fn law_unreached(state: BatchState, effect: Effect)
    requires
        !effect.reaches_us,
    ensures
        state.on_async_timer(effect) == state,
        state.due(effect).len() == 0,
{
}

/// An effect during which no batch is sealed leaves no trace.
pub proof fn law_effect_ends(state: BatchState, effect: Effect)
    requires
        state.network.is_quiet(),
        state.queue.len() == 0,
    ensures
        state.on_async_timer(effect).on_async_timer(effect) == state,
        state.on_async_timer(effect).due(effect).len() == 0,
{
    let restored = state.on_async_timer(effect).on_async_timer(effect);
    assert(restored.network.ongoing =~= state.network.ongoing) by {
        assert(!state.network.ongoing.contains(effect));
    }
    assert(restored.queue =~= state.queue);
}

/// The batches, each owed to the same workers.
pub open spec fn marked(batches: Seq<Seq<Seq<u8>>>, workers: Seq<Peer>) -> Seq<Held> {
    batches.map_values(|batch: Seq<Seq<u8>>| Held { batch, workers })
}

/// A batch that is sealed during effects is put into the queue, behind those that are there, with the
/// workers that it is owed to; the queue changes otherwise only when an effect ends.
pub proof fn law_queue(state: BatchState, batch_size: usize, event: BatchEvent)
    ensures
        after(state, batch_size, event).queue == match event {
            BatchEvent::AsyncTimer(effect) => if state.network.ends(effect) {
                batch_maker::kept_back(state.queue, state.network.after(effect))
            } else {
                state.queue
            },
            _ => if state.network.is_quiet() {
                state.queue
            } else {
                state.queue + marked(
                    sealed_by(state, batch_size, event),
                    state.network.owed(state.workers),
                )
            },
        },
{
    let new = marked(sealed_by(state, batch_size, event), state.network.owed(state.workers));
    if new.len() == 0 {
        assert(state.queue + new =~= state.queue);
    } else {
        assert(state.queue + new =~= state.queue.push(new[0]));
    }
}

/// Nothing is kept while no effect is going on.
pub proof fn law_queue_empty_between_effects(
    state: BatchState,
    batch_size: usize,
    events: Seq<BatchEvent>,
)
    requires
        state.network.is_quiet() ==> state.queue.len() == 0,
    ensures
        after_all(state, batch_size, events).network.is_quiet() ==> after_all(
            state,
            batch_size,
            events,
        ).queue.len() == 0,
    decreases events.len(),
{
    if events.len() > 0 {
        law_queue_empty_between_effects(state, batch_size, events.drop_last());
        let before = after_all(state, batch_size, events.drop_last());
        let later = after(before, batch_size, events.last());
        law_queue(before, batch_size, events.last());
        if let BatchEvent::AsyncTimer(effect) = events.last() {
            if later.network.is_quiet() {
                if before.network.ends(effect) {
                    lemma_nothing_kept(before.queue, later.network);
                } else {
                    assert forall|e: Effect| !(#[trigger] before.network.ongoing.contains(e)) by {
                        assert(!later.network.ongoing.contains(e));
                    }
                    assert(before.network.is_quiet());
                }
            }
        } else {
            assert(later.network == before.network);
        }
    }
}

proof fn lemma_nothing_kept(queue: Seq<Held>, network: Network)
    requires
        network.is_quiet(),
    ensures
        batch_maker::kept_back(queue, network).len() == 0,
    decreases queue.len(),
{
    if queue.len() > 0 {
        lemma_nothing_kept(queue.drop_last(), network);
    }
}

/// The batches of a queue that are for one worker, in their order.
pub open spec fn batches_for(queue: Seq<Held>, worker: Peer) -> Seq<Seq<Seq<u8>>>
    decreases queue.len(),
{
    if queue.len() == 0 {
        Seq::empty()
    } else {
        let earlier = batches_for(queue.drop_last(), worker);
        if queue.last().workers.contains(worker) {
            earlier.push(queue.last().batch)
        } else {
            earlier
        }
    }
}

/// When effects end, a worker that can be reached is sent all that it is owed, and nothing of it is kept;
/// for a worker that cannot be reached all is kept.
proof fn lemma_release(queue: Seq<Held>, network: Network, worker: Peer)
    ensures
        batches_for(batch_maker::released_now(queue, network), worker) == if network.lets(worker.0) {
            batches_for(queue, worker)
        } else {
            Seq::empty()
        },
        batches_for(batch_maker::kept_back(queue, network), worker) == if network.lets(worker.0) {
            Seq::empty()
        } else {
            batches_for(queue, worker)
        },
    decreases queue.len(),
{
    if queue.len() > 0 {
        let (rest, last) = (queue.drop_last(), queue.last());
        lemma_release(rest, network, worker);
        asynchrony::law_reached(network, last.workers, worker);
        let (reached, withheld) = (network.reached(last.workers), network.withheld(last.workers));
        let now = batch_maker::released_now(rest, network);
        let later = batch_maker::kept_back(rest, network);
        assert(now.push(Held { batch: last.batch, workers: reached }).drop_last() =~= now);
        assert(later.push(Held { batch: last.batch, workers: withheld }).drop_last() =~= later);
    }
}

/// What a seal adds to what is owed to a worker.
proof fn lemma_sealed_for(state: BatchState, batch_size: usize, event: BatchEvent, worker: Peer)
    requires
        !(event is AsyncTimer),
        state.workers.contains(worker),
    ensures
        batches_for(after(state, batch_size, event).queue, worker) == batches_for(state.queue, worker)
            + if state.network.is_failing() || state.network.lets(worker.0) {
            Seq::empty()
        } else {
            sealed_by(state, batch_size, event)
        },
{
    let queue = after(state, batch_size, event).queue;
    let new = sealed_by(state, batch_size, event);
    let owed = state.network.owed(state.workers);
    asynchrony::law_reached(state.network, state.workers, worker);
    law_queue(state, batch_size, event);
    if new.len() == 1 && !state.network.is_quiet() {
        let held = Held { batch: new[0], workers: owed };
        assert(queue =~= state.queue.push(held));
        assert(queue.drop_last() =~= state.queue);
        assert(batches_for(state.queue, worker).push(new[0]) =~= batches_for(state.queue, worker)
            + new);
    } else {
        assert(queue =~= state.queue);
        if new.len() == 1 {
            assert(state.network.lets(worker.0));
        } else {
            assert(new =~= Seq::empty());
        }
    }
    assert(batches_for(state.queue, worker) + Seq::empty() =~= batches_for(state.queue, worker));
}

/// The batches that a worker has missed: those that were sealed, other than during a failure, since
/// effects keep us from the worker without a break. At first these are the ones that are owed to it
/// already.
pub open spec fn missed(
    state: BatchState,
    batch_size: usize,
    events: Seq<BatchEvent>,
    worker: Peer,
) -> Seq<Seq<Seq<u8>>>
    decreases events.len(),
{
    if events.len() == 0 {
        batches_for(state.queue, worker)
    } else {
        let before = after_all(state, batch_size, events.drop_last());
        if after(before, batch_size, events.last()).network.lets(worker.0) {
            Seq::empty()
        } else if before.network.is_failing() {
            missed(state, batch_size, events.drop_last(), worker)
        } else {
            missed(state, batch_size, events.drop_last(), worker) + sealed_by(
                before,
                batch_size,
                events.last(),
            )
        }
    }
}

/// Whatever effects start and end, at any time the queue owes each worker exactly the batches that it has
/// missed, in the order in which they were sealed.
pub proof fn law_owed_is_missed(
    state: BatchState,
    batch_size: usize,
    events: Seq<BatchEvent>,
    worker: Peer,
)
    requires
        state.workers.contains(worker),
        state.network.lets(worker.0) ==> batches_for(state.queue, worker).len() == 0,
    ensures
        batches_for(after_all(state, batch_size, events).queue, worker) == missed(
            state,
            batch_size,
            events,
            worker,
        ),
        after_all(state, batch_size, events).network.lets(worker.0) ==> missed(
            state,
            batch_size,
            events,
            worker,
        ).len() == 0,
        after_all(state, batch_size, events).workers == state.workers,
    decreases events.len(),
{
    if events.len() > 0 {
        let (rest, last) = (events.drop_last(), events.last());
        law_owed_is_missed(state, batch_size, rest, worker);
        let before = after_all(state, batch_size, rest);
        let later = after(before, batch_size, last);
        let earlier = missed(state, batch_size, rest, worker);
        if let BatchEvent::AsyncTimer(effect) = last {
            lemma_release(before.queue, later.network, worker);
            if !before.network.ends(effect) && later.network.lets(worker.0) {
                asynchrony::law_start_opens_nothing(before.network, effect, worker.0);
            }
            assert(earlier + sealed_by(before, batch_size, last) =~= earlier);
        } else {
            lemma_sealed_for(before, batch_size, last, worker);
            assert(earlier + Seq::empty() =~= earlier);
        }
        if later.network.lets(worker.0) {
            assert(batches_for(later.queue, worker) =~= Seq::empty());
        }
    }
}

/// Whatever effects start and end, when the last effect ends that keeps us from a worker, the worker is
/// sent exactly the batches that it has missed, in the order in which they were sealed. As long as an
/// effect keeps us from it, it is sent nothing.
pub proof fn law_all_is_released(
    state: BatchState,
    batch_size: usize,
    events: Seq<BatchEvent>,
    effect: Effect,
    worker: Peer,
)
    requires
        state.workers.contains(worker),
        state.network.lets(worker.0) ==> batches_for(state.queue, worker).len() == 0,
    ensures
        ({
            let during = after_all(state, batch_size, events);
            batches_for(during.due(effect), worker) == if during.network.after(effect).lets(worker.0) {
                missed(state, batch_size, events, worker)
            } else {
                Seq::empty()
            }
        }),
{
    let during = after_all(state, batch_size, events);
    law_owed_is_missed(state, batch_size, events, worker);
    lemma_release(during.queue, during.network.after(effect), worker);
    if !during.network.ends(effect) && during.network.after(effect).lets(worker.0) {
        asynchrony::law_start_opens_nothing(during.network, effect, worker.0);
        assert(missed(state, batch_size, events, worker) =~= Seq::empty());
    }
}

/// The batches that were sealed other than during a failure, in order.
pub open spec fn sealed_unfailing(
    state: BatchState,
    batch_size: usize,
    events: Seq<BatchEvent>,
) -> Seq<Seq<Seq<u8>>>
    decreases events.len(),
{
    if events.len() == 0 {
        Seq::empty()
    } else {
        let before = after_all(state, batch_size, events.drop_last());
        let earlier = sealed_unfailing(state, batch_size, events.drop_last());
        if before.network.is_failing() {
            earlier
        } else {
            earlier + sealed_by(before, batch_size, events.last())
        }
    }
}

/// A worker that effects keep us from all the time has missed all that was sealed, other than during a
/// failure: when the last of these effects ends, this is what it is sent.
pub proof fn law_all_is_missed(
    state: BatchState,
    batch_size: usize,
    events: Seq<BatchEvent>,
    worker: Peer,
)
    requires
        state.queue.len() == 0,
        forall|n: int|
            0 < n <= events.len() ==> !(#[trigger] after_all(
                state,
                batch_size,
                events.take(n),
            )).network.lets(worker.0),
    ensures
        missed(state, batch_size, events, worker) == sealed_unfailing(state, batch_size, events),
    decreases events.len(),
{
    if events.len() > 0 {
        let rest = events.drop_last();
        assert forall|n: int| 0 < n <= rest.len() implies !(#[trigger] after_all(
            state,
            batch_size,
            rest.take(n),
        )).network.lets(worker.0) by {
            assert(rest.take(n) =~= events.take(n));
        }
        law_all_is_missed(state, batch_size, rest, worker);
        assert(events.take(events.len() as int) =~= events);
        assert(!after_all(state, batch_size, events).network.lets(worker.0));
    }
}

/// The batches that an event makes us send to a worker: what is sealed, if the worker can be reached, and
/// what is released to it.
pub open spec fn sent_by(
    state: BatchState,
    batch_size: usize,
    event: BatchEvent,
    worker: Peer,
) -> Seq<Seq<Seq<u8>>> {
    match event {
        BatchEvent::AsyncTimer(effect) => batches_for(state.due(effect), worker),
        _ => if state.network.reached(state.workers).contains(worker) {
            sealed_by(state, batch_size, event)
        } else {
            Seq::empty()
        },
    }
}

/// The batches that were sent to a worker during some events, in the order of sending.
pub open spec fn sent_by_all(
    state: BatchState,
    batch_size: usize,
    events: Seq<BatchEvent>,
    worker: Peer,
) -> Seq<Seq<Seq<u8>>>
    decreases events.len(),
{
    if events.len() == 0 {
        Seq::empty()
    } else {
        let before = after_all(state, batch_size, events.drop_last());
        sent_by_all(state, batch_size, events.drop_last(), worker) + sent_by(
            before,
            batch_size,
            events.last(),
            worker,
        )
    }
}

/// Whatever effects start and end, each batch is sent to each worker once, or is still owed to it, unless
/// it was sealed during a failure: then it is never sent.
pub proof fn law_sent_once(
    state: BatchState,
    batch_size: usize,
    events: Seq<BatchEvent>,
    worker: Peer,
)
    requires
        state.workers.contains(worker),
    ensures
        sent_by_all(state, batch_size, events, worker).to_multiset().add(
            batches_for(after_all(state, batch_size, events).queue, worker).to_multiset(),
        ) == batches_for(state.queue, worker).to_multiset().add(
            sealed_unfailing(state, batch_size, events).to_multiset(),
        ),
        after_all(state, batch_size, events).workers == state.workers,
    decreases events.len(),
{
    let sent = sent_by_all(state, batch_size, events, worker);
    let sealed = sealed_unfailing(state, batch_size, events);
    if events.len() == 0 {
        lemma_none::<Seq<Seq<u8>>>();
        assert(sent.to_multiset().add(batches_for(state.queue, worker).to_multiset())
            =~= batches_for(state.queue, worker).to_multiset().add(sealed.to_multiset()));
    } else {
        let (rest, last) = (events.drop_last(), events.last());
        law_sent_once(state, batch_size, rest, worker);
        let before = after_all(state, batch_size, rest);
        let later = after(before, batch_size, last);
        let new = sealed_by(before, batch_size, last);
        let now = sent_by(before, batch_size, last, worker);
        let sent_before = sent_by_all(state, batch_size, rest, worker);
        let sealed_before = sealed_unfailing(state, batch_size, rest);
        let (owed, still_owed) = (batches_for(before.queue, worker), batches_for(later.queue, worker));
        lemma_none::<Seq<Seq<u8>>>();
        vstd::seq_lib::lemma_multiset_commutative(sent_before, now);
        vstd::seq_lib::lemma_multiset_commutative(sealed_before, new);
        assert(sealed_before + Seq::empty() =~= sealed_before);
        assert(sent_before + Seq::empty() =~= sent_before);
        if let BatchEvent::AsyncTimer(effect) = last {
            lemma_release(before.queue, later.network, worker);
            assert(sealed =~= sealed_before);
        } else {
            lemma_sealed_for(before, batch_size, last, worker);
            asynchrony::law_reached(before.network, before.workers, worker);
            vstd::seq_lib::lemma_multiset_commutative(owed, new);
            assert(owed + Seq::empty() =~= owed);
        }
        let owed_first = batches_for(state.queue, worker).to_multiset();
        assert forall|b: Seq<Seq<u8>>|
            sent_before.to_multiset().count(b) + owed.to_multiset().count(b) == owed_first.count(b)
                + #[trigger] sealed_before.to_multiset().count(b) by {
            assert(sent_before.to_multiset().add(owed.to_multiset()).count(b) == owed_first.add(
                sealed_before.to_multiset(),
            ).count(b));
        }
        assert(sent.to_multiset().add(still_owed.to_multiset()) =~= owed_first.add(
            sealed.to_multiset(),
        ));
    }
}

/// An empty list has no members.
proof fn lemma_none<A>()
    ensures
        Seq::<A>::empty().to_multiset() == vstd::multiset::Multiset::<A>::empty(),
{
    broadcast use vstd::seq_lib::group_to_multiset_ensures;

    assert(Seq::<A>::empty().to_multiset() =~= vstd::multiset::Multiset::<A>::empty());
}

/// Once no effect is going on any more, every worker has been sent every batch, and each once; only what
/// was sealed during a failure is missing.
pub proof fn law_everyone_gets_everything(
    state: BatchState,
    batch_size: usize,
    events: Seq<BatchEvent>,
    worker: Peer,
)
    requires
        state.workers.contains(worker),
        state.queue.len() == 0,
        after_all(state, batch_size, events).network.is_quiet(),
    ensures
        sent_by_all(state, batch_size, events, worker).to_multiset() == sealed_unfailing(
            state,
            batch_size,
            events,
        ).to_multiset(),
{
    law_sent_once(state, batch_size, events, worker);
    law_queue_empty_between_effects(state, batch_size, events);
    lemma_none::<Seq<Seq<u8>>>();
    let (sent, sealed) = (
        sent_by_all(state, batch_size, events, worker).to_multiset(),
        sealed_unfailing(state, batch_size, events).to_multiset(),
    );
    let none = vstd::multiset::Multiset::<Seq<Seq<u8>>>::empty();
    assert(batches_for(state.queue, worker) =~= Seq::empty());
    assert(batches_for(after_all(state, batch_size, events).queue, worker) =~= Seq::empty());
    assert(sent.add(none) =~= sent);
    assert(none.add(sealed) =~= sealed);
}

/// The numbers of the effects, in the order in which the effects are listed.
pub proof fn law_effect_numbers(v: u8)
    requires
        v <= 4,
    ensures
        batch_maker::effect(v) == AsyncEffectType::Off <==> v == 0,
        batch_maker::effect(v) == AsyncEffectType::TempBlip <==> v == 1,
        batch_maker::effect(v) == AsyncEffectType::Failure <==> v == 2,
        batch_maker::effect(v) == AsyncEffectType::Partition <==> v == 3,
        batch_maker::effect(v) == AsyncEffectType::Egress <==> v == 4,
{
}

/// There is one address for each worker: its own, in the order of the workers.
pub proof fn law_addresses(workers: Seq<Peer>)
    ensures
        batch_maker::addresses(workers).len() == workers.len(),
        forall|i: int|
            0 <= i < workers.len() ==> #[trigger] batch_maker::addresses(workers)[i] == workers[i].1,
{
}

/// A transaction of more than eight bytes that starts with a zero adds the number in its next eight
/// bytes, the highest first; no other transaction adds any.
pub proof fn law_sample_ids(batch: Seq<Seq<u8>>, tx: Seq<u8>)
    ensures
        batch_maker::sample_ids(Seq::empty()).len() == 0,
        tx.len() > 8 && tx[0] == 0 ==> {
            &&& batch_maker::sample_ids(batch.push(tx)).len() == batch_maker::sample_ids(batch).len()
                + 1
            &&& batch_maker::sample_ids(batch.push(tx)).drop_last() == batch_maker::sample_ids(batch)
            &&& batch_maker::sample_ids(batch.push(tx)).last() == 0x1_0000_0000 * (0x100_0000 * tx[1]
                + 0x1_0000 * tx[2] + 0x100 * tx[3] + tx[4]) + 0x100_0000 * tx[5] + 0x1_0000 * tx[6]
                + 0x100 * tx[7] + tx[8]
        },
        !(tx.len() > 8 && tx[0] == 0) ==> batch_maker::sample_ids(batch.push(tx))
            == batch_maker::sample_ids(batch),
{
    reveal(Seq::filter);
    assert(batch.push(tx).drop_last() =~= batch);
    assert(Seq::<Seq<u8>>::empty().filter(batch_maker::is_sample()) =~= Seq::empty());
    if tx.len() > 8 && tx[0] == 0 {
        let bytes = tx.subrange(1, 9);
        numbers::law_be64_value(bytes);
        assert(bytes[0] == tx[1] && bytes[1] == tx[2] && bytes[2] == tx[3] && bytes[3] == tx[4]);
        assert(bytes[4] == tx[5] && bytes[5] == tx[6] && bytes[6] == tx[7] && bytes[7] == tx[8]);
        assert(batch_maker::sample_ids(batch.push(tx)) =~= batch_maker::sample_ids(batch).push(
            numbers::be_number(bytes) as u64,
        ));
        assert(batch_maker::sample_ids(batch.push(tx)).drop_last() =~= batch_maker::sample_ids(batch));
    } else {
        assert(batch_maker::sample_ids(batch.push(tx)) =~= batch_maker::sample_ids(batch));
    }
}

/// A sealed batch holds all transactions of the current batch, goes to the address of every worker that
/// can be reached and to no others, and its digest is the start of the hash of its bytes. With no effect
/// going on it goes to every worker.
pub proof fn law_sealed(state: BatchState, sealed: SealedBatch)
    requires
        state.seals(sealed),
    ensures
        sealed.serialized@ == encoding::encode_batch(0, state.current),
        forall|i: int|
            0 <= i < 32 ==> #[trigger] sealed.digest.0@[i] == encoding::sha512(
                sealed.serialized@,
            ).take(32)[i],
        ({
            let reached = state.network.reached(state.workers);
            &&& sealed.addresses@.len() == reached.len()
            &&& forall|i: int|
                0 <= i < reached.len() ==> #[trigger] sealed.addresses@[i] == reached[i].1
        }),
        state.network.ongoing == Set::<Effect>::empty() ==> {
            &&& sealed.addresses@.len() == state.workers.len()
            &&& forall|i: int|
                0 <= i < state.workers.len() ==> #[trigger] sealed.addresses@[i] == state.workers[i].1
        },
        sealed.size == encoding::total_bytes(state.current),
        sealed.sample_tx_ids@ == batch_maker::sample_ids(state.current),
{
    if state.network.ongoing == Set::<Effect>::empty() {
        asynchrony::law_quiet(state.network, state.workers);
    }
}

/// A sealed batch goes to a worker if and only if no effect keeps us from it.
pub proof fn law_sealed_goes_to(state: BatchState, sealed: SealedBatch, worker: Peer)
    requires
        state.seals(sealed),
        state.workers.contains(worker),
    ensures
        (forall|e: Effect| #[trigger]
            state.network.ongoing.contains(e) ==> {
                &&& e.kind == AsyncEffectType::Partition
                &&& e.index < state.network.sides.len()
                &&& state.network.sides[e.index as int].contains(worker.0)
            }) ==> sealed.addresses@.contains(worker.1),
        forall|a: Address| #[trigger]
            sealed.addresses@.contains(a) ==> exists|w: Peer| #[trigger]
                state.workers.contains(w) && w.1 == a && forall|e: Effect| #[trigger]
                    state.network.ongoing.contains(e) ==> {
                        &&& e.kind == AsyncEffectType::Partition
                        &&& e.index < state.network.sides.len()
                        &&& state.network.sides[e.index as int].contains(w.0)
                    },
{
    let reached = state.network.reached(state.workers);
    asynchrony::law_reached(state.network, state.workers, worker);
    if reached.contains(worker) {
        let i = choose|i: int| 0 <= i < reached.len() && reached[i] == worker;
        assert(sealed.addresses@[i] == worker.1);
    }
    assert forall|a: Address| #[trigger] sealed.addresses@.contains(a) implies exists|w: Peer|
        #[trigger]
        state.workers.contains(w) && w.1 == a && forall|e: Effect| #[trigger]
            state.network.ongoing.contains(e) ==> {
                &&& e.kind == AsyncEffectType::Partition
                &&& e.index < state.network.sides.len()
                &&& state.network.sides[e.index as int].contains(w.0)
            } by {
        let i = choose|i: int| 0 <= i < sealed.addresses@.len() && sealed.addresses@[i] == a;
        let w = reached[i];
        assert(reached.contains(w));
        asynchrony::law_reached(state.network, state.workers, w);
        assert(state.workers.contains(w));
    }
}

/// What is released are the bytes of each batch that is due, for the addresses of exactly its workers, in
/// their order.
pub proof fn law_released(batches: Seq<Held>, released: Seq<Released>)
    requires
        batch_maker::releases(batches, released),
    ensures
        released.len() == batches.len(),
        forall|i: int|
            0 <= i < released.len() ==> {
                &&& (#[trigger] released[i]).serialized@ == encoding::encode_batch(0, batches[i].batch)
                &&& released[i].addresses@.len() == batches[i].workers.len()
                &&& forall|j: int|
                    0 <= j < batches[i].workers.len() ==> #[trigger] released[i].addresses@[j]
                        == batches[i].workers[j].1
            },
{
}

/// Each batch of a queue is released to those of its workers that can be reached, if there are any, and
/// kept for those that cannot, if there are any; both in the order of the queue.
pub proof fn law_one_more_held(queue: Seq<Held>, held: Held, network: Network)
    ensures
        batch_maker::released_now(Seq::empty(), network).len() == 0,
        batch_maker::kept_back(Seq::empty(), network).len() == 0,
        network.reached(held.workers).len() == 0 ==> batch_maker::released_now(
            queue.push(held),
            network,
        ) == batch_maker::released_now(queue, network),
        network.reached(held.workers).len() > 0 ==> batch_maker::released_now(
            queue.push(held),
            network,
        ) == batch_maker::released_now(queue, network).push(
            Held { batch: held.batch, workers: network.reached(held.workers) },
        ),
        network.withheld(held.workers).len() == 0 ==> batch_maker::kept_back(queue.push(held), network)
            == batch_maker::kept_back(queue, network),
        network.withheld(held.workers).len() > 0 ==> batch_maker::kept_back(queue.push(held), network)
            == batch_maker::kept_back(queue, network).push(
            Held { batch: held.batch, workers: network.withheld(held.workers) },
        ),
{
    assert(queue.push(held).drop_last() =~= queue);
}

/// What a timer of an effect changes and releases: only the end of an effect releases anything.
pub proof fn law_async_timer(state: BatchState, effect: Effect)
    ensures
        ({
            let later = state.on_async_timer(effect);
            let ends = effect.reaches_us && state.network.ongoing.contains(effect);
            &&& later.current == state.current
            &&& later.keys == state.keys
            &&& later.workers == state.workers
            &&& later.network == state.network.after(effect)
            &&& !ends ==> later.queue == state.queue && state.due(effect).len() == 0
            &&& ends ==> {
                &&& later.queue == batch_maker::kept_back(state.queue, later.network)
                &&& state.due(effect) == batch_maker::released_now(state.queue, later.network)
            }
        }),
{
}

/// A transaction joins the current batch, which is sealed if and only if it then holds at least as many
/// bytes as a batch is to have.
pub proof fn law_transaction(state: BatchState, batch_size: usize, tx: Seq<u8>)
    ensures
        ({
            let later = state.on_transaction(batch_size, tx);
            let full = encoding::total_bytes(state.current) + tx.len() >= batch_size;
            &&& state.add(tx).is_full(batch_size) <==> full
            &&& state.add(tx) == (BatchState { current: state.current.push(tx), ..state })
            &&& later.network == state.network
            &&& later.keys == state.keys
            &&& later.workers == state.workers
            &&& !full ==> later.current == state.current.push(tx) && later.queue == state.queue
            &&& full ==> later == state.add(tx).seal()
        }),
{
    encoding::lemma_total_push(state.current, tx);
}

/// Sealing empties the current batch. During an effect the batch joins the queue, for the workers that it
/// is owed to.
pub proof fn law_seal(state: BatchState)
    ensures
        state.seal().current.len() == 0,
        state.seal().network == state.network,
        state.seal().keys == state.keys,
        state.seal().workers == state.workers,
        state.network.ongoing == Set::<Effect>::empty() ==> state.seal().queue == state.queue,
        (exists|e: Effect| #[trigger] state.network.ongoing.contains(e)) ==> state.seal().queue
            == state.queue.push(
            Held { batch: state.current, workers: state.network.owed(state.workers) },
        ),
{
}

/// The timer of the batch seals it unless it is empty.
pub proof fn law_batch_timer(state: BatchState)
    ensures
        state.current.len() == 0 ==> state.on_timer() == state,
        state.current.len() > 0 ==> state.on_timer() == state.seal(),
{
}

/// Each effect has two timers, one when it starts and one when it has lasted for its duration, both of
/// which tell its place, its kind, and whether it reaches us: a partition reaches everyone, and any other
/// effect those whose rank is below the number of nodes that it affects.
pub proof fn law_timers(config: BatchMakerConfig, keys: Seq<PublicKey>, i: int)
    requires
        config.is_complete(keys),
        0 <= i < config.asynchrony_start@.len() <= usize::MAX,
    ensures
        ({
            let list = batch_maker::timers(config, keys);
            let (start, end) = (list[2 * i], list[2 * i + 1]);
            &&& list.len() == 2 * config.asynchrony_start@.len()
            &&& start.offset == config.asynchrony_start@[i]
            &&& end.offset == config.asynchrony_start@[i] + config.asynchrony_duration@[i]
            &&& start.effect == end.effect
            &&& start.effect.index == i
            &&& start.effect.kind == batch_maker::effect(config.asynchrony_type@[i])
            &&& start.effect.reaches_us <==> {
                ||| config.asynchrony_type@[i] == 3
                ||| i >= config.affected_nodes@.len()
                ||| partition::rank(keys, config.name) < config.affected_nodes@[i]
            }
        }),
{
    assert(config.is_known(keys, i));
    assert((2 * i) / 2 == i && (2 * i) % 2 == 0);
    assert((2 * i + 1) / 2 == i && (2 * i + 1) % 2 == 1);
}

/// Who is on our side of each effect: of a partition, those on our side of the list of names when its
/// first so many names stand on the left; of another effect nobody.
pub proof fn law_sides(config: BatchMakerConfig, keys: Seq<PublicKey>, i: int, key: PublicKey)
    requires
        config.is_complete(keys),
        0 <= i < config.asynchrony_start@.len(),
    ensures
        config.sides(keys).len() == config.asynchrony_start@.len(),
        config.sides(keys)[i].contains(key) <==> config.asynchrony_type@[i] == 3 && partition::side(
            keys,
            config.name,
            config.affected_nodes@[i] as int,
        ).contains(key),
{
    assert(config.is_known(keys, i));
}

/// An effect has a duration with which its end can be told and a number that stands for a kind, and if it
/// is a partition it puts at least one of the nodes, of which we are one, and at most all of them on its
/// left.
pub open spec fn told(config: BatchMakerConfig, keys: Seq<PublicKey>, i: int) -> bool {
    &&& i < config.asynchrony_duration@.len()
    &&& config.asynchrony_start@[i] + config.asynchrony_duration@[i] <= u64::MAX
    &&& i < config.asynchrony_type@.len()
    &&& config.asynchrony_type@[i] <= 4
    &&& config.asynchrony_type@[i] == 3 ==> {
        &&& keys.contains(config.name)
        &&& i < config.affected_nodes@.len()
        &&& 1 <= config.affected_nodes@[i] <= keys.len()
    }
}

/// The effects are complete if and only if all is told of each.
pub proof fn law_complete(config: BatchMakerConfig, keys: Seq<PublicKey>)
    ensures
        config.is_complete(keys) <==> (forall|i: int|
            0 <= i < config.asynchrony_start@.len() ==> #[trigger] told(config, keys, i)),
{
    let n = config.asynchrony_start@.len() as int;
    assert forall|i: int| 0 <= i < n implies #[trigger] told(config, keys, i) == config.is_known(
        keys,
        i,
    ) by {}
    if config.is_complete(keys) {
        assert forall|i: int| 0 <= i < n implies #[trigger] told(config, keys, i) by {
            assert(config.is_known(keys, i));
        }
    } else {
        let i = choose|i: int| 0 <= i < n && !(#[trigger] config.is_known(keys, i));
        assert(!told(config, keys, i));
    }
}

/// There is a partition if and only if one of the effects has the number of one.
pub proof fn law_has_partition(config: BatchMakerConfig, n: int)
    ensures
        config.has_partition(n) <==> exists|i: int|
            0 <= i < n && #[trigger] config.asynchrony_type@[i] == 3,
{
    if config.has_partition(n) {
        let i = choose|i: int| 0 <= i < n && #[trigger] config.is_partition(i);
        assert(config.asynchrony_type@[i] == 3);
    }
    if exists|i: int| 0 <= i < n && #[trigger] config.asynchrony_type@[i] == 3 {
        let i = choose|i: int| 0 <= i < n && #[trigger] config.asynchrony_type@[i] == 3;
        assert(config.is_partition(i));
    }
}

} // verus!

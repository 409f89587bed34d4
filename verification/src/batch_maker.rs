//! The task that assembles the transactions of clients into batches.

use std::collections::VecDeque;

use vstd::prelude::*;

use crate::asynchrony;
use crate::asynchrony::{AsyncTimer, Asynchrony, Effect, Network, Peer};
use crate::encoding;
use crate::numbers;
use crate::partition;
use crate::types;
use crate::types::{Address, Batch, Digest, PublicKey, Transaction, WorkerMessage};

verus! {

/// The effects that a simulated asynchrony can have on a node.
#[derive(Clone, Copy, Debug, PartialEq, Eq, Structural)]
pub enum AsyncEffectType {
    /// The node sends nothing for the full duration, and then what it held back, as in a blip.
    Off,
    /// The node sends nothing for some time, and then releases all that it held back.
    TempBlip,
    /// The node sends nothing for some time, nor afterwards what came up meanwhile.
    Failure,
    /// The node sends nothing to those on the other side for some time, and then releases all that
    /// it held back.
    Partition,
    /// For some time, all that the node sends is delayed: it goes out when the effect ends.
    Egress,
}

/// The effect that a number stands for.
pub open spec fn effect(v: u8) -> AsyncEffectType {
    if v == 0 {
        AsyncEffectType::Off
    } else if v == 1 {
        AsyncEffectType::TempBlip
    } else if v == 2 {
        AsyncEffectType::Failure
    } else if v == 3 {
        AsyncEffectType::Partition
    } else {
        AsyncEffectType::Egress
    }
}

/// The effect that a number stands for.
pub fn uint_to_enum(v: u8) -> (kind: AsyncEffectType)
    requires
        v <= 4,
    ensures
        kind == effect(v),
{
    match v {
        0 => AsyncEffectType::Off,
        1 => AsyncEffectType::TempBlip,
        2 => AsyncEffectType::Failure,
        3 => AsyncEffectType::Partition,
        _ => AsyncEffectType::Egress,
    }
}

/// What never changes while the batch maker runs.
#[derive(Clone, Debug, PartialEq, Eq)]
pub struct BatchMakerConfig {
    /// The preferred batch size (in bytes).
    pub batch_size: usize,
    /// The maximum delay after which to seal the batch (in ms).
    pub max_batch_delay: u64,
    /// The network addresses of the other workers that share our worker id.
    pub workers_addresses: Vec<Peer>,
    /// Whether to simulate asynchrony.
    pub simulate_asynchrony: bool,
    /// The types of the effects.
    pub asynchrony_type: VecDeque<u8>,
    /// When each effect starts: the offset from the start of the task.
    pub asynchrony_start: VecDeque<u64>,
    /// How long each effect lasts.
    pub asynchrony_duration: VecDeque<u64>,
    /// How many nodes each effect affects: the first of them, in the order of the names. A partition
    /// affects all nodes, and has these on its left side. An effect without a number affects all.
    pub affected_nodes: VecDeque<u64>,
    /// The name of the worker's authority.
    pub name: PublicKey,
}

/// What the batch maker remembers.
#[verifier::ext_equal]
pub struct BatchState {
    /// The transactions of the current batch.
    pub current: Seq<Seq<u8>>,
    /// The effects that are going on, and who is on our side.
    pub network: Network,
    /// The batches that were sealed during effects and that are not settled yet, in the order in which
    /// they were sealed.
    pub queue: Seq<Held>,
    /// The other workers.
    pub workers: Seq<Peer>,
    /// The names of all authorities.
    pub keys: Seq<PublicKey>,
}

/// A batch to store under its digest, to hand to the processor and to broadcast.
#[derive(Debug, PartialEq, Eq)]
pub struct SealedBatch {
    pub digest: Digest,
    pub serialized: Vec<u8>,
    /// The workers that the batch goes to.
    pub addresses: Vec<Address>,
    /// The size of the transactions (in bytes).
    pub size: usize,
    /// The identifiers of the sample transactions in the batch, for performance measurements.
    pub sample_tx_ids: Vec<u64>,
}

/// A batch that was sealed during an effect, and the workers that it is still owed to.
#[verifier::ext_equal]
pub struct Held {
    pub batch: Seq<Seq<u8>>,
    pub workers: Seq<Peer>,
}

/// A batch that was held back, to broadcast.
#[derive(Debug, PartialEq, Eq)]
pub struct Released {
    pub serialized: Vec<u8>,
    /// Workers that did not get the batch yet and can be reached now.
    pub addresses: Vec<Address>,
}

/// The transaction is a sample: it starts with a zero, and an identifier of eight bytes follows.
pub open spec fn is_sample() -> spec_fn(Seq<u8>) -> bool {
    |tx: Seq<u8>| tx.len() > 8 && tx[0] == 0
}

/// The identifiers of the sample transactions.
pub open spec fn sample_ids(batch: Seq<Seq<u8>>) -> Seq<u64> {
    batch.filter(is_sample()).map_values(
        |tx: Seq<u8>| numbers::be_number(tx.subrange(1, 9)) as u64,
    )
}

/// The identifiers of the sample transactions.
pub fn sample_tx_ids(batch: &Batch) -> (ids: Vec<u64>)
    ensures
        ids@ == sample_ids(types::byte_strings(batch@)),
{
    let ghost list = types::byte_strings(batch@);
    let ghost id = |tx: Seq<u8>| numbers::be_number(tx.subrange(1, 9)) as u64;
    let mut ids: Vec<u64> = Vec::new();
    let mut i: usize = 0;
    assert(list.take(0).filter(is_sample()).map_values(id) =~= seq![]) by {
        reveal(Seq::filter);
    }
    while i < batch.len()
        invariant
            i <= batch@.len(),
            list == types::byte_strings(batch@),
            id == (|tx: Seq<u8>| numbers::be_number(tx.subrange(1, 9)) as u64),
            ids@ == list.take(i as int).filter(is_sample()).map_values(id),
        decreases batch@.len() - i,
    {
        let tx = &batch[i];
        proof {
            reveal(Seq::filter);
            assert(list.take(i + 1).drop_last() =~= list.take(i as int));
        }
        if tx.len() > 8 && tx[0] == 0 {
            ids.push(numbers::read_be64(tx, 1));
        }
        i += 1;
        assert(ids@ =~= list.take(i as int).filter(is_sample()).map_values(id));
    }
    assert(list.take(i as int) =~= list);
    ids
}

/// The transactions of a message.
pub open spec fn batch_of(message: WorkerMessage) -> Seq<Seq<u8>> {
    match message {
        WorkerMessage::Batch(batch) => types::byte_strings(batch@),
    }
}

/// A batch of the queue.
pub open spec fn held(entry: (WorkerMessage, Vec<Peer>)) -> Held {
    Held { batch: batch_of(entry.0), workers: entry.1@ }
}

/// What is sent of the batches of a queue: each to those of its workers that can be reached now, if
/// there are any.
pub open spec fn released_now(queue: Seq<Held>, network: Network) -> Seq<Held>
    decreases queue.len(),
{
    if queue.len() == 0 {
        Seq::empty()
    } else {
        let earlier = released_now(queue.drop_last(), network);
        let reached = network.reached(queue.last().workers);
        if reached.len() > 0 {
            earlier.push(Held { batch: queue.last().batch, workers: reached })
        } else {
            earlier
        }
    }
}

/// What is kept of the batches of a queue: each for those of its workers that cannot be reached yet, if
/// there are any.
pub open spec fn kept_back(queue: Seq<Held>, network: Network) -> Seq<Held>
    decreases queue.len(),
{
    if queue.len() == 0 {
        Seq::empty()
    } else {
        let earlier = kept_back(queue.drop_last(), network);
        let withheld = network.withheld(queue.last().workers);
        if withheld.len() > 0 {
            earlier.push(Held { batch: queue.last().batch, workers: withheld })
        } else {
            earlier
        }
    }
}

/// The addresses of the workers.
pub open spec fn addresses(workers: Seq<Peer>) -> Seq<Address> {
    workers.map_values(|w: Peer| w.1)
}

impl BatchState {
    /// The state after a transaction came, before any sealing.
    pub open spec fn add(self, transaction: Seq<u8>) -> Self {
        BatchState { current: self.current.push(transaction), ..self }
    }

    /// The state after the current batch was sealed.
    pub open spec fn seal(self) -> Self {
        BatchState {
            current: Seq::empty(),
            queue: if self.network.is_quiet() {
                self.queue
            } else {
                self.queue.push(
                    Held { batch: self.current, workers: self.network.owed(self.workers) },
                )
            },
            ..self
        }
    }

    /// The current batch has reached the size at which it is sealed.
    pub open spec fn is_full(self, batch_size: usize) -> bool {
        encoding::total_bytes(self.current) >= batch_size
    }

    /// The state after a transaction came.
    pub open spec fn on_transaction(self, batch_size: usize, transaction: Seq<u8>) -> Self {
        if self.add(transaction).is_full(batch_size) {
            self.add(transaction).seal()
        } else {
            self.add(transaction)
        }
    }

    /// The state after the timer of the batch went off.
    pub open spec fn on_timer(self) -> Self {
        if self.current.len() > 0 {
            self.seal()
        } else {
            self
        }
    }

    /// The state after a timer of an effect went off. When an effect ends, only what is owed to workers
    /// that still cannot be reached is kept.
    pub open spec fn on_async_timer(self, effect: Effect) -> Self {
        let network = self.network.after(effect);
        BatchState {
            network,
            queue: if self.network.ends(effect) {
                kept_back(self.queue, network)
            } else {
                self.queue
            },
            ..self
        }
    }

    /// The batches that are released when a timer of an effect goes off: when an effect ends, all that
    /// are owed to workers that can be reached now, each for these.
    pub open spec fn due(self, effect: Effect) -> Seq<Held> {
        if self.network.ends(effect) {
            released_now(self.queue, self.network.after(effect))
        } else {
            Seq::empty()
        }
    }

    /// The batch is the current one of the state, ready to go out.
    pub open spec fn seals(self, sealed: SealedBatch) -> bool {
        &&& sealed.serialized@ == encoding::encode_batch(encoding::BATCH_TAG, self.current)
        &&& sealed.digest.0@ == encoding::sha512(sealed.serialized@).take(32)
        &&& sealed.addresses@ == addresses(self.network.reached(self.workers))
        &&& sealed.size == encoding::total_bytes(self.current)
        &&& sealed.sample_tx_ids@ == sample_ids(self.current)
    }
}

/// These are the batches, in their order, each with the addresses of its workers.
pub open spec fn releases(batches: Seq<Held>, released: Seq<Released>) -> bool {
    &&& released.len() == batches.len()
    &&& forall|i: int|
        0 <= i < released.len() ==> {
            &&& (#[trigger] released[i]).serialized@ == encoding::encode_batch(
                encoding::BATCH_TAG,
                batches[i].batch,
            )
            &&& released[i].addresses@ == addresses(batches[i].workers)
        }
}

impl BatchMakerConfig {
    /// The effect is a partition.
    pub open spec fn is_partition(self, i: int) -> bool {
        effect(self.asynchrony_type@[i]) == AsyncEffectType::Partition
    }

    /// All is known of each effect that starts: how long it lasts, its type, and for a partition how
    /// many of the nodes stand on its left side, of which there is at least one.
    pub open spec fn is_complete(self, keys: Seq<PublicKey>) -> bool {
        forall|i: int| 0 <= i < self.asynchrony_start@.len() ==> #[trigger] self.is_known(keys, i)
    }

    /// All is known of one effect.
    pub open spec fn is_known(self, keys: Seq<PublicKey>, i: int) -> bool {
        &&& i < self.asynchrony_duration@.len()
        &&& self.asynchrony_start@[i] + self.asynchrony_duration@[i] <= u64::MAX
        &&& i < self.asynchrony_type@.len()
        &&& self.asynchrony_type@[i] <= 4
        &&& self.is_partition(i) ==> {
            &&& keys.contains(self.name)
            &&& i < self.affected_nodes@.len()
            &&& 1 <= self.affected_nodes@[i] <= keys.len()
        }
    }

    /// The effect reaches this node: it is a partition, or our rank is below the number of nodes
    /// that it affects.
    pub open spec fn reaches_us(self, keys: Seq<PublicKey>, i: int) -> bool {
        ||| self.is_partition(i)
        ||| i >= self.affected_nodes@.len()
        ||| partition::rank(keys, self.name) < self.affected_nodes@[i]
    }

    /// One of the first `n` effects is a partition.
    pub open spec fn has_partition(self, n: int) -> bool {
        exists|i: int| 0 <= i < n && #[trigger] self.is_partition(i)
    }

    /// For each effect, the authorities on our side if it is a partition.
    pub open spec fn sides(self, keys: Seq<PublicKey>) -> Seq<Set<PublicKey>> {
        Seq::new(self.asynchrony_start@.len(), |i: int| self.members(keys, i))
    }

    /// The authorities on our side of a partition. Other effects have no sides.
    pub open spec fn members(self, keys: Seq<PublicKey>, i: int) -> Set<PublicKey> {
        if self.is_partition(i) {
            partition::side(keys, self.name, self.affected_nodes@[i] as int).to_set()
        } else {
            Set::empty()
        }
    }
}

/// The timers of the effects: two of each, one for its start and one for its end.
pub open spec fn timers(config: BatchMakerConfig, keys: Seq<PublicKey>) -> Seq<AsyncTimer> {
    Seq::new(2 * config.asynchrony_start@.len(), |k: int| timer(config, keys, k / 2, k % 2 == 1))
}

/// The timer that goes off when an effect starts, or when it ends.
pub open spec fn timer(
    config: BatchMakerConfig,
    keys: Seq<PublicKey>,
    i: int,
    ends: bool,
) -> AsyncTimer {
    AsyncTimer {
        offset: if ends {
            (config.asynchrony_start@[i] + config.asynchrony_duration@[i]) as u64
        } else {
            config.asynchrony_start@[i]
        },
        effect: Effect {
            index: i as usize,
            kind: effect(config.asynchrony_type@[i]),
            reaches_us: config.reaches_us(keys, i),
        },
    }
}

/// Assembles client transactions into batches.
#[derive(Debug)]
pub struct BatchMaker {
    config: BatchMakerConfig,
    /// Holds the current batch.
    current_batch: Batch,
    /// Holds the size of the current batch (in bytes).
    current_batch_size: usize,
    /// The effects that are going on, and who is on our side.
    asynchrony: Asynchrony,
    /// The batches that were sealed during effects and that are not settled yet, each with the workers
    /// that it is still owed to.
    partition_queue: VecDeque<(WorkerMessage, Vec<Peer>)>,
    /// The names of all authorities.
    keys: Vec<PublicKey>,
}

impl View for BatchMaker {
    type V = BatchState;

    closed spec fn view(&self) -> BatchState {
        BatchState {
            current: types::byte_strings(self.current_batch@),
            network: self.asynchrony@,
            queue: self.partition_queue@.map_values(|entry: (WorkerMessage, Vec<Peer>)| held(entry)),
            workers: self.config.workers_addresses@,
            keys: self.keys@,
        }
    }
}

impl BatchMaker {
    /// What the batch maker was set up with.
    pub closed spec fn config(self) -> BatchMakerConfig {
        self.config
    }

    /// The size of the current batch is the one kept, the batch and those in the queue fit into
    /// messages, the batch has not reached the size at which it is sealed, and the queue is empty while
    /// no effect is going on.
    pub closed spec fn wf(self) -> bool {
        &&& self.current_batch_size == encoding::total_bytes(self@.current)
        &&& encoding::encoded_size(self@.current) <= isize::MAX
        &&& self@.current.len() > 0 ==> self.current_batch_size < self.config.batch_size
        &&& self.queue_fits()
    }
}

impl BatchMaker {
    /// The batches in the queue fit into messages, and there are none while no effect is going on.
    spec fn queue_fits(self) -> bool {
        &&& self@.network.is_quiet() ==> self@.queue.len() == 0
        &&& forall|i: int|
            0 <= i < self@.queue.len() ==> encoding::encoded_size((#[trigger] self@.queue[i]).batch)
                <= isize::MAX
    }

    /// Starts with an empty batch and no effect going on.
    pub fn new(config: BatchMakerConfig, keys: Vec<PublicKey>) -> (maker: BatchMaker)
        ensures
            maker.wf(),
            maker.config() == config,
            maker@ == (BatchState {
                current: Seq::empty(),
                network: Network { ongoing: Set::empty(), sides: Seq::empty() },
                queue: Seq::empty(),
                workers: config.workers_addresses@,
                keys: keys@,
            }),
    {
        let maker = BatchMaker {
            config,
            current_batch: Vec::new(),
            current_batch_size: 0,
            asynchrony: Asynchrony::new(),
            partition_queue: VecDeque::new(),
            keys,
        };
        assert(maker@.current =~= Seq::empty());
        assert(maker@.queue =~= Seq::empty());
        maker
    }

    /// The delay, in milliseconds, after which the timer of the batch goes off. The timer starts
    /// anew when it went off and when a full batch was sealed.
    pub fn max_batch_delay(&self) -> (delay: u64)
        ensures
            delay == self.config().max_batch_delay,
    {
        self.config.max_batch_delay
    }

    /// How many batches were sealed during effects and are not settled yet.
    pub fn queue_len(&self) -> (n: usize)
        ensures
            n == self@.queue.len(),
    {
        self.partition_queue.len()
    }

    /// Tells whether a transaction can be added: whether the batch would still fit into a message.
    pub fn fits(&self, transaction: &Transaction) -> (fits: bool)
        requires
            self.wf(),
        ensures
            fits == (encoding::encoded_size(self@.current.push(transaction@)) <= isize::MAX),
    {
        proof {
            encoding::lemma_total_push(self@.current, transaction@);
        }
        let count: u128 = self.current_batch.len() as u128 + 1;
        let size: u128 = 12 + 8 * count + self.current_batch_size as u128 + transaction.len() as u128;
        size <= isize::MAX as u128
    }

    /// Seals the current batch: gives out its bytes, their digest and the workers they go to, and
    /// starts a new batch. While an effect is going on the batch is also put into a queue.
    pub fn seal(&mut self) -> (sealed: SealedBatch)
        requires
            old(self).wf(),
        ensures
            final(self).wf(),
            final(self).config() == old(self).config(),
            final(self)@ == old(self)@.seal(),
            old(self)@.seals(sealed),
    {
        self.seal_now()
    }

    /// Seals the current batch, whether or not it has reached its size.
    fn seal_now(&mut self) -> (sealed: SealedBatch)
        requires
            old(self).current_batch_size == encoding::total_bytes(old(self)@.current),
            encoding::encoded_size(old(self)@.current) <= isize::MAX,
            old(self).queue_fits(),
        ensures
            final(self).wf(),
            final(self).config == old(self).config,
            final(self)@ == old(self)@.seal(),
            old(self)@.seals(sealed),
    {
        let (reached, withheld) = self.asynchrony.split(&self.config.workers_addresses);
        let size = self.current_batch_size;
        let sample_tx_ids = sample_tx_ids(&self.current_batch);
        let mut batch: Batch = Vec::new();
        std::mem::swap(&mut batch, &mut self.current_batch);
        self.current_batch_size = 0;
        assert(types::byte_strings(self.current_batch@) =~= Seq::empty());
        let serialized = encoding::serialize_batch(&batch);
        let digest = encoding::digest_of(&serialized);
        if !self.asynchrony.is_quiet() {
            let owed: Vec<Peer> = if self.asynchrony.is_failing() {
                Vec::new()
            } else {
                withheld
            };
            let ghost earlier = self@;
            self.partition_queue.push_back((WorkerMessage::Batch(batch), owed));
            let ghost last = Held { batch: types::byte_strings(batch@), workers: owed@ };
            assert(self@.queue =~= earlier.queue.push(last));
            assert forall|i: int| 0 <= i < self@.queue.len() implies encoding::encoded_size(
                (#[trigger] self@.queue[i]).batch,
            ) <= isize::MAX by {
                if i < earlier.queue.len() {
                    assert(self@.queue[i] == old(self)@.queue[i]);
                } else {
                    assert(self@.queue[i].batch == old(self)@.current);
                }
            }
        }
        SealedBatch { digest, serialized, addresses: addresses_of(&reached), size, sample_tx_ids }
    }

    /// Adds a transaction to the current batch, and seals the batch if it has reached its size.
    pub fn on_transaction(&mut self, transaction: Transaction) -> (sealed: Option<SealedBatch>)
        requires
            old(self).wf(),
            encoding::encoded_size(old(self)@.current.push(transaction@)) <= isize::MAX,
        ensures
            final(self).wf(),
            final(self).config() == old(self).config(),
            final(self)@ == old(self)@.on_transaction(
                old(self).config().batch_size,
                transaction@,
            ),
            match sealed {
                Some(batch) => {
                    &&& old(self)@.add(transaction@).is_full(old(self).config().batch_size)
                    &&& old(self)@.add(transaction@).seals(batch)
                },
                None => !old(self)@.add(transaction@).is_full(old(self).config().batch_size),
            },
    {
        proof {
            encoding::lemma_total_push(self@.current, transaction@);
        }
        let ghost bytes = transaction@;
        self.current_batch_size = self.current_batch_size + transaction.len();
        self.current_batch.push(transaction);
        assert(self@.current =~= old(self)@.current.push(bytes));
        assert(self@ == old(self)@.add(bytes));
        if self.current_batch_size >= self.config.batch_size {
            return Some(self.seal_now());
        }
        None
    }

    /// Seals the current batch when its timer went off, even if it contains few transactions; an
    /// empty batch is not sealed.
    pub fn on_timer(&mut self) -> (sealed: Option<SealedBatch>)
        requires
            old(self).wf(),
        ensures
            final(self).wf(),
            final(self).config() == old(self).config(),
            final(self)@ == old(self)@.on_timer(),
            match sealed {
                Some(batch) => {
                    &&& old(self)@.current.len() > 0
                    &&& old(self)@.seals(batch)
                },
                None => old(self)@.current.len() == 0,
            },
    {
        if self.current_batch.is_empty() {
            None
        } else {
            Some(self.seal_now())
        }
    }

    /// Takes note that a timer of an effect went off: the first of its two timers starts it and the
    /// second ends it, unless it does not reach us. When an effect ends, what was held back is given
    /// out, to be broadcast to those of the workers that did not get it which can be reached now; for
    /// the others it is kept.
    pub fn on_async_timer(&mut self, effect: Effect) -> (released: Vec<Released>)
        requires
            old(self).wf(),
        ensures
            final(self).wf(),
            final(self).config() == old(self).config(),
            final(self)@ == old(self)@.on_async_timer(effect),
            releases(old(self)@.due(effect), released@),
    {
        let mut released: Vec<Released> = Vec::new();
        let ended = self.asynchrony.on_timer(effect);
        assert(self@.queue == old(self)@.queue);
        let ghost network = self@.network;
        if !ended {
            proof {
                lemma_start_is_heard(old(self)@.network, effect);
            }
            return released;
        }
        let ghost queue = old(self)@.queue;
        let ghost entries = self.partition_queue@;
        let ghost fixed = self@;
        let mut waiting: VecDeque<(WorkerMessage, Vec<Peer>)> = VecDeque::new();
        std::mem::swap(&mut waiting, &mut self.partition_queue);
        let ghost mut i: int = 0;
        assert(entries.skip(0) =~= entries);
        assert(self@.queue =~= Seq::empty());
        while waiting.len() > 0
            invariant
                0 <= i <= entries.len() == queue.len(),
                waiting@ == entries.skip(i),
                queue == entries.map_values(|entry: (WorkerMessage, Vec<Peer>)| held(entry)),
                forall|j: int|
                    0 <= j < queue.len() ==> encoding::encoded_size((#[trigger] queue[j]).batch)
                        <= isize::MAX,
                self.config == old(self).config,
                self.current_batch_size == old(self).current_batch_size,
                self@ == (BatchState { queue: kept_back(queue.take(i), network), ..fixed }),
                network == fixed.network,
                releases(released_now(queue.take(i), network), released@),
            decreases waiting@.len(),
        {
            let (message, owed) = waiting.pop_front().unwrap();
            proof {
                assert(queue.take(i + 1).drop_last() =~= queue.take(i));
                assert(queue.take(i + 1).last() == queue[i]);
                assert(held((message, owed)) == queue[i]);
                assert(encoding::encoded_size(queue[i].batch) <= isize::MAX);
                assert(entries.skip(i).drop_first() =~= entries.skip(i + 1));
            }
            let (reached, withheld) = self.asynchrony.split(&owed);
            if reached.len() > 0 {
                let serialized = match &message {
                    WorkerMessage::Batch(batch) => encoding::serialize_batch(batch),
                };
                released.push(Released { serialized, addresses: addresses_of(&reached) });
            }
            if withheld.len() > 0 {
                let ghost earlier = self@.queue;
                self.partition_queue.push_back((message, withheld));
                assert(self@.queue =~= earlier.push(
                    Held { batch: queue[i].batch, workers: withheld@ },
                ));
            }
            proof {
                i = i + 1;
            }
        }
        assert(queue.take(i) =~= queue);
        proof {
            lemma_kept_fits(queue, network);
        }
        released
    }
}

impl BatchMaker {
    /// Tells whether all is known that the effects of a simulated asynchrony need.
    pub fn can_schedule(&self) -> (complete: bool)
        ensures
            complete == (self.config().simulate_asynchrony ==> self.config().is_complete(self@.keys)),
    {
        if !self.config.simulate_asynchrony {
            return true;
        }
        let n = self.config.asynchrony_start.len();
        let named = partition::find(&self.keys, &self.config.name).is_some();
        let mut i: usize = 0;
        while i < n
            invariant
                i <= n == self.config.asynchrony_start@.len(),
                self.config.simulate_asynchrony,
                named == self.keys@.contains(self.config.name),
                forall|j: int| 0 <= j < i ==> self.config.is_known(self.keys@, j),
            decreases n - i,
        {
            let known = i < self.config.asynchrony_duration.len() && self.config.asynchrony_start[i]
                <= u64::MAX - self.config.asynchrony_duration[i] && i
                < self.config.asynchrony_type.len() && self.config.asynchrony_type[i] <= 4 && (
            uint_to_enum(self.config.asynchrony_type[i]) != AsyncEffectType::Partition || (named && i
                < self.config.affected_nodes.len() && 1 <= self.config.affected_nodes[i]
                && self.config.affected_nodes[i] as u128 <= self.keys.len() as u128));
            assert(known == self.config.is_known(self.keys@, i as int));
            if !known {
                return false;
            }
            i += 1;
        }
        true
    }

    /// Prepares the effects of a simulated asynchrony, when the task starts: gives out the timers of
    /// the effects, first that of the start and then that of the end of each, and finds out who is
    /// on our side of each partition. For that the names are put in order.
    pub fn schedule(&mut self) -> (list: Vec<AsyncTimer>)
        requires
            old(self).wf(),
            old(self).config().simulate_asynchrony ==> old(self).config().is_complete(
                old(self)@.keys,
            ),
        ensures
            final(self).wf(),
            final(self).config() == old(self).config(),
            !old(self).config().simulate_asynchrony ==> {
                &&& list@ == Seq::<AsyncTimer>::empty()
                &&& final(self)@ == old(self)@
            },
            old(self).config().simulate_asynchrony ==> {
                let config = old(self).config();
                let n = config.asynchrony_start@.len() as int;
                &&& list@ == timers(config, old(self)@.keys)
                &&& final(self)@.keys.to_multiset() == old(self)@.keys.to_multiset()
                &&& if config.has_partition(n) {
                    partition::sorted(final(self)@.keys)
                } else {
                    final(self)@.keys == old(self)@.keys
                }
                &&& final(self)@ == (BatchState {
                    network: Network { sides: config.sides(final(self)@.keys), ..old(self)@.network },
                    keys: final(self)@.keys,
                    ..old(self)@
                })
            },
    {
        let mut list: Vec<AsyncTimer> = Vec::new();
        if !self.config.simulate_asynchrony {
            return list;
        }
        let rank = partition::our_rank(&self.keys, &self.config.name);
        let ghost before = self@;
        let ghost config = self.config;
        let mut i: usize = 0;
        let mut sides: Vec<Vec<PublicKey>> = Vec::new();
        while i < self.config.asynchrony_start.len()
            invariant
                i <= config.asynchrony_start@.len(),
                self.wf(),
                self.config == config,
                config.is_complete(before.keys),
                self@.keys.to_multiset() == before.keys.to_multiset(),
                if config.has_partition(i as int) {
                    partition::sorted(self@.keys)
                } else {
                    self@.keys == before.keys
                },
                self@ == (BatchState { keys: self@.keys, ..before }),
                sides@.len() == i,
                forall|j: int|
                    0 <= j < i ==> (#[trigger] sides@[j])@.to_set() == config.members(self@.keys, j),
                rank == partition::rank(before.keys, config.name),
                list@.len() == 2 * i,
                forall|k: int|
                    0 <= k < 2 * i ==> #[trigger] list@[k] == timers(config, before.keys)[k],
            decreases config.asynchrony_start@.len() - i,
        {
            let start_offset: u64 = self.config.asynchrony_start[i];
            assert(config.is_known(before.keys, i as int));
            let end_offset: u64 = start_offset + self.config.asynchrony_duration[i];
            let kind = uint_to_enum(self.config.asynchrony_type[i]);
            let reaches_us = kind == AsyncEffectType::Partition || i
                >= self.config.affected_nodes.len() || (rank as u128)
                < self.config.affected_nodes[i] as u128;
            let effect = Effect { index: i, kind, reaches_us };
            list.push(AsyncTimer { offset: start_offset, effect });
            list.push(AsyncTimer { offset: end_offset, effect });
            let mut side: Vec<PublicKey> = Vec::new();
            if kind == AsyncEffectType::Partition {
                let ghost keys_before = self.keys@;
                let ghost queue = self@.queue;
                partition::sort(&mut self.keys);
                assert(self@.queue == queue);
                proof {
                    lemma_same_names(before.keys, self.keys@);
                    if config.has_partition(i as int) {
                        partition::law_one_order(keys_before, self.keys@);
                    }
                    assert(config.is_partition(i as int));
                    assert(config.has_partition(i + 1));
                }
                assert(self.config.affected_nodes@[i as int] <= self.keys.len());
                side = partition::our_side(
                    &self.keys,
                    &self.config.name,
                    self.config.affected_nodes[i] as usize,
                );
            } else {
                assert(side@.to_set() =~= Set::empty());
            }
            sides.push(side);
            proof {
                assert(config.has_partition(i + 1) <==> config.has_partition(i as int)
                    || config.is_partition(i as int));
                assert forall|j: int| 0 <= j < i + 1 implies (#[trigger] sides@[j])@.to_set()
                    == config.members(self@.keys, j) by {
                    if j < i && config.is_partition(j) {
                        assert(config.has_partition(i as int));
                    }
                }
            }
            i += 1;
        }
        assert(list@ =~= timers(config, before.keys));
        assert(asynchrony::name_sets(sides@) =~= config.sides(self@.keys));
        self.asynchrony.set_sides(sides);
        assert(self@.queue == before.queue);
        assert(self@.network.ongoing == before.network.ongoing);
        assert(self@.network.is_quiet() == before.network.is_quiet());
        list
    }
}

/// Between events the current batch of a batch maker is empty or has not reached the size at which
/// it is sealed.
pub proof fn law_not_full(maker: BatchMaker)
    requires
        maker.wf(),
    ensures
        maker@.current.len() > 0 ==> !maker@.is_full(maker.config().batch_size),
{
}

/// Lists of the same names have the same length and the same members.
proof fn lemma_same_names(a: Seq<PublicKey>, b: Seq<PublicKey>)
    requires
        a.to_multiset() == b.to_multiset(),
    ensures
        a.len() == b.len(),
        forall|k: PublicKey| #[trigger] a.contains(k) <==> b.contains(k),
{
    broadcast use vstd::seq_lib::group_to_multiset_ensures;

    assert(a.len() == a.to_multiset().len());
    assert(b.len() == b.to_multiset().len());
    assert forall|k: PublicKey| #[trigger] a.contains(k) <==> b.contains(k) by {
        assert(a.contains(k) <==> a.to_multiset().count(k) > 0);
        assert(b.contains(k) <==> b.to_multiset().count(k) > 0);
    }
}

/// The addresses of the workers.
fn addresses_of(workers: &Vec<Peer>) -> (list: Vec<Address>)
    ensures
        list@ == addresses(workers@),
{
    let mut list: Vec<Address> = Vec::new();
    let mut i: usize = 0;
    while i < workers.len()
        invariant
            i <= workers@.len(),
            list@ == addresses(workers@.take(i as int)),
        decreases workers@.len() - i,
    {
        list.push(workers[i].1);
        i += 1;
        assert(list@ =~= addresses(workers@.take(i as int)));
    }
    assert(workers@.take(i as int) =~= workers@);
    list
}

/// Where a timer ends no effect and yet none is going on after it, none was before.
proof fn lemma_start_is_heard(network: Network, effect: Effect)
    requires
        !network.ends(effect),
    ensures
        network.after(effect).is_quiet() ==> network.is_quiet(),
{
    assert forall|e: Effect| #[trigger] network.ongoing.contains(e) implies !network.after(
        effect,
    ).is_quiet() by {
        assert(network.after(effect).ongoing.contains(e));
    }
}

/// What is kept is among what was kept before, and nothing is kept when no effect is going on.
proof fn lemma_kept_fits(queue: Seq<Held>, network: Network)
    requires
        forall|i: int|
            0 <= i < queue.len() ==> encoding::encoded_size((#[trigger] queue[i]).batch)
                <= isize::MAX,
    ensures
        network.is_quiet() ==> kept_back(queue, network).len() == 0,
        forall|i: int|
            0 <= i < kept_back(queue, network).len() ==> encoding::encoded_size(
                (#[trigger] kept_back(queue, network)[i]).batch,
            ) <= isize::MAX,
    decreases queue.len(),
{
    if queue.len() > 0 {
        let rest = queue.drop_last();
        assert forall|i: int| 0 <= i < rest.len() implies encoding::encoded_size(
            (#[trigger] rest[i]).batch,
        ) <= isize::MAX by {
            assert(rest[i] == queue[i]);
        }
        lemma_kept_fits(rest, network);
        assert(encoding::encoded_size(queue[queue.len() - 1].batch) <= isize::MAX);
        let (earlier, all) = (kept_back(rest, network), kept_back(queue, network));
        assert forall|i: int| 0 <= i < all.len() implies encoding::encoded_size(
            (#[trigger] all[i]).batch,
        ) <= isize::MAX by {
            if i < earlier.len() {
                assert(all[i] == earlier[i]);
            }
        }
    }
}

} // verus!

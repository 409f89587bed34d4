use dag_sync::asynchrony::{AsyncTimer, Asynchrony, Effect};
use dag_sync::batch_maker::{
    sample_tx_ids, uint_to_enum, AsyncEffectType, BatchMaker, BatchMakerConfig, Released,
};
use dag_sync::encoding::{digest_of, serialize_batch};
use dag_sync::partition::{find, our_rank, our_side, sort};
use dag_sync::primary_connector::PrimaryConnector;
use dag_sync::types::{Address, Batch, Digest, PublicKey};
use std::collections::VecDeque;

fn key(n: u8) -> PublicKey {
    PublicKey([n; 32])
}

fn address(n: u8) -> Address {
    Address::V4 { octets: [127, 0, 0, n], port: 4000 }
}

fn config(batch_size: usize) -> BatchMakerConfig {
    BatchMakerConfig {
        batch_size,
        max_batch_delay: 100,
        workers_addresses: vec![
            (key(1), address(1)),
            (key(2), address(2)),
            (key(3), address(3)),
            (key(4), address(4)),
        ],
        simulate_asynchrony: false,
        asynchrony_type: VecDeque::new(),
        asynchrony_start: VecDeque::new(),
        asynchrony_duration: VecDeque::new(),
        affected_nodes: VecDeque::new(),
        name: key(2),
    }
}

fn keys() -> Vec<PublicKey> {
    vec![key(3), key(1), key(4), key(2)]
}

#[test]
fn a_full_batch_is_sealed() {
    let mut maker = BatchMaker::new(config(8), keys());
    assert!(maker.fits(&vec![7; 4]));
    assert_eq!(maker.on_transaction(vec![7; 4]), None);
    let sealed = maker.on_transaction(vec![8; 4]).unwrap();

    let expected = vec![
        0, 0, 0, 0, 2, 0, 0, 0, 0, 0, 0, 0, 4, 0, 0, 0, 0, 0, 0, 0, 7, 7, 7, 7, 4, 0, 0, 0, 0, 0, 0,
        0, 8, 8, 8, 8,
    ];
    assert_eq!(sealed.serialized, expected);
    let digest = [
        52, 95, 128, 150, 140, 69, 27, 51, 37, 162, 202, 28, 177, 181, 185, 237, 137, 184, 211, 242,
        188, 160, 186, 24, 45, 204, 95, 233, 103, 59, 197, 22,
    ];
    assert_eq!(sealed.digest, Digest(digest));
    assert_eq!(sealed.addresses, [1, 2, 3, 4].map(address).to_vec());
    assert_eq!(sealed.size, 8);
    assert!(sealed.sample_tx_ids.is_empty());

    assert_eq!(maker.on_timer(), None);
}

#[test]
fn the_timer_seals_what_is_there() {
    let mut maker = BatchMaker::new(config(1000), keys());
    assert_eq!(maker.max_batch_delay(), 100);
    assert_eq!(maker.on_timer(), None);
    assert_eq!(maker.on_transaction(vec![1]), None);
    let sealed = maker.on_timer().unwrap();
    assert_eq!(sealed.serialized, serialize_batch(&vec![vec![1]]));
    assert_eq!(sealed.digest, digest_of(&sealed.serialized));
    assert_eq!(maker.on_timer(), None);
}

#[test]
fn a_batch_can_be_sealed_at_any_time() {
    let mut maker = BatchMaker::new(config(1000), keys());
    assert_eq!(maker.seal().serialized, vec![0u8; 12]);
    maker.on_transaction(vec![3, 4]);
    assert_eq!(maker.seal().serialized, serialize_batch(&vec![vec![3, 4]]));
}

#[test]
fn a_batch_size_of_zero_seals_every_transaction() {
    let mut maker = BatchMaker::new(config(0), keys());
    let sealed = maker.on_transaction(vec![]).unwrap();
    assert_eq!(sealed.serialized, serialize_batch(&vec![vec![]]));
}

#[test]
fn no_transaction_is_lost() {
    let mut maker = BatchMaker::new(config(10), keys());
    let sent: Batch = (0..20u8).map(|n| vec![n; (n % 5) as usize]).collect();
    let mut received: Batch = Vec::new();
    for (i, transaction) in sent.iter().enumerate() {
        let mut sealed: Vec<_> = maker.on_transaction(transaction.clone()).into_iter().collect();
        if i % 7 == 6 {
            sealed.extend(maker.on_timer());
        }
        for batch in sealed {
            let (_, transactions): (u32, Batch) = bincode::deserialize(&batch.serialized).unwrap();
            assert!(!transactions.is_empty());
            let all_but_last: usize =
                transactions[..transactions.len() - 1].iter().map(|t| t.len()).sum();
            assert!(transactions.len() == 1 || all_but_last < 10);
            received.extend(transactions);
        }
    }
    if let Some(batch) = maker.on_timer() {
        let (_, transactions): (u32, Batch) = bincode::deserialize(&batch.serialized).unwrap();
        received.extend(transactions);
    }
    assert_eq!(received, sent);
}

/// A batch maker that seals every transaction and has effects of these types, each for these nodes.
fn with_effects(name: u8, types: Vec<u8>, affected: Vec<u64>) -> BatchMaker {
    let n = types.len() as u64;
    let mut config = config(1);
    config.simulate_asynchrony = true;
    config.asynchrony_type = VecDeque::from(types);
    config.asynchrony_start = (0..n).map(|i| 5 + 20 * i).collect();
    config.asynchrony_duration = (0..n).map(|_| 10).collect();
    config.affected_nodes = VecDeque::from(affected);
    config.name = key(name);
    BatchMaker::new(config, keys())
}

/// A failure that affects nobody, and then a partition.
fn partitioned(left: u64, name: u8) -> BatchMaker {
    with_effects(name, vec![2, 3], vec![0, left])
}

fn sealed_to(maker: &mut BatchMaker, transaction: u8) -> Vec<Address> {
    maker.on_transaction(vec![transaction]).unwrap().addresses
}

fn everyone() -> Vec<Address> {
    [1, 2, 3, 4].map(address).to_vec()
}

fn released(transaction: u8, addresses: Vec<Address>) -> Released {
    Released { serialized: serialize_batch(&vec![vec![transaction]]), addresses }
}

#[test]
fn effects_have_two_timers_each() {
    let mut maker = partitioned(2, 2);
    assert!(maker.can_schedule());
    let failure = Effect { index: 0, kind: AsyncEffectType::Failure, reaches_us: false };
    let partition = Effect { index: 1, kind: AsyncEffectType::Partition, reaches_us: true };
    assert_eq!(
        maker.schedule(),
        vec![
            AsyncTimer { offset: 5, effect: failure },
            AsyncTimer { offset: 15, effect: failure },
            AsyncTimer { offset: 25, effect: partition },
            AsyncTimer { offset: 35, effect: partition },
        ]
    );
}

#[test]
fn without_simulation_there_are_no_timers() {
    let mut maker = BatchMaker::new(config(1), keys());
    assert!(maker.can_schedule());
    assert_eq!(maker.schedule(), Vec::<AsyncTimer>::new());
}

#[test]
fn a_partition_holds_back_from_the_other_side() {
    let mut left = partitioned(2, 2);
    let timers = left.schedule();
    assert_eq!(sealed_to(&mut left, 1), everyone());
    assert_eq!(left.on_async_timer(timers[2].effect), vec![]);
    assert_eq!(sealed_to(&mut left, 2), [1, 2].map(address).to_vec());
    assert_eq!(sealed_to(&mut left, 3), [1, 2].map(address).to_vec());
    assert_eq!(left.queue_len(), 2);
    let other = [3, 4].map(address).to_vec();
    assert_eq!(
        left.on_async_timer(timers[3].effect),
        vec![released(2, other.clone()), released(3, other)]
    );
    assert_eq!(left.queue_len(), 0);
    assert_eq!(sealed_to(&mut left, 4), everyone());

    let mut right = partitioned(1, 2);
    let timers = right.schedule();
    right.on_async_timer(timers[2].effect);
    assert_eq!(sealed_to(&mut right, 1), [2, 3, 4].map(address).to_vec());
    assert_eq!(
        right.on_async_timer(timers[3].effect),
        vec![released(1, vec![address(1)])]
    );
}

#[test]
fn what_an_effect_delays_is_released_to_everyone() {
    for number in [0, 1, 4] {
        let mut maker = with_effects(2, vec![number], vec![4]);
        let timers = maker.schedule();
        assert_eq!(maker.on_async_timer(timers[0].effect), vec![]);
        assert_eq!(sealed_to(&mut maker, 1), vec![]);
        assert_eq!(sealed_to(&mut maker, 2), vec![]);
        assert_eq!(
            maker.on_async_timer(timers[1].effect),
            vec![released(1, everyone()), released(2, everyone())]
        );
        assert_eq!(maker.queue_len(), 0);
        assert_eq!(sealed_to(&mut maker, 3), everyone());
    }
}

#[test]
fn a_failure_releases_nothing() {
    let mut maker = with_effects(2, vec![2, 3], vec![4, 2]);
    let timers = maker.schedule();
    maker.on_async_timer(timers[0].effect);
    assert_eq!(sealed_to(&mut maker, 1), vec![]);
    assert_eq!(maker.on_async_timer(timers[1].effect), vec![]);
    assert_eq!(maker.queue_len(), 0);
    assert_eq!(sealed_to(&mut maker, 2), everyone());
}

#[test]
fn an_effect_reaches_the_first_nodes() {
    for (name, nodes, reached) in [(1, 1, true), (2, 1, false), (2, 2, true), (4, 4, true), (1, 0, false)] {
        let mut maker = with_effects(name, vec![1], vec![nodes]);
        let timers = maker.schedule();
        assert_eq!(timers[0].effect.reaches_us, reached);
        assert_eq!(maker.on_async_timer(timers[0].effect), vec![]);
        assert_eq!(sealed_to(&mut maker, 1), if reached { vec![] } else { everyone() });
        assert_eq!(maker.on_async_timer(timers[1].effect).len(), if reached { 1 } else { 0 });
    }
    let mut maker = with_effects(4, vec![1], vec![]);
    assert!(maker.can_schedule());
    assert!(maker.schedule()[0].effect.reaches_us);
}

#[test]
fn effects_that_overlap_last_to_their_ends() {
    let mut maker = with_effects(2, vec![1, 3], vec![4, 2]);
    let timers = maker.schedule();
    let (blip, partition) = (timers[0].effect, timers[2].effect);
    assert_eq!(maker.on_async_timer(partition), vec![]);
    assert_eq!(sealed_to(&mut maker, 1), [1, 2].map(address).to_vec());
    assert_eq!(maker.on_async_timer(blip), vec![]);
    assert_eq!(sealed_to(&mut maker, 2), vec![]);
    assert_eq!(maker.on_async_timer(partition), vec![]);
    assert_eq!(sealed_to(&mut maker, 3), vec![]);
    assert_eq!(
        maker.on_async_timer(blip),
        vec![
            released(1, [3, 4].map(address).to_vec()),
            released(2, everyone()),
            released(3, everyone()),
        ]
    );
    assert_eq!(sealed_to(&mut maker, 4), everyone());
}

#[test]
fn a_blip_within_a_partition_is_released_to_our_side() {
    let mut maker = with_effects(2, vec![1, 3], vec![4, 2]);
    let timers = maker.schedule();
    let (blip, partition) = (timers[0].effect, timers[2].effect);
    let ours = [1, 2].map(address).to_vec();
    let other = [3, 4].map(address).to_vec();
    maker.on_async_timer(blip);
    assert_eq!(sealed_to(&mut maker, 1), vec![]);
    maker.on_async_timer(partition);
    assert_eq!(sealed_to(&mut maker, 2), vec![]);
    assert_eq!(
        maker.on_async_timer(blip),
        vec![released(1, ours.clone()), released(2, ours.clone())]
    );
    assert_eq!(maker.queue_len(), 2);
    assert_eq!(sealed_to(&mut maker, 3), ours);
    assert_eq!(
        maker.on_async_timer(partition),
        vec![released(1, other.clone()), released(2, other.clone()), released(3, other)]
    );
    assert_eq!(maker.queue_len(), 0);
}

#[test]
fn each_partition_has_its_own_sides() {
    let mut maker = with_effects(1, vec![3, 3], vec![1, 3]);
    let timers = maker.schedule();
    let (narrow, wide) = (timers[0].effect, timers[2].effect);
    maker.on_async_timer(narrow);
    assert_eq!(sealed_to(&mut maker, 1), vec![address(1)]);
    maker.on_async_timer(wide);
    assert_eq!(sealed_to(&mut maker, 2), vec![address(1)]);
    let near = [2, 3].map(address).to_vec();
    assert_eq!(
        maker.on_async_timer(narrow),
        vec![released(1, near.clone()), released(2, near)]
    );
    assert_eq!(sealed_to(&mut maker, 3), [1, 2, 3].map(address).to_vec());
    let far = vec![address(4)];
    assert_eq!(
        maker.on_async_timer(wide),
        vec![released(1, far.clone()), released(2, far.clone()), released(3, far)]
    );
    assert_eq!(maker.queue_len(), 0);
}

#[test]
fn what_a_failure_covers_is_never_sent() {
    let mut maker = with_effects(2, vec![1, 2], vec![4, 4]);
    let timers = maker.schedule();
    let (blip, failure) = (timers[0].effect, timers[2].effect);
    maker.on_async_timer(blip);
    assert_eq!(sealed_to(&mut maker, 1), vec![]);
    maker.on_async_timer(failure);
    assert_eq!(sealed_to(&mut maker, 2), vec![]);
    assert_eq!(maker.on_async_timer(blip), vec![]);
    assert_eq!(maker.on_async_timer(failure), vec![released(1, everyone())]);
    assert_eq!(maker.queue_len(), 0);
}

#[test]
fn an_effect_with_nothing_to_send_leaves_no_trace() {
    let mut maker = with_effects(2, vec![1], vec![4]);
    let timers = maker.schedule();
    assert_eq!(maker.on_async_timer(timers[0].effect), vec![]);
    assert_eq!(maker.on_async_timer(timers[1].effect), vec![]);
    assert_eq!(maker.queue_len(), 0);
    assert_eq!(sealed_to(&mut maker, 1), everyone());
}

#[test]
fn each_worker_gets_each_batch_once() {
    let mut maker = with_effects(2, vec![1, 3, 4, 3], vec![4, 2, 4, 1]);
    let effects: Vec<Effect> = maker.schedule().iter().step_by(2).map(|t| t.effect).collect();
    let mut sent = vec![Vec::new(); 4];
    let mut transaction = 0u8;
    for index in [1, 0, 3, 1, 2, 0, 2, 3, 0, 1, 0, 1] {
        let mut deliveries = Vec::new();
        for batch in maker.on_async_timer(effects[index]) {
            deliveries.push((batch.serialized, batch.addresses));
        }
        transaction += 1;
        let sealed = maker.on_transaction(vec![transaction]).unwrap();
        deliveries.push((sealed.serialized, sealed.addresses));
        for (bytes, to) in deliveries {
            for n in 0..4 {
                if to.contains(&address(n as u8 + 1)) {
                    sent[n].push(bytes.clone());
                }
            }
        }
    }
    let mut expected: Vec<Vec<u8>> =
        (1..=transaction).map(|n| serialize_batch(&vec![vec![n]])).collect();
    expected.sort();
    for mut list in sent {
        list.sort();
        assert_eq!(list, expected);
    }
}

#[test]
fn workers_are_parted_into_reached_and_withheld() {
    let workers = config(1).workers_addresses;
    let mut asynchrony = Asynchrony::new();
    asynchrony.set_sides(vec![vec![key(1), key(3)], vec![]]);
    assert!(asynchrony.is_quiet());
    assert_eq!(asynchrony.split(&workers), (workers.clone(), vec![]));
    let partition = Effect { index: 0, kind: AsyncEffectType::Partition, reaches_us: true };
    let failure = Effect { index: 1, kind: AsyncEffectType::Failure, reaches_us: true };
    assert!(!asynchrony.on_timer(partition));
    assert!(asynchrony.lets(&key(1)));
    assert!(!asynchrony.lets(&key(2)));
    assert_eq!(
        asynchrony.split(&workers),
        (vec![workers[0], workers[2]], vec![workers[1], workers[3]])
    );
    assert!(!asynchrony.is_failing());
    assert!(!asynchrony.on_timer(failure));
    assert!(asynchrony.is_failing());
    assert_eq!(asynchrony.split(&workers), (vec![], workers.clone()));
    assert!(asynchrony.on_timer(partition));
    assert!(asynchrony.on_timer(failure));
    assert!(asynchrony.is_quiet());
}

#[test]
fn ranks_count_the_names_before() {
    assert_eq!(our_rank(&keys(), &key(1)), 0);
    assert_eq!(our_rank(&keys(), &key(3)), 2);
    let mut sorted = keys();
    sort(&mut sorted);
    assert_eq!(our_rank(&sorted, &key(3)), find(&sorted, &key(3)).unwrap());
}

#[test]
fn incomplete_effects_are_found() {
    assert!(!partitioned(0, 2).can_schedule());
    assert!(!partitioned(5, 2).can_schedule());
    assert!(partitioned(4, 2).can_schedule());
    assert!(!partitioned(2, 9).can_schedule());
    let mut long = config(1);
    long.simulate_asynchrony = true;
    long.asynchrony_type = VecDeque::from(vec![1]);
    long.asynchrony_start = VecDeque::from(vec![u64::MAX]);
    long.asynchrony_duration = VecDeque::from(vec![1]);
    assert!(!BatchMaker::new(long.clone(), keys()).can_schedule());
    long.asynchrony_duration = VecDeque::from(vec![0]);
    assert!(BatchMaker::new(long.clone(), keys()).can_schedule());
    long.asynchrony_type = VecDeque::from(vec![5]);
    assert!(!BatchMaker::new(long, keys()).can_schedule());
}

#[test]
fn numbers_of_effects() {
    let kinds: Vec<AsyncEffectType> = (0..5).map(uint_to_enum).collect();
    assert_eq!(
        kinds,
        vec![
            AsyncEffectType::Off,
            AsyncEffectType::TempBlip,
            AsyncEffectType::Failure,
            AsyncEffectType::Partition,
            AsyncEffectType::Egress,
        ]
    );
}

#[test]
fn names_are_sorted() {
    let mut list = vec![key(9), key(2), key(5), key(2), key(1)];
    sort(&mut list);
    assert_eq!(list, vec![key(1), key(2), key(2), key(5), key(9)]);
    assert_eq!(find(&list, &key(2)), Some(1));
    assert_eq!(find(&list, &key(3)), None);
}

#[test]
fn nodes_agree_on_the_order_of_names() {
    let mut one = vec![key(9), key(2), key(5), key(1)];
    let mut other = vec![key(1), key(5), key(9), key(2)];
    sort(&mut one);
    sort(&mut other);
    assert_eq!(one, other);
}

#[test]
fn the_two_sides_of_a_partition() {
    let list = vec![key(1), key(2), key(3), key(4), key(5)];
    let left = our_side(&list, &key(2), 2);
    let right = our_side(&list, &key(3), 2);
    assert_eq!(left, vec![key(1), key(2)]);
    assert_eq!(right, vec![key(3), key(4), key(5)]);
    assert_eq!(our_side(&list, &key(1), 2), left);
    assert_eq!(our_side(&list, &key(5), 2), right);
}

#[test]
fn samples_start_with_a_zero() {
    let batch: Batch = vec![
        vec![0, 0, 0, 0, 0, 0, 0, 1, 2, 99],
        vec![1, 0, 0, 0, 0, 0, 0, 1, 2],
        vec![0, 0, 0, 0, 0, 0, 0, 1],
        vec![],
        vec![0, 0, 0, 0, 0, 0, 0, 0, 7],
    ];
    assert_eq!(sample_tx_ids(&batch), vec![258, 7]);
    let mut maker = BatchMaker::new(config(1000), keys());
    for transaction in batch {
        maker.on_transaction(transaction);
    }
    assert_eq!(maker.seal().sample_tx_ids, vec![258, 7]);
}

#[test]
fn digests_go_to_the_primary() {
    let connector = PrimaryConnector::new(address(9));
    assert_eq!(connector.on_digest(vec![1, 2]), (address(9), vec![1, 2]));
}

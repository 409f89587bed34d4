use dag_sync::committee::{Authority, Committee, Worker};
use dag_sync::digest_map::DigestMap;
use dag_sync::header_waiter::{
    settle, HeaderWaiter, Pool, Reaction, WaitEnd, WaiterConfig, WaiterMessage,
};
use dag_sync::store_keys::{batch_key, header_key, tip_key};
use dag_sync::types::{
    Address, ConsensusMessage, Digest, Header, PrimaryMessage, PrimaryWorkerMessage, Proposal,
    PublicKey, WorkerId,
};

fn key(n: u8) -> PublicKey {
    PublicKey([n; 32])
}

fn digest(n: u8) -> Digest {
    Digest([n; 32])
}

fn address(n: u8) -> Address {
    Address::V4 { octets: [10, 0, 0, n], port: 6000 }
}

fn config(use_fast_sync: bool, use_optimistic_tips: bool) -> WaiterConfig {
    WaiterConfig {
        name: key(1),
        committee: Committee {
            authorities: (1..=4)
                .map(|n| Authority {
                    name: key(n),
                    primary_to_primary: address(n),
                    workers: vec![
                        Worker { id: 0, primary_to_worker: address(n + 10) },
                        Worker { id: 1, primary_to_worker: address(n + 20) },
                    ],
                })
                .collect(),
        },
        gc_depth: 50,
        sync_retry_delay: 5_000,
        sync_retry_nodes: 3,
        use_fast_sync,
        use_optimistic_tips,
    }
}

fn header(n: u8, height: u64) -> Header {
    Header {
        id: digest(n),
        author: key(2),
        height,
        payload: vec![(digest(n + 100), 0), (digest(n + 101), 1)],
        parent_digest: digest(n - 1),
    }
}

fn missing(batches: &[(u8, WorkerId)]) -> DigestMap<WorkerId> {
    let mut map = DigestMap::new();
    for (n, worker_id) in batches {
        map.insert(digest(*n), *worker_id);
    }
    map
}

fn proposal(n: u8, height: u64) -> Proposal {
    Proposal { header_digest: digest(n), height }
}

fn prepare(n: u8, proposals: Vec<Proposal>) -> ConsensusMessage {
    ConsensusMessage::Prepare {
        digest: digest(n),
        slot: 1,
        view: 1,
        proposals: proposals.into_iter().map(|p| (key(2), p)).collect(),
    }
}

fn confirm(n: u8, proposals: Vec<Proposal>) -> ConsensusMessage {
    ConsensusMessage::Confirm {
        digest: digest(n),
        slot: 1,
        view: 1,
        proposals: proposals.into_iter().map(|p| (key(2), p)).collect(),
    }
}

fn headers_request(list: &[u8]) -> PrimaryMessage {
    PrimaryMessage::HeadersRequest(list.iter().map(|n| digest(*n)).collect(), key(1))
}

fn fast_request(list: &[(u8, u64)]) -> PrimaryMessage {
    PrimaryMessage::FastSyncHeadersRequest(
        list.iter().map(|(n, h)| (digest(*n), *h)).collect(),
        key(1),
    )
}

#[test]
fn batches_are_asked_of_their_workers() {
    let mut waiter = HeaderWaiter::new(config(false, false));
    let map = missing(&[(30, 1), (10, 0), (20, 1), (40, 7)]);
    let (wait, requests) = waiter.sync_batches(&map, &header(3, 7)).unwrap();

    assert_eq!(wait.id, digest(3));
    assert_eq!(wait.pool, Pool::Headers);
    assert_eq!(
        wait.keys,
        vec![
            batch_key(&digest(10), 0),
            batch_key(&digest(20), 1),
            batch_key(&digest(30), 1),
            batch_key(&digest(40), 7),
        ]
    );
    assert_eq!(requests.len(), 3);
    assert_eq!(requests[0].worker_id, 0);
    assert_eq!(requests[0].to, Some(address(11)));
    assert_eq!(
        requests[0].message,
        PrimaryWorkerMessage::Synchronize(vec![digest(10)], key(2))
    );
    assert_eq!(requests[1].to, Some(address(21)));
    assert_eq!(
        requests[1].message,
        PrimaryWorkerMessage::Synchronize(vec![digest(20), digest(30)], key(2))
    );
    assert_eq!(requests[2].worker_id, 7);
    assert_eq!(requests[2].to, None);
    assert!(waiter.is_pending(&digest(3)));
}

#[test]
fn a_header_is_synced_once() {
    let mut waiter = HeaderWaiter::new(config(false, false));
    assert!(waiter.sync_batches(&missing(&[(10, 0)]), &header(3, 7)).is_some());
    assert!(waiter.sync_batches(&missing(&[(11, 0)]), &header(3, 7)).is_none());
    assert!(waiter.sync_parent(&digest(2), &header(3, 7), 0, 1).is_none());
}

#[test]
fn a_batch_is_asked_for_once() {
    let mut waiter = HeaderWaiter::new(config(false, false));
    waiter.sync_batches(&missing(&[(10, 0), (11, 1)]), &header(3, 7));
    let (_, requests) = waiter
        .sync_batches(&missing(&[(10, 0), (12, 0)]), &header(4, 8))
        .unwrap();
    assert_eq!(requests.len(), 1);
    assert_eq!(
        requests[0].message,
        PrimaryWorkerMessage::Synchronize(vec![digest(12)], key(2))
    );
}

#[test]
fn an_arrival_lets_batches_be_asked_for_again() {
    let mut waiter = HeaderWaiter::new(config(false, false));
    let map = missing(&[(103, 0), (104, 1)]);
    waiter.sync_batches(&map, &header(3, 7));
    waiter.header_ready(&header(3, 7));
    assert!(!waiter.is_pending(&digest(3)));
    let (_, requests) = waiter.sync_batches(&map, &header(3, 7)).unwrap();
    assert_eq!(requests.len(), 2);
}

#[test]
fn a_header_is_asked_of_the_other_primaries_once() {
    let mut waiter = HeaderWaiter::new(config(true, true));
    let broadcast = waiter.sync_header(&digest(9), 100).unwrap();
    assert_eq!(broadcast.to, [2, 3, 4].map(address).to_vec());
    assert_eq!(broadcast.message, headers_request(&[9]));
    assert_eq!(broadcast.nodes, 3);
    assert_eq!(waiter.sync_header(&digest(9), 200_000), None);
}

#[test]
fn a_parent_is_asked_of_the_author() {
    let mut waiter = HeaderWaiter::new(config(false, false));
    let (wait, request) = waiter.sync_parent(&digest(2), &header(3, 7), 0, 1).unwrap();
    assert_eq!(wait.keys, vec![header_key(&digest(2))]);
    assert_eq!(wait.pool, Pool::Headers);
    let request = request.unwrap();
    assert_eq!(request.to, Some(address(2)));
    assert_eq!(request.message, headers_request(&[2]));

    let (_, request) = waiter.sync_parent(&digest(2), &header(5, 7), 0, 1).unwrap();
    assert_eq!(request, None);
}

#[test]
fn an_unknown_author_has_no_address() {
    let mut waiter = HeaderWaiter::new(config(false, false));
    let mut stranger = header(3, 7);
    stranger.author = key(9);
    let (_, request) = waiter.sync_parent(&digest(2), &stranger, 0, 1).unwrap();
    assert_eq!(request.unwrap().to, None);
}

#[test]
fn fast_sync_asks_for_the_ancestors_above_the_bound() {
    let mut waiter = HeaderWaiter::new(config(true, false));
    let (_, request) = waiter.sync_parent(&digest(2), &header(3, 7), 4, 1).unwrap();
    assert_eq!(request.unwrap().message, fast_request(&[(2, 4)]));

    // The message goes out again, but asks for nothing.
    let (_, request) = waiter.sync_parent(&digest(2), &header(5, 7), 3, 1).unwrap();
    assert_eq!(request.unwrap().message, fast_request(&[]));

    // The parent does not stand above the bound.
    let (_, request) = waiter.sync_parent(&digest(8), &header(9, 7), 6, 1).unwrap();
    assert_eq!(request, None);
}

#[test]
fn proposals_are_asked_for_once() {
    let mut waiter = HeaderWaiter::new(config(false, true));
    let list = vec![
        (key(2), proposal(30, 5), 9),
        (key(3), proposal(31, 6), 0),
        (key(2), proposal(30, 5), 9),
    ];
    let message = confirm(50, vec![proposal(30, 5), proposal(31, 6)]);
    let (wait, request) = waiter.sync_proposals(&list, &message, &header(3, 7), 1);
    assert_eq!(wait.id, digest(50));
    assert_eq!(wait.pool, Pool::Proposals);
    assert_eq!(
        wait.keys,
        vec![header_key(&digest(30)), header_key(&digest(31)), header_key(&digest(30))]
    );
    let request = request.unwrap();
    assert_eq!(request.to, Some(address(2)));
    assert_eq!(request.message, headers_request(&[30, 31]));

    let (_, request) = waiter.sync_proposals(&list, &message, &header(3, 7), 2);
    assert_eq!(request, None);

    waiter.proposals_ready(&message, &header(3, 7));
    assert!(!waiter.is_pending(&digest(50)));
    let (_, request) = waiter.sync_proposals(&list, &message, &header(3, 7), 3);
    assert_eq!(request.unwrap().message, headers_request(&[30, 31]));
}

#[test]
fn fast_sync_asks_for_proposals_above_their_bounds() {
    let mut waiter = HeaderWaiter::new(config(true, false));
    let list = vec![(key(2), proposal(30, 5), 5), (key(3), proposal(31, 6), 2)];
    let message = prepare(50, vec![]);
    let (wait, request) = waiter.sync_proposals(&list, &message, &header(3, 7), 1);
    assert_eq!(wait.pool, Pool::Proposals);
    assert_eq!(request.unwrap().message, fast_request(&[(31, 2)]));

    // While the proposals wait nothing more is asked for.
    let more = vec![(key(3), proposal(32, 6), 2)];
    let (_, request) = waiter.sync_proposals(&more, &message, &header(3, 7), 2);
    assert_eq!(request, None);
    let (_, request) = waiter.sync_proposals(&more, &prepare(51, vec![]), &header(3, 7), 2);
    assert_eq!(request.unwrap().message, fast_request(&[(32, 2)]));
}

#[test]
fn tips_suffice_to_prepare() {
    let mut waiter = HeaderWaiter::new(config(true, true));
    let list = vec![(key(2), proposal(30, 5), 1)];
    let (wait, _) = waiter.sync_proposals(&list, &prepare(50, vec![]), &header(3, 7), 1);
    assert_eq!(wait.pool, Pool::OptimisticTips);
    assert_eq!(wait.keys, vec![tip_key(&digest(30))]);
    let (wait, _) = waiter.sync_proposals(&list, &confirm(51, vec![]), &header(3, 7), 1);
    assert_eq!(wait.pool, Pool::Proposals);
    assert_eq!(wait.keys, vec![header_key(&digest(30))]);
    let commit = ConsensusMessage::Commit {
        digest: digest(52),
        slot: 1,
        view: 1,
        proposals: vec![],
    };
    let (wait, _) = waiter.sync_proposals(&list, &commit, &header(3, 7), 1);
    assert_eq!(wait.id, digest(52));
    assert_eq!(wait.pool, Pool::Proposals);
}

#[test]
fn overdue_requests_are_repeated() {
    let mut waiter = HeaderWaiter::new(config(false, false));
    waiter.sync_parent(&digest(8), &header(9, 7), 0, 2_000);
    waiter.sync_parent(&digest(2), &header(3, 7), 0, 1_000);
    let broadcast = waiter.retry(6_000);
    assert_eq!(broadcast.to, [2, 3, 4].map(address).to_vec());
    assert_eq!(broadcast.nodes, 3);
    assert_eq!(broadcast.message, headers_request(&[]));
    assert_eq!(waiter.retry(6_001).message, headers_request(&[2]));
    assert_eq!(waiter.retry(7_001).message, headers_request(&[2, 8]));
    assert_eq!(waiter.retry(100).message, headers_request(&[]));
    waiter.header_ready(&header(3, 7));
    assert_eq!(waiter.retry(7_001).message, headers_request(&[8]));
}

#[test]
fn overdue_fast_requests_keep_their_bounds() {
    let mut waiter = HeaderWaiter::new(config(true, false));
    waiter.sync_parent(&digest(8), &header(9, 7), 4, 0);
    waiter.sync_parent(&digest(2), &header(3, 7), 5, 0);
    waiter.sync_parent(&digest(2), &header(4, 7), 1, 9_000);
    assert_eq!(waiter.retry(5_001).message, fast_request(&[(2, 5), (8, 4)]));
}

#[test]
fn waits_that_consensus_left_behind_are_called_off() {
    let mut waiter = HeaderWaiter::new(config(false, false));
    waiter.sync_batches(&missing(&[]), &header(9, 10));
    waiter.sync_batches(&missing(&[]), &header(5, 11));
    waiter.sync_batches(&missing(&[]), &header(7, 12));
    assert_eq!(waiter.cleanup(0), vec![]);
    assert_eq!(waiter.cleanup(50), vec![]);
    assert_eq!(waiter.cleanup(59), vec![]);
    assert_eq!(waiter.cleanup(60), vec![digest(9)]);
    assert_eq!(waiter.cleanup(61), vec![digest(5), digest(9)]);
    assert_eq!(waiter.cleanup(u64::MAX), vec![digest(5), digest(7), digest(9)]);
    assert!(waiter.is_pending(&digest(9)));
}

#[test]
fn commands_are_carried_out() {
    let mut waiter = HeaderWaiter::new(config(false, false));
    let batches = WaiterMessage::SyncBatches(missing(&[(10, 0)]), header(3, 7), false);
    match waiter.handle(&batches, 1) {
        Reaction::SyncBatches(wait, requests) => {
            assert_eq!(wait.id, digest(3));
            assert_eq!(requests.len(), 1);
        }
        _ => panic!("batches are missing"),
    }
    assert_eq!(waiter.handle(&batches, 1), Reaction::Ignored);
    let parent = WaiterMessage::SyncParent(digest(2), header(3, 7), 0);
    assert_eq!(waiter.handle(&parent, 1), Reaction::Ignored);
    let parent = WaiterMessage::SyncParent(digest(4), header(5, 7), 0);
    match waiter.handle(&parent, 1) {
        Reaction::SyncParent(wait, request) => {
            assert_eq!(wait.id, digest(5));
            assert_eq!(request.unwrap().message, headers_request(&[4]));
        }
        _ => panic!("a parent is missing"),
    }
    match waiter.handle(&WaiterMessage::SyncHeader(digest(9)), 1) {
        Reaction::SyncHeader(broadcast) => assert!(broadcast.is_some()),
        _ => panic!("a header is missing"),
    }
    assert_eq!(
        waiter.handle(&WaiterMessage::SyncHeader(digest(9)), 2),
        Reaction::SyncHeader(None)
    );
    let proposals = WaiterMessage::SyncProposals(
        vec![(key(3), proposal(31, 6), 0)],
        prepare(50, vec![proposal(31, 6)]),
        header(3, 7),
    );
    match waiter.handle(&proposals, 1) {
        Reaction::SyncProposals(wait, request) => {
            assert_eq!(wait.id, digest(50));
            assert_eq!(request.unwrap().message, headers_request(&[31]));
        }
        _ => panic!("proposals are missing"),
    }
}

#[test]
fn waits_are_settled() {
    assert_eq!(settle::<u8, String>(WaitEnd::Stored, 7), Ok(Some(7)));
    assert_eq!(settle::<u8, String>(WaitEnd::Cancelled, 7), Ok(None));
    assert_eq!(
        settle::<u8, String>(WaitEnd::Failed("disk".to_string()), 7),
        Err("disk".to_string())
    );
}

#[test]
fn a_request_is_repeated_until_its_header_comes() {
    let mut waiter = HeaderWaiter::new(config(false, false));
    waiter.sync_parent(&digest(2), &header(3, 7), 0, 1_000);
    waiter.sync_parent(&digest(2), &header(13, 8), 0, 5_000);
    waiter.sync_batches(&missing(&[(2, 0)]), &header(23, 7));
    waiter.sync_header(&digest(2), 5_500);
    waiter.header_ready(&header(23, 7));
    waiter.proposals_ready(&confirm(50, vec![proposal(30, 5)]), &header(33, 7));
    for now in [6_001, 7_001, 8_001] {
        assert_eq!(waiter.retry(now).message, headers_request(&[2]));
    }
    waiter.proposals_ready(&confirm(50, vec![proposal(2, 6)]), &header(33, 7));
    assert_eq!(waiter.retry(9_001).message, headers_request(&[]));
}

#[test]
fn a_wait_lasts_until_all_has_come() {
    let mut waiter = HeaderWaiter::new(config(true, true));
    waiter.sync_batches(&missing(&[(103, 0)]), &header(3, 7));
    waiter.sync_proposals(&vec![(key(2), proposal(30, 5), 1)], &prepare(50, vec![]), &header(4, 7), 1);
    waiter.header_ready(&header(5, 7));
    waiter.proposals_ready(&prepare(51, vec![]), &header(6, 7));
    assert!(waiter.is_pending(&digest(3)));
    assert!(waiter.is_pending(&digest(50)));

    // The batch is still noted: another header does not make the waiter ask for it again.
    let (_, requests) = waiter.sync_batches(&missing(&[(103, 0)]), &header(9, 7)).unwrap();
    assert_eq!(requests, vec![]);

    waiter.header_ready(&header(3, 7));
    waiter.proposals_ready(&prepare(50, vec![]), &header(4, 7));
    assert!(!waiter.is_pending(&digest(3)));
    assert!(!waiter.is_pending(&digest(50)));
    assert!(waiter.is_pending(&digest(9)));
}

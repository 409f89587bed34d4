use dag_sync::committee::{Authority, Committee, Worker};
use dag_sync::helper::{Helper, HelperRequest, Read, Reply, Session};
use dag_sync::types::{Address, Digest, Header, PublicKey};
use std::collections::HashMap;

fn key(n: u8) -> PublicKey {
    PublicKey([n; 32])
}

fn digest(n: u8) -> Digest {
    Digest([n; 32])
}

fn address(n: u8) -> Address {
    Address::V4 { octets: [127, 0, 0, n], port: 5000 }
}

fn committee() -> Committee {
    Committee {
        authorities: (1..=4)
            .map(|n| Authority {
                name: key(n),
                primary_to_primary: address(n),
                workers: vec![
                    Worker { id: 0, primary_to_worker: address(n + 10) },
                    Worker { id: 1, primary_to_worker: address(n + 20) },
                ],
            })
            .collect(),
    }
}

/// A chain of headers: the header at height `n` has the digest of `n`.
fn chain(length: u8) -> HashMap<Digest, Header> {
    (1..=length)
        .map(|n| {
            let header = Header {
                id: digest(n),
                author: key(1),
                height: n as u64,
                payload: vec![],
                parent_digest: digest(n - 1),
            };
            (digest(n), header)
        })
        .collect()
}

fn answer(mut session: Session, store: &HashMap<Digest, Header>) -> Vec<Digest> {
    let mut sent = Vec::new();
    while let Some(wanted) = session.wanted() {
        let read = match store.get(&wanted) {
            Some(header) => Read::Header(header.clone()),
            None => Read::Absent,
        };
        match session.on_read(&read) {
            Some(reply) => {
                assert_eq!(reply, Reply::Header { sync: true });
                sent.push(wanted);
            }
            None => assert_eq!(read, Read::Absent),
        }
    }
    sent
}

#[test]
fn strangers_get_no_answer() {
    let helper = Helper::new(committee());
    assert!(helper.accept(HelperRequest::Headers(vec![digest(1)], key(9))).is_none());
    assert!(helper.accept(HelperRequest::Certificates(vec![digest(1)], key(9))).is_none());
    assert!(helper.accept(HelperRequest::FastSyncHeaders(vec![], key(9))).is_none());
}

#[test]
fn members_are_answered_at_their_address() {
    let helper = Helper::new(committee());
    let session = helper.accept(HelperRequest::Headers(vec![], key(3))).unwrap();
    assert_eq!(session.address(), address(3));
    assert_eq!(session.wanted(), None);
}

#[test]
fn certificates_that_are_there_are_sent() {
    let helper = Helper::new(committee());
    let request = HelperRequest::Certificates(vec![digest(1), digest(2), digest(3)], key(2));
    assert_eq!(request.origin(), key(2));
    let mut session = helper.accept(request).unwrap();
    assert_eq!(session.wanted(), Some(digest(1)));
    assert_eq!(session.on_read(&Read::Certificate), Some(Reply::Certificate));
    assert_eq!(session.wanted(), Some(digest(2)));
    assert_eq!(session.on_read(&Read::Absent), None);
    assert_eq!(session.wanted(), Some(digest(3)));
    assert_eq!(session.on_read(&Read::Failed), None);
    assert_eq!(session.wanted(), None);
}

#[test]
fn headers_that_are_there_are_sent() {
    let helper = Helper::new(committee());
    let request = HelperRequest::Headers(vec![digest(5), digest(77), digest(2)], key(2));
    let session = helper.accept(request).unwrap();
    assert_eq!(answer(session, &chain(6)), vec![digest(5), digest(2)]);
}

#[test]
fn fast_sync_sends_the_ancestors_above_the_bound() {
    let helper = Helper::new(committee());
    let request = HelperRequest::FastSyncHeaders(vec![(digest(6), 2)], key(2));
    let session = helper.accept(request).unwrap();
    assert!(!session.is_climbing());
    assert_eq!(answer(session, &chain(8)), [6, 5, 4, 3].map(digest).to_vec());
}

#[test]
fn fast_sync_sends_the_header_itself_below_the_bound() {
    let helper = Helper::new(committee());
    let request = HelperRequest::FastSyncHeaders(
        vec![(digest(3), 7), (digest(99), 0), (digest(2), 0), (digest(4), 3)],
        key(2),
    );
    let session = helper.accept(request).unwrap();
    assert_eq!(answer(session, &chain(8)), [3, 2, 1, 4].map(digest).to_vec());
}

#[test]
fn a_climb_goes_from_parent_to_parent() {
    let helper = Helper::new(committee());
    let request = HelperRequest::FastSyncHeaders(vec![(digest(3), 1)], key(2));
    let mut session = helper.accept(request).unwrap();
    let store = chain(3);
    session.on_read(&Read::Header(store[&digest(3)].clone()));
    assert!(session.is_climbing());
    assert_eq!(session.wanted(), Some(digest(2)));
    session.on_read(&Read::Header(store[&digest(2)].clone()));
    assert!(!session.is_climbing());
    assert_eq!(session.wanted(), None);
}

#[test]
fn addresses_of_the_committee() {
    let committee = committee();
    assert_eq!(committee.primary(&key(2)), Some(address(2)));
    assert_eq!(committee.primary(&key(7)), None);
    assert_eq!(committee.worker(&key(2), &1), Some(address(22)));
    assert_eq!(committee.worker(&key(2), &2), None);
    assert_eq!(committee.worker(&key(7), &0), None);
    assert_eq!(committee.others_primaries(&key(2)), [1, 3, 4].map(address).to_vec());
    assert_eq!(committee.others_primaries(&key(7)), [1, 2, 3, 4].map(address).to_vec());
}

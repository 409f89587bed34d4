use dag_sync::digest_map::DigestMap;
use dag_sync::types::Digest;

fn digest(n: u8) -> Digest {
    Digest([n; 32])
}

#[test]
fn a_new_map_is_empty() {
    let map: DigestMap<u64> = DigestMap::new();
    assert_eq!(map.len(), 0);
    assert!(!map.contains_key(&digest(0)));
}

#[test]
fn a_map_is_walked_in_order() {
    let mut map = DigestMap::new();
    for n in [5u8, 1, 9, 3, 7] {
        map.insert(digest(n), n as u64 * 10);
    }
    let keys: Vec<Digest> = (0..map.len()).map(|i| map.key_at(i)).collect();
    assert_eq!(keys, [1, 3, 5, 7, 9].map(digest).to_vec());
    let values: Vec<u64> = (0..map.len()).map(|i| map.value_at(i)).collect();
    assert_eq!(values, vec![10, 30, 50, 70, 90]);
}

#[test]
fn an_insert_replaces() {
    let mut map = DigestMap::new();
    map.insert(digest(1), 10u64);
    map.insert(digest(1), 11);
    assert_eq!(map.len(), 1);
    assert_eq!(map.key_at(0), digest(1));
    assert_eq!(map.value_at(0), 11);
}

#[test]
fn a_remove_takes_one_out() {
    let mut map = DigestMap::new();
    for n in 0..10 {
        map.insert(digest(n), n);
    }
    map.remove(&digest(4));
    map.remove(&digest(4));
    map.remove(&digest(200));
    assert_eq!(map.len(), 9);
    for n in 0..10 {
        assert_eq!(map.contains_key(&digest(n)), n != 4);
    }
}

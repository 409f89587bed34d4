use dag_sync::encoding::{digest_from_hash, digest_of, serialize_batch};
use dag_sync::numbers::read_be64;
use dag_sync::order::{is_before, is_same};
use dag_sync::store_keys::{batch_key, header_key, tip_key};
use dag_sync::types::{Batch, Digest};

/// The message of a worker as an enum, of which a batch is the first variant.
struct Message(Batch);

impl serde::Serialize for Message {
    fn serialize<S: serde::Serializer>(&self, serializer: S) -> Result<S::Ok, S::Error> {
        serializer.serialize_newtype_variant("WorkerMessage", 0, "Batch", &self.0)
    }
}

#[test]
fn batch_has_known_bytes() {
    let batch: Batch = vec![vec![1, 2, 3], vec![]];
    assert_eq!(
        serialize_batch(&batch),
        vec![
            0, 0, 0, 0, 2, 0, 0, 0, 0, 0, 0, 0, 3, 0, 0, 0, 0, 0, 0, 0, 1, 2, 3, 0, 0, 0, 0, 0, 0,
            0, 0
        ]
    );
}

#[test]
fn empty_batch_is_twelve_zeros() {
    assert_eq!(serialize_batch(&vec![]), vec![0u8; 12]);
}

#[test]
fn batch_is_the_first_variant_of_an_enum() {
    let batch: Batch = vec![vec![5; 300], vec![6], vec![]];
    let expected = bincode::serialize(&Message(batch.clone())).unwrap();
    assert_eq!(serialize_batch(&batch), expected);
}

#[test]
fn batch_can_be_read_back() {
    let batch: Batch = vec![vec![9, 8], vec![], vec![7; 20]];
    let read: (u32, Batch) = bincode::deserialize(&serialize_batch(&batch)).unwrap();
    assert_eq!(read, (0, batch));
}

#[test]
fn different_batches_have_different_bytes() {
    let split: Batch = vec![vec![1], vec![2]];
    let whole: Batch = vec![vec![1, 2]];
    assert_ne!(serialize_batch(&split), serialize_batch(&whole));
}

#[test]
fn size_of_a_message_is_known() {
    let batch: Batch = vec![vec![1; 10], vec![2; 5], vec![]];
    assert_eq!(serialize_batch(&batch).len(), 12 + 3 * 8 + 15);
}

#[test]
fn digest_is_the_start_of_the_hash() {
    let expected = [
        221, 175, 53, 161, 147, 97, 122, 186, 204, 65, 115, 73, 174, 32, 65, 49, 18, 230, 250, 78,
        137, 169, 126, 162, 10, 158, 238, 230, 75, 85, 211, 154,
    ];
    assert_eq!(digest_of(&b"abc".to_vec()), Digest(expected));
}

#[test]
fn digest_takes_the_first_bytes() {
    let hash: Vec<u8> = (0..64).collect();
    let mut expected = [0u8; 32];
    for i in 0..32 {
        expected[i] = i as u8;
    }
    assert_eq!(digest_from_hash(&hash), Digest(expected));
}

#[test]
fn keys_of_the_store() {
    let digest = Digest([7; 32]);
    assert_eq!(header_key(&digest), vec![7; 32]);

    let mut key = vec![7; 32];
    key.extend([0x78, 0x56, 0x34, 0x12]);
    assert_eq!(batch_key(&digest, 0x1234_5678), key);

    let mut key = vec![7; 32];
    key.push(1);
    assert_eq!(tip_key(&digest), key);
}

#[test]
fn keys_of_different_things_differ() {
    let (a, b) = (Digest([1; 32]), Digest([2; 32]));
    assert_ne!(header_key(&a), header_key(&b));
    assert_ne!(batch_key(&a, 1), batch_key(&b, 1));
    assert_ne!(batch_key(&a, 1), batch_key(&a, 256));
    assert_ne!(tip_key(&a), tip_key(&b));
    assert_ne!(tip_key(&a), header_key(&a));
    assert_ne!(batch_key(&a, 1), tip_key(&a));
    assert_ne!(batch_key(&a, 0), header_key(&a));
}

#[test]
fn big_endian_numbers() {
    let bytes = vec![9, 0, 0, 0, 0, 0, 0, 1, 2, 9];
    assert_eq!(read_be64(&bytes, 1), 258);
    assert_eq!(read_be64(&vec![255; 8], 0), u64::MAX);
}

#[test]
fn order_is_that_of_the_first_difference() {
    let mut a = [5u8; 32];
    let mut b = [5u8; 32];
    assert!(is_same(&a, &b));
    assert!(!is_before(&a, &b));
    a[3] = 4;
    b[30] = 0;
    assert!(is_before(&a, &b));
    assert!(!is_before(&b, &a));
    assert!(!is_same(&a, &b));
    let c = [6u8; 32];
    assert!(is_before(&b, &c));
    assert!(is_before(&a, &c));
}

//! The bytes of a batch, and the digest that stands for them.

use vstd::prelude::*;

use crate::numbers;
use crate::types;
use crate::types::{Batch, Digest};

verus! {

/// The number that marks a batch among the messages of a worker: it is their first kind.
pub const BATCH_TAG: u32 = 0;

/// The number of bytes in the transactions.
pub open spec fn total_bytes(batch: Seq<Seq<u8>>) -> nat
    decreases batch.len(),
{
    if batch.len() == 0 {
        0
    } else {
        batch.first().len() + total_bytes(batch.drop_first())
    }
}

/// The number of bytes that the batch has as a message.
pub open spec fn encoded_size(batch: Seq<Seq<u8>>) -> nat {
    12 + 8 * batch.len() + total_bytes(batch)
}

/// The transactions one after the other, each behind its length.
pub open spec fn encode_transactions(batch: Seq<Seq<u8>>) -> Seq<u8>
    decreases batch.len(),
{
    if batch.len() == 0 {
        Seq::empty()
    } else {
        numbers::le64(batch.first().len() as u64) + batch.first() + encode_transactions(
            batch.drop_first(),
        )
    }
}

/// A batch as a message: the tag, the number of transactions, the transactions.
pub open spec fn encode_batch(tag: u32, batch: Seq<Seq<u8>>) -> Seq<u8> {
    numbers::le32(tag) + numbers::le64(batch.len() as u64) + encode_transactions(batch)
}

/// The SHA-512 hash of the bytes.
pub uninterp spec fn sha512(data: Seq<u8>) -> Seq<u8>;

/// Calls `bincode::serialize` on the tag and the transactions, as a pair. Its functions write
/// integers in little-endian order at their full width, a pair as its parts one after the other, a
/// list as its 64-bit length and then its items. An enum is written as the 32-bit index of its
/// variant and then what the variant holds, so the pair has the bytes of an enum's variant. With
/// no limit on the size and a vector to write to, nothing fails; the vector is allocated at the
/// full size first, which must not be more than an allocation can have.
#[verifier::external_body]
fn serialize(tag: u32, batch: &Batch) -> (bytes: Vec<u8>)
    requires
        encoded_size(types::byte_strings(batch@)) <= isize::MAX,
    ensures
        bytes@ == encode_batch(tag, types::byte_strings(batch@)),
{
    bincode::serialize(&(tag, batch)).expect("Failed to serialize our own batch")
}

/// Calls `digest` of `ed25519_dalek::Sha512`, which hashes the bytes in one go; the result has 64
/// bytes.
#[verifier::external_body]
fn sha512_digest(data: &Vec<u8>) -> (hash: Vec<u8>)
    ensures
        hash@ == sha512(data@),
        hash@.len() == 64,
{
    <ed25519_dalek::Sha512 as ed25519_dalek::Digest>::digest(data).as_slice().to_vec()
}

/// The bytes of a batch, as workers send it to each other.
pub fn serialize_batch(batch: &Batch) -> (bytes: Vec<u8>)
    requires
        encoded_size(types::byte_strings(batch@)) <= isize::MAX,
    ensures
        bytes@ == encode_batch(BATCH_TAG, types::byte_strings(batch@)),
{
    serialize(BATCH_TAG, batch)
}

/// The first 32 bytes of a hash, as a digest.
pub fn digest_from_hash(hash: &Vec<u8>) -> (digest: Digest)
    requires
        hash@.len() >= 32,
    ensures
        digest.0@ == hash@.take(32),
{
    let mut bytes: [u8; 32] = [0; 32];
    let mut i: usize = 0;
    while i < 32
        invariant
            i <= 32 <= hash@.len(),
            forall|j: int| 0 <= j < i ==> bytes@[j] == hash@[j],
        decreases 32 - i,
    {
        bytes[i] = hash[i];
        i += 1;
    }
    assert(bytes@ =~= hash@.take(32));
    Digest(bytes)
}

/// The digest of the bytes of a message.
pub fn digest_of(serialized: &Vec<u8>) -> (digest: Digest)
    ensures
        digest.0@ == sha512(serialized@).take(32),
{
    digest_from_hash(&sha512_digest(serialized))
}

/// The size of a batch as a message is known beforehand.
pub proof fn law_encoded_size(tag: u32, batch: Seq<Seq<u8>>)
    ensures
        encode_batch(tag, batch).len() == encoded_size(batch),
{
    lemma_transactions_size(batch);
}

proof fn lemma_transactions_size(batch: Seq<Seq<u8>>)
    ensures
        encode_transactions(batch).len() == 8 * batch.len() + total_bytes(batch),
    decreases batch.len(),
{
    if batch.len() > 0 {
        lemma_transactions_size(batch.drop_first());
    }
}

/// Adding a transaction adds its bytes.
pub proof fn lemma_total_push(batch: Seq<Seq<u8>>, transaction: Seq<u8>)
    ensures
        total_bytes(batch.push(transaction)) == total_bytes(batch) + transaction.len(),
    decreases batch.len(),
{
    let longer = batch.push(transaction);
    if batch.len() == 0 {
        assert(longer.drop_first() =~= batch);
        assert(total_bytes(longer.drop_first()) == 0);
    } else {
        assert(longer.drop_first() =~= batch.drop_first().push(transaction));
        lemma_total_push(batch.drop_first(), transaction);
    }
}

/// No two batches, of lengths that a machine can have, are sent as the same bytes, and neither are
/// two messages with different tags: from the bytes the batch can be read back.
pub proof fn law_encoding_injective(tag: u32, batch: Seq<Seq<u8>>, other_tag: u32, other: Seq<Seq<u8>>)
    requires
        encode_batch(tag, batch) == encode_batch(other_tag, other),
        batch.len() <= u64::MAX,
        other.len() <= u64::MAX,
        forall|i: int| 0 <= i < batch.len() ==> (#[trigger] batch[i]).len() <= u64::MAX,
        forall|i: int| 0 <= i < other.len() ==> (#[trigger] other[i]).len() <= u64::MAX,
    ensures
        tag == other_tag,
        batch == other,
{
    let (a, b) = (encode_batch(tag, batch), encode_batch(other_tag, other));
    assert(numbers::le32(tag) =~= a.take(4));
    assert(numbers::le32(other_tag) =~= b.take(4));
    numbers::law_le32_injective(tag, other_tag);
    assert(numbers::le64(batch.len() as u64) =~= a.subrange(4, 12));
    assert(numbers::le64(other.len() as u64) =~= b.subrange(4, 12));
    numbers::law_le64_injective(batch.len() as u64, other.len() as u64);
    assert(encode_transactions(batch) =~= a.skip(12));
    assert(encode_transactions(other) =~= b.skip(12));
    lemma_transactions_injective(batch, other);
}

proof fn lemma_transactions_injective(batch: Seq<Seq<u8>>, other: Seq<Seq<u8>>)
    requires
        batch.len() == other.len(),
        encode_transactions(batch) == encode_transactions(other),
        forall|i: int| 0 <= i < batch.len() ==> (#[trigger] batch[i]).len() <= u64::MAX,
        forall|i: int| 0 <= i < other.len() ==> (#[trigger] other[i]).len() <= u64::MAX,
    ensures
        batch == other,
    decreases batch.len(),
{
    if batch.len() > 0 {
        let (a, b) = (encode_transactions(batch), encode_transactions(other));
        let (m, n) = (batch[0].len() as u64, other[0].len() as u64);
        assert(numbers::le64(m) =~= a.take(8));
        assert(numbers::le64(n) =~= b.take(8));
        numbers::law_le64_injective(m, n);
        assert(batch[0] =~= a.subrange(8, 8 + m as int));
        assert(other[0] =~= b.subrange(8, 8 + n as int));
        assert(encode_transactions(batch.drop_first()) =~= a.skip(8 + m as int));
        assert(encode_transactions(other.drop_first()) =~= b.skip(8 + n as int));
        lemma_transactions_injective(batch.drop_first(), other.drop_first());
        assert(batch =~= seq![batch[0]] + batch.drop_first());
        assert(other =~= seq![other[0]] + other.drop_first());
    } else {
        assert(batch =~= other);
    }
}

/// No transactions have no bytes, and a further one adds its own.
pub proof fn law_total_bytes(batch: Seq<Seq<u8>>, transaction: Seq<u8>)
    ensures
        total_bytes(Seq::empty()) == 0,
        total_bytes(batch.push(transaction)) == total_bytes(batch) + transaction.len(),
        encoded_size(Seq::empty()) == 12,
        encoded_size(batch.push(transaction)) == encoded_size(batch) + 8 + transaction.len(),
{
    lemma_total_push(batch, transaction);
}

/// The transactions up to some place come first.
proof fn lemma_transactions_split(batch: Seq<Seq<u8>>, i: int)
    requires
        0 <= i <= batch.len(),
    ensures
        encode_transactions(batch) == encode_transactions(batch.take(i)) + encode_transactions(
            batch.skip(i),
        ),
    decreases i,
{
    if i == 0 {
        assert(batch.skip(0) =~= batch);
        assert(encode_transactions(batch.take(0)) + encode_transactions(batch)
            =~= encode_transactions(batch));
    } else {
        let rest = batch.drop_first();
        lemma_transactions_split(rest, i - 1);
        assert(rest.take(i - 1) =~= batch.take(i).drop_first());
        assert(rest.skip(i - 1) =~= batch.skip(i));
        assert(encode_transactions(batch) =~= encode_transactions(batch.take(i))
            + encode_transactions(batch.skip(i)));
    }
}

/// A message starts with the tag in four bytes and the number of transactions in eight, each with the
/// lowest byte first. Then each transaction stands, whole, behind its length in eight bytes, at the place
/// where the one before it ends.
pub proof fn law_encoding(tag: u32, batch: Seq<Seq<u8>>, i: int)
    requires
        0 <= i < batch.len() <= u64::MAX,
    ensures
        ({
            let bytes = encode_batch(tag, batch);
            let at = 12 + 8 * i + total_bytes(batch.take(i)) as int;
            &&& bytes.len() == 12 + 8 * batch.len() + total_bytes(batch)
            &&& bytes.subrange(0, 4) == numbers::le32(tag)
            &&& bytes.subrange(4, 12) == numbers::le64(batch.len() as u64)
            &&& at + 8 + batch[i].len() <= bytes.len()
            &&& bytes.subrange(at, at + 8) == numbers::le64(batch[i].len() as u64)
            &&& bytes.subrange(at + 8, at + 8 + batch[i].len()) == batch[i]
        }),
{
    let bytes = encode_batch(tag, batch);
    let (before, after) = (batch.take(i), batch.skip(i));
    let at = 12 + 8 * i + total_bytes(before) as int;
    law_encoded_size(tag, batch);
    lemma_transactions_split(batch, i);
    lemma_transactions_size(before);
    lemma_transactions_size(after);
    lemma_transactions_size(batch);
    assert(after.first() == batch[i]);
    let (head, tail) = (encode_transactions(before), encode_transactions(after));
    assert(tail == numbers::le64(batch[i].len() as u64) + batch[i] + encode_transactions(
        after.drop_first(),
    ));
    assert(bytes.skip(12) =~= head + tail);
    assert(bytes.subrange(0, 4) =~= numbers::le32(tag));
    assert(bytes.subrange(4, 12) =~= numbers::le64(batch.len() as u64));
    assert(bytes.skip(at) =~= tail);
    assert(bytes.subrange(at, at + 8) =~= tail.subrange(0, 8));
    assert(tail.subrange(0, 8) =~= numbers::le64(batch[i].len() as u64));
    assert(bytes.subrange(at + 8, at + 8 + batch[i].len()) =~= tail.subrange(
        8,
        8 + batch[i].len() as int,
    ));
    assert(tail.subrange(8, 8 + batch[i].len() as int) =~= batch[i]);
}

/// A batch is marked by four zeros: it is the first kind of message.
pub proof fn law_batch_tag(batch: Seq<Seq<u8>>, i: int)
    requires
        0 <= i < 4,
    ensures
        encode_batch(BATCH_TAG, batch)[i] == 0,
{
}

/// Every message starts with the tag in four bytes and the number of transactions in eight, and without
/// transactions there is no more.
pub proof fn law_message_start(tag: u32, batch: Seq<Seq<u8>>)
    requires
        batch.len() <= u64::MAX,
    ensures
        encode_batch(tag, batch).len() >= 12,
        encode_batch(tag, batch).subrange(0, 4) == numbers::le32(tag),
        encode_batch(tag, batch).subrange(4, 12) == numbers::le64(batch.len() as u64),
        batch.len() == 0 ==> encode_batch(tag, batch).len() == 12,
{
    let bytes = encode_batch(tag, batch);
    assert(bytes.subrange(0, 4) =~= numbers::le32(tag));
    assert(bytes.subrange(4, 12) =~= numbers::le64(batch.len() as u64));
}

} // verus!

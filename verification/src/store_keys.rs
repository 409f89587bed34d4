//! The keys under which headers and batches stand in the store.

use vstd::prelude::*;

use crate::numbers;
use crate::types::{Digest, WorkerId};

verus! {

/// The key of a header: its digest.
pub open spec fn spec_header_key(header: Digest) -> Seq<u8> {
    header.0@
}

/// The key of a batch that a worker holds: the digest, then the number of the worker.
pub open spec fn spec_batch_key(batch: Digest, worker_id: WorkerId) -> Seq<u8> {
    batch.0@ + numbers::le32(worker_id)
}

/// The key of a header that counts as present before its ancestors are: the digest, then a one.
pub open spec fn spec_tip_key(header: Digest) -> Seq<u8> {
    header.0@.push(1u8)
}

/// The key of a header.
pub fn header_key(header: &Digest) -> (key: Vec<u8>)
    ensures
        key@ == spec_header_key(*header),
{
    let mut key: Vec<u8> = Vec::new();
    let mut i: usize = 0;
    while i < 32
        invariant
            i <= 32,
            key@ == header.0@.take(i as int),
        decreases 32 - i,
    {
        key.push(header.0[i]);
        assert(key@ =~= header.0@.take(i + 1));
        i += 1;
    }
    assert(header.0@.take(32) =~= header.0@);
    key
}

/// The key of a batch that a worker holds.
pub fn batch_key(batch: &Digest, worker_id: WorkerId) -> (key: Vec<u8>)
    ensures
        key@ == spec_batch_key(*batch, worker_id),
{
    let mut key = header_key(batch);
    key.push((worker_id % 0x100) as u8);
    key.push((worker_id / 0x100 % 0x100) as u8);
    key.push((worker_id / 0x1_0000 % 0x100) as u8);
    key.push((worker_id / 0x100_0000) as u8);
    assert(key@ =~= spec_batch_key(*batch, worker_id));
    key
}

/// The key of a header that counts as present before its ancestors are.
pub fn tip_key(header: &Digest) -> (key: Vec<u8>)
    ensures
        key@ == spec_tip_key(*header),
{
    let mut key = header_key(header);
    key.push(1);
    key
}

/// Two digests with the same bytes are the same.
proof fn lemma_same_digest(a: Digest, b: Digest)
    requires
        a.0@ == b.0@,
    ensures
        a == b,
{
    assert forall|i: int| 0 <= i < 32 implies a.0[i] == b.0[i] by {
        assert(a.0@[i] == b.0@[i]);
    }
    assert(a.0 =~= b.0);
}

/// Different headers have different keys.
pub proof fn law_header_keys_differ(a: Digest, b: Digest)
    requires
        spec_header_key(a) == spec_header_key(b),
    ensures
        a == b,
{
    lemma_same_digest(a, b);
}

/// Different batches, and one batch at different workers, have different keys.
pub proof fn law_batch_keys_differ(a: Digest, v: WorkerId, b: Digest, w: WorkerId)
    requires
        spec_batch_key(a, v) == spec_batch_key(b, w),
    ensures
        a == b,
        v == w,
{
    assert(a.0@ =~= spec_batch_key(a, v).take(32));
    assert(b.0@ =~= spec_batch_key(b, w).take(32));
    lemma_same_digest(a, b);
    assert(numbers::le32(v) =~= spec_batch_key(a, v).skip(32));
    assert(numbers::le32(w) =~= spec_batch_key(b, w).skip(32));
    numbers::law_le32_injective(v, w);
}

/// Different tips have different keys.
pub proof fn law_tip_keys_differ(a: Digest, b: Digest)
    requires
        spec_tip_key(a) == spec_tip_key(b),
    ensures
        a == b,
{
    assert(a.0@ =~= spec_tip_key(a).take(32));
    assert(b.0@ =~= spec_tip_key(b).take(32));
    lemma_same_digest(a, b);
}

/// A key is of one kind only: no header, batch and tip share a key.
pub proof fn law_kinds_of_keys_differ(header: Digest, batch: Digest, worker_id: WorkerId, tip: Digest)
    ensures
        spec_header_key(header) != spec_batch_key(batch, worker_id),
        spec_header_key(header) != spec_tip_key(tip),
        spec_batch_key(batch, worker_id) != spec_tip_key(tip),
{
    assert(spec_header_key(header).len() == 32);
    assert(spec_batch_key(batch, worker_id).len() == 36);
    assert(spec_tip_key(tip).len() == 33);
}

/// The key of a header holds the bytes of its digest, in their order, and nothing else.
pub proof fn law_header_key_bytes(header: Digest)
    ensures
        spec_header_key(header).len() == 32,
        forall|i: int| 0 <= i < 32 ==> #[trigger] spec_header_key(header)[i] == header.0@[i],
{
}

/// The key of a batch holds the bytes of its digest, in their order, and then the four bytes of the
/// worker's number, the lowest first.
pub proof fn law_batch_key_bytes(batch: Digest, worker_id: WorkerId)
    ensures
        spec_batch_key(batch, worker_id).len() == 36,
        forall|i: int| 0 <= i < 32 ==> #[trigger] spec_batch_key(batch, worker_id)[i] == batch.0@[i],
        ({
            let key = spec_batch_key(batch, worker_id);
            worker_id == key[32] + 0x100 * key[33] + 0x1_0000 * key[34] + 0x100_0000 * key[35]
        }),
{
    numbers::law_le32_value(worker_id);
}

/// The key of a tip holds the bytes of its digest, in their order, and then a one.
pub proof fn law_tip_key_bytes(header: Digest)
    ensures
        spec_tip_key(header).len() == 33,
        forall|i: int| 0 <= i < 32 ==> #[trigger] spec_tip_key(header)[i] == header.0@[i],
        spec_tip_key(header)[32] == 1,
{
}

} // verus!

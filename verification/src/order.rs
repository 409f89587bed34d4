//! The lexicographic order of 32-byte strings.

use vstd::prelude::*;

verus! {

/// `a` and `b` agree before position `i`, where `a` holds the smaller byte.
pub open spec fn smaller_at(a: [u8; 32], b: [u8; 32], i: int) -> bool {
    &&& 0 <= i < 32
    &&& a@[i] < b@[i]
    &&& forall|j: int| 0 <= j < i ==> a@[j] == b@[j]
}

/// `a` comes before `b` in the lexicographic order.
pub open spec fn precedes(a: [u8; 32], b: [u8; 32]) -> bool {
    exists|i: int| smaller_at(a, b, i)
}

/// Tells whether `a` comes before `b`.
pub fn is_before(a: &[u8; 32], b: &[u8; 32]) -> (before: bool)
    ensures
        before == precedes(*a, *b),
{
    let mut i: usize = 0;
    while i < 32
        invariant
            i <= 32,
            forall|j: int| 0 <= j < i ==> a@[j] == b@[j],
        decreases 32 - i,
    {
        if a[i] < b[i] {
            assert(smaller_at(*a, *b, i as int));
            return true;
        }
        if b[i] < a[i] {
            assert(smaller_at(*b, *a, i as int));
            proof {
                law_asymmetric(*b, *a);
            }
            return false;
        }
        i += 1;
    }
    false
}

/// Tells whether `a` and `b` hold the same bytes.
pub fn is_same(a: &[u8; 32], b: &[u8; 32]) -> (same: bool)
    ensures
        same == (*a == *b),
{
    let mut i: usize = 0;
    while i < 32
        invariant
            i <= 32,
            forall|j: int| 0 <= j < i ==> a@[j] == b@[j],
        decreases 32 - i,
    {
        if a[i] != b[i] {
            return false;
        }
        i += 1;
    }
    assert(*a =~= *b);
    true
}

/// No two strings come before each other; in particular none comes before itself.
pub proof fn law_asymmetric(a: [u8; 32], b: [u8; 32])
    requires
        precedes(a, b),
    ensures
        !precedes(b, a),
        a != b,
{
    let i = choose|i: int| smaller_at(a, b, i);
    assert(!precedes(b, a)) by {
        if precedes(b, a) {
            let k = choose|k: int| smaller_at(b, a, k);
            assert(i < k || k < i || i == k);
        }
    }
}

/// The order is transitive.
pub proof fn law_transitive(a: [u8; 32], b: [u8; 32], c: [u8; 32])
    requires
        precedes(a, b),
        precedes(b, c),
    ensures
        precedes(a, c),
{
    let i = choose|i: int| smaller_at(a, b, i);
    let k = choose|k: int| smaller_at(b, c, k);
    if i <= k {
        assert(smaller_at(a, c, i));
    } else {
        assert(smaller_at(a, c, k));
    }
}

/// Of two different strings one comes before the other.
pub proof fn law_total(a: [u8; 32], b: [u8; 32])
    ensures
        a == b || precedes(a, b) || precedes(b, a),
{
    if a != b {
        lemma_first_difference(a, b, 32);
    }
}

/// Strings that differ before position `n` are ordered.
proof fn lemma_first_difference(a: [u8; 32], b: [u8; 32], n: int)
    requires
        0 <= n <= 32,
    ensures
        (forall|j: int| 0 <= j < n ==> a@[j] == b@[j]) || precedes(a, b) || precedes(b, a),
        n == 32 && (forall|j: int| 0 <= j < n ==> a@[j] == b@[j]) ==> a == b,
    decreases n,
{
    if n > 0 {
        lemma_first_difference(a, b, n - 1);
        if forall|j: int| 0 <= j < n - 1 ==> a@[j] == b@[j] {
            if a@[n - 1] < b@[n - 1] {
                assert(smaller_at(a, b, n - 1));
            } else if b@[n - 1] < a@[n - 1] {
                assert(smaller_at(b, a, n - 1));
            }
        }
    }
    if n == 32 && (forall|j: int| 0 <= j < n ==> a@[j] == b@[j]) {
        assert(a =~= b);
    }
}

/// The order is the one of the first byte that differs.
pub proof fn law_first_difference(a: [u8; 32], b: [u8; 32], i: int)
    requires
        0 <= i < 32,
        forall|j: int| 0 <= j < i ==> a@[j] == b@[j],
        a@[i] != b@[i],
    ensures
        precedes(a, b) <==> a@[i] < b@[i],
        precedes(b, a) <==> b@[i] < a@[i],
{
    if a@[i] < b@[i] {
        assert(smaller_at(a, b, i));
        law_asymmetric(a, b);
    } else {
        assert(smaller_at(b, a, i));
        law_asymmetric(b, a);
    }
}

} // verus!

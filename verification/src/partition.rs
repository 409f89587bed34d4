//! The two sides of a simulated network partition.

use vstd::prelude::*;

use crate::order;
use crate::types::PublicKey;

verus! {

/// The names stand in ascending order.
pub open spec fn sorted(keys: Seq<PublicKey>) -> bool {
    forall|i: int, j: int|
        0 <= i < j < keys.len() ==> !order::precedes((#[trigger] keys[j]).0, (#[trigger] keys[i]).0)
}

/// The first place of a name that is in the list.
pub open spec fn first_place(keys: Seq<PublicKey>, name: PublicKey) -> int {
    choose|i: int| is_first_place(keys, name, i)
}

/// The name stands at this place and at none before it.
pub open spec fn is_first_place(keys: Seq<PublicKey>, name: PublicKey, i: int) -> bool {
    &&& 0 <= i < keys.len()
    &&& keys[i] == name
    &&& forall|j: int| 0 <= j < i ==> keys[j] != name
}

/// The names on the side of the partition where `name` is. The left side holds the first `left`
/// names, the right side holds the others.
pub open spec fn side(keys: Seq<PublicKey>, name: PublicKey, left: int) -> Seq<PublicKey> {
    if first_place(keys, name) >= left {
        keys.skip(left)
    } else {
        keys.take(left)
    }
}

/// There is only one first place.
proof fn lemma_first_place(keys: Seq<PublicKey>, name: PublicKey, i: int)
    requires
        is_first_place(keys, name, i),
    ensures
        first_place(keys, name) == i,
{
    let other = first_place(keys, name);
    assert(is_first_place(keys, name, other));
    if other < i {
        assert(keys[other] != name);
    } else if i < other {
        assert(keys[i] != name);
    }
}

/// A name that is in the list has a first place.
pub proof fn lemma_has_first_place(keys: Seq<PublicKey>, name: PublicKey)
    requires
        keys.contains(name),
    ensures
        is_first_place(keys, name, first_place(keys, name)),
{
    let place = choose|i: int| 0 <= i < keys.len() && keys[i] == name;
    lemma_least_place(keys, name, place);
}

proof fn lemma_least_place(keys: Seq<PublicKey>, name: PublicKey, i: int)
    requires
        0 <= i < keys.len(),
        keys[i] == name,
    ensures
        is_first_place(keys, name, first_place(keys, name)),
    decreases i,
{
    if exists|j: int| 0 <= j < i && keys[j] == name {
        let j = choose|j: int| 0 <= j < i && keys[j] == name;
        lemma_least_place(keys, name, j);
    } else {
        assert(is_first_place(keys, name, i));
    }
}

/// Puts the names in ascending order.
pub fn sort(keys: &mut Vec<PublicKey>)
    ensures
        sorted(final(keys)@),
        final(keys)@.to_multiset() == old(keys)@.to_multiset(),
{
    let mut done: Vec<PublicKey> = Vec::new();
    let mut i: usize = 0;
    assert(keys@.take(0) =~= done@);
    while i < keys.len()
        invariant
            i <= keys@.len(),
            keys@ == old(keys)@,
            sorted(done@),
            done@.to_multiset() == keys@.take(i as int).to_multiset(),
        decreases keys@.len() - i,
    {
        let key = keys[i];
        let mut at: usize = done.len();
        while at > 0 && order::is_before(&key.0, &done[at - 1].0)
            invariant
                at <= done@.len(),
                forall|j: int|
                    at <= j < done@.len() ==> order::precedes(key.0, (#[trigger] done@[j]).0),
            decreases at,
        {
            at -= 1;
        }
        proof {
            lemma_insert_sorted(done@, at as int, key);
            vstd::seq_lib::to_multiset_insert(done@, at as int, key);
            vstd::seq_lib::to_multiset_build(keys@.take(i as int), key);
            assert(keys@.take(i + 1) =~= keys@.take(i as int).push(key));
        }
        done.insert(at, key);
        i += 1;
    }
    assert(keys@.take(i as int) =~= keys@);
    *keys = done;
}

proof fn lemma_insert_sorted(keys: Seq<PublicKey>, at: int, key: PublicKey)
    requires
        sorted(keys),
        0 <= at <= keys.len(),
        at > 0 ==> !order::precedes(key.0, keys[at - 1].0),
        forall|j: int| at <= j < keys.len() ==> order::precedes(key.0, (#[trigger] keys[j]).0),
    ensures
        sorted(keys.insert(at, key)),
{
    let after = keys.insert(at, key);
    assert forall|i: int, j: int| 0 <= i < j < after.len() implies !order::precedes(
        (#[trigger] after[j]).0,
        (#[trigger] after[i]).0,
    ) by {
        let from_i = if i < at { i } else { i - 1 };
        let from_j = if j < at { j } else { j - 1 };
        if i == at {
            assert(order::precedes(key.0, keys[from_j].0));
            order::law_asymmetric(key.0, keys[from_j].0);
        } else if j == at {
            // `key` comes before neither the name on its left nor any before that.
            if order::precedes(key.0, keys[i].0) && i < at - 1 {
                order::law_total(keys[i].0, keys[at - 1].0);
                if keys[i].0 != keys[at - 1].0 {
                    order::law_transitive(key.0, keys[i].0, keys[at - 1].0);
                }
            }
        } else {
            assert(after[i] == keys[from_i] && after[j] == keys[from_j]);
        }
    }
}

/// Finds the first place of a name.
pub fn find(keys: &Vec<PublicKey>, name: &PublicKey) -> (place: Option<usize>)
    ensures
        match place {
            Some(i) => i == first_place(keys@, *name) && is_first_place(keys@, *name, i as int),
            None => !keys@.contains(*name),
        },
{
    let mut i: usize = 0;
    while i < keys.len()
        invariant
            i <= keys@.len(),
            forall|j: int| 0 <= j < i ==> keys@[j] != *name,
        decreases keys@.len() - i,
    {
        if keys[i].is(name) {
            proof {
                lemma_first_place(keys@, *name, i as int);
            }
            return Some(i);
        }
        i += 1;
    }
    None
}

/// The names on our side of the partition.
pub fn our_side(keys: &Vec<PublicKey>, name: &PublicKey, left: usize) -> (members: Vec<PublicKey>)
    requires
        keys@.contains(*name),
        left <= keys@.len(),
    ensures
        members@ == side(keys@, *name, left as int),
{
    let index: usize = match find(keys, name) {
        Some(i) => i,
        None => 0,
    };
    let (start, end): (usize, usize) = if index >= left {
        (left, keys.len())
    } else {
        (0, left)
    };
    let mut members: Vec<PublicKey> = Vec::new();
    let mut i: usize = start;
    while i < end
        invariant
            start <= i <= end <= keys@.len(),
            members@ == keys@.subrange(start as int, i as int),
        decreases end - i,
    {
        members.push(keys[i]);
        i += 1;
        assert(members@ =~= keys@.subrange(start as int, i as int));
    }
    assert(members@ =~= side(keys@, *name, left as int));
    members
}

/// The name comes before `name`.
pub open spec fn comes_before(name: PublicKey) -> spec_fn(PublicKey) -> bool {
    |k: PublicKey| order::precedes(k.0, name.0)
}

/// How many names come before `name`.
pub open spec fn rank(keys: Seq<PublicKey>, name: PublicKey) -> nat {
    keys.filter(comes_before(name)).len()
}

/// Counts the names that come before a name.
pub fn our_rank(keys: &Vec<PublicKey>, name: &PublicKey) -> (n: usize)
    ensures
        n == rank(keys@, *name),
        n <= keys@.len(),
{
    let mut n: usize = 0;
    let mut i: usize = 0;
    assert(rank(keys@.take(0), *name) == 0) by {
        reveal(Seq::filter);
    }
    while i < keys.len()
        invariant
            n <= i <= keys@.len(),
            n == rank(keys@.take(i as int), *name),
        decreases keys@.len() - i,
    {
        proof {
            reveal(Seq::filter);
            assert(keys@.take(i + 1).drop_last() =~= keys@.take(i as int));
        }
        if order::is_before(&keys[i].0, &name.0) {
            n += 1;
        }
        i += 1;
    }
    assert(keys@.take(i as int) =~= keys@);
    n
}

/// Among names in ascending order, the rank of a name is its first place.
pub proof fn law_rank_is_place(keys: Seq<PublicKey>, name: PublicKey)
    requires
        sorted(keys),
        keys.contains(name),
    ensures
        rank(keys, name) == first_place(keys, name),
{
    lemma_has_first_place(keys, name);
    let at = first_place(keys, name);
    lemma_rank_up_to(keys, name, at, keys.len() as int);
    assert(keys.take(keys.len() as int) =~= keys);
}

proof fn lemma_rank_up_to(keys: Seq<PublicKey>, name: PublicKey, at: int, n: int)
    requires
        sorted(keys),
        is_first_place(keys, name, at),
        0 <= n <= keys.len(),
    ensures
        rank(keys.take(n), name) == if n <= at {
            n
        } else {
            at
        },
    decreases n,
{
    reveal(Seq::filter);
    if n > 0 {
        lemma_rank_up_to(keys, name, at, n - 1);
        assert(keys.take(n).drop_last() =~= keys.take(n - 1));
        let last = keys[n - 1];
        if n - 1 < at {
            order::law_total(last.0, name.0);
            assert(last != name);
            assert(!order::precedes(keys[at].0, keys[n - 1].0));
            assert(order::precedes(last.0, name.0));
        } else {
            if order::precedes(last.0, name.0) {
                order::law_asymmetric(last.0, name.0);
                assert(at < n - 1);
            }
            assert(!order::precedes(last.0, name.0));
        }
    }
}

/// Every name of the list is on its own side.
pub proof fn law_on_own_side(keys: Seq<PublicKey>, name: PublicKey, left: int)
    requires
        keys.contains(name),
        0 <= left <= keys.len(),
    ensures
        side(keys, name, left).contains(name),
{
    lemma_has_first_place(keys, name);
    let i = first_place(keys, name);
    if i >= left {
        assert(keys.skip(left)[i - left] == name);
    } else {
        assert(keys.take(left)[i] == name);
    }
}

/// Where no name occurs twice, two names of the list agree on who is on whose side: if one sees the
/// other on its side, both see the same side, and else their sides have no name in common and
/// together hold all names.
pub proof fn law_two_sides(keys: Seq<PublicKey>, a: PublicKey, b: PublicKey, left: int)
    requires
        keys.no_duplicates(),
        keys.contains(a),
        keys.contains(b),
        0 <= left <= keys.len(),
    ensures
        side(keys, a, left).contains(b) ==> side(keys, a, left) == side(keys, b, left),
        !side(keys, a, left).contains(b) ==> {
            &&& forall|k: PublicKey|
                !(side(keys, a, left).contains(k) && side(keys, b, left).contains(k))
            &&& forall|k: PublicKey| #[trigger] keys.contains(k) ==> side(keys, a, left).contains(k)
                || side(keys, b, left).contains(k)
        },
{
    lemma_has_first_place(keys, a);
    lemma_has_first_place(keys, b);
    law_on_own_side(keys, a, left);
    law_on_own_side(keys, b, left);
    let (left_side, right_side) = (keys.take(left), keys.skip(left));
    assert forall|k: PublicKey| !(left_side.contains(k) && right_side.contains(k)) by {
        if left_side.contains(k) && right_side.contains(k) {
            let i = choose|i: int| 0 <= i < left_side.len() && left_side[i] == k;
            let j = choose|j: int| 0 <= j < right_side.len() && right_side[j] == k;
            assert(keys[i] == keys[j + left]);
        }
    }
    assert forall|k: PublicKey| #[trigger] keys.contains(k) implies left_side.contains(k)
        || right_side.contains(k) by {
        let i = choose|i: int| 0 <= i < keys.len() && keys[i] == k;
        if i < left {
            assert(left_side[i] == k);
        } else {
            assert(right_side[i - left] == k);
        }
    }
}

/// Nodes that know the same names put them in the same order.
pub proof fn law_one_order(a: Seq<PublicKey>, b: Seq<PublicKey>)
    requires
        sorted(a),
        sorted(b),
        a.to_multiset() == b.to_multiset(),
    ensures
        a == b,
    decreases a.len(),
{
    broadcast use vstd::seq_lib::group_to_multiset_ensures;

    assert(a.len() == a.to_multiset().len());
    assert(b.len() == b.to_multiset().len());
    if a.len() == 0 {
        assert(a =~= b);
    } else {
        assert(a.contains(a[0]) && b.contains(b[0]));
        assert(a.to_multiset().count(a[0]) > 0);
        assert(b.to_multiset().count(b[0]) > 0);
        assert(b.contains(a[0]));
        assert(a.contains(b[0]));
        let i = choose|i: int| 0 <= i < a.len() && a[i] == b[0];
        let j = choose|j: int| 0 <= j < b.len() && b[j] == a[0];
        order::law_total(a[0].0, b[0].0);
        assert(a[0] == b[0]);
        assert(a.drop_first() =~= a.remove(0));
        assert(b.drop_first() =~= b.remove(0));
        law_one_order(a.drop_first(), b.drop_first());
        assert(a =~= seq![a[0]] + a.drop_first());
        assert(b =~= seq![b[0]] + b.drop_first());
    }
}

/// In a sorted list no name comes before one that stands on its left.
pub proof fn law_sorted(keys: Seq<PublicKey>, i: int, j: int)
    requires
        sorted(keys),
        0 <= i < j < keys.len(),
    ensures
        keys[i] == keys[j] || order::precedes(keys[i].0, keys[j].0),
{
    order::law_total(keys[i].0, keys[j].0);
    assert(!order::precedes(keys[j].0, keys[i].0));
}

/// A name that stands among the first `left`, and at no earlier place, has exactly these on its side; a
/// name that stands behind them has exactly the others.
pub proof fn law_side(keys: Seq<PublicKey>, place: int, left: int)
    requires
        0 <= place < keys.len(),
        0 <= left <= keys.len(),
        forall|j: int| 0 <= j < place ==> keys[j] != keys[place],
    ensures
        place < left ==> side(keys, keys[place], left) == keys.subrange(0, left),
        place >= left ==> side(keys, keys[place], left) == keys.subrange(left, keys.len() as int),
        first_place(keys, keys[place]) == place,
{
    assert(is_first_place(keys, keys[place], place));
    lemma_first_place(keys, keys[place], place);
    assert(keys.take(left) =~= keys.subrange(0, left));
    assert(keys.skip(left) =~= keys.subrange(left, keys.len() as int));
}

/// Nobody comes before anyone in an empty list, and a further name counts if it comes before.
pub proof fn law_rank(keys: Seq<PublicKey>, key: PublicKey, name: PublicKey)
    ensures
        rank(Seq::empty(), name) == 0,
        rank(keys.push(key), name) == rank(keys, name) + if order::precedes(key.0, name.0) {
            1int
        } else {
            0
        },
{
    reveal(Seq::filter);
    assert(keys.push(key).drop_last() =~= keys);
}

} // verus!

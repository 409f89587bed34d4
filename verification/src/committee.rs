//! The addresses of the authorities and of their workers.

use vstd::prelude::*;

use crate::types::{Address, PublicKey, WorkerId};

verus! {

/// A worker of an authority.
#[derive(Clone, Copy, Debug, PartialEq, Eq)]
pub struct Worker {
    pub id: WorkerId,
    /// Where the worker listens to its primary.
    pub primary_to_worker: Address,
}

/// A member of the committee.
#[derive(Clone, Debug, PartialEq, Eq)]
pub struct Authority {
    pub name: PublicKey,
    /// Where the primary listens to other primaries.
    pub primary_to_primary: Address,
    pub workers: Vec<Worker>,
}

/// The members of the committee. Of members with one name, and of workers with one identifier,
/// the first counts.
#[derive(Clone, Debug, PartialEq, Eq)]
pub struct Committee {
    pub authorities: Vec<Authority>,
}

/// The place of the first authority with the name, or the number of authorities.
pub open spec fn first_named(authorities: Seq<Authority>, name: PublicKey) -> int
    decreases authorities.len(),
{
    if authorities.len() == 0 || authorities[0].name == name {
        0
    } else {
        1 + first_named(authorities.drop_first(), name)
    }
}

/// The place of the first worker with the identifier, or the number of workers.
pub open spec fn first_worker(workers: Seq<Worker>, id: WorkerId) -> int
    decreases workers.len(),
{
    if workers.len() == 0 || workers[0].id == id {
        0
    } else {
        1 + first_worker(workers.drop_first(), id)
    }
}

impl Committee {
    /// The address of the primary of an authority, if the authority is a member.
    pub open spec fn spec_primary(self, name: PublicKey) -> Option<Address> {
        let at = first_named(self.authorities@, name);
        if at < self.authorities@.len() {
            Some(self.authorities@[at].primary_to_primary)
        } else {
            None
        }
    }

    /// The address of a worker of an authority, if there is such a member with such a worker.
    pub open spec fn spec_worker(self, name: PublicKey, id: WorkerId) -> Option<Address> {
        let at = first_named(self.authorities@, name);
        if at < self.authorities@.len() {
            let workers = self.authorities@[at].workers@;
            let place = first_worker(workers, id);
            if place < workers.len() {
                Some(workers[place].primary_to_worker)
            } else {
                None
            }
        } else {
            None
        }
    }

    /// The addresses of the primaries of all members but one, in the order of the members.
    pub open spec fn spec_others_primaries(self, myself: PublicKey) -> Seq<Address> {
        self.authorities@.filter(|a: Authority| a.name != myself).map_values(
            |a: Authority| a.primary_to_primary,
        )
    }

    /// Finds a member by its name.
    fn find(&self, name: &PublicKey) -> (at: usize)
        ensures
            at == first_named(self.authorities@, *name),
            at <= self.authorities@.len(),
    {
        let mut i: usize = 0;
        assert(self.authorities@.skip(0) =~= self.authorities@);
        while i < self.authorities.len()
            invariant
                i <= self.authorities@.len(),
                first_named(self.authorities@, *name) == i + first_named(
                    self.authorities@.skip(i as int),
                    *name,
                ),
            decreases self.authorities@.len() - i,
        {
            assert(self.authorities@.skip(i as int).drop_first() =~= self.authorities@.skip(i + 1));
            if self.authorities[i].name.is(name) {
                return i;
            }
            i += 1;
        }
        i
    }

    /// The address of the primary of an authority, if the authority is a member.
    pub fn primary(&self, name: &PublicKey) -> (address: Option<Address>)
        ensures
            address == self.spec_primary(*name),
    {
        let at = self.find(name);
        if at < self.authorities.len() {
            Some(self.authorities[at].primary_to_primary)
        } else {
            None
        }
    }

    /// The address of a worker of an authority, if there is such a member with such a worker.
    pub fn worker(&self, name: &PublicKey, id: &WorkerId) -> (address: Option<Address>)
        ensures
            address == self.spec_worker(*name, *id),
    {
        let at = self.find(name);
        if at >= self.authorities.len() {
            return None;
        }
        let workers = &self.authorities[at].workers;
        let mut i: usize = 0;
        assert(workers@.skip(0) =~= workers@);
        while i < workers.len()
            invariant
                i <= workers@.len(),
                first_worker(workers@, *id) == i + first_worker(workers@.skip(i as int), *id),
                at == first_named(self.authorities@, *name),
                at < self.authorities@.len(),
                *workers == self.authorities@[at as int].workers,
            decreases workers@.len() - i,
        {
            assert(workers@.skip(i as int).drop_first() =~= workers@.skip(i + 1));
            if workers[i].id == *id {
                return Some(workers[i].primary_to_worker);
            }
            i += 1;
        }
        None
    }

    /// The addresses of the primaries of all members but one, in the order of the members.
    pub fn others_primaries(&self, myself: &PublicKey) -> (addresses: Vec<Address>)
        ensures
            addresses@ == self.spec_others_primaries(*myself),
    {
        let ghost other = |a: Authority| a.name != *myself;
        let ghost address = |a: Authority| a.primary_to_primary;
        let mut addresses: Vec<Address> = Vec::new();
        let mut i: usize = 0;
        assert(self.authorities@.take(0).filter(other).map_values(address) =~= seq![]) by {
            reveal(Seq::filter);
        }
        while i < self.authorities.len()
            invariant
                i <= self.authorities@.len(),
                other == (|a: Authority| a.name != *myself),
                address == (|a: Authority| a.primary_to_primary),
                addresses@ == self.authorities@.take(i as int).filter(other).map_values(address),
            decreases self.authorities@.len() - i,
        {
            let member = &self.authorities[i];
            proof {
                reveal(Seq::filter);
                assert(self.authorities@.take(i + 1).drop_last() =~= self.authorities@.take(
                    i as int,
                ));
            }
            if !member.name.is(myself) {
                addresses.push(member.primary_to_primary);
            }
            assert(addresses@ =~= self.authorities@.take(i + 1).filter(other).map_values(address));
            i += 1;
        }
        assert(self.authorities@.take(i as int) =~= self.authorities@);
        addresses
    }
}

/// The primaries other than ours are those of the members with other names.
pub proof fn law_others_primaries(committee: Committee, myself: PublicKey, address: Address)
    ensures
        committee.spec_others_primaries(myself).contains(address) <==> exists|i: int|
            {
                &&& 0 <= i < committee.authorities@.len()
                &&& (#[trigger] committee.authorities@[i]).name != myself
                &&& committee.authorities@[i].primary_to_primary == address
            },
{
    let members = committee.authorities@;
    let other = |a: Authority| a.name != myself;
    let kept = members.filter(other);
    let addresses = committee.spec_others_primaries(myself);
    if addresses.contains(address) {
        let j = choose|j: int| 0 <= j < addresses.len() && addresses[j] == address;
        members.lemma_filter_pred(other, j);
        assert(kept.contains(kept[j]));
        members.lemma_filter_contains_rev(other, kept[j]);
        let i = choose|i: int| 0 <= i < members.len() && members[i] == kept[j];
        assert(members[i].name != myself);
    }
    if exists|i: int|
        {
            &&& 0 <= i < members.len()
            &&& (#[trigger] members[i]).name != myself
            &&& members[i].primary_to_primary == address
        } {
        let i = choose|i: int|
            {
                &&& 0 <= i < members.len()
                &&& (#[trigger] members[i]).name != myself
                &&& members[i].primary_to_primary == address
            };
        members.lemma_filter_contains(other, i);
        let j = choose|j: int| 0 <= j < kept.len() && kept[j] == members[i];
        assert(addresses[j] == address);
    }
}

/// The place of the first authority with a name.
proof fn lemma_first_named(authorities: Seq<Authority>, name: PublicKey, i: int)
    requires
        0 <= i <= authorities.len(),
        i < authorities.len() ==> authorities[i].name == name,
        forall|j: int| 0 <= j < i ==> (#[trigger] authorities[j]).name != name,
    ensures
        first_named(authorities, name) == i,
    decreases authorities.len(),
{
    if i > 0 {
        assert(authorities[0].name != name);
        let rest = authorities.drop_first();
        assert forall|j: int| 0 <= j < i - 1 implies (#[trigger] rest[j]).name != name by {
            assert(rest[j] == authorities[j + 1]);
        }
        lemma_first_named(rest, name, i - 1);
    }
}

/// The place of the first worker with an identifier.
proof fn lemma_first_worker(workers: Seq<Worker>, id: WorkerId, i: int)
    requires
        0 <= i <= workers.len(),
        i < workers.len() ==> workers[i].id == id,
        forall|j: int| 0 <= j < i ==> (#[trigger] workers[j]).id != id,
    ensures
        first_worker(workers, id) == i,
    decreases workers.len(),
{
    if i > 0 {
        assert(workers[0].id != id);
        let rest = workers.drop_first();
        assert forall|j: int| 0 <= j < i - 1 implies (#[trigger] rest[j]).id != id by {
            assert(rest[j] == workers[j + 1]);
        }
        lemma_first_worker(rest, id, i - 1);
    }
}

/// A member, the first with its name, is reached at its own addresses.
pub proof fn law_member(committee: Committee, i: int)
    requires
        0 <= i < committee.authorities@.len(),
        forall|j: int|
            0 <= j < i ==> (#[trigger] committee.authorities@[j]).name
                != committee.authorities@[i].name,
    ensures
        ({
            let member = committee.authorities@[i];
            &&& committee.spec_primary(member.name) == Some(member.primary_to_primary)
            &&& forall|k: int|
                0 <= k < member.workers@.len() && (forall|l: int|
                    0 <= l < k ==> (#[trigger] member.workers@[l]).id != member.workers@[k].id)
                    ==> committee.spec_worker(member.name, (#[trigger] member.workers@[k]).id) == Some(
                    member.workers@[k].primary_to_worker,
                )
            &&& forall|id: WorkerId|
                (forall|k: int| 0 <= k < member.workers@.len() ==> (#[trigger] member.workers@[k]).id
                    != id) ==> #[trigger] committee.spec_worker(member.name, id) is None
        }),
{
    let member = committee.authorities@[i];
    lemma_first_named(committee.authorities@, member.name, i);
    assert forall|k: int|
        0 <= k < member.workers@.len() && (forall|l: int|
            0 <= l < k ==> (#[trigger] member.workers@[l]).id
                != member.workers@[k].id) implies committee.spec_worker(
        member.name,
        (#[trigger] member.workers@[k]).id,
    ) == Some(member.workers@[k].primary_to_worker) by {
        lemma_first_worker(member.workers@, member.workers@[k].id, k);
    }
    assert forall|id: WorkerId|
        (forall|k: int| 0 <= k < member.workers@.len() ==> (#[trigger] member.workers@[k]).id
            != id) implies #[trigger] committee.spec_worker(member.name, id) is None by {
        lemma_first_worker(member.workers@, id, member.workers@.len() as int);
    }
}

/// Who is no member has no address.
pub proof fn law_stranger(committee: Committee, name: PublicKey, id: WorkerId)
    requires
        forall|j: int|
            0 <= j < committee.authorities@.len() ==> (#[trigger] committee.authorities@[j]).name
                != name,
    ensures
        committee.spec_primary(name) is None,
        committee.spec_worker(name, id) is None,
{
    lemma_first_named(committee.authorities@, name, committee.authorities@.len() as int);
}

/// One more member adds its own primary, behind the others, unless it has our name. An empty committee
/// has no primaries.
pub proof fn law_others_primaries_grow(small: Committee, large: Committee, myself: PublicKey)
    requires
        large.authorities@.len() > 0,
        small.authorities@ == large.authorities@.drop_last(),
    ensures
        large.authorities@.last().name == myself ==> large.spec_others_primaries(myself)
            == small.spec_others_primaries(myself),
        large.authorities@.last().name != myself ==> large.spec_others_primaries(myself)
            == small.spec_others_primaries(myself).push(large.authorities@.last().primary_to_primary),
        small.authorities@.len() == 0 ==> small.spec_others_primaries(myself).len() == 0,
{
    reveal(Seq::filter);
    assert(large.spec_others_primaries(myself) =~= if large.authorities@.last().name == myself {
        small.spec_others_primaries(myself)
    } else {
        small.spec_others_primaries(myself).push(large.authorities@.last().primary_to_primary)
    });
}

} // verus!

//! The effects of a simulated asynchrony: whom they keep a node from reaching.

use vstd::prelude::*;

use crate::batch_maker::AsyncEffectType;
use crate::partition;
use crate::types::{Address, PublicKey};

verus! {

/// A worker of another authority, with its address.
pub type Peer = (PublicKey, Address);

/// An effect, as this node experiences it.
#[derive(Clone, Copy, Debug, PartialEq, Eq, Structural)]
pub struct Effect {
    /// The place of the effect among all that are simulated.
    pub index: usize,
    pub kind: AsyncEffectType,
    /// Whether this node is one of those that the effect affects.
    pub reaches_us: bool,
}

/// A timer that goes off when an effect starts, or when it ends.
#[derive(Clone, Copy, Debug, PartialEq, Eq, Structural)]
pub struct AsyncTimer {
    /// The offset from the start of the task.
    pub offset: u64,
    pub effect: Effect,
}

/// What goes on in the simulated network.
#[verifier::ext_equal]
pub struct Network {
    /// The effects that this node experiences now.
    pub ongoing: Set<Effect>,
    /// For each effect, the authorities on our side if it is a partition.
    pub sides: Seq<Set<PublicKey>>,
}

impl Network {
    /// No effect is going on.
    pub open spec fn is_quiet(self) -> bool {
        forall|e: Effect| !(#[trigger] self.ongoing.contains(e))
    }

    /// All effects that are going on are partitions.
    pub open spec fn only_partitions(self) -> bool {
        forall|e: Effect| #[trigger]
            self.ongoing.contains(e) ==> e.kind == AsyncEffectType::Partition
    }

    /// A failure is going on.
    pub open spec fn is_failing(self) -> bool {
        exists|e: Effect| #[trigger]
            self.ongoing.contains(e) && e.kind == AsyncEffectType::Failure
    }

    /// The authority is on our side of a partition.
    pub open spec fn on_our_side(self, effect: Effect, key: PublicKey) -> bool {
        &&& effect.index < self.sides.len()
        &&& self.sides[effect.index as int].contains(key)
    }

    /// What we send reaches the authority now: all effects that are going on are partitions, and it is
    /// on our side of each.
    pub open spec fn lets(self, key: PublicKey) -> bool {
        forall|e: Effect| #[trigger]
            self.ongoing.contains(e) ==> e.kind == AsyncEffectType::Partition && self.on_our_side(
                e,
                key,
            )
    }

    /// The worker can be reached.
    pub open spec fn open_to(self) -> spec_fn(Peer) -> bool {
        |w: Peer| self.lets(w.0)
    }

    /// The worker cannot be reached.
    pub open spec fn closed_to(self) -> spec_fn(Peer) -> bool {
        |w: Peer| !self.lets(w.0)
    }

    /// Those of the workers that can be reached: all, but during effects nobody, or where all effects
    /// are partitions those on our side of each.
    pub open spec fn reached(self, workers: Seq<Peer>) -> Seq<Peer> {
        if self.is_quiet() {
            workers
        } else if self.only_partitions() {
            workers.filter(self.open_to())
        } else {
            Seq::empty()
        }
    }

    /// Those of the workers that cannot be reached.
    pub open spec fn withheld(self, workers: Seq<Peer>) -> Seq<Peer> {
        if self.is_quiet() {
            Seq::empty()
        } else if self.only_partitions() {
            workers.filter(self.closed_to())
        } else {
            workers
        }
    }

    /// Those of the workers to which we owe what comes up now: those that cannot be reached. What comes
    /// up during a failure is owed to nobody.
    pub open spec fn owed(self, workers: Seq<Peer>) -> Seq<Peer> {
        if self.is_failing() {
            Seq::empty()
        } else {
            self.withheld(workers)
        }
    }

    /// The timer of the effect ends it: it is the second of its two timers.
    pub open spec fn ends(self, effect: Effect) -> bool {
        effect.reaches_us && self.ongoing.contains(effect)
    }

    /// The network after a timer of an effect went off: the first of its two timers starts it and the
    /// second ends it. One that does not reach us changes nothing.
    pub open spec fn after(self, effect: Effect) -> Self {
        Network {
            ongoing: if !effect.reaches_us {
                self.ongoing
            } else if self.ongoing.contains(effect) {
                self.ongoing.remove(effect)
            } else {
                self.ongoing.insert(effect)
            },
            ..self
        }
    }
}

/// Of any workers exactly those can be reached that no effect keeps us from: a partition keeps us from
/// those that are not on our side of it, and any other effect from everyone. From the others all is
/// withheld.
pub proof fn law_reached(network: Network, workers: Seq<Peer>, worker: Peer)
    ensures
        network.reached(workers).contains(worker) <==> workers.contains(worker) && network.lets(
            worker.0,
        ),
        network.withheld(workers).contains(worker) <==> workers.contains(worker) && !network.lets(
            worker.0,
        ),
{
    lemma_filter(workers, network.open_to(), worker);
    lemma_filter(workers, network.closed_to(), worker);
}

/// Nobody is left out: of what comes up now, each worker is either sent it now or owed it, and not
/// both. Only during a failure nothing is sent and nothing is owed.
pub proof fn law_reached_or_owed(network: Network, workers: Seq<Peer>, worker: Peer)
    requires
        workers.contains(worker),
    ensures
        if network.is_failing() {
            !network.reached(workers).contains(worker) && !network.owed(workers).contains(worker)
        } else {
            network.reached(workers).contains(worker) <==> !network.owed(workers).contains(worker)
        },
{
    law_reached(network, workers, worker);
}

/// The start of an effect opens no way to anyone.
pub proof fn law_start_opens_nothing(network: Network, effect: Effect, key: PublicKey)
    requires
        !network.ends(effect),
        network.after(effect).lets(key),
    ensures
        network.lets(key),
{
    assert forall|e: Effect| #[trigger] network.ongoing.contains(e) implies e.kind
        == AsyncEffectType::Partition && network.on_our_side(e, key) by {
        assert(network.after(effect).ongoing.contains(e));
        assert(network.after(effect).on_our_side(e, key));
    }
}

/// A filter keeps what it picks and nothing else.
proof fn lemma_filter(workers: Seq<Peer>, pick: spec_fn(Peer) -> bool, worker: Peer)
    ensures
        workers.filter(pick).contains(worker) <==> workers.contains(worker) && pick(worker),
{
    let kept = workers.filter(pick);
    if kept.contains(worker) {
        let j = choose|j: int| 0 <= j < kept.len() && kept[j] == worker;
        workers.lemma_filter_pred(pick, j);
        workers.lemma_filter_contains_rev(pick, kept[j]);
    }
    if workers.contains(worker) && pick(worker) {
        let i = choose|i: int| 0 <= i < workers.len() && workers[i] == worker;
        workers.lemma_filter_contains(pick, i);
    }
}

/// The simulated network as this node knows it.
#[derive(Debug)]
pub struct Asynchrony {
    ongoing: Vec<Effect>,
    sides: Vec<Vec<PublicKey>>,
}

/// The lists of names as sets.
pub open spec fn name_sets(sides: Seq<Vec<PublicKey>>) -> Seq<Set<PublicKey>> {
    sides.map_values(|side: Vec<PublicKey>| side@.to_set())
}

impl View for Asynchrony {
    type V = Network;

    closed spec fn view(&self) -> Network {
        Network { ongoing: self.ongoing@.to_set(), sides: name_sets(self.sides@) }
    }
}

impl Asynchrony {
    #[verifier::type_invariant]
    spec fn inv(self) -> bool {
        self.ongoing@.no_duplicates()
    }

    /// Starts with no effect going on and no side known.
    pub fn new() -> (asynchrony: Asynchrony)
        ensures
            asynchrony@ == (Network { ongoing: Set::empty(), sides: Seq::empty() }),
    {
        let asynchrony = Asynchrony { ongoing: Vec::new(), sides: Vec::new() };
        assert(asynchrony@.ongoing =~= Set::empty());
        assert(asynchrony@.sides =~= Seq::empty());
        asynchrony
    }

    /// Takes note of who is on our side of each effect.
    pub fn set_sides(&mut self, sides: Vec<Vec<PublicKey>>)
        ensures
            final(self)@ == (Network { sides: name_sets(sides@), ..old(self)@ }),
    {
        proof {
            use_type_invariant(&*self);
        }
        self.sides = sides;
    }

    /// Tells whether no effect is going on.
    pub fn is_quiet(&self) -> (quiet: bool)
        ensures
            quiet == self@.is_quiet(),
    {
        if self.ongoing.len() > 0 {
            assert(self.ongoing@.contains(self.ongoing@[0]));
            assert(self@.ongoing.contains(self.ongoing@[0]));
        }
        self.ongoing.is_empty()
    }

    /// The effects of the list are those that are going on.
    proof fn lemma_listed(self)
        ensures
            forall|e: Effect| #[trigger]
                self@.ongoing.contains(e) ==> exists|j: int|
                    0 <= j < self.ongoing@.len() && #[trigger] self.ongoing@[j] == e,
            forall|j: int|
                0 <= j < self.ongoing@.len() ==> self@.ongoing.contains(#[trigger] self.ongoing@[j]),
    {
        assert forall|e: Effect| #[trigger] self@.ongoing.contains(e) implies exists|j: int|
            0 <= j < self.ongoing@.len() && #[trigger] self.ongoing@[j] == e by {
            assert(self.ongoing@.contains(e));
        }
        assert forall|j: int| 0 <= j < self.ongoing@.len() implies self@.ongoing.contains(
            #[trigger] self.ongoing@[j],
        ) by {
            assert(self.ongoing@.contains(self.ongoing@[j]));
        }
    }

    /// Tells whether a failure is going on.
    pub fn is_failing(&self) -> (failing: bool)
        ensures
            failing == self@.is_failing(),
    {
        proof {
            self.lemma_listed();
        }
        let mut i: usize = 0;
        while i < self.ongoing.len()
            invariant
                i <= self.ongoing@.len(),
                forall|j: int|
                    0 <= j < i ==> (#[trigger] self.ongoing@[j]).kind != AsyncEffectType::Failure,
                forall|j: int|
                    0 <= j < self.ongoing@.len() ==> self@.ongoing.contains(
                        #[trigger] self.ongoing@[j],
                    ),
            decreases self.ongoing@.len() - i,
        {
            if self.ongoing[i].kind == AsyncEffectType::Failure {
                assert(self@.ongoing.contains(self.ongoing@[i as int]));
                return true;
            }
            i += 1;
        }
        false
    }

    /// Tells whether all effects that are going on are partitions.
    fn only_partitions(&self) -> (only: bool)
        ensures
            only == self@.only_partitions(),
    {
        proof {
            self.lemma_listed();
        }
        let mut i: usize = 0;
        while i < self.ongoing.len()
            invariant
                i <= self.ongoing@.len(),
                forall|j: int|
                    0 <= j < i ==> (#[trigger] self.ongoing@[j]).kind == AsyncEffectType::Partition,
                forall|j: int|
                    0 <= j < self.ongoing@.len() ==> self@.ongoing.contains(
                        #[trigger] self.ongoing@[j],
                    ),
            decreases self.ongoing@.len() - i,
        {
            if self.ongoing[i].kind != AsyncEffectType::Partition {
                assert(self@.ongoing.contains(self.ongoing@[i as int]));
                return false;
            }
            i += 1;
        }
        true
    }

    /// Tells whether an authority can be reached.
    pub fn lets(&self, key: &PublicKey) -> (open: bool)
        ensures
            open == self@.lets(*key),
    {
        proof {
            self.lemma_listed();
        }
        let mut i: usize = 0;
        while i < self.ongoing.len()
            invariant
                i <= self.ongoing@.len(),
                forall|j: int|
                    0 <= j < i ==> (#[trigger] self.ongoing@[j]).kind == AsyncEffectType::Partition
                        && self@.on_our_side(self.ongoing@[j], *key),
                forall|j: int|
                    0 <= j < self.ongoing@.len() ==> self@.ongoing.contains(
                        #[trigger] self.ongoing@[j],
                    ),
            decreases self.ongoing@.len() - i,
        {
            let effect = self.ongoing[i];
            let here = effect.kind == AsyncEffectType::Partition && effect.index < self.sides.len()
                && partition::find(&self.sides[effect.index], key).is_some();
            if !here {
                assert(self@.ongoing.contains(effect));
                return false;
            }
            i += 1;
        }
        true
    }

    /// Parts workers into those that can be reached and those that cannot.
    pub fn split(&self, workers: &Vec<Peer>) -> (parts: (Vec<Peer>, Vec<Peer>))
        ensures
            parts.0@ == self@.reached(workers@),
            parts.1@ == self@.withheld(workers@),
    {
        if self.is_quiet() {
            return (copied(workers), Vec::new());
        }
        if !self.only_partitions() {
            return (Vec::new(), copied(workers));
        }
        let ghost (open, closed) = (self@.open_to(), self@.closed_to());
        let mut here: Vec<Peer> = Vec::new();
        let mut there: Vec<Peer> = Vec::new();
        let mut i: usize = 0;
        assert(workers@.take(0).filter(open) =~= seq![] && workers@.take(0).filter(closed)
            =~= seq![]) by {
            reveal(Seq::filter);
        }
        while i < workers.len()
            invariant
                i <= workers@.len(),
                open == self@.open_to(),
                closed == self@.closed_to(),
                here@ == workers@.take(i as int).filter(open),
                there@ == workers@.take(i as int).filter(closed),
            decreases workers@.len() - i,
        {
            proof {
                reveal(Seq::filter);
                assert(workers@.take(i + 1).drop_last() =~= workers@.take(i as int));
            }
            if self.lets(&workers[i].0) {
                here.push(workers[i]);
            } else {
                there.push(workers[i]);
            }
            i += 1;
        }
        assert(workers@.take(i as int) =~= workers@);
        (here, there)
    }

    /// Finds an effect that is going on.
    fn find(&self, effect: Effect) -> (place: Option<usize>)
        ensures
            match place {
                Some(i) => i < self.ongoing@.len() && self.ongoing@[i as int] == effect,
                None => !self.ongoing@.contains(effect),
            },
    {
        let mut i: usize = 0;
        while i < self.ongoing.len()
            invariant
                i <= self.ongoing@.len(),
                forall|j: int| 0 <= j < i ==> self.ongoing@[j] != effect,
            decreases self.ongoing@.len() - i,
        {
            if self.ongoing[i] == effect {
                return Some(i);
            }
            i += 1;
        }
        None
    }

    /// Takes note that a timer of an effect went off, and tells whether that ended the effect.
    pub fn on_timer(&mut self, effect: Effect) -> (ended: bool)
        ensures
            final(self)@ == old(self)@.after(effect),
            ended == old(self)@.ends(effect),
    {
        if !effect.reaches_us {
            return false;
        }
        let found = self.find(effect);
        proof {
            use_type_invariant(&*self);
        }
        let ghost before = self.ongoing@;
        let mut ongoing: Vec<Effect> = Vec::new();
        std::mem::swap(&mut ongoing, &mut self.ongoing);
        match found {
            Some(at) => {
                proof {
                    lemma_removed(before, at as int);
                }
                ongoing.remove(at);
            },
            None => {
                proof {
                    lemma_added(before, effect);
                }
                ongoing.push(effect);
            },
        }
        self.ongoing = ongoing;
        found.is_some()
    }
}

/// A copy of a list of workers.
fn copied(workers: &Vec<Peer>) -> (list: Vec<Peer>)
    ensures
        list@ == workers@,
{
    let mut list: Vec<Peer> = Vec::new();
    let mut i: usize = 0;
    while i < workers.len()
        invariant
            i <= workers@.len(),
            list@ == workers@.take(i as int),
        decreases workers@.len() - i,
    {
        list.push(workers[i]);
        i += 1;
        assert(list@ =~= workers@.take(i as int));
    }
    assert(workers@.take(i as int) =~= workers@);
    list
}

/// Without one of its effects a list holds the others.
proof fn lemma_removed(list: Seq<Effect>, at: int)
    requires
        list.no_duplicates(),
        0 <= at < list.len(),
    ensures
        list.to_set().contains(list[at]),
        list.remove(at).to_set() == list.to_set().remove(list[at]),
        list.remove(at).no_duplicates(),
{
    let rest = list.remove(at);
    assert(list.contains(list[at]));
    assert forall|e: Effect| #[trigger]
        rest.to_set().contains(e) <==> list.to_set().remove(list[at]).contains(e) by {
        if rest.contains(e) {
            let j = choose|j: int| 0 <= j < rest.len() && rest[j] == e;
            let from = if j < at {
                j
            } else {
                j + 1
            };
            assert(list[from] == e);
        }
        if list.contains(e) && e != list[at] {
            let j = choose|j: int| 0 <= j < list.len() && list[j] == e;
            let to = if j < at {
                j
            } else {
                j - 1
            };
            assert(rest[to] == e);
        }
    }
    assert(rest.to_set() =~= list.to_set().remove(list[at]));
}

/// With an effect added a list holds that effect, too.
proof fn lemma_added(list: Seq<Effect>, effect: Effect)
    requires
        list.no_duplicates(),
        !list.contains(effect),
    ensures
        list.push(effect).to_set() == list.to_set().insert(effect),
        list.push(effect).no_duplicates(),
{
    let more = list.push(effect);
    assert forall|e: Effect| #[trigger]
        more.to_set().contains(e) <==> list.to_set().insert(effect).contains(e) by {
        if list.contains(e) {
            let j = choose|j: int| 0 <= j < list.len() && list[j] == e;
            assert(more[j] == e);
        }
        assert(more[list.len() as int] == effect);
    }
    assert(more.to_set() =~= list.to_set().insert(effect));
}

/// What we send reaches an authority if and only if all that goes on are partitions that have it on our
/// side; so it reaches everyone while nothing goes on.
pub proof fn law_lets(network: Network, key: PublicKey)
    ensures
        network.lets(key) <==> (forall|e: Effect| #[trigger]
            network.ongoing.contains(e) ==> {
                &&& e.kind == AsyncEffectType::Partition
                &&& e.index < network.sides.len()
                &&& network.sides[e.index as int].contains(key)
            }),
        network.ongoing == Set::<Effect>::empty() ==> network.lets(key),
{
}

/// A further worker is reached if it can be, behind the others; else it is withheld from, behind the
/// others. Of no workers none is reached and none withheld from.
pub proof fn law_one_more_worker(network: Network, workers: Seq<Peer>, worker: Peer)
    ensures
        network.reached(Seq::empty()) == Seq::<Peer>::empty(),
        network.withheld(Seq::empty()) == Seq::<Peer>::empty(),
        network.lets(worker.0) ==> {
            &&& network.reached(workers.push(worker)) == network.reached(workers).push(worker)
            &&& network.withheld(workers.push(worker)) == network.withheld(workers)
        },
        !network.lets(worker.0) ==> {
            &&& network.reached(workers.push(worker)) == network.reached(workers)
            &&& network.withheld(workers.push(worker)) == network.withheld(workers).push(worker)
        },
{
    reveal(Seq::filter);
    assert(workers.push(worker).drop_last() =~= workers);
    assert(Seq::<Peer>::empty().filter(network.open_to()) =~= Seq::empty());
    assert(Seq::<Peer>::empty().filter(network.closed_to()) =~= Seq::empty());
    if network.is_quiet() {
        assert(network.lets(worker.0));
    } else if !network.only_partitions() {
        assert(!network.lets(worker.0));
    }
}

/// While nothing goes on all workers are reached, and nothing is owed.
pub proof fn law_quiet(network: Network, workers: Seq<Peer>)
    requires
        network.ongoing == Set::<Effect>::empty(),
    ensures
        network.is_quiet(),
        network.reached(workers) == workers,
        network.withheld(workers).len() == 0,
        network.owed(workers).len() == 0,
{
}

/// Something goes on whenever an effect does.
pub proof fn law_not_quiet(network: Network, effect: Effect)
    requires
        network.ongoing.contains(effect),
    ensures
        !network.is_quiet(),
{
}

/// During a failure nothing is owed; else all is owed to those that it is withheld from.
pub proof fn law_owed(network: Network, workers: Seq<Peer>)
    ensures
        (exists|e: Effect| #[trigger]
            network.ongoing.contains(e) && e.kind == AsyncEffectType::Failure) ==> network.owed(
            workers,
        ).len() == 0,
        (forall|e: Effect| #[trigger]
            network.ongoing.contains(e) ==> e.kind != AsyncEffectType::Failure) ==> network.owed(
            workers,
        ) == network.withheld(workers),
{
}

/// The first timer of an effect that reaches us adds it to what goes on, the second takes it out again,
/// and nothing else changes. An effect that does not reach us changes nothing.
pub proof fn law_timer(network: Network, effect: Effect)
    ensures
        network.after(effect).sides == network.sides,
        forall|e: Effect|
            e != effect ==> (#[trigger] network.after(effect).ongoing.contains(e)
                <==> network.ongoing.contains(e)),
        effect.reaches_us ==> (network.after(effect).ongoing.contains(effect)
            <==> !network.ongoing.contains(effect)),
        !effect.reaches_us ==> network.after(effect) == network,
        network.ends(effect) <==> network.ongoing.contains(effect) && effect.reaches_us,
{
}

/// The sides hold the names of the lists.
pub proof fn law_name_sets(sides: Seq<Vec<PublicKey>>, i: int, key: PublicKey)
    requires
        0 <= i < sides.len(),
    ensures
        name_sets(sides).len() == sides.len(),
        name_sets(sides)[i].contains(key) <==> sides[i]@.contains(key),
{
}

} // verus!

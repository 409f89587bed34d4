//! What the answer to a whole request is.

use vstd::prelude::*;

use crate::helper;
use crate::helper::{Climb, HelperRequest, Kind, Read, Reply, SessionState};
use crate::types::{Digest, Header, Height, PublicKey};

verus! {

/// How long a climb can still go on.
pub open spec fn climb_length(climb: Option<Climb>) -> nat {
    match climb {
        Some(c) => if c.height > c.lower_bound {
            (1 + c.height - c.lower_bound) as nat
        } else {
            1
        },
        None => 0,
    }
}

/// All replies of a session, with the digests that they are for, where `store` tells what is read
/// under each digest.
pub open spec fn answer(state: SessionState, store: spec_fn(Digest) -> Read) -> Seq<(Digest, Reply)>
    decreases state.items.len(), climb_length(state.climb),
{
    match state.wanted() {
        None => Seq::empty(),
        Some(digest) => {
            let read = store(digest);
            let rest = answer(state.step(read), store);
            match state.reply(read) {
                Some(reply) => seq![(digest, reply)] + rest,
                None => rest,
            }
        },
    }
}

/// A header and its ancestors down to, and without, the one at the lower bound. Heights are counted
/// down from `height`.
pub open spec fn chain(
    store: spec_fn(Digest) -> Read,
    digest: Digest,
    height: int,
    lower_bound: Height,
) -> Seq<Digest>
    decreases height - lower_bound,
{
    if height <= lower_bound {
        Seq::empty()
    } else {
        match store(digest) {
            Read::Header(header) => seq![digest] + chain(
                store,
                header.parent_digest,
                height - 1,
                lower_bound,
            ),
            _ => Seq::empty(),
        }
    }
}

/// What is sent for one item of a request: what is stored under its digest, if anything, and with
/// fast synchronisation also the ancestors above the lower bound.
pub open spec fn found(
    store: spec_fn(Digest) -> Read,
    kind: Kind,
    digest: Digest,
    lower_bound: Height,
) -> Seq<Digest> {
    match store(digest) {
        Read::Certificate => seq![digest],
        Read::Header(header) => if kind == Kind::FastSync {
            seq![digest] + chain(store, header.parent_digest, header.height - 1, lower_bound)
        } else {
            seq![digest]
        },
        Read::Absent => Seq::empty(),
        Read::Failed => Seq::empty(),
    }
}

/// What is sent for the items of a request, in their order.
pub open spec fn found_all(
    store: spec_fn(Digest) -> Read,
    kind: Kind,
    items: Seq<(Digest, Height)>,
) -> Seq<Digest>
    decreases items.len(),
{
    if items.len() == 0 {
        Seq::empty()
    } else {
        found(store, kind, items[0].0, items[0].1) + found_all(store, kind, items.drop_first())
    }
}

/// With a header that is not the first of its chain the store has the parent, one height below.
pub open spec fn has_ancestors(store: spec_fn(Digest) -> Read) -> bool {
    forall|d: Digest|
        (#[trigger] store(d)) matches Read::Header(header) ==> header.height > 1 ==> (store(
            header.parent_digest,
        ) matches Read::Header(parent) && parent.height == header.height - 1)
}

/// What the store gives back is of the kind that is asked for.
pub open spec fn holds_kind(store: spec_fn(Digest) -> Read, kind: Kind) -> bool {
    forall|d: Digest|
        if kind == Kind::Certificates {
            !(#[trigger] store(d) is Header)
        } else {
            !(store(d) is Certificate)
        }
}

/// The digests that are answered.
pub open spec fn digests(replies: Seq<(Digest, Reply)>) -> Seq<Digest> {
    replies.map_values(|r: (Digest, Reply)| r.0)
}

/// The answer to a request is what was found for each of its items, one after the other.
pub proof fn law_answer(state: SessionState, store: spec_fn(Digest) -> Read)
    requires
        state.climb is None,
        holds_kind(store, state.kind),
    ensures
        digests(answer(state, store)) == found_all(store, state.kind, state.items),
{
    lemma_answer(state, store);
}

/// What is still sent for the climb that goes on.
spec fn rest_of_climb(store: spec_fn(Digest) -> Read, climb: Option<Climb>) -> Seq<Digest> {
    match climb {
        Some(c) => chain(store, c.ancestor, c.height as int, c.lower_bound),
        None => Seq::empty(),
    }
}

proof fn lemma_answer(state: SessionState, store: spec_fn(Digest) -> Read)
    requires
        state.climb matches Some(c) ==> c.height > c.lower_bound && state.kind == Kind::FastSync,
        holds_kind(store, state.kind),
    ensures
        digests(answer(state, store)) == rest_of_climb(store, state.climb) + found_all(
            store,
            state.kind,
            state.items,
        ),
    decreases state.items.len(), climb_length(state.climb),
{
    match state.wanted() {
        None => {
            assert(digests(answer(state, store)) =~= Seq::empty());
            assert(found_all(store, state.kind, state.items) =~= Seq::empty());
        },
        Some(digest) => {
            let read = store(digest);
            let next = state.step(read);
            let rest = answer(next, store);
            lemma_answer(next, store);
            let sent = if state.reply(read) is Some {
                seq![digest]
            } else {
                Seq::empty()
            };
            assert(digests(answer(state, store)) =~= sent + digests(rest));
            let tail = rest_of_climb(store, next.climb);
            if let Some(c) = state.climb {
                reveal_with_fuel(chain, 2);
                assert(chain(store, c.ancestor, c.height as int, c.lower_bound) =~= sent + tail);
            } else {
                assert(found(store, state.kind, state.items[0].0, state.items[0].1) =~= sent + tail);
                assert(found_all(store, state.kind, state.items) == (sent + tail) + found_all(
                    store,
                    state.kind,
                    next.items,
                ));
            }
            assert(digests(answer(state, store)) =~= rest_of_climb(store, state.climb) + found_all(
                store,
                state.kind,
                state.items,
            ));
        },
    }
}

/// A request for certificates is answered with certificates, and one for headers with headers that
/// are marked as asked for.
pub proof fn law_kinds_of_replies(state: SessionState, store: spec_fn(Digest) -> Read)
    requires
        holds_kind(store, state.kind),
    ensures
        forall|i: int|
            0 <= i < answer(state, store).len() ==> (#[trigger] answer(state, store)[i]).1
                == if state.kind == Kind::Certificates {
                Reply::Certificate
            } else {
                Reply::Header { sync: true }
            },
    decreases state.items.len(), climb_length(state.climb),
{
    if let Some(digest) = state.wanted() {
        let read = store(digest);
        let rest = answer(state.step(read), store);
        law_kinds_of_replies(state.step(read), store);
        assert forall|i: int| 0 <= i < answer(state, store).len() implies (#[trigger] answer(
            state,
            store,
        )[i]).1 == if state.kind == Kind::Certificates {
            Reply::Certificate
        } else {
            Reply::Header { sync: true }
        } by {
            let at = if state.reply(read) is Some {
                i - 1
            } else {
                i
            };
            if at >= 0 {
                assert(answer(state, store)[i] == rest[at]);
            }
        }
    }
}

/// A request for certificates or for headers is answered, in its order, with all that is stored and
/// with nothing else.
pub proof fn law_plain_answer(state: SessionState, store: spec_fn(Digest) -> Read)
    requires
        state.climb is None,
        state.kind != Kind::FastSync,
        holds_kind(store, state.kind),
    ensures
        digests(answer(state, store)) == state.items.filter(
            |item: (Digest, Height)| store(item.0) is Certificate || store(item.0) is Header,
        ).map_values(|item: (Digest, Height)| item.0),
{
    law_answer(state, store);
    lemma_plain(state.items, state.kind, store);
}

proof fn lemma_plain(
    items: Seq<(Digest, Height)>,
    kind: Kind,
    store: spec_fn(Digest) -> Read,
)
    requires
        kind != Kind::FastSync,
    ensures
        found_all(store, kind, items) == items.filter(
            |item: (Digest, Height)| store(item.0) is Certificate || store(item.0) is Header,
        ).map_values(|item: (Digest, Height)| item.0),
    decreases items.len(),
{
    let stored = |item: (Digest, Height)|
        store(item.0) is Certificate || store(item.0) is Header;
    let digest = |item: (Digest, Height)| item.0;
    if items.len() == 0 {
        reveal(Seq::filter);
        assert(items.filter(stored).map_values(digest) =~= Seq::empty());
    } else {
        let rest = items.drop_first();
        lemma_plain(rest, kind, store);
        assert(items =~= seq![items[0]] + rest);
        Seq::filter_distributes_over_add(seq![items[0]], rest, stored);
        reveal_with_fuel(Seq::filter, 2);
        assert(seq![items[0]].drop_last() =~= Seq::empty());
        assert(items.filter(stored).map_values(digest) =~= seq![items[0]].filter(stored).map_values(
            digest,
        ) + rest.filter(stored).map_values(digest));
        assert(seq![items[0]].filter(stored).map_values(digest) =~= found(
            store,
            kind,
            items[0].0,
            items[0].1,
        ));
    }
}

/// Where the store has the ancestors of its headers, a stored header is answered with itself and all
/// its ancestors above the lower bound: one header for each height from that of the header down,
/// each the parent of the one before it.
pub proof fn law_fast_sync_answer(
    store: spec_fn(Digest) -> Read,
    digest: Digest,
    lower_bound: Height,
)
    requires
        has_ancestors(store),
        store(digest) matches Read::Header(header) && header.height > 0,
    ensures
        ({
            let sent = found(store, Kind::FastSync, digest, lower_bound);
            let height = store(digest)->Header_0.height;
            &&& sent.len() == if height > lower_bound {
                height - lower_bound
            } else {
                1
            }
            &&& sent[0] == digest
            &&& forall|k: int|
                0 <= k < sent.len() ==> (store(#[trigger] sent[k]) matches Read::Header(header)
                    && header.height == height - k)
            &&& forall|k: int|
                0 < k < sent.len() ==> #[trigger] sent[k] == store(
                    sent[k - 1],
                )->Header_0.parent_digest
        }),
{
    let header = store(digest)->Header_0;
    let sent = found(store, Kind::FastSync, digest, lower_bound);
    let ancestors = chain(store, header.parent_digest, header.height - 1, lower_bound);
    assert(sent == seq![digest] + ancestors);
    if header.height - 1 > lower_bound {
        assert(store(digest) matches Read::Header(h) ==> h.height > 1);
        lemma_chain(store, header.parent_digest, header.height - 1, lower_bound);
        assert forall|k: int| 0 <= k < sent.len() implies (store(#[trigger] sent[k]) matches Read::Header(
            h,
        ) && h.height == header.height - k) by {
            if k > 0 {
                assert(sent[k] == ancestors[k - 1]);
            }
        }
        assert forall|k: int| 0 < k < sent.len() implies #[trigger] sent[k] == store(
            sent[k - 1],
        )->Header_0.parent_digest by {
            assert(sent[k] == ancestors[k - 1]);
            if k > 1 {
                assert(sent[k - 1] == ancestors[k - 2]);
            }
        }
    }
}

/// What fast synchronisation asks for closes the gap: every height above the lower bound, up to that
/// of the header that was asked for, has a header in the answer.
pub proof fn law_gap_is_closed(
    store: spec_fn(Digest) -> Read,
    digest: Digest,
    lower_bound: Height,
    height: Height,
)
    requires
        has_ancestors(store),
        store(digest) matches Read::Header(header) && lower_bound < height <= header.height,
    ensures
        exists|sent: Digest|
            {
                &&& #[trigger] found(store, Kind::FastSync, digest, lower_bound).contains(sent)
                &&& store(sent) matches Read::Header(header)
                &&& header.height == height
            },
{
    law_fast_sync_answer(store, digest, lower_bound);
    let sent = found(store, Kind::FastSync, digest, lower_bound);
    let top = store(digest)->Header_0.height;
    assert(sent.contains(sent[top - height]));
    assert(store(sent[top - height]) matches Read::Header(header) && header.height == height);
}

proof fn lemma_chain(
    store: spec_fn(Digest) -> Read,
    digest: Digest,
    height: int,
    lower_bound: Height,
)
    requires
        has_ancestors(store),
        height > lower_bound,
        store(digest) matches Read::Header(header) && header.height == height,
    ensures
        ({
            let sent = chain(store, digest, height, lower_bound);
            &&& sent.len() == height - lower_bound
            &&& sent[0] == digest
            &&& forall|k: int|
                0 <= k < sent.len() ==> (store(#[trigger] sent[k]) matches Read::Header(header)
                    && header.height == height - k)
            &&& forall|k: int|
                0 < k < sent.len() ==> #[trigger] sent[k] == store(
                    sent[k - 1],
                )->Header_0.parent_digest
        }),
    decreases height - lower_bound,
{
    let header = store(digest)->Header_0;
    let sent = chain(store, digest, height, lower_bound);
    let rest = chain(store, header.parent_digest, height - 1, lower_bound);
    assert(sent == seq![digest] + rest);
    if height - 1 > lower_bound {
        lemma_chain(store, header.parent_digest, height - 1, lower_bound);
        assert forall|k: int| 0 <= k < sent.len() implies (store(#[trigger] sent[k]) matches Read::Header(
            h,
        ) && h.height == height - k) by {
            if k > 0 {
                assert(sent[k] == rest[k - 1]);
            }
        }
        assert forall|k: int| 0 < k < sent.len() implies #[trigger] sent[k] == store(
            sent[k - 1],
        )->Header_0.parent_digest by {
            assert(sent[k] == rest[k - 1]);
            if k > 1 {
                assert(sent[k - 1] == rest[k - 2]);
            }
        }
    }
}

/// The climb that goes on, if any, is at a stored header of the height it counts.
pub open spec fn on_chain(state: SessionState, store: spec_fn(Digest) -> Read) -> bool {
    state.climb matches Some(c) ==> {
        &&& state.kind == Kind::FastSync
        &&& store(c.ancestor) matches Read::Header(header)
        &&& header.height == c.height
        &&& c.height > c.lower_bound
    }
}

/// Where the store has the ancestors of its headers, every read of a session, from its begin to its
/// end, gives what the session expects.
pub proof fn law_reads_are_expected(state: SessionState, store: spec_fn(Digest) -> Read)
    requires
        has_ancestors(store),
        holds_kind(store, state.kind),
        forall|d: Digest| (#[trigger] store(d)) matches Read::Header(header) ==> header.height > 0,
        on_chain(state, store),
        state.wanted() is Some,
    ensures
        state.expects(store(state.wanted()->0)),
        on_chain(state.step(store(state.wanted()->0)), store),
{
    let digest = state.wanted()->0;
    if let Read::Header(header) = store(digest) {
        assert(header.height > 1 ==> (store(header.parent_digest) matches Read::Header(parent)
            && parent.height == header.height - 1));
    }
}

/// A session begins with no climb, so that the laws on its reads and on its answer apply to it from
/// the start.
pub proof fn law_sessions_begin(request: helper::HelperRequest, store: spec_fn(Digest) -> Read)
    ensures
        helper::begin(request).climb is None,
        on_chain(helper::begin(request), store),
{
}

/// Picking items of a list by their digests picks those digests.
proof fn lemma_plain_items(digests: Seq<Digest>, store: spec_fn(Digest) -> Read)
    ensures
        digests.map_values(|d: Digest| (d, 0u64)).filter(
            |item: (Digest, Height)| store(item.0) is Certificate || store(item.0) is Header,
        ).map_values(|item: (Digest, Height)| item.0) == digests.filter(
            |d: Digest| store(d) is Certificate || store(d) is Header,
        ),
    decreases digests.len(),
{
    let stored = |item: (Digest, Height)| store(item.0) is Certificate || store(item.0) is Header;
    let first = |item: (Digest, Height)| item.0;
    let held = |d: Digest| store(d) is Certificate || store(d) is Header;
    let items = digests.map_values(|d: Digest| (d, 0u64));
    reveal(Seq::filter);
    if digests.len() > 0 {
        let rest = digests.drop_last();
        lemma_plain_items(rest, store);
        assert(items.drop_last() =~= rest.map_values(|d: Digest| (d, 0u64)));
    }
    assert(items.filter(stored).map_values(first) =~= digests.filter(held));
}

/// A filter goes by what its predicate picks.
proof fn lemma_same_filter(list: Seq<Digest>, p: spec_fn(Digest) -> bool, q: spec_fn(Digest) -> bool)
    requires
        forall|d: Digest| #[trigger] p(d) == q(d),
    ensures
        list.filter(p) == list.filter(q),
    decreases list.len(),
{
    reveal(Seq::filter);
    if list.len() > 0 {
        lemma_same_filter(list.drop_last(), p, q);
        assert(p(list.last()) == q(list.last()));
    }
}

/// A request for headers is answered with exactly those of the headers it names that are stored, in the
/// order of the request, each marked as asked for; no ancestor comes along.
pub proof fn law_headers_request(
    digests: Vec<Digest>,
    origin: PublicKey,
    store: spec_fn(Digest) -> Read,
)
    requires
        forall|d: Digest| !((#[trigger] store(d)) is Certificate),
    ensures
        ({
            let replies = answer(helper::begin(HelperRequest::Headers(digests, origin)), store);
            &&& replies.map_values(|r: (Digest, Reply)| r.0) == digests@.filter(
                |d: Digest| store(d) is Header,
            )
            &&& forall|i: int|
                0 <= i < replies.len() ==> (#[trigger] replies[i]).1 == (Reply::Header { sync: true })
        }),
{
    let state = helper::begin(HelperRequest::Headers(digests, origin));
    assert(holds_kind(store, state.kind));
    law_plain_answer(state, store);
    law_kinds_of_replies(state, store);
    lemma_plain_items(digests@, store);
    lemma_same_filter(
        digests@,
        |d: Digest| store(d) is Certificate || store(d) is Header,
        |d: Digest| store(d) is Header,
    );
}

/// A request for certificates is answered with exactly those of the certificates it names that are
/// stored, in the order of the request.
pub proof fn law_certificates_request(
    digests: Vec<Digest>,
    origin: PublicKey,
    store: spec_fn(Digest) -> Read,
)
    requires
        forall|d: Digest| !((#[trigger] store(d)) is Header),
    ensures
        ({
            let replies = answer(helper::begin(HelperRequest::Certificates(digests, origin)), store);
            &&& replies.map_values(|r: (Digest, Reply)| r.0) == digests@.filter(
                |d: Digest| store(d) is Certificate,
            )
            &&& forall|i: int|
                0 <= i < replies.len() ==> (#[trigger] replies[i]).1 == Reply::Certificate
        }),
{
    let state = helper::begin(HelperRequest::Certificates(digests, origin));
    assert(holds_kind(store, state.kind));
    law_plain_answer(state, store);
    law_kinds_of_replies(state, store);
    lemma_plain_items(digests@, store);
    lemma_same_filter(
        digests@,
        |d: Digest| store(d) is Certificate || store(d) is Header,
        |d: Digest| store(d) is Certificate,
    );
}

proof fn lemma_found_all_push(
    store: spec_fn(Digest) -> Read,
    kind: Kind,
    items: Seq<(Digest, Height)>,
    item: (Digest, Height),
)
    ensures
        found_all(store, kind, items.push(item)) == found_all(store, kind, items) + found(
            store,
            kind,
            item.0,
            item.1,
        ),
    decreases items.len(),
{
    let longer = items.push(item);
    reveal_with_fuel(found_all, 2);
    if items.len() == 0 {
        assert(longer.drop_first() =~= Seq::empty());
        assert(found_all(store, kind, longer) =~= found_all(store, kind, items) + found(
            store,
            kind,
            item.0,
            item.1,
        ));
    } else {
        lemma_found_all_push(store, kind, items.drop_first(), item);
        assert(longer.drop_first() =~= items.drop_first().push(item));
        assert(found_all(store, kind, longer) =~= found_all(store, kind, items) + found(
            store,
            kind,
            item.0,
            item.1,
        ));
    }
}

/// A fast sync request is answered item by item: first what the items before the last bring, then what the
/// last brings; every reply is a header that is marked as asked for.
pub proof fn law_fast_sync_item_by_item(
    all: Vec<(Digest, Height)>,
    front: Vec<(Digest, Height)>,
    last: Vec<(Digest, Height)>,
    origin: PublicKey,
    store: spec_fn(Digest) -> Read,
)
    requires
        forall|d: Digest| !((#[trigger] store(d)) is Certificate),
        all@.len() > 0,
        front@ == all@.drop_last(),
        last@ == seq![all@.last()],
    ensures
        ({
            let replies = answer(helper::begin(HelperRequest::FastSyncHeaders(all, origin)), store);
            let first = answer(helper::begin(HelperRequest::FastSyncHeaders(front, origin)), store);
            let second = answer(helper::begin(HelperRequest::FastSyncHeaders(last, origin)), store);
            &&& replies == first + second
            &&& front@.len() == 0 ==> first.len() == 0
            &&& forall|i: int|
                0 <= i < replies.len() ==> (#[trigger] replies[i]).1 == (Reply::Header { sync: true })
        }),
{
    let request_all = helper::begin(HelperRequest::FastSyncHeaders(all, origin));
    let request_front = helper::begin(HelperRequest::FastSyncHeaders(front, origin));
    let request_last = helper::begin(HelperRequest::FastSyncHeaders(last, origin));
    assert(holds_kind(store, Kind::FastSync));
    law_answer(request_all, store);
    law_answer(request_front, store);
    law_answer(request_last, store);
    law_kinds_of_replies(request_all, store);
    law_kinds_of_replies(request_front, store);
    law_kinds_of_replies(request_last, store);
    let item = all@.last();
    assert(all@ =~= front@.push(item));
    lemma_found_all_push(store, Kind::FastSync, front@, item);
    assert(last@ =~= Seq::empty().push(item));
    lemma_found_all_push(store, Kind::FastSync, Seq::empty(), item);
    let (replies, first, second) = (
        answer(request_all, store),
        answer(request_front, store),
        answer(request_last, store),
    );
    assert(found_all(store, Kind::FastSync, last@) =~= found(store, Kind::FastSync, item.0, item.1));
    assert(digests(replies) == digests(first) + digests(second));
    assert(digests(replies).len() == replies.len() && digests(first).len() == first.len()
        && digests(second).len() == second.len());
    assert(replies.len() == first.len() + second.len());
    assert forall|i: int| 0 <= i < replies.len() implies #[trigger] replies[i] == (first + second)[i] by {
        assert(digests(replies)[i] == (digests(first) + digests(second))[i]);
        if i < first.len() {
            assert(digests(first)[i] == first[i].0);
        } else {
            assert(digests(second)[i - first.len()] == second[i - first.len()].0);
        }
    }
    assert(replies =~= first + second);
}

/// A fast sync request for one header that is not stored brings nothing. For one that is stored, in a store
/// that has the ancestors of its headers, it brings the header and then its ancestors, each the parent of
/// the one before it, down to the height just above the bound; the header itself comes in any case.
pub proof fn law_fast_sync_one(
    item: Vec<(Digest, Height)>,
    origin: PublicKey,
    store: spec_fn(Digest) -> Read,
    digest: Digest,
    lower_bound: Height,
)
    requires
        forall|d: Digest| !((#[trigger] store(d)) is Certificate),
        item@ == seq![(digest, lower_bound)],
        forall|d: Digest|
            (#[trigger] store(d)) matches Read::Header(header) ==> header.height > 0 && (
            header.height > 1 ==> (store(header.parent_digest) matches Read::Header(parent)
                && parent.height == header.height - 1)),
    ensures
        ({
            let sent = answer(
                helper::begin(HelperRequest::FastSyncHeaders(item, origin)),
                store,
            ).map_values(|r: (Digest, Reply)| r.0);
            match store(digest) {
                Read::Header(header) => {
                    &&& sent.len() == if header.height > lower_bound {
                        header.height - lower_bound
                    } else {
                        1
                    }
                    &&& sent[0] == digest
                    &&& forall|k: int|
                        0 <= k < sent.len() ==> (store(#[trigger] sent[k]) matches Read::Header(h)
                            && h.height == header.height - k)
                    &&& forall|k: int|
                        0 < k < sent.len() ==> #[trigger] sent[k] == store(
                            sent[k - 1],
                        )->Header_0.parent_digest
                },
                _ => sent.len() == 0,
            }
        }),
{
    let state = helper::begin(HelperRequest::FastSyncHeaders(item, origin));
    assert(holds_kind(store, Kind::FastSync));
    law_answer(state, store);
    assert(item@ =~= Seq::empty().push((digest, lower_bound)));
    lemma_found_all_push(store, Kind::FastSync, Seq::empty(), (digest, lower_bound));
    assert(found_all(store, Kind::FastSync, item@) =~= found(
        store,
        Kind::FastSync,
        digest,
        lower_bound,
    ));
    if store(digest) is Header {
        assert(has_ancestors(store));
        law_fast_sync_answer(store, digest, lower_bound);
    }
}

/// An empty request of any kind is answered with nothing.
pub proof fn law_empty_request(request: HelperRequest, store: spec_fn(Digest) -> Read)
    requires
        match request {
            HelperRequest::Certificates(list, _) => list@.len() == 0,
            HelperRequest::Headers(list, _) => list@.len() == 0,
            HelperRequest::FastSyncHeaders(list, _) => list@.len() == 0,
        },
    ensures
        answer(helper::begin(request), store).len() == 0,
        helper::begin(request).wanted() is None,
{
}

/// A request comes from the authority that it names.
pub proof fn law_origin(
    digests: Vec<Digest>,
    missing: Vec<(Digest, Height)>,
    origin: PublicKey,
)
    ensures
        HelperRequest::Certificates(digests, origin).spec_origin() == origin,
        HelperRequest::Headers(digests, origin).spec_origin() == origin,
        HelperRequest::FastSyncHeaders(missing, origin).spec_origin() == origin,
{
}

/// What a session can be told: while ancestors are sent, only a header; else that the store failed or has
/// nothing, or what it has of the kind that was asked for. A header whose ancestors are to follow must be
/// able to have some. Only a session that wants something can be told anything.
pub proof fn law_expected(state: SessionState, read: Read)
    requires
        state.climb is Some || state.items.len() > 0,
    ensures
        state.climb is Some && state.kind != Kind::Certificates ==> (state.expects(read)
            <==> read is Header),
        state.climb is None ==> {
            &&& state.expects(Read::Absent)
            &&& state.expects(Read::Failed)
            &&& state.expects(Read::Certificate) <==> state.kind == Kind::Certificates
            &&& forall|header: Header| #[trigger]
                state.expects(Read::Header(header)) <==> {
                    ||| state.kind == Kind::Headers
                    ||| state.kind == Kind::FastSync && header.height > 0
                }
        },
        state.wanted() is Some,
{
}

} // verus!

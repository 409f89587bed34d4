//! The task that helps other authorities by replying to their requests.

use vstd::prelude::*;

use crate::committee::Committee;
use crate::types::{Address, Digest, Header, Height, PublicKey};

verus! {

/// A request of another authority, which names itself.
#[derive(Debug, PartialEq, Eq)]
pub enum HelperRequest {
    /// Certificates are wanted.
    Certificates(Vec<Digest>, PublicKey),
    /// Headers are wanted.
    Headers(Vec<Digest>, PublicKey),
    /// Headers are wanted, each together with its ancestors above a height.
    FastSyncHeaders(Vec<(Digest, Height)>, PublicKey),
}

impl HelperRequest {
    /// The authority that sent the request.
    pub open spec fn spec_origin(self) -> PublicKey {
        match self {
            HelperRequest::Certificates(_, origin) => origin,
            HelperRequest::Headers(_, origin) => origin,
            HelperRequest::FastSyncHeaders(_, origin) => origin,
        }
    }

    /// The authority that sent the request.
    pub fn origin(&self) -> (origin: PublicKey)
        ensures
            origin == self.spec_origin(),
    {
        match self {
            HelperRequest::Certificates(_, origin) => *origin,
            HelperRequest::Headers(_, origin) => *origin,
            HelperRequest::FastSyncHeaders(_, origin) => *origin,
        }
    }
}

/// What kind of request is answered.
#[derive(Clone, Copy, Debug, PartialEq, Eq, Structural)]
pub enum Kind {
    Certificates,
    Headers,
    FastSync,
}

/// What the store gave back.
#[derive(Debug, PartialEq, Eq)]
pub enum Read {
    /// A certificate is stored under the digest.
    Certificate,
    /// A header is stored under the digest.
    Header(Header),
    /// Nothing is stored under the digest.
    Absent,
    /// The store failed.
    Failed,
}

/// What to do with what was read.
#[derive(Clone, Copy, Debug, PartialEq, Eq, Structural)]
pub enum Reply {
    /// Send it as a certificate.
    Certificate,
    /// Send it as a header.
    Header {
        /// Whether to mark the header as one that was asked for.
        sync: bool,
    },
}

/// A climb from a header to its ancestors.
#[derive(Clone, Copy, Debug, PartialEq, Eq)]
pub struct Climb {
    /// The ancestor that comes next.
    pub ancestor: Digest,
    /// Its height, counted down from the header where the climb began.
    pub height: Height,
    /// The height at which the climb ends.
    pub lower_bound: Height,
}

/// Where the answer to a request stands.
#[verifier::ext_equal]
pub struct SessionState {
    pub kind: Kind,
    /// What is still to be looked up, each with a lower bound.
    pub items: Seq<(Digest, Height)>,
    /// The climb that goes on, if any.
    pub climb: Option<Climb>,
}

/// The climb to an ancestor, which is over where the height is not above the bound.
pub open spec fn climb_to(ancestor: Digest, height: int, lower_bound: Height) -> Option<Climb> {
    if height > lower_bound {
        Some(Climb { ancestor, height: height as Height, lower_bound })
    } else {
        None
    }
}

impl SessionState {
    /// The digest to read next from the store; none where the request is answered.
    pub open spec fn wanted(self) -> Option<Digest> {
        match self.climb {
            Some(climb) => Some(climb.ancestor),
            None => if self.items.len() > 0 {
                Some(self.items[0].0)
            } else {
                None
            },
        }
    }

    /// What is read is of the kind that was asked for. An ancestor is always there: with a header
    /// we have all of its ancestors. A header at which a climb begins has an ancestor.
    pub open spec fn expects(self, read: Read) -> bool {
        &&& self.wanted() is Some
        &&& if self.kind == Kind::Certificates {
            !(read is Header)
        } else {
            !(read is Certificate)
        }
        &&& self.climb is Some ==> read is Header
        &&& self.kind == Kind::FastSync && self.climb is None ==> (read matches Read::Header(header)
            ==> header.height > 0)
    }

    /// What is sent: all that was found.
    pub open spec fn reply(self, read: Read) -> Option<Reply> {
        match read {
            Read::Certificate => Some(Reply::Certificate),
            Read::Header(_) => Some(Reply::Header { sync: true }),
            Read::Absent => None,
            Read::Failed => None,
        }
    }

    /// The state after the wanted digest was read.
    pub open spec fn step(self, read: Read) -> Self {
        match self.climb {
            Some(climb) => SessionState {
                climb: match read {
                    Read::Header(header) => climb_to(
                        header.parent_digest,
                        climb.height - 1,
                        climb.lower_bound,
                    ),
                    _ => None,
                },
                ..self
            },
            None => SessionState {
                items: self.items.drop_first(),
                climb: match read {
                    Read::Header(header) => if self.kind == Kind::FastSync {
                        climb_to(header.parent_digest, header.height - 1, self.items[0].1)
                    } else {
                        None
                    },
                    _ => None,
                },
                ..self
            },
        }
    }
}

/// What a request asks for.
pub open spec fn begin(request: HelperRequest) -> SessionState {
    match request {
        HelperRequest::Certificates(digests, _) => SessionState {
            kind: Kind::Certificates,
            items: digests@.map_values(|d: Digest| (d, 0u64)),
            climb: None,
        },
        HelperRequest::Headers(digests, _) => SessionState {
            kind: Kind::Headers,
            items: digests@.map_values(|d: Digest| (d, 0u64)),
            climb: None,
        },
        HelperRequest::FastSyncHeaders(missing, _) => SessionState {
            kind: Kind::FastSync,
            items: missing@,
            climb: None,
        },
    }
}

/// The answer to a request, as it is put together from what the store holds.
#[derive(Debug)]
pub struct Session {
    kind: Kind,
    address: Address,
    items: Vec<(Digest, Height)>,
    next: usize,
    climb: Option<Climb>,
}

impl View for Session {
    type V = SessionState;

    closed spec fn view(&self) -> SessionState {
        SessionState {
            kind: self.kind,
            items: self.items@.skip(self.next as int),
            climb: self.climb,
        }
    }
}

impl Session {
    #[verifier::type_invariant]
    spec fn inv(self) -> bool {
        &&& self.next <= self.items@.len()
        &&& self.climb matches Some(climb) ==> climb.height > climb.lower_bound
    }

    /// Where the replies go.
    pub closed spec fn spec_address(self) -> Address {
        self.address
    }

    /// Where the replies go.
    pub fn address(&self) -> (address: Address)
        ensures
            address == self.spec_address(),
    {
        self.address
    }

    /// The digest to read next from the store; none where the request is answered.
    pub fn wanted(&self) -> (digest: Option<Digest>)
        ensures
            digest == self@.wanted(),
    {
        proof {
            use_type_invariant(self);
        }
        match self.climb {
            Some(climb) => Some(climb.ancestor),
            None => {
                if self.next < self.items.len() {
                    Some(self.items[self.next].0)
                } else {
                    None
                }
            },
        }
    }

    /// Tells whether ancestors of a header are being sent, all of which must be in the store.
    pub fn is_climbing(&self) -> (climbing: bool)
        ensures
            climbing == (self@.climb is Some),
    {
        self.climb.is_some()
    }

    /// Takes what was read for the wanted digest, and tells whether and how to send it.
    pub fn on_read(&mut self, read: &Read) -> (reply: Option<Reply>)
        requires
            old(self)@.expects(*read),
        ensures
            final(self)@ == old(self)@.step(*read),
            final(self).spec_address() == old(self).spec_address(),
            reply == old(self)@.reply(*read),
    {
        proof {
            use_type_invariant(&*self);
        }
        let ghost items = self.items@;
        let ghost at = self.next as int;
        match self.climb {
            Some(climb) => {
                // Send sync replies for all ancestors until we reach the lower bound.
                let next_climb = match read {
                    Read::Header(header) => begin_climb(
                        header.parent_digest,
                        climb.height - 1,
                        climb.lower_bound,
                    ),
                    _ => None,
                };
                self.climb = next_climb;
            },
            None => {
                let lower_bound: Height = self.items[self.next].1;
                let next_climb = match read {
                    Read::Header(header) => {
                        if self.kind == Kind::FastSync {
                            begin_climb(header.parent_digest, header.height - 1, lower_bound)
                        } else {
                            None
                        }
                    },
                    _ => None,
                };
                assert(self.next < self.items.len());
                self.next = self.next + 1;
                self.climb = next_climb;
                assert(items.skip(at).drop_first() =~= items.skip(at + 1));
            },
        }
        // Reply to the request (the best we can).
        match read {
            Read::Certificate => Some(Reply::Certificate),
            Read::Header(_) => Some(Reply::Header { sync: true }),
            Read::Absent => None,
            Read::Failed => None,
        }
    }
}

/// The climb to an ancestor.
fn begin_climb(ancestor: Digest, height: Height, lower_bound: Height) -> (climb: Option<Climb>)
    ensures
        climb == climb_to(ancestor, height as int, lower_bound),
{
    if height > lower_bound {
        Some(Climb { ancestor, height, lower_bound })
    } else {
        None
    }
}

/// A list of digests as items to look up.
fn items_of(digests: &Vec<Digest>) -> (items: Vec<(Digest, Height)>)
    ensures
        items@ == digests@.map_values(|d: Digest| (d, 0u64)),
{
    let mut items: Vec<(Digest, Height)> = Vec::new();
    let mut i: usize = 0;
    while i < digests.len()
        invariant
            i <= digests@.len(),
            items@ == digests@.take(i as int).map_values(|d: Digest| (d, 0u64)),
        decreases digests@.len() - i,
    {
        items.push((digests[i], 0));
        i += 1;
        assert(items@ =~= digests@.take(i as int).map_values(|d: Digest| (d, 0u64)));
    }
    assert(digests@.take(i as int) =~= digests@);
    items
}

/// A task dedicated to help other authorities by replying to their requests.
#[derive(Debug)]
pub struct Helper {
    /// The committee information.
    pub committee: Committee,
}

impl Helper {
    /// Makes a helper for a committee.
    pub fn new(committee: Committee) -> (helper: Helper)
        ensures
            helper.committee == committee,
    {
        Helper { committee }
    }

    /// Begins to answer a request, unless it comes from outside the committee.
    pub fn accept(&self, request: HelperRequest) -> (session: Option<Session>)
        ensures
            match session {
                Some(answer) => {
                    &&& self.committee.spec_primary(request.spec_origin()) == Some(
                        answer.spec_address(),
                    )
                    &&& answer@ == begin(request)
                },
                None => self.committee.spec_primary(request.spec_origin()) is None,
            },
    {
        let address: Address = match self.committee.primary(&request.origin()) {
            Some(address) => address,
            None => {
                return None;
            },
        };
        let (kind, items): (Kind, Vec<(Digest, Height)>) = match request {
            HelperRequest::Certificates(digests, _) => (Kind::Certificates, items_of(&digests)),
            HelperRequest::Headers(digests, _) => (Kind::Headers, items_of(&digests)),
            HelperRequest::FastSyncHeaders(missing, _) => (Kind::FastSync, missing),
        };
        let session = Session { kind, address, items, next: 0, climb: None };
        assert(session.items@.skip(0) =~= session.items@);
        Some(session)
    }
}

} // verus!

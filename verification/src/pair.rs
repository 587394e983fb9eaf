//! Matched pairs: two requests that shared an identifier.

use crate::endpoint::Endpoint;
use crate::request::{Pending, PendingRequest};
use vstd::prelude::*;

verus! {

/// The mathematical value of a matched pair.
pub struct PairView {
    /// The request that was pending when its counterpart arrived.
    pub a: Pending,
    /// The request whose arrival completed the pair.
    pub b: Pending,
}

impl PairView {
    /// The message for member `a`: it goes to the source of `a` and
    /// introduces `b`.
    pub open spec fn response_to_a(self) -> DatagramView {
        DatagramView { destination: self.a.source, payload: self.b.introduction() }
    }

    /// The message for member `b`: it goes to the source of `b` and
    /// introduces `a`.
    pub open spec fn response_to_b(self) -> DatagramView {
        DatagramView { destination: self.b.source, payload: self.a.introduction() }
    }

    /// The two members carry one identifier and come from different sources.
    pub open spec fn matched(self) -> bool {
        self.a.identifier == self.b.identifier && self.a.source != self.b.source
    }
}

/// The mathematical value of a datagram to send.
pub struct DatagramView {
    pub destination: Endpoint,
    pub payload: Seq<char>,
}

/// A message for one client: where to send it and the line it carries.
#[derive(Debug, PartialEq, Eq)]
pub struct Datagram {
    pub destination: Endpoint,
    pub payload: String,
}

impl View for Datagram {
    type V = DatagramView;

    open spec fn view(&self) -> DatagramView {
        DatagramView { destination: self.destination, payload: self.payload@ }
    }
}

/// Two requests with the same identifier and distinct sources. A pair is
/// never stored: it lives from the moment the engine decides on it until
/// both members have been told of each other.
#[derive(Debug, PartialEq, Eq)]
pub struct MatchedPair {
    a: PendingRequest,
    b: PendingRequest,
}

impl View for MatchedPair {
    type V = PairView;

    closed spec fn view(&self) -> PairView {
        PairView { a: self.a@, b: self.b@ }
    }
}

impl MatchedPair {
    #[verifier::type_invariant]
    spec fn well_formed(self) -> bool {
        self@.matched()
    }

    /// Pairs `existing` with `incoming` if they carry the same identifier
    /// and come from different sources; otherwise there is no pair.
    pub fn join(existing: PendingRequest, incoming: PendingRequest) -> (pair: Option<MatchedPair>)
        ensures
            match pair {
                Some(p) => p@ == (PairView { a: existing@, b: incoming@ }) && p@.matched(),
                None => !(PairView { a: existing@, b: incoming@ }).matched(),
            },
    {
        if existing.identifier == incoming.identifier && !existing.source.same_source(
            &incoming.source,
        ) {
            Some(MatchedPair { a: existing, b: incoming })
        } else {
            None
        }
    }

    /// The member that was pending first.
    pub fn a(&self) -> (member: &PendingRequest)
        ensures
            member@ == self@.a,
            self@.matched(),
    {
        proof {
            use_type_invariant(self);
        }
        &self.a
    }

    /// The member whose arrival completed the pair.
    pub fn b(&self) -> (member: &PendingRequest)
        ensures
            member@ == self@.b,
            self@.matched(),
    {
        proof {
            use_type_invariant(self);
        }
        &self.b
    }

    /// The two messages that complete the introduction: the first goes to
    /// member `a` and names `b`, the second goes to member `b` and names
    /// `a`. They go to different endpoints.
    pub fn responses(&self) -> (datagrams: (Datagram, Datagram))
        ensures
            datagrams.0@ == self@.response_to_a(),
            datagrams.1@ == self@.response_to_b(),
            datagrams.0@.destination != datagrams.1@.destination,
    {
        proof {
            use_type_invariant(self);
        }
        let to_a = Datagram { destination: self.a.source, payload: self.b.introduction() };
        let to_b = Datagram { destination: self.b.source, payload: self.a.introduction() };
        (to_a, to_b)
    }
}

} // verus!

//! The matching engine: registers, refreshes, pairs and evicts requests.

use crate::endpoint::Endpoint;
use crate::pair::{MatchedPair, PairView};
use crate::model::{distinct, fresh_only, holds, lookup, replaced, without};
use crate::registry::Registry;
use crate::request::{Pending, PendingRequest};
use vstd::prelude::*;

verus! {

/// What a submission led to.
#[derive(Debug, PartialEq, Eq)]
pub enum Outcome {
    /// No request was pending under the identifier: the new one is stored.
    Registered,
    /// The same source had a request pending: its clock starts again.
    Refreshed,
    /// Another source had a request pending: the two are paired and the
    /// identifier has left the registry.
    Paired(MatchedPair),
}

/// The mathematical value of an [`Outcome`].
pub enum OutcomeView {
    Registered,
    Refreshed,
    Paired(PairView),
}

impl View for Outcome {
    type V = OutcomeView;

    open spec fn view(&self) -> OutcomeView {
        match self {
            Outcome::Registered => OutcomeView::Registered,
            Outcome::Refreshed => OutcomeView::Refreshed,
            Outcome::Paired(pair) => OutcomeView::Paired(pair@),
        }
    }
}

/// The outcome of submitting `identifier` from `source` at `now` to a
/// registry that holds `entries`.
pub open spec fn submit_outcome(
    entries: Seq<Pending>,
    identifier: Seq<char>,
    source: Endpoint,
    now: u64,
) -> OutcomeView {
    match lookup(entries, identifier) {
        None => OutcomeView::Registered,
        Some(existing) => if existing.source == source {
            OutcomeView::Refreshed
        } else {
            OutcomeView::Paired(
                PairView { a: existing, b: Pending { identifier, source, last_seen_at: now } },
            )
        },
    }
}

/// What the registry holds after submitting `identifier` from `source` at
/// `now` to a registry that held `entries`.
pub open spec fn submit_entries(
    entries: Seq<Pending>,
    identifier: Seq<char>,
    source: Endpoint,
    now: u64,
) -> Seq<Pending> {
    let fresh = Pending { identifier, source, last_seen_at: now };
    match lookup(entries, identifier) {
        None => entries.push(fresh),
        Some(existing) => if existing.source == source {
            replaced(entries, fresh)
        } else {
            without(entries, identifier)
        },
    }
}

/// What the registry holds after a sweep at `now` under `ttl` of a registry
/// that held `entries`.
pub open spec fn sweep_entries(entries: Seq<Pending>, now: u64, ttl: u64) -> Seq<Pending> {
    fresh_only(entries, now, ttl)
}

/// The engine owns the registry and is the only one to change it.
pub struct MatchingEngine {
    registry: Registry,
    ttl: u64,
}

impl View for MatchingEngine {
    type V = Seq<Pending>;

    closed spec fn view(&self) -> Seq<Pending> {
        self.registry@
    }
}

impl MatchingEngine {
    /// How long a request may stay pending without being refreshed.
    pub closed spec fn spec_ttl(&self) -> u64 {
        self.ttl
    }

    /// An engine with nothing pending, whose requests live for `ttl`.
    pub fn new(ttl: u64) -> (engine: MatchingEngine)
        ensures
            engine@ == Seq::<Pending>::empty(),
            engine.ttl() == ttl,
    {
        MatchingEngine { registry: Registry::new(), ttl }
    }

    /// How long a request may stay pending without being refreshed.
    #[verifier::when_used_as_spec(spec_ttl)]
    pub fn ttl(&self) -> (ttl: u64)
        ensures
            ttl == self.ttl(),
    {
        self.ttl
    }

    /// The registry, to look at.
    pub fn registry(&self) -> (registry: &Registry)
        ensures
            registry@ == self@,
    {
        &self.registry
    }

    /// Takes in a request for `identifier` that came from `source` at `now`.
    ///
    /// With nothing pending under the identifier the request is stored. A
    /// request pending from the same source is refreshed, however often
    /// that happens. A request pending from another source is taken out of
    /// the registry and paired with the new one.
    pub fn submit(&mut self, identifier: String, source: Endpoint, now: u64) -> (outcome: Outcome)
        ensures
            final(self).ttl() == old(self).ttl(),
            final(self)@ == submit_entries(old(self)@, identifier@, source, now),
            outcome@ == submit_outcome(old(self)@, identifier@, source, now),
            distinct(final(self)@),
            outcome@ matches OutcomeView::Paired(pair) ==> pair.matched() && !holds(
                final(self)@,
                identifier@,
            ),
    {
        let incoming = PendingRequest::build(identifier, source, now);
        let same_source = match self.registry.get(&incoming.identifier) {
            Some(found) => Some(found.source.same_source(&source)),
            None => None,
        };
        match same_source {
            None => {
                self.registry.insert(incoming);
                Outcome::Registered
            },
            Some(true) => {
                self.registry.insert(incoming);
                Outcome::Refreshed
            },
            Some(false) => {
                let existing = self.registry.remove(&incoming.identifier).unwrap();
                let pair = MatchedPair::join(existing, incoming).unwrap();
                Outcome::Paired(pair)
            },
        }
    }

    /// Evicts every request that has not been seen for more than the TTL
    /// and says how many were evicted. A sweep never pairs anything.
    pub fn sweep(&mut self, now: u64) -> (removed: usize)
        ensures
            final(self).ttl() == old(self).ttl(),
            final(self)@ == sweep_entries(old(self)@, now, old(self).ttl()),
            removed == old(self)@.len() - final(self)@.len(),
            distinct(final(self)@),
            forall|i: int|
                0 <= i < final(self)@.len() ==> !(#[trigger] final(self)@[i]).stale(
                    now,
                    old(self).ttl(),
                ),
    {
        self.registry.evict_stale(now, self.ttl)
    }
}

} // verus!

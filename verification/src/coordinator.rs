//! The coordinator: the one place where events reach the engine.
//!
//! Whoever receives datagrams and whoever keeps the timer turn what they
//! see into [`Event`]s and queue them. One consumer takes the events in
//! order and hands each to [`Coordinator::handle`], which changes the
//! registry and says what is to be sent.

use crate::endpoint::Endpoint;
use crate::engine::{
    submit_entries, submit_outcome, sweep_entries, MatchingEngine, Outcome, OutcomeView,
};
use crate::model::distinct;
use crate::pair::{Datagram, DatagramView};
use crate::request::Pending;
use crate::wire::{decode_identifier, identifier_of};
use vstd::prelude::*;

verus! {

/// What the outside world reports to the coordinator.
#[derive(Debug, PartialEq, Eq)]
pub enum Event {
    /// A datagram carrying `identifier` came from `source`.
    RequestArrived { identifier: String, source: Endpoint },
    /// The sweep timer fired.
    TimeoutTick,
}

/// The mathematical value of an [`Event`].
pub enum EventView {
    RequestArrived { identifier: Seq<char>, source: Endpoint },
    TimeoutTick,
}

impl View for Event {
    type V = EventView;

    open spec fn view(&self) -> EventView {
        match self {
            Event::RequestArrived { identifier, source } => EventView::RequestArrived {
                identifier: identifier@,
                source: *source,
            },
            Event::TimeoutTick => EventView::TimeoutTick,
        }
    }
}

impl Event {
    /// The event for a datagram with `payload` that came from `source`: a
    /// request under the identifier that the payload carries, or nothing
    /// when it carries none.
    pub fn from_datagram(payload: Vec<u8>, source: Endpoint) -> (event: Option<Event>)
        ensures
            match event {
                Some(e) => identifier_of(payload@) matches Some(identifier) && e@ == (
                EventView::RequestArrived { identifier, source }),
                None => identifier_of(payload@) is None,
            },
    {
        match decode_identifier(payload) {
            Some(identifier) => Some(Event::RequestArrived { identifier, source }),
            None => None,
        }
    }
}

impl EventView {
    /// The event is a request under `identifier`.
    pub open spec fn submits(self, identifier: Seq<char>) -> bool {
        self matches EventView::RequestArrived { identifier: id, .. } && id == identifier
    }
}

/// An event together with the time at which it is handled.
pub struct Occurrence {
    pub event: EventView,
    pub now: u64,
}

/// What the coordinator did with an event, and what is to be sent for it.
#[derive(Debug, PartialEq, Eq)]
pub enum Reaction {
    /// The request was stored; nothing is sent.
    Registered,
    /// The request was refreshed; nothing is sent.
    Refreshed,
    /// Two requests were paired. `to_a` is for the member that was pending,
    /// `to_b` for the one that just arrived; each names the other. Sending
    /// is best effort: the pairing stands whether or not they arrive.
    Paired { to_a: Datagram, to_b: Datagram },
    /// A sweep evicted `removed` requests; nothing is sent.
    Swept { removed: usize },
}

/// The mathematical value of a [`Reaction`].
pub enum ReactionView {
    Registered,
    Refreshed,
    Paired { to_a: DatagramView, to_b: DatagramView },
    Swept { removed: nat },
}

impl View for Reaction {
    type V = ReactionView;

    open spec fn view(&self) -> ReactionView {
        match self {
            Reaction::Registered => ReactionView::Registered,
            Reaction::Refreshed => ReactionView::Refreshed,
            Reaction::Paired { to_a, to_b } => ReactionView::Paired { to_a: to_a@, to_b: to_b@ },
            Reaction::Swept { removed } => ReactionView::Swept { removed: *removed as nat },
        }
    }
}

/// What the registry holds after `event` was handled at `now` under `ttl`.
pub open spec fn handled_entries(
    entries: Seq<Pending>,
    ttl: u64,
    event: EventView,
    now: u64,
) -> Seq<Pending> {
    match event {
        EventView::RequestArrived { identifier, source } => submit_entries(
            entries,
            identifier,
            source,
            now,
        ),
        EventView::TimeoutTick => sweep_entries(entries, now, ttl),
    }
}

/// What the registry holds after the events of `history` were handled in
/// order, under `ttl`: the registry is a function of the sequence of events.
pub open spec fn after_history(
    entries: Seq<Pending>,
    ttl: u64,
    history: Seq<Occurrence>,
) -> Seq<Pending>
    decreases history.len(),
{
    if history.len() == 0 {
        entries
    } else {
        handled_entries(
            after_history(entries, ttl, history.drop_last()),
            ttl,
            history.last().event,
            history.last().now,
        )
    }
}

/// The reaction to `event` handled at `now` under `ttl`.
pub open spec fn reaction_to(
    entries: Seq<Pending>,
    ttl: u64,
    event: EventView,
    now: u64,
) -> ReactionView {
    match event {
        EventView::RequestArrived { identifier, source } => match submit_outcome(
            entries,
            identifier,
            source,
            now,
        ) {
            OutcomeView::Registered => ReactionView::Registered,
            OutcomeView::Refreshed => ReactionView::Refreshed,
            OutcomeView::Paired(pair) => ReactionView::Paired {
                to_a: pair.response_to_a(),
                to_b: pair.response_to_b(),
            },
        },
        EventView::TimeoutTick => ReactionView::Swept {
            removed: (entries.len() - sweep_entries(entries, now, ttl).len()) as nat,
        },
    }
}

/// The single consumer of events: it owns the engine, so nothing else can
/// change the registry.
pub struct Coordinator {
    engine: MatchingEngine,
}

impl View for Coordinator {
    type V = Seq<Pending>;

    closed spec fn view(&self) -> Seq<Pending> {
        self.engine@
    }
}

impl Coordinator {
    /// The TTL of the engine that the coordinator drives.
    pub closed spec fn ttl(&self) -> u64 {
        self.engine.ttl()
    }

    /// A coordinator over an engine with nothing pending and the given TTL.
    pub fn new(ttl: u64) -> (coordinator: Coordinator)
        ensures
            coordinator@ == Seq::<Pending>::empty(),
            coordinator.ttl() == ttl,
    {
        Coordinator { engine: MatchingEngine::new(ttl) }
    }

    /// The engine, to look at.
    pub fn engine(&self) -> (engine: &MatchingEngine)
        ensures
            engine@ == self@,
            engine.ttl() == self.ttl(),
    {
        &self.engine
    }

    /// Handles one event at time `now`: a request is submitted to the
    /// engine, and if that pairs it the two messages to send come back; a
    /// tick sweeps the registry and sends nothing.
    pub fn handle(&mut self, event: Event, now: u64) -> (reaction: Reaction)
        ensures
            final(self).ttl() == old(self).ttl(),
            final(self)@ == handled_entries(old(self)@, old(self).ttl(), event@, now),
            reaction@ == reaction_to(old(self)@, old(self).ttl(), event@, now),
            distinct(final(self)@),
    {
        match event {
            Event::RequestArrived { identifier, source } => {
                match self.engine.submit(identifier, source, now) {
                    Outcome::Registered => Reaction::Registered,
                    Outcome::Refreshed => Reaction::Refreshed,
                    Outcome::Paired(pair) => {
                        let (to_a, to_b) = pair.responses();
                        Reaction::Paired { to_a, to_b }
                    },
                }
            },
            Event::TimeoutTick => {
                let removed = self.engine.sweep(now);
                Reaction::Swept { removed }
            },
        }
    }
}

} // verus!

//! What holds of the engine over whole histories of submissions and sweeps.

use crate::coordinator::{after_history, EventView, Occurrence};
use crate::endpoint::Endpoint;
use crate::engine::{submit_entries, submit_outcome, sweep_entries, OutcomeView};
use crate::pair::PairView;
use crate::model::{
    carrying, distinct, holds, lemma_exactly_one, lemma_fresh_only, lemma_lookup_push,
    lemma_lookup_replaced, lemma_lookup_without, lookup,
};
use crate::request::Pending;
use vstd::prelude::*;

verus! {

/// What the registry holds after `identifier` was submitted from `source`
/// once at each of `times`, in order.
pub open spec fn after_resubmissions(
    entries: Seq<Pending>,
    identifier: Seq<char>,
    source: Endpoint,
    times: Seq<u64>,
) -> Seq<Pending>
    decreases times.len(),
{
    if times.len() == 0 {
        entries
    } else {
        submit_entries(
            after_resubmissions(entries, identifier, source, times.drop_last()),
            identifier,
            source,
            times.last(),
        )
    }
}

/// A submission keeps the identifiers distinct, and afterwards the
/// identifier is absent if the submission paired and is held by the new
/// request otherwise; every other identifier is untouched.
pub proof fn lemma_submit(
    entries: Seq<Pending>,
    identifier: Seq<char>,
    source: Endpoint,
    now: u64,
    other: Seq<char>,
)
    requires
        distinct(entries),
    ensures
        distinct(submit_entries(entries, identifier, source, now)),
        lookup(submit_entries(entries, identifier, source, now), other) == if other
            != identifier {
            lookup(entries, other)
        } else if submit_outcome(entries, identifier, source, now) is Paired {
            None
        } else {
            Some(Pending { identifier, source, last_seen_at: now })
        },
{
    let fresh = Pending { identifier, source, last_seen_at: now };
    match lookup(entries, identifier) {
        None => {
            lemma_lookup_push(entries, fresh, other);
        },
        Some(existing) => {
            if existing.source == source {
                lemma_lookup_replaced(entries, fresh, other);
            } else {
                lemma_lookup_without(entries, identifier, other);
            }
        },
    }
}

/// A sweep keeps the identifiers distinct; it keeps each entry that is not
/// stale as it was and removes each entry that is.
pub proof fn lemma_sweep(entries: Seq<Pending>, ttl: u64, now: u64, identifier: Seq<char>)
    requires
        distinct(entries),
    ensures
        distinct(sweep_entries(entries, now, ttl)),
        lookup(sweep_entries(entries, now, ttl), identifier) == match lookup(
            entries,
            identifier,
        ) {
            Some(e) => if e.stale(now, ttl) {
                None
            } else {
                Some(e)
            },
            None => None,
        },
{
    lemma_fresh_only(entries, now, ttl);
    assert(lookup(crate::model::fresh_only(entries, now, ttl), identifier) == match lookup(
        entries,
        identifier,
    ) {
        Some(e) => if e.stale(now, ttl) {
            None
        } else {
            Some(e)
        },
        None => None,
    });
}

/// Uniqueness: whatever requests and ticks a coordinator that started with
/// an empty registry has handled, after each of them no two entries of the
/// registry carry the same identifier.
pub proof fn law_uniqueness(ttl: u64, history: Seq<Occurrence>, k: int)
    requires
        0 <= k <= history.len(),
    ensures
        distinct(after_history(Seq::empty(), ttl, history.take(k))),
    decreases k,
{
    let prefix = history.take(k);
    if k > 0 {
        assert(prefix.drop_last() =~= history.take(k - 1));
        law_uniqueness(ttl, history, k - 1);
        let before = after_history(Seq::empty(), ttl, history.take(k - 1));
        match prefix.last().event {
            EventView::RequestArrived { identifier, source } => {
                lemma_submit(before, identifier, source, prefix.last().now, identifier);
            },
            EventView::TimeoutTick => {
                lemma_fresh_only(before, prefix.last().now, ttl);
            },
        }
    }
}

/// Refresh idempotence: when `identifier` is submitted from one `source`
/// at each of `times`, to a registry in which it is not pending from another
/// source, then no submission pairs, and after each of them the registry
/// holds exactly one entry under the identifier: the request from `source`,
/// last seen at the time of that submission.
pub proof fn law_refresh_idempotence(
    entries: Seq<Pending>,
    identifier: Seq<char>,
    source: Endpoint,
    times: Seq<u64>,
    k: int,
)
    requires
        distinct(entries),
        lookup(entries, identifier) matches Some(e) ==> e.source == source,
        0 <= k < times.len(),
    ensures
        submit_outcome(
            after_resubmissions(entries, identifier, source, times.take(k)),
            identifier,
            source,
            times[k],
        ) == if k == 0 && !holds(entries, identifier) {
            OutcomeView::Registered
        } else {
            OutcomeView::Refreshed
        },
        distinct(after_resubmissions(entries, identifier, source, times.take(k + 1))),
        carrying(
            after_resubmissions(entries, identifier, source, times.take(k + 1)),
            identifier,
        ) == seq![Pending { identifier, source, last_seen_at: times[k] }],
    decreases k,
{
    let before = after_resubmissions(entries, identifier, source, times.take(k));
    let after = after_resubmissions(entries, identifier, source, times.take(k + 1));
    let fresh = Pending { identifier, source, last_seen_at: times[k] };
    assert(times.take(k + 1).drop_last() =~= times.take(k));
    assert(times.take(k + 1).last() == times[k]);
    assert(after == submit_entries(before, identifier, source, times[k]));
    if k == 0 {
        assert(before == entries);
    } else {
        law_refresh_idempotence(entries, identifier, source, times, k - 1);
        let earlier = Pending { identifier, source, last_seen_at: times[k - 1] };
        assert(carrying(before, identifier)[0] == earlier);
        lemma_carrying_held(before, identifier);
    }
    lemma_submit(before, identifier, source, times[k], identifier);
    lemma_held_at(after, identifier);
}

/// Pairing symmetry: when `identifier` is submitted from `first` and then
/// from a different source `second`, to a registry in which it is not
/// pending from a third source, the second submission pairs the request
/// from `first` with the request from `second`, in that order, and the
/// registry no longer holds the identifier.
pub proof fn law_pairing_symmetry(
    entries: Seq<Pending>,
    identifier: Seq<char>,
    first: Endpoint,
    t1: u64,
    second: Endpoint,
    t2: u64,
)
    requires
        distinct(entries),
        lookup(entries, identifier) matches Some(e) ==> e.source == first,
        first != second,
    ensures
        !(submit_outcome(entries, identifier, first, t1) is Paired),
        submit_outcome(
            submit_entries(entries, identifier, first, t1),
            identifier,
            second,
            t2,
        ) == OutcomeView::Paired(
            PairView {
                a: Pending { identifier, source: first, last_seen_at: t1 },
                b: Pending { identifier, source: second, last_seen_at: t2 },
            },
        ),
        !holds(
            submit_entries(
                submit_entries(entries, identifier, first, t1),
                identifier,
                second,
                t2,
            ),
            identifier,
        ),
{
    let mid = submit_entries(entries, identifier, first, t1);
    lemma_submit(entries, identifier, first, t1, identifier);
    lemma_submit(mid, identifier, second, t2, identifier);
}

/// TTL eviction: take an entry that is pending, and a history in which no
/// request comes under its identifier. As long as every tick of the history
/// comes no later than `ttl` after the entry was last seen, the entry is
/// still pending, unchanged; the first tick that comes later removes it.
pub proof fn law_ttl_eviction(
    entries: Seq<Pending>,
    ttl: u64,
    entry: Pending,
    history: Seq<Occurrence>,
    k: int,
)
    requires
        distinct(entries),
        lookup(entries, entry.identifier) == Some(entry),
        0 < k <= history.len(),
        forall|i: int| 0 <= i < k ==> !(#[trigger] history[i]).event.submits(entry.identifier),
        forall|i: int|
            0 <= i < k - 1 && (#[trigger] history[i]).event is TimeoutTick ==> history[i].now
                - entry.last_seen_at <= ttl,
    ensures
        lookup(after_history(entries, ttl, history.take(k)), entry.identifier) == if history[k
            - 1].event is TimeoutTick && history[k - 1].now - entry.last_seen_at > ttl {
            None
        } else {
            Some(entry)
        },
{
    lemma_still_pending(entries, ttl, entry, history, k - 1);
    assert(history.take(k).drop_last() =~= history.take(k - 1));
    assert(history.take(k).last() == history[k - 1]);
    let before = after_history(entries, ttl, history.take(k - 1));
    match history[k - 1].event {
        EventView::RequestArrived { identifier, source } => {
            assert(!history[k - 1].event.submits(entry.identifier));
            lemma_submit(before, identifier, source, history[k - 1].now, entry.identifier);
        },
        EventView::TimeoutTick => {
            lemma_sweep(before, ttl, history[k - 1].now, entry.identifier);
        },
    }
}

/// An entry stays pending, unchanged, through a history in which no request
/// comes under its identifier and no tick comes later than `ttl` after it
/// was last seen.
proof fn lemma_still_pending(
    entries: Seq<Pending>,
    ttl: u64,
    entry: Pending,
    history: Seq<Occurrence>,
    k: int,
)
    requires
        distinct(entries),
        lookup(entries, entry.identifier) == Some(entry),
        0 <= k <= history.len(),
        forall|i: int| 0 <= i < k ==> !(#[trigger] history[i]).event.submits(entry.identifier),
        forall|i: int|
            0 <= i < k && (#[trigger] history[i]).event is TimeoutTick ==> history[i].now
                - entry.last_seen_at <= ttl,
    ensures
        distinct(after_history(entries, ttl, history.take(k))),
        lookup(after_history(entries, ttl, history.take(k)), entry.identifier) == Some(entry),
    decreases k,
{
    if k > 0 {
        lemma_still_pending(entries, ttl, entry, history, k - 1);
        assert(history.take(k).drop_last() =~= history.take(k - 1));
        assert(history.take(k).last() == history[k - 1]);
        let before = after_history(entries, ttl, history.take(k - 1));
        match history[k - 1].event {
            EventView::RequestArrived { identifier, source } => {
                assert(!history[k - 1].event.submits(entry.identifier));
                lemma_submit(before, identifier, source, history[k - 1].now, entry.identifier);
            },
            EventView::TimeoutTick => {
                lemma_sweep(before, ttl, history[k - 1].now, entry.identifier);
            },
        }
    } else {
        assert(history.take(0) =~= Seq::<Occurrence>::empty());
    }
}

/// No resurrection: once a submission of `identifier` has paired, the next
/// submission of it, from whatever source, finds nothing pending: it is
/// registered as a new request and pairs with nothing.
pub proof fn law_no_resurrection(
    entries: Seq<Pending>,
    identifier: Seq<char>,
    source: Endpoint,
    now: u64,
    next_source: Endpoint,
    later: u64,
)
    requires
        distinct(entries),
        submit_outcome(entries, identifier, source, now) is Paired,
    ensures
        !holds(submit_entries(entries, identifier, source, now), identifier),
        submit_outcome(
            submit_entries(entries, identifier, source, now),
            identifier,
            next_source,
            later,
        ) == OutcomeView::Registered,
        carrying(
            submit_entries(
                submit_entries(entries, identifier, source, now),
                identifier,
                next_source,
                later,
            ),
            identifier,
        ) == seq![Pending { identifier, source: next_source, last_seen_at: later }],
{
    let after = submit_entries(entries, identifier, source, now);
    lemma_submit(entries, identifier, source, now, identifier);
    lemma_submit(after, identifier, next_source, later, identifier);
    lemma_held_at(submit_entries(after, identifier, next_source, later), identifier);
}

/// Among distinct identifiers, the entries that carry an identifier that is
/// held are the one entry that `lookup` gives.
proof fn lemma_held_at(entries: Seq<Pending>, identifier: Seq<char>)
    requires
        distinct(entries),
        holds(entries, identifier),
    ensures
        carrying(entries, identifier) == seq![lookup(entries, identifier)->0],
{
    let i = choose|i: int|
        0 <= i < entries.len() && (#[trigger] entries[i]).identifier == identifier;
    lemma_exactly_one(entries, i);
}

/// An identifier that some entry is carrying is held, by that entry.
proof fn lemma_carrying_held(entries: Seq<Pending>, identifier: Seq<char>)
    requires
        distinct(entries),
        carrying(entries, identifier).len() > 0,
    ensures
        lookup(entries, identifier) == Some(carrying(entries, identifier)[0]),
{
    if !holds(entries, identifier) {
        crate::model::lemma_carrying_absent(entries, identifier);
    }
    lemma_held_at(entries, identifier);
}

} // verus!

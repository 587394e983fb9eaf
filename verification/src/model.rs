//! The registry as a mathematical value: a sequence of pending requests in
//! which no identifier occurs twice, and what looking up, replacing and
//! removing mean on it.

use crate::request::Pending;
use vstd::prelude::*;

verus! {

/// No two entries of `entries` carry the same identifier.
pub open spec fn distinct(entries: Seq<Pending>) -> bool {
    forall|i: int, j: int|
        0 <= i < j < entries.len() ==> (#[trigger] entries[i]).identifier != (
        #[trigger] entries[j]).identifier
}

/// Some entry of `entries` carries `identifier`.
pub open spec fn holds(entries: Seq<Pending>, identifier: Seq<char>) -> bool {
    exists|i: int| 0 <= i < entries.len() && (#[trigger] entries[i]).identifier == identifier
}

/// The entry of `entries` that carries `identifier`, if there is one.
pub open spec fn lookup(entries: Seq<Pending>, identifier: Seq<char>) -> Option<Pending> {
    if holds(entries, identifier) {
        Some(
            entries[choose|i: int|
                0 <= i < entries.len() && (#[trigger] entries[i]).identifier == identifier],
        )
    } else {
        None
    }
}

/// `entries` with every entry that carries the identifier of `fresh`
/// replaced by `fresh`.
pub open spec fn replaced(entries: Seq<Pending>, fresh: Pending) -> Seq<Pending> {
    entries.map_values(
        |e: Pending|
            if e.identifier == fresh.identifier {
                fresh
            } else {
                e
            },
    )
}

/// `entries` without the entries that carry `identifier`.
pub open spec fn without(entries: Seq<Pending>, identifier: Seq<char>) -> Seq<Pending> {
    entries.filter(|e: Pending| e.identifier != identifier)
}

/// The entries of `entries` that carry `identifier`, in storage order.
pub open spec fn carrying(entries: Seq<Pending>, identifier: Seq<char>) -> Seq<Pending> {
    entries.filter(|e: Pending| e.identifier == identifier)
}

/// `entries` without the entries that are stale at `now` under `ttl`.
pub open spec fn fresh_only(entries: Seq<Pending>, now: u64, ttl: u64) -> Seq<Pending> {
    entries.filter(|e: Pending| !e.stale(now, ttl))
}

/// In a registry of distinct identifiers, the entry found at any position is
/// the one that `lookup` gives for its identifier.
pub proof fn lemma_lookup_at(entries: Seq<Pending>, i: int)
    requires
        distinct(entries),
        0 <= i < entries.len(),
    ensures
        lookup(entries, entries[i].identifier) == Some(entries[i]),
{
    let id = entries[i].identifier;
    let j = choose|j: int| 0 <= j < entries.len() && (#[trigger] entries[j]).identifier == id;
    assert(j == i);
}

/// Filtering keeps a sequence whole when every element passes.
proof fn lemma_filter_keeps_all<A>(s: Seq<A>, pred: spec_fn(A) -> bool)
    requires
        forall|k: int| 0 <= k < s.len() ==> pred(#[trigger] s[k]),
    ensures
        s.filter(pred) == s,
    decreases s.len(),
{
    reveal(Seq::filter);
    if s.len() > 0 {
        lemma_filter_keeps_all(s.drop_last(), pred);
        assert(s.drop_last().push(s.last()) =~= s);
    }
}

/// Filtering removes exactly position `i` when only the element there fails.
proof fn lemma_filter_drops_one<A>(s: Seq<A>, pred: spec_fn(A) -> bool, i: int)
    requires
        0 <= i < s.len(),
        !pred(s[i]),
        forall|k: int| 0 <= k < s.len() && k != i ==> pred(#[trigger] s[k]),
    ensures
        s.filter(pred) == s.remove(i),
    decreases s.len(),
{
    reveal(Seq::filter);
    if i == s.len() - 1 {
        lemma_filter_keeps_all(s.drop_last(), pred);
        assert(s.drop_last() =~= s.remove(i));
    } else {
        lemma_filter_drops_one(s.drop_last(), pred, i);
        assert(s.drop_last().remove(i).push(s.last()) =~= s.remove(i));
    }
}

/// Removing an identifier that no entry carries changes nothing.
pub proof fn lemma_without_absent(entries: Seq<Pending>, identifier: Seq<char>)
    requires
        !holds(entries, identifier),
    ensures
        without(entries, identifier) == entries,
{
    lemma_filter_keeps_all(entries, |e: Pending| e.identifier != identifier);
}

/// Among distinct identifiers, removing an identifier removes the one entry
/// that carries it.
pub proof fn lemma_without_at(entries: Seq<Pending>, i: int)
    requires
        distinct(entries),
        0 <= i < entries.len(),
    ensures
        without(entries, entries[i].identifier) == entries.remove(i),
        distinct(entries.remove(i)),
        !holds(entries.remove(i), entries[i].identifier),
{
    let id = entries[i].identifier;
    lemma_filter_drops_one(entries, |e: Pending| e.identifier != id, i);
    let rest = entries.remove(i);
    assert forall|a: int, b: int| 0 <= a < b < rest.len() implies (#[trigger] rest[a]).identifier
        != (#[trigger] rest[b]).identifier by {
        let a0 = if a < i { a } else { a + 1 };
        let b0 = if b < i { b } else { b + 1 };
        assert(rest[a] == entries[a0] && rest[b] == entries[b0]);
    }
    assert forall|a: int| 0 <= a < rest.len() implies (#[trigger] rest[a]).identifier != id by {
        let a0 = if a < i { a } else { a + 1 };
        assert(rest[a] == entries[a0]);
    }
}

/// Among distinct identifiers, replacing by identifier rewrites the one
/// entry that carries it and keeps the identifiers distinct.
pub proof fn lemma_replaced_at(entries: Seq<Pending>, i: int, fresh: Pending)
    requires
        distinct(entries),
        0 <= i < entries.len(),
        entries[i].identifier == fresh.identifier,
    ensures
        replaced(entries, fresh) == entries.update(i, fresh),
        distinct(entries.update(i, fresh)),
{
    assert(replaced(entries, fresh) =~= entries.update(i, fresh));
}

/// Adding an entry under an identifier that none carries keeps the
/// identifiers distinct.
pub proof fn lemma_push_absent(entries: Seq<Pending>, fresh: Pending)
    requires
        distinct(entries),
        !holds(entries, fresh.identifier),
    ensures
        distinct(entries.push(fresh)),
        lookup(entries.push(fresh), fresh.identifier) == Some(fresh),
{
    let grown = entries.push(fresh);
    assert forall|a: int, b: int| 0 <= a < b < grown.len() implies (#[trigger] grown[a]).identifier
        != (#[trigger] grown[b]).identifier by {
        assert(grown[a] == entries[a]);
        if b < entries.len() {
            assert(grown[b] == entries[b]);
        }
    }
    assert(grown[entries.len() as int] == fresh);
    lemma_lookup_at(grown, entries.len() as int);
}

/// Dropping the stale entries keeps the identifiers distinct and leaves no
/// stale entry behind.
pub proof fn lemma_fresh_only(entries: Seq<Pending>, now: u64, ttl: u64)
    requires
        distinct(entries),
    ensures
        distinct(fresh_only(entries, now, ttl)),
        fresh_only(entries, now, ttl).len() <= entries.len(),
        forall|i: int|
            0 <= i < fresh_only(entries, now, ttl).len() ==> !(#[trigger] fresh_only(
                entries,
                now,
                ttl,
            )[i]).stale(now, ttl),
        forall|id: Seq<char>| #[trigger]
            lookup(fresh_only(entries, now, ttl), id) == match lookup(entries, id) {
                Some(e) => if e.stale(now, ttl) {
                    None
                } else {
                    Some(e)
                },
                None => None,
            },
    decreases entries.len(),
{
    reveal(Seq::filter);
    let kept = fresh_only(entries, now, ttl);
    if entries.len() == 0 {
        assert forall|id: Seq<char>| #[trigger] lookup(kept, id) == match lookup(entries, id) {
            Some(e) => if e.stale(now, ttl) {
                None
            } else {
                Some(e)
            },
            None => None,
        } by {}
    } else {
        let front = entries.drop_last();
        let last = entries.last();
        let kept_front = fresh_only(front, now, ttl);
        assert(distinct(front)) by {
            assert forall|a: int, b: int| 0 <= a < b < front.len() implies (
            #[trigger] front[a]).identifier != (#[trigger] front[b]).identifier by {
                assert(front[a] == entries[a] && front[b] == entries[b]);
            }
        }
        lemma_fresh_only(front, now, ttl);
        assert(!holds(front, last.identifier)) by {
            assert forall|a: int| 0 <= a < front.len() implies (#[trigger] front[a]).identifier
                != last.identifier by {
                assert(front[a] == entries[a]);
                assert(last == entries[entries.len() - 1]);
            }
        }
        assert(lookup(front, last.identifier) is None);
        assert(lookup(kept_front, last.identifier) is None);
        assert(!holds(kept_front, last.identifier));
        if !last.stale(now, ttl) {
            assert(kept == kept_front.push(last));
            lemma_push_absent(kept_front, last);
            assert forall|i: int| 0 <= i < kept.len() implies !(#[trigger] kept[i]).stale(
                now,
                ttl,
            ) by {
                if i < kept_front.len() {
                    assert(kept[i] == kept_front[i]);
                }
            }
        } else {
            assert(kept == kept_front);
        }
        assert forall|id: Seq<char>| #[trigger] lookup(kept, id) == match lookup(entries, id) {
            Some(e) => if e.stale(now, ttl) {
                None
            } else {
                Some(e)
            },
            None => None,
        } by {
            lemma_lookup_drop_last(entries, id);
            if !last.stale(now, ttl) {
                lemma_lookup_push(kept_front, last, id);
            }
        }
    }
}

/// How `lookup` in a registry of distinct identifiers follows from `lookup`
/// in all but its last entry.
proof fn lemma_lookup_drop_last(entries: Seq<Pending>, id: Seq<char>)
    requires
        distinct(entries),
        entries.len() > 0,
    ensures
        lookup(entries, id) == if entries.last().identifier == id {
            Some(entries.last())
        } else {
            lookup(entries.drop_last(), id)
        },
{
    let front = entries.drop_last();
    if entries.last().identifier == id {
        lemma_lookup_at(entries, entries.len() - 1);
    } else if holds(front, id) {
        let k = choose|k: int| 0 <= k < front.len() && (#[trigger] front[k]).identifier == id;
        assert(front[k] == entries[k]);
        lemma_lookup_at(entries, k);
        assert(distinct(front)) by {
            assert forall|a: int, b: int| 0 <= a < b < front.len() implies (
            #[trigger] front[a]).identifier != (#[trigger] front[b]).identifier by {
                assert(front[a] == entries[a] && front[b] == entries[b]);
            }
        }
        lemma_lookup_at(front, k);
    } else {
        assert forall|k: int| 0 <= k < entries.len() implies (#[trigger] entries[k]).identifier
            != id by {
            if k < front.len() {
                assert(front[k] == entries[k]);
            }
        }
    }
}

/// How `lookup` sees an entry added under an identifier that none carried.
pub proof fn lemma_lookup_push(entries: Seq<Pending>, fresh: Pending, id: Seq<char>)
    requires
        distinct(entries),
        !holds(entries, fresh.identifier),
    ensures
        lookup(entries.push(fresh), id) == if fresh.identifier == id {
            Some(fresh)
        } else {
            lookup(entries, id)
        },
{
    lemma_push_absent(entries, fresh);
    let grown = entries.push(fresh);
    assert(grown.drop_last() =~= entries);
    assert(grown.last() == fresh);
    lemma_lookup_drop_last(grown, id);
}

/// How `lookup` sees a registry in which the entry under the identifier of
/// `fresh` was replaced by `fresh`.
pub proof fn lemma_lookup_replaced(entries: Seq<Pending>, fresh: Pending, id: Seq<char>)
    requires
        distinct(entries),
        holds(entries, fresh.identifier),
    ensures
        distinct(replaced(entries, fresh)),
        replaced(entries, fresh).len() == entries.len(),
        lookup(replaced(entries, fresh), id) == if fresh.identifier == id {
            Some(fresh)
        } else {
            lookup(entries, id)
        },
{
    let i = choose|i: int|
        0 <= i < entries.len() && (#[trigger] entries[i]).identifier == fresh.identifier;
    lemma_replaced_at(entries, i, fresh);
    let after = entries.update(i, fresh);
    if fresh.identifier == id {
        assert(after[i] == fresh);
        lemma_lookup_at(after, i);
    } else if holds(entries, id) {
        let k = choose|k: int| 0 <= k < entries.len() && (#[trigger] entries[k]).identifier == id;
        assert(after[k] == entries[k]);
        lemma_lookup_at(entries, k);
        lemma_lookup_at(after, k);
    } else {
        assert forall|k: int| 0 <= k < after.len() implies (#[trigger] after[k]).identifier
            != id by {
            if k != i {
                assert(after[k] == entries[k]);
            }
        }
    }
}

/// How `lookup` sees a registry from which the identifier `gone` was removed.
pub proof fn lemma_lookup_without(entries: Seq<Pending>, gone: Seq<char>, id: Seq<char>)
    requires
        distinct(entries),
    ensures
        distinct(without(entries, gone)),
        lookup(without(entries, gone), id) == if gone == id {
            None
        } else {
            lookup(entries, id)
        },
{
    if holds(entries, gone) {
        let i = choose|i: int| 0 <= i < entries.len() && (#[trigger] entries[i]).identifier == gone;
        lemma_without_at(entries, i);
        let rest = entries.remove(i);
        if gone != id {
            if holds(entries, id) {
                let k = choose|k: int|
                    0 <= k < entries.len() && (#[trigger] entries[k]).identifier == id;
                let k1 = if k < i {
                    k
                } else {
                    k - 1
                };
                assert(rest[k1] == entries[k]);
                lemma_lookup_at(entries, k);
                lemma_lookup_at(rest, k1);
            } else {
                assert forall|k: int| 0 <= k < rest.len() implies (#[trigger] rest[k]).identifier
                    != id by {
                    let k0 = if k < i {
                        k
                    } else {
                        k + 1
                    };
                    assert(rest[k] == entries[k0]);
                }
            }
        }
    } else {
        lemma_without_absent(entries, gone);
    }
}

/// Among distinct identifiers, the entries that carry the identifier found
/// at position `i` are that one entry and no other.
pub proof fn lemma_exactly_one(entries: Seq<Pending>, i: int)
    requires
        distinct(entries),
        0 <= i < entries.len(),
    ensures
        carrying(entries, entries[i].identifier) == seq![entries[i]],
    decreases entries.len(),
{
    reveal(Seq::filter);
    let id = entries[i].identifier;
    let pred = |e: Pending| e.identifier == id;
    let front = entries.drop_last();
    assert(distinct(front)) by {
        assert forall|a: int, b: int| 0 <= a < b < front.len() implies (
        #[trigger] front[a]).identifier != (#[trigger] front[b]).identifier by {
            assert(front[a] == entries[a] && front[b] == entries[b]);
        }
    }
    if i == entries.len() - 1 {
        assert forall|k: int| 0 <= k < front.len() implies !pred(#[trigger] front[k]) by {
            assert(front[k] == entries[k]);
        }
        lemma_filter_drops_all(front, pred);
        assert(Seq::<Pending>::empty().push(entries[i]) =~= seq![entries[i]]);
    } else {
        assert(front[i] == entries[i]);
        lemma_exactly_one(front, i);
        assert(entries.last() == entries[entries.len() - 1]);
    }
}

/// No entry is carrying an identifier that the registry does not hold.
pub proof fn lemma_carrying_absent(entries: Seq<Pending>, identifier: Seq<char>)
    requires
        !holds(entries, identifier),
    ensures
        carrying(entries, identifier) == Seq::<Pending>::empty(),
{
    lemma_filter_drops_all(entries, |e: Pending| e.identifier == identifier);
}

/// Filtering leaves nothing when no element passes.
proof fn lemma_filter_drops_all<A>(s: Seq<A>, pred: spec_fn(A) -> bool)
    requires
        forall|k: int| 0 <= k < s.len() ==> !pred(#[trigger] s[k]),
    ensures
        s.filter(pred) == Seq::<A>::empty(),
    decreases s.len(),
{
    reveal(Seq::filter);
    if s.len() > 0 {
        lemma_filter_drops_all(s.drop_last(), pred);
    }
}

} // verus!

//! The registry of pending requests, keyed by identifier.

use crate::model::{
    distinct, fresh_only, holds, lemma_fresh_only, lemma_lookup_at, lemma_push_absent,
    lemma_replaced_at, lemma_without_absent, lemma_without_at, lookup, replaced, without,
};
use crate::request::{Pending, PendingRequest};
use vstd::prelude::*;

verus! {

/// The pending requests, at most one per identifier.
pub struct Registry {
    slots: Vec<PendingRequest>,
}

impl View for Registry {
    type V = Seq<Pending>;

    closed spec fn view(&self) -> Seq<Pending> {
        self.slots@.map_values(|r: PendingRequest| r@)
    }
}

impl Registry {
    #[verifier::type_invariant]
    spec fn well_formed(self) -> bool {
        distinct(self@)
    }

    /// An empty registry.
    pub fn new() -> (registry: Registry)
        ensures
            registry@ == Seq::<Pending>::empty(),
    {
        Registry { slots: Vec::new() }
    }

    /// The number of pending requests.
    pub fn len(&self) -> (n: usize)
        ensures
            n == self@.len(),
            distinct(self@),
    {
        proof {
            use_type_invariant(self);
        }
        self.slots.len()
    }

    /// Whether no request is pending.
    pub fn is_empty(&self) -> (empty: bool)
        ensures
            empty == (self@.len() == 0),
    {
        self.slots.len() == 0
    }

    /// Whether a request is pending under `identifier`.
    pub fn contains(&self, identifier: &String) -> (present: bool)
        ensures
            present == holds(self@, identifier@),
    {
        self.position(identifier).is_some()
    }

    /// The request pending under `identifier`, if there is one.
    pub fn get(&self, identifier: &String) -> (found: Option<&PendingRequest>)
        ensures
            match found {
                Some(request) => lookup(self@, identifier@) == Some(request@),
                None => lookup(self@, identifier@) is None,
            },
    {
        match self.position(identifier) {
            Some(i) => {
                proof {
                    lemma_lookup_at(self@, i as int);
                }
                Some(&self.slots[i])
            },
            None => None,
        }
    }

    /// Stores `request` under its identifier and hands back the request that
    /// was pending under it before, if there was one.
    pub fn insert(&mut self, request: PendingRequest) -> (previous: Option<PendingRequest>)
        ensures
            distinct(final(self)@),
            match previous {
                Some(earlier) => lookup(old(self)@, request@.identifier) == Some(earlier@)
                    && final(self)@ == replaced(old(self)@, request@),
                None => lookup(old(self)@, request@.identifier) is None && final(self)@ == old(
                    self,
                )@.push(request@),
            },
    {
        let found = self.position(&request.identifier);
        let mut slots: Vec<PendingRequest> = Vec::new();
        std::mem::swap(&mut slots, &mut self.slots);
        let ghost before = slots@;
        match found {
            Some(i) => {
                proof {
                    lemma_lookup_at(old(self)@, i as int);
                    lemma_replaced_at(old(self)@, i as int, request@);
                }
                slots.push(request);
                let earlier = slots.swap_remove(i);
                proof {
                    assert(slots@ =~= before.update(i as int, request));
                    assert(slots@.map_values(|r: PendingRequest| r@) =~= old(self)@.update(
                        i as int,
                        request@,
                    ));
                }
                self.slots = slots;
                Some(earlier)
            },
            None => {
                proof {
                    lemma_push_absent(old(self)@, request@);
                }
                slots.push(request);
                proof {
                    assert(slots@.map_values(|r: PendingRequest| r@) =~= old(self)@.push(
                        request@,
                    ));
                }
                self.slots = slots;
                None
            },
        }
    }

    /// Takes the request pending under `identifier` out of the registry.
    pub fn remove(&mut self, identifier: &String) -> (taken: Option<PendingRequest>)
        ensures
            distinct(final(self)@),
            final(self)@ == without(old(self)@, identifier@),
            !holds(final(self)@, identifier@),
            match taken {
                Some(request) => lookup(old(self)@, identifier@) == Some(request@),
                None => lookup(old(self)@, identifier@) is None,
            },
    {
        match self.position(identifier) {
            Some(i) => {
                let mut slots: Vec<PendingRequest> = Vec::new();
                std::mem::swap(&mut slots, &mut self.slots);
                proof {
                    lemma_lookup_at(old(self)@, i as int);
                    lemma_without_at(old(self)@, i as int);
                }
                let request = slots.remove(i);
                proof {
                    assert(slots@.map_values(|r: PendingRequest| r@) =~= old(self)@.remove(
                        i as int,
                    ));
                }
                self.slots = slots;
                Some(request)
            },
            None => {
                proof {
                    lemma_without_absent(self@, identifier@);
                }
                None
            },
        }
    }

    /// Drops every request that is stale at `now` under `ttl` and says how
    /// many were dropped.
    pub fn evict_stale(&mut self, now: u64, ttl: u64) -> (removed: usize)
        ensures
            distinct(final(self)@),
            final(self)@ == fresh_only(old(self)@, now, ttl),
            removed == old(self)@.len() - final(self)@.len(),
            forall|i: int|
                0 <= i < final(self)@.len() ==> !(#[trigger] final(self)@[i]).stale(now, ttl),
    {
        proof {
            use_type_invariant(&*self);
            lemma_fresh_only(self@, now, ttl);
        }
        let mut slots: Vec<PendingRequest> = Vec::new();
        std::mem::swap(&mut slots, &mut self.slots);
        let ghost before = slots@.map_values(|r: PendingRequest| r@);
        let total: usize = slots.len();
        let mut kept: Vec<PendingRequest> = Vec::new();
        for request in it: slots
            invariant
                before == it.seq().map_values(|r: PendingRequest| r@),
                kept@.map_values(|r: PendingRequest| r@) == fresh_only(
                    before.take(it.index() as int),
                    now,
                    ttl,
                ),
        {
            proof {
                reveal(Seq::filter);
                let k = it.index() as int;
                assert(before.take(k + 1).drop_last() =~= before.take(k));
                assert(before.take(k + 1).last() == request@);
            }
            if !request.expired(now, ttl) {
                kept.push(request);
                proof {
                    let k = it.index() as int;
                    assert(kept@.map_values(|r: PendingRequest| r@) =~= fresh_only(
                        before.take(k),
                        now,
                        ttl,
                    ).push(request@));
                }
            }
        }
        proof {
            assert(before.take(before.len() as int) =~= before);
        }
        let removed: usize = total - kept.len();
        self.slots = kept;
        removed
    }

    /// Where the entry for `identifier` is stored, if there is one.
    fn position(&self, identifier: &String) -> (found: Option<usize>)
        ensures
            distinct(self@),
            match found {
                Some(i) => i < self@.len() && self@[i as int].identifier == identifier@,
                None => !holds(self@, identifier@),
            },
    {
        proof {
            use_type_invariant(self);
        }
        let mut i: usize = 0;
        while i < self.slots.len()
            invariant
                i <= self.slots.len(),
                distinct(self@),
                forall|k: int| 0 <= k < i ==> (#[trigger] self@[k]).identifier != identifier@,
            decreases self.slots.len() - i,
        {
            if self.slots[i].identifier == *identifier {
                return Some(i);
            }
            i += 1;
        }
        None
    }
}

} // verus!

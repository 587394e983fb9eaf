//! Pending requests: one client's wish to be paired under an identifier.

use crate::endpoint::{lemma_text_injective, lemma_text_is_spaceless, Endpoint};
use vstd::prelude::*;
use vstd::string::StringExecFns;

verus! {

/// The mathematical value of a pending request.
pub struct Pending {
    /// The correlation key, compared character by character.
    pub identifier: Seq<char>,
    /// Where the request came from.
    pub source: Endpoint,
    /// When the request was created or last refreshed.
    pub last_seen_at: u64,
}

impl Pending {
    /// The line that tells a client about this request as its peer: the
    /// identifier, then the endpoint as `a.b.c.d:port`.
    pub open spec fn introduction(self) -> Seq<char> {
        "id: "@ + self.identifier + ", source: "@ + self.source.text()
    }

    /// A request is stale at `now` once more than `ttl` has passed since it
    /// was last seen. A clock reading before `last_seen_at` is never stale.
    pub open spec fn stale(self, now: u64, ttl: u64) -> bool {
        now - self.last_seen_at > ttl
    }
}

/// The position in an introduction line of the space that ends `, source: `,
/// counted from the end: right before the endpoint's text.
proof fn lemma_space_before_endpoint(p: Pending)
    ensures
        p.introduction().len() == 4 + p.identifier.len() + 10 + p.source.text().len(),
        p.introduction()[p.introduction().len() - p.source.text().len() - 1] == ' ',
        forall|j: int|
            0 <= j < p.source.text().len() ==> p.introduction()[p.introduction().len()
                - p.source.text().len() + j] == #[trigger] p.source.text()[j],
        forall|j: int|
            0 <= j < p.identifier.len() ==> p.introduction()[4int + j] == #[trigger] p.identifier[j],
{
    reveal_strlit("id: ");
    reveal_strlit(", source: ");
    let head = "id: "@;
    let mark = ", source: "@;
    assert(head.len() == 4);
    assert(mark.len() == 10);
    assert(mark[9] == ' ');
    let line = p.introduction();
    let text = p.source.text();
    assert(line.len() == 4 + p.identifier.len() + 10 + text.len());
    assert(line[4 + p.identifier.len() as int + 9] == mark[9]);
}

/// The introduction line identifies the peer: two requests with the same
/// line have the same identifier and the same source, so a client can read
/// both back from what it receives.
pub proof fn lemma_introduction_identifies_peer(p: Pending, q: Pending)
    requires
        p.introduction() == q.introduction(),
    ensures
        p.identifier == q.identifier,
        p.source == q.source,
{
    let line = p.introduction();
    let text_p = p.source.text();
    let text_q = q.source.text();
    lemma_space_before_endpoint(p);
    lemma_space_before_endpoint(q);
    lemma_text_is_spaceless(p.source);
    lemma_text_is_spaceless(q.source);
    if text_p.len() < text_q.len() {
        let j = text_q.len() - text_p.len() - 1;
        assert(line[line.len() - text_q.len() + j] == text_q[j]);
    }
    if text_q.len() < text_p.len() {
        let j = text_p.len() - text_q.len() - 1;
        assert(line[line.len() - text_p.len() + j] == text_p[j]);
    }
    assert(text_p =~= text_q) by {
        assert forall|j: int| 0 <= j < text_p.len() implies text_p[j] == text_q[j] by {
            assert(line[line.len() - text_p.len() + j] == text_p[j]);
            assert(line[line.len() - text_q.len() + j] == text_q[j]);
        }
    }
    lemma_text_injective(p.source, q.source);
    assert(p.identifier =~= q.identifier) by {
        assert forall|j: int| 0 <= j < p.identifier.len() implies p.identifier[j]
            == q.identifier[j] by {
            assert(line[4int + j] == p.identifier[j]);
            assert(line[4int + j] == q.identifier[j]);
        }
    }
}

/// A request waiting in the registry for its counterpart.
#[derive(Debug, PartialEq, Eq)]
pub struct PendingRequest {
    pub identifier: String,
    pub source: Endpoint,
    pub last_seen_at: u64,
}

impl View for PendingRequest {
    type V = Pending;

    open spec fn view(&self) -> Pending {
        Pending {
            identifier: self.identifier@,
            source: self.source,
            last_seen_at: self.last_seen_at,
        }
    }
}

impl PendingRequest {
    /// A request for `identifier` from `source`, first seen at `now`.
    pub fn build(identifier: String, source: Endpoint, now: u64) -> (request: PendingRequest)
        ensures
            request@ == (Pending { identifier: identifier@, source, last_seen_at: now }),
    {
        PendingRequest { identifier, source, last_seen_at: now }
    }

    /// Whether the request has outlived `ttl` at time `now`.
    pub fn expired(&self, now: u64, ttl: u64) -> (stale: bool)
        ensures
            stale == self@.stale(now, ttl),
    {
        now > self.last_seen_at && now - self.last_seen_at > ttl
    }

    /// The line that tells a client about this request as its peer.
    pub fn introduction(&self) -> (line: String)
        ensures
            line@ == self@.introduction(),
    {
        let mut line = "id: ".to_owned();
        line.append(self.identifier.as_str());
        line.append(", source: ");
        self.source.push_text(&mut line);
        assert(line@ =~= self@.introduction());
        line
    }

}

impl Clone for PendingRequest {
    /// An independent copy with the same value.
    fn clone(&self) -> (copy: PendingRequest)
        ensures
            copy@ == self@,
    {
        PendingRequest {
            identifier: self.identifier.clone(),
            source: self.source,
            last_seen_at: self.last_seen_at,
        }
    }
}

} // verus!

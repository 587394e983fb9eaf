use rendezvous::endpoint::Endpoint;
use rendezvous::engine::{MatchingEngine, Outcome};
use rendezvous::request::PendingRequest;

const TTL: u64 = 10;

fn source_a() -> Endpoint {
    Endpoint::new(127, 0, 0, 1, 8080)
}

fn source_b() -> Endpoint {
    Endpoint::new(127, 0, 0, 2, 8080)
}

fn id(text: &str) -> String {
    text.to_string()
}

fn request(text: &str, source: Endpoint, at: u64) -> PendingRequest {
    PendingRequest { identifier: id(text), source, last_seen_at: at }
}

#[test]
fn new_engine_is_empty() {
    let engine = MatchingEngine::new(TTL);
    assert_eq!(engine.ttl(), TTL);
    assert!(engine.registry().is_empty());
    assert_eq!(engine.registry().len(), 0);
    assert!(!engine.registry().contains(&id("x")));
}

#[test]
fn register_then_refresh_then_pair() {
    let mut engine = MatchingEngine::new(TTL);
    assert_eq!(engine.submit(id("x"), source_a(), 0), Outcome::Registered);
    assert_eq!(engine.submit(id("x"), source_a(), 5), Outcome::Refreshed);
    match engine.submit(id("x"), source_b(), 6) {
        Outcome::Paired(pair) => {
            assert_eq!(pair.a(), &request("x", source_a(), 5));
            assert_eq!(pair.b(), &request("x", source_b(), 6));
        }
        other => panic!("expected a pair, got {:?}", other),
    }
    assert!(!engine.registry().contains(&id("x")));
    assert!(engine.registry().is_empty());
}

#[test]
fn unpaired_request_is_swept_after_its_ttl() {
    let mut engine = MatchingEngine::new(TTL);
    assert_eq!(engine.submit(id("y"), source_a(), 0), Outcome::Registered);
    assert_eq!(engine.sweep(TTL + 1), 1);
    assert!(!engine.registry().contains(&id("y")));
    assert_eq!(engine.registry().len(), 0);
}

#[test]
fn each_response_names_the_peer() {
    let mut engine = MatchingEngine::new(TTL);
    assert_eq!(engine.submit(id("z"), source_a(), 0), Outcome::Registered);
    let pair = match engine.submit(id("z"), source_b(), 1) {
        Outcome::Paired(pair) => pair,
        other => panic!("expected a pair, got {:?}", other),
    };
    let (to_a, to_b) = pair.responses();
    assert_eq!(to_a.destination, source_a());
    assert_eq!(to_a.payload, "id: z, source: 127.0.0.2:8080");
    assert_eq!(to_b.destination, source_b());
    assert_eq!(to_b.payload, "id: z, source: 127.0.0.1:8080");
}

#[test]
fn at_most_one_entry_per_identifier() {
    let mut engine = MatchingEngine::new(TTL);
    let script: [(&str, Endpoint, usize); 8] = [
        ("name1", source_a(), 1),
        ("name2", source_a(), 2),
        ("name1", source_a(), 2),
        ("name3", source_b(), 3),
        ("name2", source_a(), 3),
        ("name1", source_b(), 2),
        ("name1", source_b(), 3),
        ("name1", source_b(), 3),
    ];
    let mut now = 0;
    for (name, source, pending) in script {
        engine.submit(id(name), source, now);
        now += 1;
        assert_eq!(engine.registry().len(), pending);
        let mut stored = 0;
        for candidate in ["name1", "name2", "name3"] {
            if let Some(entry) = engine.registry().get(&id(candidate)) {
                assert_eq!(entry.identifier, candidate);
                stored += 1;
            }
        }
        assert_eq!(stored, pending);
    }
}

#[test]
fn refresh_never_pairs_and_keeps_one_entry() {
    let mut engine = MatchingEngine::new(TTL);
    assert_eq!(engine.submit(id("tok"), source_a(), 3), Outcome::Registered);
    for now in [4, 4, 9, 100, 7] {
        assert_eq!(engine.submit(id("tok"), source_a(), now), Outcome::Refreshed);
        assert_eq!(engine.registry().len(), 1);
        assert_eq!(engine.registry().get(&id("tok")), Some(&request("tok", source_a(), now)));
    }
}

#[test]
fn pairing_puts_the_pending_member_first() {
    let mut engine = MatchingEngine::new(TTL);
    engine.submit(id("other"), source_b(), 0);
    assert_eq!(engine.submit(id("k"), source_a(), 2), Outcome::Registered);
    match engine.submit(id("k"), source_b(), 3) {
        Outcome::Paired(pair) => {
            assert_eq!(pair.a(), &request("k", source_a(), 2));
            assert_eq!(pair.b(), &request("k", source_b(), 3));
            assert_eq!(pair.a().identifier, pair.b().identifier);
            assert_ne!(pair.a().source, pair.b().source);
        }
        other => panic!("expected a pair, got {:?}", other),
    }
    assert!(!engine.registry().contains(&id("k")));
    assert_eq!(engine.registry().get(&id("other")), Some(&request("other", source_b(), 0)));
    assert_eq!(engine.registry().len(), 1);
}

#[test]
fn entry_lives_through_the_ttl_and_no_longer() {
    let mut engine = MatchingEngine::new(TTL);
    engine.submit(id("t"), source_a(), 100);
    for now in [0, 99, 100, 101, 109, 110] {
        assert_eq!(engine.sweep(now), 0);
        assert_eq!(engine.registry().get(&id("t")), Some(&request("t", source_a(), 100)));
    }
    assert_eq!(engine.sweep(111), 1);
    assert!(!engine.registry().contains(&id("t")));
    assert_eq!(engine.sweep(112), 0);
}

#[test]
fn refresh_restarts_the_ttl_clock() {
    let mut engine = MatchingEngine::new(TTL);
    engine.submit(id("t"), source_a(), 0);
    assert_eq!(engine.submit(id("t"), source_a(), 8), Outcome::Refreshed);
    assert_eq!(engine.sweep(11), 0);
    assert_eq!(engine.sweep(18), 0);
    assert_eq!(engine.sweep(19), 1);
    assert!(engine.registry().is_empty());
}

#[test]
fn sweep_counts_only_the_stale() {
    let mut engine = MatchingEngine::new(TTL);
    engine.submit(id("old1"), source_a(), 0);
    engine.submit(id("new1"), source_a(), 6);
    engine.submit(id("old2"), source_b(), 1);
    engine.submit(id("edge"), source_b(), 2);
    engine.submit(id("new2"), source_b(), 12);
    assert_eq!(engine.sweep(12), 2);
    assert_eq!(engine.registry().len(), 3);
    assert!(!engine.registry().contains(&id("old1")));
    assert!(!engine.registry().contains(&id("old2")));
    assert_eq!(engine.registry().get(&id("new1")), Some(&request("new1", source_a(), 6)));
    assert_eq!(engine.registry().get(&id("edge")), Some(&request("edge", source_b(), 2)));
    assert_eq!(engine.registry().get(&id("new2")), Some(&request("new2", source_b(), 12)));
}

#[test]
fn swept_identifier_does_not_pair_later() {
    let mut engine = MatchingEngine::new(TTL);
    engine.submit(id("y"), source_a(), 0);
    assert_eq!(engine.sweep(11), 1);
    assert_eq!(engine.submit(id("y"), source_b(), 12), Outcome::Registered);
    assert_eq!(engine.registry().get(&id("y")), Some(&request("y", source_b(), 12)));
}

#[test]
fn paired_identifier_starts_afresh() {
    let mut engine = MatchingEngine::new(TTL);
    engine.submit(id("p"), source_a(), 0);
    assert!(matches!(engine.submit(id("p"), source_b(), 1), Outcome::Paired(_)));
    assert_eq!(engine.submit(id("p"), source_a(), 2), Outcome::Registered);
    assert_eq!(engine.registry().get(&id("p")), Some(&request("p", source_a(), 2)));
    assert_eq!(engine.registry().len(), 1);
    match engine.submit(id("p"), source_b(), 3) {
        Outcome::Paired(pair) => {
            assert_eq!(pair.a(), &request("p", source_a(), 2));
            assert_eq!(pair.b(), &request("p", source_b(), 3));
        }
        other => panic!("expected a pair, got {:?}", other),
    }
    assert_eq!(engine.submit(id("p"), source_b(), 4), Outcome::Registered);
}

#[test]
fn same_address_other_port_is_another_source() {
    let mut engine = MatchingEngine::new(TTL);
    engine.submit(id("nat"), Endpoint::new(10, 0, 0, 7, 40000), 0);
    let outcome = engine.submit(id("nat"), Endpoint::new(10, 0, 0, 7, 40001), 1);
    assert!(matches!(outcome, Outcome::Paired(_)));
}

#[test]
fn identifiers_are_compared_exactly() {
    let mut engine = MatchingEngine::new(TTL);
    assert_eq!(engine.submit(id("Token"), source_a(), 0), Outcome::Registered);
    assert_eq!(engine.submit(id("token"), source_b(), 0), Outcome::Registered);
    assert_eq!(engine.submit(id("Token "), source_b(), 0), Outcome::Registered);
    assert_eq!(engine.submit(id("Tok\u{e9}n"), source_b(), 0), Outcome::Registered);
    assert_eq!(engine.registry().len(), 4);
    assert!(matches!(engine.submit(id("Token"), source_b(), 1), Outcome::Paired(_)));
    assert_eq!(engine.registry().len(), 3);
}

#[test]
fn clock_running_backwards_evicts_nothing() {
    let mut engine = MatchingEngine::new(0);
    engine.submit(id("x"), source_a(), u64::MAX);
    assert_eq!(engine.sweep(0), 0);
    assert_eq!(engine.sweep(u64::MAX), 0);
    engine.submit(id("x"), source_a(), 0);
    assert_eq!(engine.sweep(0), 0);
    assert_eq!(engine.sweep(1), 1);
}

#[test]
fn sweep_of_empty_registry_removes_nothing() {
    let mut engine = MatchingEngine::new(TTL);
    assert_eq!(engine.sweep(1_000), 0);
    assert_eq!(engine.ttl(), TTL);
}

use rendezvous::endpoint::Endpoint;
use rendezvous::pair::MatchedPair;
use rendezvous::registry::Registry;
use rendezvous::request::PendingRequest;

fn request(text: &str, port: u16, at: u64) -> PendingRequest {
    PendingRequest::build(text.to_string(), Endpoint::new(192, 168, 1, 20, port), at)
}

#[test]
fn build_keeps_its_arguments() {
    let built = PendingRequest::build("abc".to_string(), Endpoint::new(1, 2, 3, 4, 5), 77);
    assert_eq!(built.identifier, "abc");
    assert_eq!(built.source, Endpoint { a: 1, b: 2, c: 3, d: 4, port: 5 });
    assert_eq!(built.last_seen_at, 77);
}

#[test]
fn clone_is_equal_to_what_it_copies() {
    let first = request("abc", 9, 77);
    assert_eq!(first.clone(), first);
}

#[test]
fn expired_is_strictly_after_the_ttl() {
    let pending = request("abc", 9, 100);
    assert!(!pending.expired(100, 10));
    assert!(!pending.expired(110, 10));
    assert!(pending.expired(111, 10));
    assert!(!pending.expired(99, 10));
    assert!(!pending.expired(0, 0));
    assert!(!pending.expired(100, 0));
    assert!(pending.expired(101, 0));
    assert!(pending.expired(u64::MAX, 10));
    assert!(!pending.expired(u64::MAX, u64::MAX));
    assert!(!request("abc", 9, 0).expired(u64::MAX, u64::MAX));
    assert!(request("abc", 9, 0).expired(u64::MAX, u64::MAX - 1));
}

#[test]
fn insert_hands_back_what_it_replaces() {
    let mut registry = Registry::new();
    assert_eq!(registry.insert(request("a", 1, 0)), None);
    assert_eq!(registry.insert(request("b", 2, 1)), None);
    assert_eq!(registry.insert(request("a", 3, 2)), Some(request("a", 1, 0)));
    assert_eq!(registry.len(), 2);
    assert_eq!(registry.get(&"a".to_string()), Some(&request("a", 3, 2)));
    assert_eq!(registry.get(&"b".to_string()), Some(&request("b", 2, 1)));
    assert_eq!(registry.get(&"c".to_string()), None);
}

#[test]
fn remove_takes_the_entry_out() {
    let mut registry = Registry::new();
    registry.insert(request("a", 1, 0));
    registry.insert(request("b", 2, 1));
    registry.insert(request("c", 3, 2));
    assert_eq!(registry.remove(&"b".to_string()), Some(request("b", 2, 1)));
    assert_eq!(registry.remove(&"b".to_string()), None);
    assert_eq!(registry.len(), 2);
    assert!(registry.contains(&"a".to_string()));
    assert!(!registry.contains(&"b".to_string()));
    assert!(registry.contains(&"c".to_string()));
    assert_eq!(registry.remove(&"a".to_string()), Some(request("a", 1, 0)));
    assert_eq!(registry.remove(&"c".to_string()), Some(request("c", 3, 2)));
    assert!(registry.is_empty());
}

#[test]
fn evict_stale_keeps_the_fresh() {
    let mut registry = Registry::new();
    for (name, at) in [("a", 0), ("b", 5), ("c", 1), ("d", 6), ("e", 2)] {
        registry.insert(request(name, 1, at));
    }
    assert_eq!(registry.evict_stale(7, 5), 2);
    assert_eq!(registry.len(), 3);
    assert!(!registry.contains(&"a".to_string()));
    assert!(!registry.contains(&"c".to_string()));
    assert_eq!(registry.get(&"b".to_string()), Some(&request("b", 1, 5)));
    assert_eq!(registry.get(&"d".to_string()), Some(&request("d", 1, 6)));
    assert_eq!(registry.get(&"e".to_string()), Some(&request("e", 1, 2)));
    assert_eq!(registry.evict_stale(7, 5), 0);
    assert_eq!(registry.evict_stale(100, 5), 3);
    assert!(registry.is_empty());
}

#[test]
fn join_needs_one_identifier_and_two_sources() {
    let pair = MatchedPair::join(request("a", 1, 0), request("a", 2, 1));
    match pair {
        Some(pair) => {
            assert_eq!(pair.a(), &request("a", 1, 0));
            assert_eq!(pair.b(), &request("a", 2, 1));
        }
        None => panic!("expected a pair"),
    }
    assert_eq!(MatchedPair::join(request("a", 1, 0), request("a", 1, 1)), None);
    assert_eq!(MatchedPair::join(request("a", 1, 0), request("b", 2, 1)), None);
}

use rendezvous::coordinator::{Coordinator, Event, Reaction};
use rendezvous::endpoint::Endpoint;
use rendezvous::pair::Datagram;
use rendezvous::request::PendingRequest;
use rendezvous::wire::decode_identifier;

fn source_a() -> Endpoint {
    Endpoint::new(203, 0, 113, 9, 50123)
}

fn source_b() -> Endpoint {
    Endpoint::new(198, 51, 100, 200, 6114)
}

fn arrived(text: &str, source: Endpoint) -> Event {
    Event::RequestArrived { identifier: text.to_string(), source }
}

#[test]
fn endpoint_text_is_dotted_decimal_with_port() {
    assert_eq!(Endpoint::new(127, 0, 0, 1, 8080).to_text(), "127.0.0.1:8080");
    assert_eq!(Endpoint::new(0, 0, 0, 0, 0).to_text(), "0.0.0.0:0");
    assert_eq!(Endpoint::new(255, 255, 255, 255, 65535).to_text(), "255.255.255.255:65535");
    assert_eq!(Endpoint::new(10, 100, 9, 99, 10).to_text(), "10.100.9.99:10");
    assert_eq!(Endpoint::new(1, 20, 200, 101, 1000).to_text(), "1.20.200.101:1000");
}

#[test]
fn push_text_appends() {
    let mut out = String::from("at ");
    Endpoint::new(8, 8, 4, 4, 53).push_text(&mut out);
    assert_eq!(out, "at 8.8.4.4:53");
}

#[test]
fn same_source_compares_address_and_port() {
    let here = Endpoint::new(10, 0, 0, 1, 7);
    assert!(here.same_source(&Endpoint::new(10, 0, 0, 1, 7)));
    assert!(!here.same_source(&Endpoint::new(10, 0, 0, 1, 8)));
    assert!(!here.same_source(&Endpoint::new(10, 0, 0, 2, 7)));
    assert!(!here.same_source(&Endpoint::new(10, 0, 1, 1, 7)));
    assert!(!here.same_source(&Endpoint::new(10, 1, 0, 1, 7)));
    assert!(!here.same_source(&Endpoint::new(11, 0, 0, 1, 7)));
}

#[test]
fn introduction_gives_identifier_and_endpoint() {
    let request = PendingRequest::build("name1".to_string(), source_b(), 4);
    assert_eq!(request.introduction(), "id: name1, source: 198.51.100.200:6114");
    let blank = PendingRequest::build(String::new(), Endpoint::new(0, 0, 0, 0, 0), 0);
    assert_eq!(blank.introduction(), "id: , source: 0.0.0.0:0");
}

#[test]
fn decode_takes_the_whole_payload() {
    assert_eq!(decode_identifier(b"name1".to_vec()), Some("name1".to_string()));
    assert_eq!(decode_identifier(b" a b \n".to_vec()), Some(" a b \n".to_string()));
    assert_eq!(decode_identifier(vec![0x67, 0x72, 0xc3, 0xbc, 0xc3, 0x9f]), Some("gr\u{fc}\u{df}".to_string()));
    assert_eq!(decode_identifier(vec![0xf0, 0x9f, 0x91, 0x8b]), Some("\u{1f44b}".to_string()));
}

#[test]
fn decode_drops_what_is_not_an_identifier() {
    assert_eq!(decode_identifier(Vec::new()), None);
    assert_eq!(decode_identifier(vec![0xff]), None);
    assert_eq!(decode_identifier(vec![0x61, 0x80]), None);
    assert_eq!(decode_identifier(vec![0xc3]), None);
    assert_eq!(decode_identifier(vec![0xc0, 0xaf]), None);
    assert_eq!(decode_identifier(vec![0xed, 0xa0, 0x80]), None);
}

#[test]
fn datagram_becomes_a_request_event() {
    assert_eq!(Event::from_datagram(b"abc".to_vec(), source_a()), Some(arrived("abc", source_a())));
    assert_eq!(Event::from_datagram(vec![0xfe, 0xff], source_a()), None);
    assert_eq!(Event::from_datagram(Vec::new(), source_a()), None);
}

#[test]
fn coordinator_reports_what_to_send() {
    let mut coordinator = Coordinator::new(10);
    assert_eq!(coordinator.handle(arrived("z", source_a()), 0), Reaction::Registered);
    assert_eq!(coordinator.handle(arrived("z", source_a()), 1), Reaction::Refreshed);
    let reaction = coordinator.handle(arrived("z", source_b()), 2);
    assert_eq!(
        reaction,
        Reaction::Paired {
            to_a: Datagram {
                destination: source_a(),
                payload: "id: z, source: 198.51.100.200:6114".to_string(),
            },
            to_b: Datagram {
                destination: source_b(),
                payload: "id: z, source: 203.0.113.9:50123".to_string(),
            },
        }
    );
    assert!(coordinator.engine().registry().is_empty());
}

#[test]
fn coordinator_sweeps_on_tick() {
    let mut coordinator = Coordinator::new(10);
    coordinator.handle(arrived("one", source_a()), 0);
    coordinator.handle(arrived("two", source_a()), 5);
    assert_eq!(coordinator.handle(Event::TimeoutTick, 10), Reaction::Swept { removed: 0 });
    assert_eq!(coordinator.handle(Event::TimeoutTick, 11), Reaction::Swept { removed: 1 });
    assert_eq!(coordinator.engine().registry().len(), 1);
    assert_eq!(coordinator.handle(arrived("one", source_b()), 12), Reaction::Registered);
    assert_eq!(coordinator.handle(Event::TimeoutTick, 16), Reaction::Swept { removed: 1 });
    assert_eq!(coordinator.handle(Event::TimeoutTick, 23), Reaction::Swept { removed: 1 });
    assert_eq!(coordinator.engine().ttl(), 10);
    assert!(coordinator.engine().registry().is_empty());
}

#[test]
fn events_are_handled_in_the_order_given() {
    let mut coordinator = Coordinator::new(3);
    let script = vec![
        (arrived("name1", source_a()), 0),
        (arrived("name2", source_a()), 1),
        (arrived("name3", source_b()), 2),
        (Event::TimeoutTick, 3),
        (arrived("name1", source_b()), 3),
        (Event::TimeoutTick, 5),
        (arrived("name3", source_a()), 5),
    ];
    let mut kinds = Vec::new();
    for (event, now) in script {
        kinds.push(match coordinator.handle(event, now) {
            Reaction::Registered => "registered".to_string(),
            Reaction::Refreshed => "refreshed".to_string(),
            Reaction::Paired { to_a, to_b } => format!("paired {} {}", to_a.destination.port, to_b.destination.port),
            Reaction::Swept { removed } => format!("swept {}", removed),
        });
    }
    assert_eq!(
        kinds,
        vec!["registered", "registered", "registered", "swept 0", "paired 50123 6114", "swept 1", "paired 6114 50123"]
    );
}

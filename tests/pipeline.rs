use chainsmith::hub::Hub;
use chainsmith::snapshot::{frame_error, frame_success, merge_contracts, Snapshot};
use chainsmith::watch::{is_source_path, touches_sources, Coalescer};

fn outputs(pairs: &[(&str, &str)]) -> Vec<(String, String)> {
    pairs.iter().map(|(n, a)| (n.to_string(), a.to_string())).collect()
}

#[test]
fn source_paths_by_extension() {
    assert!(is_source_path("/p/contracts/Token.sol"));
    assert!(is_source_path("Token.sol"));
    assert!(is_source_path("/p/a.b.sol"));
    assert!(!is_source_path("/p/.sol"));
    assert!(!is_source_path("/p/Token.sol.bak"));
    assert!(!is_source_path("/p/sol/readme.md"));
    assert!(!is_source_path("/p/Token.SOL"));
    assert!(touches_sources(&vec!["/p/x.txt".to_string(), "/p/y.sol".to_string()]));
    assert!(!touches_sources(&vec!["/p/x.txt".to_string()]));
    assert!(!touches_sources(&vec![]));
}

#[test]
fn changes_during_compile_give_one_follow_up() {
    let mut coalescer = Coalescer::new();
    assert!(coalescer.on_change());
    assert!(!coalescer.on_change());
    assert!(!coalescer.on_change());
    assert!(!coalescer.on_change());
    assert!(coalescer.on_finished());
    assert!(!coalescer.on_finished());
    assert!(!coalescer.in_flight);
    assert!(coalescer.on_change());
    assert!(!coalescer.on_finished());
}

#[test]
fn same_name_keeps_last_artifact() {
    let merged = merge_contracts(&outputs(&[("Token", "{\"a\":1}"), ("Vault", "{}"), ("Token", "{\"a\":2}")]));
    assert_eq!(merged.len(), 2);
    assert_eq!(merged[0].name, "Token");
    assert_eq!(merged[0].artifact, "{\"a\":2}");
    assert_eq!(merged[1].name, "Vault");
}

#[test]
fn success_wire_form() {
    let snap = Snapshot::from_outputs(&outputs(&[("Token", "{\"abi\":[]}"), ("Vault", "{}")]));
    assert_eq!(
        snap.to_wire(),
        "{\"type\":\"compile_success\",\"contracts\":[{\"name\":\"Token\",\"artifact\":{\"abi\":[]}},{\"name\":\"Vault\",\"artifact\":{}}]}"
    );
    let empty = Snapshot::from_outputs(&vec![]);
    assert_eq!(empty.to_wire(), "{\"type\":\"compile_success\",\"contracts\":[]}");
}

#[test]
fn single_contract_success() {
    let snap = Snapshot::from_outputs(&outputs(&[("Token", "{}")]));
    match &snap {
        Snapshot::Success { contracts } => assert_eq!(contracts.len(), 1),
        Snapshot::Error { .. } => panic!("expected success"),
    }
}

#[test]
fn error_wire_form_is_escaped() {
    let snap = Snapshot::Error { diagnostic: "bad \"token\"\nline 3".to_string() };
    assert_eq!(snap.to_wire(), "{\"type\":\"compile_error\",\"error\":\"bad \\\"token\\\"\\nline 3\"}");
    let names = Snapshot::from_outputs(&outputs(&[("A\"B", "{}")]));
    assert_eq!(names.to_wire(), "{\"type\":\"compile_success\",\"contracts\":[{\"name\":\"A\\\"B\",\"artifact\":{}}]}");
}

#[test]
fn subscriber_after_publish_sees_it_first() {
    let mut hub = Hub::new(4);
    hub.publish("one".to_string());
    let id = hub.subscribe().unwrap();
    assert_eq!(hub.next(id), Some("one".to_string()));
    assert_eq!(hub.next(id), None);
    hub.publish("two".to_string());
    assert_eq!(hub.next(id), Some("two".to_string()));
    assert_eq!(hub.cached(), Some("two".to_string()));
}

#[test]
fn subscriber_before_any_publish_waits() {
    let mut hub = Hub::new(2);
    let id = hub.subscribe().unwrap();
    assert_eq!(hub.next(id), None);
    assert_eq!(hub.cached(), None);
}

#[test]
fn error_snapshot_reaches_every_subscriber() {
    let mut hub = Hub::new(8);
    hub.publish(Snapshot::from_outputs(&outputs(&[("Token", "{}")])).to_wire());
    let a = hub.subscribe().unwrap();
    let b = hub.subscribe().unwrap();
    assert!(hub.next(a).is_some());
    assert!(hub.next(b).is_some());
    let err = Snapshot::Error { diagnostic: "ParserError: expected ';'".to_string() }.to_wire();
    hub.publish(err.clone());
    assert_eq!(hub.next(a), Some(err.clone()));
    assert_eq!(hub.next(b), Some(err.clone()));
    assert!(err.contains("compile_error"));
}

#[test]
fn slow_subscriber_loses_oldest_keeps_order() {
    let mut hub = Hub::new(2);
    let id = hub.subscribe().unwrap();
    hub.publish("1".to_string());
    hub.publish("2".to_string());
    hub.publish("3".to_string());
    assert_eq!(hub.next(id), Some("2".to_string()));
    assert_eq!(hub.next(id), Some("3".to_string()));
    assert_eq!(hub.next(id), None);
}

#[test]
fn unsubscribed_gets_nothing() {
    let mut hub = Hub::new(2);
    let a = hub.subscribe().unwrap();
    let b = hub.subscribe().unwrap();
    hub.unsubscribe(a);
    hub.publish("x".to_string());
    assert_eq!(hub.next(a), None);
    assert_eq!(hub.next(b), Some("x".to_string()));
    assert_ne!(a, b);
}

#[test]
fn frames_wrap_quoted_parts() {
    assert_eq!(frame_error("\"x\""), "{\"type\":\"compile_error\",\"error\":\"x\"}");
    let entries = vec![("\"A\"".to_string(), "1".to_string()), ("\"B\"".to_string(), "[]".to_string())];
    assert_eq!(
        frame_success(&entries),
        "{\"type\":\"compile_success\",\"contracts\":[{\"name\":\"A\",\"artifact\":1},{\"name\":\"B\",\"artifact\":[]}]}"
    );
    assert_eq!(frame_success(&vec![]), "{\"type\":\"compile_success\",\"contracts\":[]}");
}

#[test]
fn cached_payload_survives_later_publishes() {
    let mut hub = Hub::new(1);
    hub.publish("c".to_string());
    let id = hub.subscribe().unwrap();
    hub.publish("v".to_string());
    hub.publish("w".to_string());
    assert_eq!(hub.next(id), Some("c".to_string()));
    assert_eq!(hub.next(id), Some("w".to_string()));
    assert_eq!(hub.next(id), None);
}

#[test]
fn control_characters_escape_as_hex() {
    let snap = Snapshot::Error { diagnostic: "a\u{1}\u{1f}\u{8}\u{c}\r\t\\/é".to_string() };
    assert_eq!(
        snap.to_wire(),
        "{\"type\":\"compile_error\",\"error\":\"a\\u0001\\u001f\\b\\f\\r\\t\\\\/é\"}"
    );
}

use meow::api::{record_field, LogLevel, LogMessage};
use meow::proxy::transport_chain::TransportChain;

#[test]
fn log_message_fields() {
    let m = LogMessage { level: LogLevel::Warning, payload: "hi".to_string(), time_unix_nanos: 0 };
    assert_eq!(m.kind(), "warning");
    assert_eq!(m.time_text(), "1970-01-01T00:00:00Z");
    let later = LogMessage {
        level: LogLevel::Info,
        payload: String::new(),
        time_unix_nanos: 1_700_000_000_123_000_000,
    };
    assert_eq!(later.time_text(), "2023-11-14T22:13:20.123Z");
    let out_of_range = LogMessage { level: LogLevel::Error, payload: String::new(), time_unix_nanos: i128::MAX };
    assert_eq!(out_of_range.time_text(), "");
}

#[test]
fn only_the_message_field_is_recorded() {
    let mut p = String::new();
    record_field(&mut p, "target", "meow::dns");
    assert_eq!(p, "");
    record_field(&mut p, "message", "listening");
    assert_eq!(p, "listening");
    record_field(&mut p, "message", "again");
    assert_eq!(p, "again");
}

#[test]
fn transport_chain_layers_in_order() {
    let mut c: TransportChain<&str> = TransportChain::empty();
    assert!(c.is_empty());
    assert_eq!(c.len(), 0);
    c.push("tls");
    c.push("ws");
    assert_eq!(c.len(), 2);
    assert!(!c.is_empty());
    assert_eq!(c.layers(), &vec!["tls", "ws"]);
}

use weenotify::codec::DecodeError;
use weenotify::filter::Filter;
use weenotify::session::{
    advance, handle_delivery, notice_duration_millis, queue_name, ConfigError,
    ConnectionSettings, DeliveryOutcome, Notifier, SessionState,
};

fn present(items: &[&str]) -> Vec<Option<String>> {
    items.iter().map(|s| Some(s.to_string())).collect()
}

#[test]
fn successful_setup_walks_every_stage_to_consuming() {
    let mut state = SessionState::Disconnected;
    let stages = [
        SessionState::Connecting,
        SessionState::ChannelOpen,
        SessionState::QueueDeclared,
        SessionState::ExchangeDeclared,
        SessionState::Bound,
        SessionState::Consuming,
    ];
    for expected in stages {
        state = advance(state, true);
        assert_eq!(state, expected);
    }
    assert_eq!(advance(state, true), SessionState::Consuming);
}

#[test]
fn any_failed_step_is_fatal() {
    let stages = [
        SessionState::Disconnected,
        SessionState::Connecting,
        SessionState::ChannelOpen,
        SessionState::QueueDeclared,
        SessionState::ExchangeDeclared,
        SessionState::Bound,
        SessionState::Consuming,
    ];
    for stage in stages {
        assert_eq!(advance(stage, false), SessionState::Failed);
    }
}

#[test]
fn a_failed_session_stays_failed() {
    assert_eq!(advance(SessionState::Failed, true), SessionState::Failed);
    assert_eq!(advance(SessionState::Failed, false), SessionState::Failed);
}

#[test]
fn complete_connection_settings_are_kept_verbatim() {
    let r = ConnectionSettings::from_fields(
        Some("amqp.example.net:5672".to_string()),
        Some("wee".to_string()),
        Some("SECRET-REDACTED".to_string()),
        Some("/".to_string()),
        Some("chat".to_string()),
    )
    .unwrap();
    assert_eq!(r.host, "amqp.example.net:5672".to_string());
    assert_eq!(r.user, "wee".to_string());
    assert_eq!(r.pass, "SECRET-REDACTED".to_string());
    assert_eq!(r.vhost, "/".to_string());
    assert_eq!(r.exchange, "chat".to_string());
}

#[test]
fn the_first_missing_key_is_named() {
    let r = ConnectionSettings::from_fields(None, None, None, None, None);
    assert_eq!(r, Err(ConfigError::MissingKey("host".to_string())));
    let r = ConnectionSettings::from_fields(
        Some("h".to_string()),
        Some("u".to_string()),
        None,
        None,
        Some("e".to_string()),
    );
    assert_eq!(r, Err(ConfigError::MissingKey("pass".to_string())));
    let r = ConnectionSettings::from_fields(
        Some("h".to_string()),
        Some("u".to_string()),
        Some("p".to_string()),
        Some("v".to_string()),
        None,
    );
    assert_eq!(r, Err(ConfigError::MissingKey("exchange".to_string())));
}

#[test]
fn notice_duration_defaults_to_five_seconds() {
    assert_eq!(notice_duration_millis(None), 5000);
    assert_eq!(notice_duration_millis(Some(1500)), 1500);
}

#[test]
fn queue_names_carry_the_fixed_prefix() {
    assert_eq!(
        queue_name("0123abcd"),
        "weenotify-0123abcd".to_string()
    );
}

#[test]
fn notifier_keeps_its_duration() {
    let n = Notifier::new(2500);
    assert_eq!(n.duration, 2500);
}

#[test]
fn ignored_tag_suppresses_but_acknowledges() {
    let filter = Filter::new(&present(&[]), &present(&[]), &present(&["notify_none"]));
    let payload = "{\"type\":\"channel\",\"highlight\":false,\"message\":\"hi\",\"away\":false,\"channel\":\"#dev\",\"server\":\"libera\",\"date\":\"2020-01-01\",\"tags\":[\"notify_none\",\"nick_carol\"]}";
    let outcome = handle_delivery(&filter, payload.as_bytes());
    assert_eq!(outcome, DeliveryOutcome::Suppressed);
    assert!(outcome.acknowledges());
}

#[test]
fn unfiltered_channel_message_notifies_with_channel_and_body() {
    let filter = Filter::new(&present(&[]), &present(&[]), &present(&[]));
    let payload = "{\"type\":\"channel\",\"highlight\":false,\"message\":\"hi\",\"away\":false,\"channel\":\"#dev\",\"server\":\"libera\",\"date\":\"2020-01-01\",\"tags\":[]}";
    let outcome = handle_delivery(&filter, payload.as_bytes());
    assert_eq!(
        outcome,
        DeliveryOutcome::Notify("#dev".to_string(), "hi".to_string())
    );
    assert!(outcome.acknowledges());
}

#[test]
fn private_message_notifies_with_the_sender() {
    let filter = Filter::new(&present(&[]), &present(&[]), &present(&[]));
    let payload = "{\"type\":\"private\",\"highlight\":true,\"message\":\"psst\",\"away\":false,\"channel\":\"bob\",\"server\":\"libera\",\"date\":\"2020-01-01\",\"tags\":[\"nick_bob\"]}";
    let outcome = handle_delivery(&filter, payload.as_bytes());
    assert_eq!(
        outcome,
        DeliveryOutcome::Notify("bob".to_string(), "psst".to_string())
    );
}

#[test]
fn an_undecodable_payload_is_fatal_and_not_acknowledged() {
    let filter = Filter::new(&present(&[]), &present(&[]), &present(&[]));
    let bad_utf8 = [0x7b, 0xff, 0x7d];
    let outcome = handle_delivery(&filter, &bad_utf8);
    assert_eq!(outcome, DeliveryOutcome::Fatal(DecodeError::Encoding));
    assert!(!outcome.acknowledges());
    let bad_schema = b"{\"type\":\"channel\"}";
    let outcome = handle_delivery(&filter, bad_schema);
    assert_eq!(outcome, DeliveryOutcome::Fatal(DecodeError::Schema));
    assert!(!outcome.acknowledges());
}

use weenotify::filter::Filter;
use weenotify::message::Message;

fn msg(msg_type: &str, channel: &str, body: &str, tags: &[&str]) -> Message {
    Message {
        msg_type: msg_type.to_string(),
        highlight: false,
        message: body.to_string(),
        away: false,
        channel: channel.to_string(),
        server: "libera".to_string(),
        date: "2020-01-01".to_string(),
        tags: tags.iter().map(|t| t.to_string()).collect(),
    }
}

fn present(items: &[&str]) -> Vec<Option<String>> {
    items.iter().map(|s| Some(s.to_string())).collect()
}

#[test]
fn ignored_channel_suppresses_regardless_of_sender_and_tags() {
    let f = Filter::new(&present(&["#spam"]), &present(&[]), &present(&[]));
    let m = msg("channel", "#spam", "hi", &["nick_alice", "notify_message"]);
    assert!(f.should_filter(&m));
}

#[test]
fn ignored_sender_suppresses_when_channel_passes() {
    let f = Filter::new(&present(&[]), &present(&["alice"]), &present(&[]));
    let m = msg("channel", "#dev", "hi", &["nick_alice"]);
    assert!(f.should_filter(&m));
}

#[test]
fn ignored_tag_suppresses() {
    let f = Filter::new(&present(&[]), &present(&[]), &present(&["notify_none"]));
    let m = msg("channel", "#dev", "hi", &["notify_none"]);
    assert!(f.should_filter(&m));
}

#[test]
fn unmatched_message_passes() {
    let f = Filter::new(
        &present(&["#spam"]),
        &present(&["mallory"]),
        &present(&["notify_none"]),
    );
    let m = msg("channel", "#dev", "hi", &["nick_alice", "notify_message"]);
    assert!(!f.should_filter(&m));
}

#[test]
fn repeated_calls_agree() {
    let f = Filter::new(&present(&["#spam"]), &present(&[]), &present(&[]));
    let m = msg("channel", "#spam", "hi", &[]);
    let first = f.should_filter(&m);
    let second = f.should_filter(&m);
    assert_eq!(first, second);
    assert!(first);
}

#[test]
fn absent_config_entries_are_skipped() {
    let channels = vec![None, Some("#spam".to_string()), None];
    let f = Filter::new(&channels, &present(&[]), &present(&[]));
    assert!(f.should_filter(&msg("channel", "#spam", "hi", &[])));
    assert!(!f.should_filter(&msg("channel", "#dev", "hi", &[])));
}

#[test]
fn duplicate_config_entries_change_nothing() {
    let f = Filter::new(
        &present(&["#spam", "#spam", "#spam"]),
        &present(&[]),
        &present(&[]),
    );
    assert!(f.should_filter(&msg("channel", "#spam", "hi", &[])));
    assert!(!f.should_filter(&msg("channel", "#dev", "hi", &[])));
}

#[test]
fn matching_is_case_sensitive() {
    let f = Filter::new(&present(&["#Spam"]), &present(&["Alice"]), &present(&[]));
    assert!(!f.should_filter(&msg("channel", "#spam", "hi", &["nick_alice"])));
    assert!(f.should_filter(&msg("channel", "#Spam", "hi", &[])));
}

#[test]
fn sender_of_private_message_is_still_filtered() {
    let f = Filter::new(&present(&[]), &present(&["carol"]), &present(&[]));
    let m = msg("private", "carol", "psst", &["nick_carol"]);
    assert!(f.should_filter(&m));
}

#[test]
fn empty_filter_passes_everything() {
    let f = Filter::new(&present(&[]), &present(&[]), &present(&[]));
    assert!(!f.should_filter(&msg("channel", "#dev", "hi", &["nick_alice"])));
    assert!(!f.should_filter(&msg("private", "bob", "psst", &[])));
}

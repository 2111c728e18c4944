use weenotify::message::Message;

fn msg(msg_type: &str, channel: &str, body: &str, tags: &[&str]) -> Message {
    Message {
        msg_type: msg_type.to_string(),
        highlight: false,
        message: body.to_string(),
        away: false,
        channel: channel.to_string(),
        server: "libera".to_string(),
        date: "2020-01-01".to_string(),
        tags: tags.iter().map(|t| t.to_string()).collect(),
    }
}

#[test]
fn sender_takes_first_matching_tag() {
    let m = msg("channel", "#dev", "hi", &["notify_message", "nick_alice"]);
    assert_eq!(m.sender(), Some("alice".to_string()));
}

#[test]
fn sender_prefers_the_earlier_of_two_nick_tags() {
    let m = msg("channel", "#dev", "hi", &["nick_a", "nick_b"]);
    assert_eq!(m.sender(), Some("a".to_string()));
}

#[test]
fn sender_requires_a_nonempty_name() {
    let m = msg("channel", "#dev", "hi", &["nick_"]);
    assert_eq!(m.sender(), None);
}

#[test]
fn sender_is_none_without_a_nick_tag() {
    let m = msg("channel", "#dev", "hi", &["notify_none", "log1"]);
    assert_eq!(m.sender(), None);
    let empty = msg("channel", "#dev", "hi", &[]);
    assert_eq!(empty.sender(), None);
}

#[test]
fn sender_needs_the_exact_prefix() {
    let m = msg("channel", "#dev", "hi", &["Nick_alice", "nickname", "nick"]);
    assert_eq!(m.sender(), None);
}

#[test]
fn summary_of_private_message_is_the_sender() {
    let m = msg("private", "bob", "psst", &["nick_bob"]);
    assert_eq!(m.summary(), "bob".to_string());
}

#[test]
fn summary_of_private_message_without_sender_is_unknown() {
    let m = msg("private", "bob", "psst", &[]);
    assert_eq!(m.summary(), "unknown".to_string());
}

#[test]
fn summary_of_channel_message_is_the_channel() {
    let m = msg("channel", "#dev", "hi", &["nick_alice"]);
    assert_eq!(m.summary(), "#dev".to_string());
}

#[test]
fn summary_of_other_types_is_the_channel() {
    let m = msg("server", "#ops", "motd", &[]);
    assert_eq!(m.summary(), "#ops".to_string());
}

#[test]
fn body_is_verbatim() {
    let m = msg("channel", "#dev", "  hello <world> \n", &[]);
    assert_eq!(m.body(), "  hello <world> \n".to_string());
}

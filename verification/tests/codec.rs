use weenotify::codec::{decode, encode, DecodeError};
use weenotify::message::Message;

fn msg(msg_type: &str, channel: &str, body: &str, tags: &[&str]) -> Message {
    Message {
        msg_type: msg_type.to_string(),
        highlight: false,
        message: body.to_string(),
        away: false,
        channel: channel.to_string(),
        server: "libera".to_string(),
        date: "2020-01-01".to_string(),
        tags: tags.iter().map(|t| t.to_string()).collect(),
    }
}

#[test]
fn encode_renders_the_canonical_object() {
    let m = msg("channel", "#dev", "hi", &["nick_alice"]);
    let wire = encode(&m);
    let expected = "{\"type\":\"channel\",\"highlight\":false,\"message\":\"hi\",\"away\":false,\"channel\":\"#dev\",\"server\":\"libera\",\"date\":\"2020-01-01\",\"tags\":[\"nick_alice\"]}";
    assert_eq!(wire, expected.as_bytes().to_vec());
}

#[test]
fn encode_escapes_quotes_backslashes_and_controls() {
    let m = msg("channel", "#dev", "a\"b\\c\u{1}d", &[]);
    let wire = encode(&m);
    let text = String::from_utf8(wire).unwrap();
    assert!(text.contains("a\\\"b\\\\c\\u0001d"));
}

#[test]
fn round_trip_returns_an_equal_message() {
    let m = msg("private", "bob", "psst", &["nick_bob", "notify_private"]);
    let back = decode(&encode(&m)).unwrap();
    assert_eq!(back, m);
}

#[test]
fn round_trip_keeps_every_kind_of_character() {
    let mut m = msg("channel", "#dev", "quote \" slash \\ tab \t bell \u{7} caf\u{e9} \u{1F600}", &[]);
    m.server = "srv/one".to_string();
    m.tags.push("nick_m\u{fc}\u{0}ller".to_string());
    let back = decode(&encode(&m)).unwrap();
    assert_eq!(back, m);
}

#[test]
fn round_trip_with_true_booleans() {
    let mut m = msg("channel", "#dev", "hi", &[]);
    m.highlight = true;
    m.away = true;
    let back = decode(&encode(&m)).unwrap();
    assert_eq!(back, m);
}

#[test]
fn round_trip_with_empty_fields() {
    let mut m = msg("", "", "", &[""]);
    m.server = "".to_string();
    m.date = "".to_string();
    let back = decode(&encode(&m)).unwrap();
    assert_eq!(back, m);
}

#[test]
fn decode_rejects_invalid_utf8_as_encoding_error() {
    let payload = [0x7b, 0xff, 0xfe, 0x7d];
    assert_eq!(decode(&payload), Err(DecodeError::Encoding));
}

#[test]
fn decode_rejects_a_missing_tags_member_as_schema_error() {
    let payload = "{\"type\":\"channel\",\"highlight\":false,\"message\":\"hi\",\"away\":false,\"channel\":\"#dev\",\"server\":\"libera\",\"date\":\"2020-01-01\"}";
    assert_eq!(decode(payload.as_bytes()), Err(DecodeError::Schema));
}

#[test]
fn decode_rejects_empty_input_and_trailing_text() {
    assert_eq!(decode(b""), Err(DecodeError::Schema));
    let m = msg("channel", "#dev", "hi", &[]);
    let mut wire = encode(&m);
    wire.push(b'x');
    assert_eq!(decode(&wire), Err(DecodeError::Schema));
}

#[test]
fn decode_allows_whitespace_around_and_between_tokens() {
    let payload = " \t{ \"type\" : \"channel\" ,\n \"highlight\": false , \"message\" :\"hi\", \"away\" : false,\r\n\"channel\": \"#dev\" , \"server\": \"libera\", \"date\": \"2020-01-01\", \"tags\": [ \"a\" , \"nick_x\" ] }  ";
    let m = decode(payload.as_bytes()).unwrap();
    assert_eq!(m.channel, "#dev".to_string());
    assert_eq!(m.message, "hi".to_string());
    assert_eq!(m.tags, vec!["a".to_string(), "nick_x".to_string()]);
}

#[test]
fn decode_reads_short_escapes() {
    let payload = "{\"type\":\"channel\",\"highlight\":false,\"message\":\"a\\n\\t\\/\\\"b\",\"away\":false,\"channel\":\"#dev\",\"server\":\"libera\",\"date\":\"2020-01-01\",\"tags\":[]}";
    let m = decode(payload.as_bytes()).unwrap();
    assert_eq!(m.message, "a\n\t/\"b".to_string());
}

#[test]
fn decode_reads_hex_escapes() {
    let payload = "{\"type\":\"channel\",\"highlight\":false,\"message\":\"\\u0041\\u00e9\",\"away\":false,\"channel\":\"#dev\",\"server\":\"libera\",\"date\":\"2020-01-01\",\"tags\":[]}";
    let m = decode(payload.as_bytes()).unwrap();
    assert_eq!(m.message, "A\u{e9}".to_string());
}

#[test]
fn decode_rejects_a_lone_surrogate_escape() {
    let payload = "{\"type\":\"channel\",\"highlight\":false,\"message\":\"\\ud800\",\"away\":false,\"channel\":\"#dev\",\"server\":\"libera\",\"date\":\"2020-01-01\",\"tags\":[]}";
    assert_eq!(decode(payload.as_bytes()), Err(DecodeError::Schema));
}

#[test]
fn decode_rejects_an_unknown_escape() {
    let payload = "{\"type\":\"channel\",\"highlight\":false,\"message\":\"a\\x\",\"away\":false,\"channel\":\"#dev\",\"server\":\"libera\",\"date\":\"2020-01-01\",\"tags\":[]}";
    assert_eq!(decode(payload.as_bytes()), Err(DecodeError::Schema));
}

#[test]
fn decode_rejects_a_raw_control_character() {
    let payload = "{\"type\":\"channel\",\"highlight\":false,\"message\":\"a\u{1}b\",\"away\":false,\"channel\":\"#dev\",\"server\":\"libera\",\"date\":\"2020-01-01\",\"tags\":[]}";
    assert_eq!(decode(payload.as_bytes()), Err(DecodeError::Schema));
}

#[test]
fn decode_reads_members_in_any_order() {
    let payload = "{\"tags\":[\"nick_alice\"],\"date\":\"2020-01-01\",\"server\":\"libera\",\"channel\":\"#dev\",\"away\":false,\"message\":\"hi\",\"highlight\":true,\"type\":\"channel\"}";
    let m = decode(payload.as_bytes()).unwrap();
    assert_eq!(m.msg_type, "channel".to_string());
    assert!(m.highlight);
    assert_eq!(m.channel, "#dev".to_string());
    assert_eq!(m.tags, vec!["nick_alice".to_string()]);
}

#[test]
fn decode_skips_members_outside_the_schema() {
    let payload = "{\"type\":\"channel\",\"extra\":{\"nested\":[1,2,{\"x\":\"}]\"}],\"n\":null},\"highlight\":false,\"message\":\"hi\",\"count\":-12.5e3,\"away\":false,\"channel\":\"#dev\",\"server\":\"libera\",\"date\":\"2020-01-01\",\"flag\":true,\"tags\":[]}";
    let m = decode(payload.as_bytes()).unwrap();
    assert_eq!(m.channel, "#dev".to_string());
    assert_eq!(m.message, "hi".to_string());
}

#[test]
fn decode_rejects_a_repeated_schema_member() {
    let payload = "{\"type\":\"channel\",\"type\":\"private\",\"highlight\":false,\"message\":\"hi\",\"away\":false,\"channel\":\"#dev\",\"server\":\"libera\",\"date\":\"2020-01-01\",\"tags\":[]}";
    assert_eq!(decode(payload.as_bytes()), Err(DecodeError::Schema));
}

#[test]
fn decode_rejects_an_empty_object() {
    assert_eq!(decode(b"{}"), Err(DecodeError::Schema));
    assert_eq!(decode(b"{ }"), Err(DecodeError::Schema));
}

#[test]
fn decode_rejects_a_wrongly_shaped_member() {
    let payload = "{\"type\":true,\"highlight\":false,\"message\":\"hi\",\"away\":false,\"channel\":\"#dev\",\"server\":\"libera\",\"date\":\"2020-01-01\",\"tags\":[]}";
    assert_eq!(decode(payload.as_bytes()), Err(DecodeError::Schema));
    let payload = "{\"type\":\"channel\",\"highlight\":false,\"message\":\"hi\",\"away\":false,\"channel\":\"#dev\",\"server\":\"libera\",\"date\":\"2020-01-01\",\"tags\":[3]}";
    assert_eq!(decode(payload.as_bytes()), Err(DecodeError::Schema));
}

#[test]
fn decode_reads_several_tags_in_order() {
    let payload = "{\"type\":\"channel\",\"highlight\":true,\"message\":\"hi\",\"away\":false,\"channel\":\"#dev\",\"server\":\"libera\",\"date\":\"2020-01-01\",\"tags\":[\"notify_message\",\"nick_alice\",\"log1\"]}";
    let m = decode(payload.as_bytes()).unwrap();
    assert!(m.highlight);
    assert_eq!(
        m.tags,
        vec![
            "notify_message".to_string(),
            "nick_alice".to_string(),
            "log1".to_string()
        ]
    );
}

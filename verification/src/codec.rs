//! The wire codec: one chat event per delivery, carried as a JSON object
//! in UTF-8 bytes.
//!
//! The wire form of a message is the object
//! `{"type":..,"highlight":..,"message":..,"away":..,"channel":..,"server":..,"date":..,"tags":[..]}`.
//! [`decode`] reads the bytes as UTF-8 and accepts the members in any
//! order, with any insignificant whitespace between tokens; a member
//! outside the schema is skipped, a schema member repeated or of the
//! wrong shape is an error ([`spec_parse_message`] is the exact grammar).
//! [`encode`] renders the canonical form: schema order, no whitespace
//! ([`spec_wire`] gives its characters). String members may carry any
//! character: the quote, the backslash and the control characters travel
//! escaped, everything else travels as itself.

use vstd::prelude::*;
use vstd::string::{StrSliceExecFns, StringSliceAdditionalSpecFns};
use vstd::utf8::{
    decode_utf8, encode_utf8, encode_utf8_decode_utf8, encode_utf8_valid_utf8, is_scalar,
    valid_utf8,
};

use crate::message::{Message, MessageView};
use crate::text::{char_from_u32, chars_of, push_str_chars, str_eq, string_from_chars, utf8_to_str};

verus! {

/// Why a payload could not be decoded: the bytes are not UTF-8 text, or
/// the text does not match the wire schema.
#[derive(Debug, Clone, Copy, PartialEq, Eq, Structural)]
pub enum DecodeError {
    Encoding,
    Schema,
}

/// The hexadecimal digit for a value below sixteen.
pub open spec fn spec_hex_digit(v: u32) -> char
    recommends
        v < 16,
{
    if v == 0 {
        '0'
    } else if v == 1 {
        '1'
    } else if v == 2 {
        '2'
    } else if v == 3 {
        '3'
    } else if v == 4 {
        '4'
    } else if v == 5 {
        '5'
    } else if v == 6 {
        '6'
    } else if v == 7 {
        '7'
    } else if v == 8 {
        '8'
    } else if v == 9 {
        '9'
    } else if v == 10 {
        'a'
    } else if v == 11 {
        'b'
    } else if v == 12 {
        'c'
    } else if v == 13 {
        'd'
    } else if v == 14 {
        'e'
    } else {
        'f'
    }
}

/// The value of a hexadecimal digit, upper or lower case.
pub open spec fn spec_hex_val(c: char) -> Option<u32> {
    if c == '0' {
        Some(0)
    } else if c == '1' {
        Some(1)
    } else if c == '2' {
        Some(2)
    } else if c == '3' {
        Some(3)
    } else if c == '4' {
        Some(4)
    } else if c == '5' {
        Some(5)
    } else if c == '6' {
        Some(6)
    } else if c == '7' {
        Some(7)
    } else if c == '8' {
        Some(8)
    } else if c == '9' {
        Some(9)
    } else if c == 'a' || c == 'A' {
        Some(10)
    } else if c == 'b' || c == 'B' {
        Some(11)
    } else if c == 'c' || c == 'C' {
        Some(12)
    } else if c == 'd' || c == 'D' {
        Some(13)
    } else if c == 'e' || c == 'E' {
        Some(14)
    } else if c == 'f' || c == 'F' {
        Some(15)
    } else {
        None
    }
}

/// The wire rendering of one string character: quote, backslash and the
/// control characters are escaped, every other character stands for
/// itself.
pub open spec fn spec_escape_char(c: char) -> Seq<char> {
    if c == '"' {
        seq!['\\', '"']
    } else if c == '\\' {
        seq!['\\', '\\']
    } else if (c as u32) < 0x20 {
        seq!['\\', 'u', '0', '0', spec_hex_digit((c as u32) / 16), spec_hex_digit((c as u32) % 16)]
    } else {
        seq![c]
    }
}

/// The wire rendering of the characters of a string member, without the
/// surrounding quotes.
pub open spec fn spec_escape(s: Seq<char>) -> Seq<char>
    decreases s.len(),
{
    if s.len() == 0 {
        Seq::empty()
    } else {
        spec_escape_char(s[0]) + spec_escape(s.drop_first())
    }
}

/// The wire rendering of a string member, quotes included.
pub open spec fn spec_quote(s: Seq<char>) -> Seq<char> {
    seq!['"'] + spec_escape(s) + seq!['"']
}

/// The wire rendering of a boolean member.
pub open spec fn spec_bool_chars(b: bool) -> Seq<char> {
    if b {
        "true"@
    } else {
        "false"@
    }
}

/// The wire rendering of the elements of the tag array, commas included.
pub open spec fn spec_tags_items(tags: Seq<Seq<char>>) -> Seq<char>
    decreases tags.len(),
{
    if tags.len() == 0 {
        Seq::empty()
    } else if tags.len() == 1 {
        spec_quote(tags[0])
    } else {
        spec_quote(tags[0]) + seq![','] + spec_tags_items(tags.drop_first())
    }
}

/// The wire rendering of the tag array, brackets included.
pub open spec fn spec_tags_chars(tags: Seq<Seq<char>>) -> Seq<char> {
    seq!['['] + spec_tags_items(tags) + seq![']']
}

/// The characters of the wire form of a message.
pub open spec fn spec_wire(m: MessageView) -> Seq<char> {
    "{\"type\":"@ + (spec_quote(m.msg_type) + (",\"highlight\":"@ + (spec_bool_chars(m.highlight)
        + (",\"message\":"@ + (spec_quote(m.message) + (",\"away\":"@ + (spec_bool_chars(m.away)
        + (",\"channel\":"@ + (spec_quote(m.channel) + (",\"server\":"@ + (spec_quote(m.server)
        + (",\"date\":"@ + (spec_quote(m.date) + (",\"tags\":"@ + (spec_tags_chars(m.tags)
        + seq!['}'])))))))))))))))
}

/// The bytes of the wire form of a message.
pub open spec fn spec_wire_bytes(m: MessageView) -> Seq<u8> {
    encode_utf8(spec_wire(m))
}

/// The hexadecimal digit character for a value below sixteen.
fn hex_digit_char(v: u32) -> (c: char)
    requires
        v < 16,
    ensures
        c == spec_hex_digit(v),
{
    if v == 0 {
        '0'
    } else if v == 1 {
        '1'
    } else if v == 2 {
        '2'
    } else if v == 3 {
        '3'
    } else if v == 4 {
        '4'
    } else if v == 5 {
        '5'
    } else if v == 6 {
        '6'
    } else if v == 7 {
        '7'
    } else if v == 8 {
        '8'
    } else if v == 9 {
        '9'
    } else if v == 10 {
        'a'
    } else if v == 11 {
        'b'
    } else if v == 12 {
        'c'
    } else if v == 13 {
        'd'
    } else if v == 14 {
        'e'
    } else {
        'f'
    }
}

/// Sequence concatenation is associative.
proof fn lemma_concat_assoc(a: Seq<char>, b: Seq<char>, c: Seq<char>)
    ensures
        (a + b) + c == a + (b + c),
{
    assert((a + b) + c =~= a + (b + c));
}

/// Splitting an escaped string at any character boundary splits its
/// rendering.
proof fn lemma_escape_concat(a: Seq<char>, b: Seq<char>)
    ensures
        spec_escape(a + b) == spec_escape(a) + spec_escape(b),
    decreases a.len(),
{
    if a.len() == 0 {
        assert(a + b =~= b);
        assert(spec_escape(a) + spec_escape(b) =~= spec_escape(b));
    } else {
        lemma_escape_concat(a.drop_first(), b);
        assert((a + b).drop_first() =~= a.drop_first() + b);
        assert(spec_escape(a + b) =~= spec_escape(a) + spec_escape(b));
    }
}

/// Appends the escaped rendering of `s` to `out`.
fn push_escaped(out: &mut Vec<char>, s: &str)
    ensures
        final(out)@ == old(out)@ + spec_escape(s@),
{
    let n = s.unicode_len();
    proof {
        assert(out@ =~= old(out)@ + spec_escape(s@.take(0)));
    }
    for i in 0..n
        invariant
            n == s@.len(),
            out@ == old(out)@ + spec_escape(s@.take(i as int)),
    {
        let c = s.get_char(i);
        proof {
            assert(s@.take(i as int + 1) =~= s@.take(i as int) + seq![c]);
            lemma_escape_concat(s@.take(i as int), seq![c]);
            assert(seq![c].drop_first() =~= Seq::<char>::empty());
            assert(spec_escape(Seq::<char>::empty()) == Seq::<char>::empty());
            assert(spec_escape(seq![c]) =~= spec_escape_char(c));
        }
        if c == '"' {
            out.push('\\');
            out.push('"');
        } else if c == '\\' {
            out.push('\\');
            out.push('\\');
        } else {
            let u = c as u32;
            if u < 0x20 {
                out.push('\\');
                out.push('u');
                out.push('0');
                out.push('0');
                out.push(hex_digit_char(u / 16));
                out.push(hex_digit_char(u % 16));
            } else {
                out.push(c);
            }
        }
        proof {
            assert(out@ =~= old(out)@ + spec_escape(s@.take(i as int + 1)));
        }
    }
    proof {
        assert(s@.take(n as int) =~= s@);
    }
}

/// Appends the quoted rendering of `s` to `out`.
fn push_quoted(out: &mut Vec<char>, s: &str)
    ensures
        final(out)@ == old(out)@ + spec_quote(s@),
{
    out.push('"');
    push_escaped(out, s);
    out.push('"');
    proof {
        assert(out@ =~= old(out)@ + spec_quote(s@));
    }
}

/// Appends the rendering of a boolean member to `out`.
fn push_bool(out: &mut Vec<char>, b: bool)
    ensures
        final(out)@ == old(out)@ + spec_bool_chars(b),
{
    if b {
        push_str_chars(out, "true");
    } else {
        push_str_chars(out, "false");
    }
}

/// Appends the rendering of the tag array to `out`.
fn push_tags(out: &mut Vec<char>, tags: &Vec<String>)
    ensures
        final(out)@ == old(out)@ + spec_tags_chars(tags.deep_view()),
{
    out.push('[');
    let n = tags.len();
    if n == 0 {
        out.push(']');
        proof {
            assert(out@ =~= old(out)@ + spec_tags_chars(tags.deep_view()));
        }
        return ;
    }
    proof {
        assert(tags.deep_view().skip(0) =~= tags.deep_view());
        assert(out@ + spec_tags_items(tags.deep_view()) =~= old(out)@ + seq!['[']
            + spec_tags_items(tags.deep_view()));
    }
    for i in 0..n
        invariant
            n == tags.len(),
            out@ + spec_tags_items(tags.deep_view().skip(i as int)) == old(out)@ + seq!['[']
                + spec_tags_items(tags.deep_view()),
            i < n ==> out@.len() >= 1,
    {
        proof {
            assert(tags.deep_view().skip(i as int)[0] == tags.deep_view()[i as int]);
            assert(tags.deep_view().skip(i as int).drop_first() =~= tags.deep_view().skip(
                i as int + 1,
            ));
        }
        push_quoted(out, tags[i].as_str());
        if i + 1 < n {
            out.push(',');
            proof {
                assert(out@ + spec_tags_items(tags.deep_view().skip(i as int + 1)) =~= old(out)@
                    + seq!['['] + spec_tags_items(tags.deep_view()));
            }
        } else {
            proof {
                assert(tags.deep_view().skip(i as int).len() == 1);
                assert(out@ + spec_tags_items(tags.deep_view().skip(i as int + 1)) =~= old(out)@
                    + seq!['['] + spec_tags_items(tags.deep_view()));
            }
        }
    }
    out.push(']');
    proof {
        assert(spec_tags_items(tags.deep_view().skip(n as int)) =~= Seq::<char>::empty());
        assert(out@ =~= old(out)@ + spec_tags_chars(tags.deep_view()));
    }
}

/// The character produced by a one-letter escape, if the letter is one.
pub open spec fn spec_short_escape(e: char) -> Option<char> {
    if e == '"' {
        Some('"')
    } else if e == '\\' {
        Some('\\')
    } else if e == '/' {
        Some('/')
    } else if e == 'b' {
        Some('\u{0008}')
    } else if e == 'f' {
        Some('\u{000C}')
    } else if e == 'n' {
        Some('\n')
    } else if e == 'r' {
        Some('\r')
    } else if e == 't' {
        Some('\t')
    } else {
        None
    }
}

/// The value of four hexadecimal digits, if all four are digits.
pub open spec fn spec_hex4(a: char, b: char, c: char, d: char) -> Option<u32> {
    if spec_hex_val(a) is Some && spec_hex_val(b) is Some && spec_hex_val(c) is Some
        && spec_hex_val(d) is Some {
        Some(
            (spec_hex_val(a)->0 * 4096 + spec_hex_val(b)->0 * 256 + spec_hex_val(c)->0 * 16
                + spec_hex_val(d)->0) as u32,
        )
    } else {
        None
    }
}

/// Prepends already-read characters to the result of parsing the rest of a
/// string body.
pub open spec fn spec_prepend(p: Seq<char>, r: Option<(Seq<char>, Seq<char>)>) -> Option<
    (Seq<char>, Seq<char>),
> {
    match r {
        Some((t, rest)) => Some((p + t, rest)),
        None => None,
    }
}

/// Parses the remainder of a quoted string, the opening quote already
/// consumed: the decoded characters up to the closing quote, and what
/// follows it. A raw control character, a bad escape, or a missing closing
/// quote is a failure; a `\u` escape must name a Unicode scalar value.
pub open spec fn spec_parse_string_body(s: Seq<char>) -> Option<(Seq<char>, Seq<char>)>
    decreases s.len(),
{
    if s.len() == 0 {
        None
    } else if s[0] == '"' {
        Some((Seq::empty(), s.skip(1)))
    } else if s[0] == '\\' {
        if s.len() < 2 {
            None
        } else if s[1] == 'u' {
            if s.len() < 6 {
                None
            } else {
                match spec_hex4(s[2], s[3], s[4], s[5]) {
                    Some(u) => if is_scalar(u) {
                        spec_prepend(seq![u as char], spec_parse_string_body(s.skip(6)))
                    } else {
                        None
                    },
                    None => None,
                }
            }
        } else {
            match spec_short_escape(s[1]) {
                Some(c) => spec_prepend(seq![c], spec_parse_string_body(s.skip(2))),
                None => None,
            }
        }
    } else if (s[0] as u32) < 0x20 {
        None
    } else {
        spec_prepend(seq![s[0]], spec_parse_string_body(s.skip(1)))
    }
}

/// Parses a quoted string member: its decoded characters, and what follows
/// the closing quote.
pub open spec fn spec_parse_string(s: Seq<char>) -> Option<(Seq<char>, Seq<char>)> {
    if s.len() > 0 && s[0] == '"' {
        spec_parse_string_body(s.skip(1))
    } else {
        None
    }
}

/// Parses a fixed literal: what follows it, if the input starts with it.
pub open spec fn spec_parse_lit(s: Seq<char>, lit: Seq<char>) -> Option<Seq<char>> {
    if lit.len() <= s.len() && s.take(lit.len() as int) == lit {
        Some(s.skip(lit.len() as int))
    } else {
        None
    }
}

/// Parses a boolean member: its value, and what follows it.
pub open spec fn spec_parse_bool(s: Seq<char>) -> Option<(bool, Seq<char>)> {
    match spec_parse_lit(s, "true"@) {
        Some(r) => Some((true, r)),
        None => match spec_parse_lit(s, "false"@) {
            Some(r) => Some((false, r)),
            None => None,
        },
    }
}

/// A successfully parsed string body consumes at least its closing quote.
proof fn lemma_parse_string_body_shrinks(s: Seq<char>)
    ensures
        spec_parse_string_body(s) matches Some((t, rest)) ==> rest.len() < s.len(),
    decreases s.len(),
{
    if s.len() == 0 {
    } else if s[0] == '"' {
    } else if s[0] == '\\' {
        if s.len() >= 6 {
            lemma_parse_string_body_shrinks(s.skip(6));
        }
        if s.len() >= 2 {
            lemma_parse_string_body_shrinks(s.skip(2));
        }
    } else {
        lemma_parse_string_body_shrinks(s.skip(1));
    }
}

/// A successfully parsed string consumes at least its two quotes.
proof fn lemma_parse_string_shrinks(s: Seq<char>)
    ensures
        spec_parse_string(s) matches Some((t, rest)) ==> rest.len() + 2 <= s.len(),
{
    if s.len() > 0 && s[0] == '"' {
        lemma_parse_string_body_shrinks(s.skip(1));
    }
}

/// True when the character is insignificant JSON whitespace.
pub open spec fn is_json_ws(c: char) -> bool {
    c == ' ' || c == '\t' || c == '\n' || c == '\r'
}

/// Drops insignificant whitespace from the head of the input.
pub open spec fn spec_ws(s: Seq<char>) -> Seq<char>
    decreases s.len(),
{
    if s.len() > 0 && is_json_ws(s[0]) {
        spec_ws(s.skip(1))
    } else {
        s
    }
}

/// Skipping whitespace never lengthens the input.
proof fn lemma_ws_shrinks(s: Seq<char>)
    ensures
        spec_ws(s).len() <= s.len(),
    decreases s.len(),
{
    if s.len() > 0 && is_json_ws(s[0]) {
        lemma_ws_shrinks(s.skip(1));
    }
}

/// Scans past one JSON value of arbitrary shape, character by character:
/// `depth` counts open brackets and braces, `in_str` and `esc` track
/// string state, `started` whether anything was consumed yet. The value
/// ends at its closing quote or bracket, or before a comma, closing
/// bracket or whitespace at depth zero. The value of an unknown member is
/// discarded, so no more than this much structure is checked of it.
pub open spec fn spec_skip_value_from(
    s: Seq<char>,
    depth: nat,
    in_str: bool,
    esc: bool,
    started: bool,
) -> Option<Seq<char>>
    decreases s.len(),
{
    if s.len() == 0 {
        if depth == 0 && !in_str && started {
            Some(s)
        } else {
            None
        }
    } else {
        let c = s[0];
        if in_str {
            if esc {
                spec_skip_value_from(s.skip(1), depth, true, false, true)
            } else if c == '\\' {
                spec_skip_value_from(s.skip(1), depth, true, true, true)
            } else if c == '"' {
                if depth == 0 {
                    Some(s.skip(1))
                } else {
                    spec_skip_value_from(s.skip(1), depth, false, false, true)
                }
            } else {
                spec_skip_value_from(s.skip(1), depth, true, false, true)
            }
        } else if c == '"' {
            spec_skip_value_from(s.skip(1), depth, true, false, true)
        } else if c == '{' || c == '[' {
            spec_skip_value_from(s.skip(1), depth + 1, false, false, true)
        } else if c == '}' || c == ']' {
            if depth == 0 {
                if started {
                    Some(s)
                } else {
                    None
                }
            } else if depth == 1 {
                Some(s.skip(1))
            } else {
                spec_skip_value_from(s.skip(1), (depth - 1) as nat, false, false, true)
            }
        } else if c == ',' || is_json_ws(c) {
            if depth == 0 {
                if started {
                    Some(s)
                } else {
                    None
                }
            } else {
                spec_skip_value_from(s.skip(1), depth, false, false, true)
            }
        } else {
            spec_skip_value_from(s.skip(1), depth, false, false, true)
        }
    }
}

/// Scans past one JSON value at the head of the input.
pub open spec fn spec_skip_value(s: Seq<char>) -> Option<Seq<char>> {
    spec_skip_value_from(s, 0, false, false, false)
}

/// A skipped value leaves no more input than it was given, and consumes
/// at least one character when the scan starts fresh.
proof fn lemma_skip_value_from_shrinks(
    s: Seq<char>,
    depth: nat,
    in_str: bool,
    esc: bool,
    started: bool,
)
    ensures
        spec_skip_value_from(s, depth, in_str, esc, started) matches Some(rest) ==> rest.len()
            <= s.len() && (!started ==> rest.len() < s.len()),
    decreases s.len(),
{
    if s.len() > 0 {
        let c = s[0];
        if in_str {
            if esc {
                lemma_skip_value_from_shrinks(s.skip(1), depth, true, false, true);
            } else if c == '\\' {
                lemma_skip_value_from_shrinks(s.skip(1), depth, true, true, true);
            } else if c == '"' {
                if depth != 0 {
                    lemma_skip_value_from_shrinks(s.skip(1), depth, false, false, true);
                }
            } else {
                lemma_skip_value_from_shrinks(s.skip(1), depth, true, false, true);
            }
        } else if c == '"' {
            lemma_skip_value_from_shrinks(s.skip(1), depth, true, false, true);
        } else if c == '{' || c == '[' {
            lemma_skip_value_from_shrinks(s.skip(1), depth + 1, false, false, true);
        } else if c == '}' || c == ']' {
            if depth > 1 {
                lemma_skip_value_from_shrinks(s.skip(1), (depth - 1) as nat, false, false, true);
            }
        } else if c == ',' || is_json_ws(c) {
            if depth != 0 {
                lemma_skip_value_from_shrinks(s.skip(1), depth, false, false, true);
            }
        } else {
            lemma_skip_value_from_shrinks(s.skip(1), depth, false, false, true);
        }
    }
}

/// Parses the elements of a non-empty tag array, the opening bracket and
/// any whitespace after it already consumed: the tag values, and what
/// follows the closing bracket. Every element must be a string.
pub open spec fn spec_parse_tags_items(s: Seq<char>) -> Option<(Seq<Seq<char>>, Seq<char>)>
    decreases s.len(),
    via spec_parse_tags_items_decreases
{
    match spec_parse_string(s) {
        Some((t, r)) => {
            let r1 = spec_ws(r);
            if r1.len() > 0 && r1[0] == ',' {
                match spec_parse_tags_items(spec_ws(r1.skip(1))) {
                    Some((ts, r2)) => Some((seq![t] + ts, r2)),
                    None => None,
                }
            } else if r1.len() > 0 && r1[0] == ']' {
                Some((seq![t], r1.skip(1)))
            } else {
                None
            }
        },
        None => None,
    }
}

#[via_fn]
proof fn spec_parse_tags_items_decreases(s: Seq<char>) {
    lemma_parse_string_shrinks(s);
    match spec_parse_string(s) {
        Some((t, r)) => {
            lemma_ws_shrinks(r);
            let r1 = spec_ws(r);
            if r1.len() > 0 && r1[0] == ',' {
                lemma_ws_shrinks(r1.skip(1));
            }
        }
        None => {}
    }
}

/// Parses the tag array, brackets included; whitespace may stand between
/// its tokens.
pub open spec fn spec_parse_tags(s: Seq<char>) -> Option<(Seq<Seq<char>>, Seq<char>)> {
    if s.len() > 0 && s[0] == '[' {
        let s1 = spec_ws(s.skip(1));
        if s1.len() > 0 && s1[0] == ']' {
            Some((Seq::empty(), s1.skip(1)))
        } else {
            spec_parse_tags_items(s1)
        }
    } else {
        None
    }
}

/// A parsed boolean member consumes at least one character.
proof fn lemma_parse_bool_shrinks(s: Seq<char>)
    ensures
        spec_parse_bool(s) matches Some((b, rest)) ==> rest.len() < s.len(),
{
    reveal_strlit("true");
    reveal_strlit("false");
}

/// Parsed tag elements consume at least the closing bracket.
proof fn lemma_parse_tags_items_shrinks(s: Seq<char>)
    ensures
        spec_parse_tags_items(s) matches Some((ts, rest)) ==> rest.len() < s.len(),
    decreases s.len(),
{
    lemma_parse_string_shrinks(s);
    match spec_parse_string(s) {
        Some((t, r)) => {
            lemma_ws_shrinks(r);
            let r1 = spec_ws(r);
            if r1.len() > 0 && r1[0] == ',' {
                lemma_ws_shrinks(r1.skip(1));
                lemma_parse_tags_items_shrinks(spec_ws(r1.skip(1)));
            }
        }
        None => {}
    }
}

/// A parsed tag array consumes at least its brackets.
proof fn lemma_parse_tags_shrinks(s: Seq<char>)
    ensures
        spec_parse_tags(s) matches Some((ts, rest)) ==> rest.len() < s.len(),
{
    if s.len() > 0 && s[0] == '[' {
        lemma_ws_shrinks(s.skip(1));
        let s1 = spec_ws(s.skip(1));
        if s1.len() > 0 && s1[0] == ']' {
        } else {
            lemma_parse_tags_items_shrinks(s1);
        }
    }
}

/// The schema members read so far from the object: each may be present at
/// most once.
pub struct PartialView {
    pub msg_type: Option<Seq<char>>,
    pub highlight: Option<bool>,
    pub message: Option<Seq<char>>,
    pub away: Option<bool>,
    pub channel: Option<Seq<char>>,
    pub server: Option<Seq<char>>,
    pub date: Option<Seq<char>>,
    pub tags: Option<Seq<Seq<char>>>,
}

/// No member read yet.
pub open spec fn spec_partial_empty() -> PartialView {
    PartialView {
        msg_type: None,
        highlight: None,
        message: None,
        away: None,
        channel: None,
        server: None,
        date: None,
        tags: None,
    }
}

/// The message the read members make up, when all eight are present.
pub open spec fn spec_complete(p: PartialView) -> Option<MessageView> {
    if p.msg_type is Some && p.highlight is Some && p.message is Some && p.away is Some
        && p.channel is Some && p.server is Some && p.date is Some && p.tags is Some {
        Some(
            MessageView {
                msg_type: p.msg_type->0,
                highlight: p.highlight->0,
                message: p.message->0,
                away: p.away->0,
                channel: p.channel->0,
                server: p.server->0,
                date: p.date->0,
                tags: p.tags->0,
            },
        )
    } else {
        None
    }
}

/// Reads one member's value, the key and the colon already consumed. A
/// schema member must have its schema shape and may appear only once; the
/// value of any other member is skipped, as the schema does not speak of
/// it.
pub open spec fn spec_parse_member_value(key: Seq<char>, acc: PartialView, s: Seq<char>) -> Option<
    (PartialView, Seq<char>),
> {
    if key == "type"@ {
        if acc.msg_type is Some {
            None
        } else {
            match spec_parse_string(s) {
                Some((v, r)) => Some((PartialView { msg_type: Some(v), ..acc }, r)),
                None => None,
            }
        }
    } else if key == "highlight"@ {
        if acc.highlight is Some {
            None
        } else {
            match spec_parse_bool(s) {
                Some((v, r)) => Some((PartialView { highlight: Some(v), ..acc }, r)),
                None => None,
            }
        }
    } else if key == "message"@ {
        if acc.message is Some {
            None
        } else {
            match spec_parse_string(s) {
                Some((v, r)) => Some((PartialView { message: Some(v), ..acc }, r)),
                None => None,
            }
        }
    } else if key == "away"@ {
        if acc.away is Some {
            None
        } else {
            match spec_parse_bool(s) {
                Some((v, r)) => Some((PartialView { away: Some(v), ..acc }, r)),
                None => None,
            }
        }
    } else if key == "channel"@ {
        if acc.channel is Some {
            None
        } else {
            match spec_parse_string(s) {
                Some((v, r)) => Some((PartialView { channel: Some(v), ..acc }, r)),
                None => None,
            }
        }
    } else if key == "server"@ {
        if acc.server is Some {
            None
        } else {
            match spec_parse_string(s) {
                Some((v, r)) => Some((PartialView { server: Some(v), ..acc }, r)),
                None => None,
            }
        }
    } else if key == "date"@ {
        if acc.date is Some {
            None
        } else {
            match spec_parse_string(s) {
                Some((v, r)) => Some((PartialView { date: Some(v), ..acc }, r)),
                None => None,
            }
        }
    } else if key == "tags"@ {
        if acc.tags is Some {
            None
        } else {
            match spec_parse_tags(s) {
                Some((v, r)) => Some((PartialView { tags: Some(v), ..acc }, r)),
                None => None,
            }
        }
    } else {
        match spec_skip_value(s) {
            Some(r) => Some((acc, r)),
            None => None,
        }
    }
}

/// A parsed member value consumes at least one character.
proof fn lemma_member_value_shrinks(key: Seq<char>, acc: PartialView, s: Seq<char>)
    ensures
        spec_parse_member_value(key, acc, s) matches Some((acc2, rest)) ==> rest.len() < s.len(),
{
    lemma_parse_string_shrinks(s);
    lemma_parse_bool_shrinks(s);
    lemma_parse_tags_shrinks(s);
    lemma_skip_value_from_shrinks(s, 0, false, false, false);
}

/// Reads the members of the object, key by key, in whatever order they
/// come: the members read, and what follows the closing brace. The input
/// starts at a key; whitespace may stand between any two tokens.
pub open spec fn spec_parse_members(s: Seq<char>, acc: PartialView) -> Option<
    (PartialView, Seq<char>),
>
    decreases s.len(),
    via spec_parse_members_decreases
{
    match spec_parse_string(s) {
        Some((key, r1)) => {
            let r2 = spec_ws(r1);
            if r2.len() > 0 && r2[0] == ':' {
                match spec_parse_member_value(key, acc, spec_ws(r2.skip(1))) {
                    Some((acc2, r4)) => {
                        let r5 = spec_ws(r4);
                        if r5.len() > 0 && r5[0] == ',' {
                            spec_parse_members(spec_ws(r5.skip(1)), acc2)
                        } else if r5.len() > 0 && r5[0] == '}' {
                            Some((acc2, r5.skip(1)))
                        } else {
                            None
                        }
                    },
                    None => None,
                }
            } else {
                None
            }
        },
        None => None,
    }
}

#[via_fn]
proof fn spec_parse_members_decreases(s: Seq<char>, acc: PartialView) {
    lemma_parse_string_shrinks(s);
    match spec_parse_string(s) {
        Some((key, r1)) => {
            lemma_ws_shrinks(r1);
            let r2 = spec_ws(r1);
            if r2.len() > 0 && r2[0] == ':' {
                lemma_ws_shrinks(r2.skip(1));
                lemma_member_value_shrinks(key, acc, spec_ws(r2.skip(1)));
                match spec_parse_member_value(key, acc, spec_ws(r2.skip(1))) {
                    Some((acc2, r4)) => {
                        lemma_ws_shrinks(r4);
                        let r5 = spec_ws(r4);
                        if r5.len() > 0 && r5[0] == ',' {
                            lemma_ws_shrinks(r5.skip(1));
                        }
                    }
                    None => {}
                }
            }
        }
        None => {}
    }
}

/// Parses a whole wire message: one JSON object holding every schema
/// member exactly once, in any order, with any insignificant whitespace
/// between tokens, any other members skipped, and nothing but whitespace
/// around the object.
pub open spec fn spec_parse_message(s: Seq<char>) -> Option<MessageView> {
    let s0 = spec_ws(s);
    if s0.len() > 0 && s0[0] == '{' {
        let s1 = spec_ws(s0.skip(1));
        let body = if s1.len() > 0 && s1[0] == '}' {
            Some((spec_partial_empty(), s1.skip(1)))
        } else {
            spec_parse_members(s1, spec_partial_empty())
        };
        match body {
            Some((acc, r)) => if spec_ws(r).len() == 0 {
                spec_complete(acc)
            } else {
                None
            },
            None => None,
        }
    } else {
        None
    }
}

pub open spec fn spec_prepend_tags(p: Seq<Seq<char>>, r: Option<(Seq<Seq<char>>, Seq<char>)>) -> Option<
    (Seq<Seq<char>>, Seq<char>),
> {
    match r {
        Some((ts, rest)) => Some((p + ts, rest)),
        None => None,
    }
}

proof fn lemma_prepend_empty(r: Option<(Seq<char>, Seq<char>)>)
    ensures
        spec_prepend(Seq::empty(), r) == r,
{
    match r {
        Some((t, rest)) => {
            assert(Seq::<char>::empty() + t =~= t);
        }
        None => {}
    }
}

proof fn lemma_prepend_assoc(p: Seq<char>, q: Seq<char>, r: Option<(Seq<char>, Seq<char>)>)
    ensures
        spec_prepend(p, spec_prepend(q, r)) == spec_prepend(p + q, r),
{
    match r {
        Some((t, rest)) => {
            assert(p + (q + t) =~= (p + q) + t);
        }
        None => {}
    }
}

proof fn lemma_prepend_tags_empty(r: Option<(Seq<Seq<char>>, Seq<char>)>)
    ensures
        spec_prepend_tags(Seq::empty(), r) == r,
{
    match r {
        Some((ts, rest)) => {
            assert(Seq::<Seq<char>>::empty() + ts =~= ts);
        }
        None => {}
    }
}

proof fn lemma_prepend_tags_assoc(
    p: Seq<Seq<char>>,
    q: Seq<Seq<char>>,
    r: Option<(Seq<Seq<char>>, Seq<char>)>,
)
    ensures
        spec_prepend_tags(p, spec_prepend_tags(q, r)) == spec_prepend_tags(p + q, r),
{
    match r {
        Some((ts, rest)) => {
            assert(p + (q + ts) =~= (p + q) + ts);
        }
        None => {}
    }
}

/// The value of one hexadecimal digit character.
fn hex_val_char(c: char) -> (r: Option<u32>)
    ensures
        r == spec_hex_val(c),
{
    if c == '0' {
        Some(0)
    } else if c == '1' {
        Some(1)
    } else if c == '2' {
        Some(2)
    } else if c == '3' {
        Some(3)
    } else if c == '4' {
        Some(4)
    } else if c == '5' {
        Some(5)
    } else if c == '6' {
        Some(6)
    } else if c == '7' {
        Some(7)
    } else if c == '8' {
        Some(8)
    } else if c == '9' {
        Some(9)
    } else if c == 'a' || c == 'A' {
        Some(10)
    } else if c == 'b' || c == 'B' {
        Some(11)
    } else if c == 'c' || c == 'C' {
        Some(12)
    } else if c == 'd' || c == 'D' {
        Some(13)
    } else if c == 'e' || c == 'E' {
        Some(14)
    } else if c == 'f' || c == 'F' {
        Some(15)
    } else {
        None
    }
}

/// The character for a one-letter escape.
fn short_unescape(e: char) -> (r: Option<char>)
    ensures
        r == spec_short_escape(e),
{
    if e == '"' {
        Some('"')
    } else if e == '\\' {
        Some('\\')
    } else if e == '/' {
        Some('/')
    } else if e == 'b' {
        Some('\u{0008}')
    } else if e == 'f' {
        Some('\u{000C}')
    } else if e == 'n' {
        Some('\n')
    } else if e == 'r' {
        Some('\r')
    } else if e == 't' {
        Some('\t')
    } else {
        None
    }
}

/// Consumes the fixed literal `lit` at position `i`.
fn expect_lit(v: &Vec<char>, i: usize, lit: &str) -> (r: Option<usize>)
    requires
        i <= v.len(),
    ensures
        match r {
            Some(j) => {
                &&& i <= j <= v.len()
                &&& spec_parse_lit(v@.skip(i as int), lit@) == Some(v@.skip(j as int))
            },
            None => spec_parse_lit(v@.skip(i as int), lit@) is None,
        },
{
    let n = lit.unicode_len();
    if n > v.len() - i {
        return None;
    }
    for k in 0..n
        invariant
            n == lit@.len(),
            i + n <= v.len(),
            i <= v.len(),
            forall|l: int| 0 <= l < k ==> v@.skip(i as int)[l] == lit@[l],
    {
        if v[i + k] != lit.get_char(k) {
            proof {
                assert(v@.skip(i as int)[k as int] == v@[i as int + k]);
                assert(v@.skip(i as int).take(n as int)[k as int] != lit@[k as int]);
            }
            return None;
        }
        proof {
            assert(v@.skip(i as int)[k as int] == v@[i as int + k]);
        }
    }
    proof {
        assert(v@.skip(i as int).take(n as int) =~= lit@);
        assert(v@.skip(i as int).skip(n as int) =~= v@.skip(i as int + n as int));
    }
    Some(i + n)
}

/// Parses a quoted string member starting at position `i`: its decoded
/// characters and the position after the closing quote.
#[verifier::loop_isolation(false)]
fn parse_string(v: &Vec<char>, i: usize) -> (r: Option<(String, usize)>)
    requires
        i <= v.len(),
    ensures
        match spec_parse_string(v@.skip(i as int)) {
            Some((t, rest)) => {
                &&& r matches Some(p)
                &&& p.0@ == t
                &&& i < p.1 <= v.len()
                &&& rest == v@.skip(p.1 as int)
            },
            None => r is None,
        },
{
    if i == v.len() || v[i] != '"' {
        proof {
            if i < v.len() {
                assert(v@.skip(i as int)[0] == v@[i as int]);
            }
        }
        return None;
    }
    let ghost start = v@.skip(i as int + 1);
    proof {
        assert(v@.skip(i as int)[0] == '"');
        assert(v@.skip(i as int).skip(1) =~= start);
    }
    let mut acc: Vec<char> = Vec::new();
    let mut j: usize = i + 1;
    proof {
        lemma_prepend_empty(spec_parse_string_body(start));
        assert(acc@ =~= Seq::<char>::empty());
    }
    loop
        invariant
            i + 1 <= j <= v.len(),
            v.len() == v@.len(),
            spec_parse_string_body(start) == spec_prepend(
                acc@,
                spec_parse_string_body(v@.skip(j as int)),
            ),
        decreases v.len() - j,
    {
        if j == v.len() {
            proof {
                assert(v@.skip(j as int) =~= Seq::<char>::empty());
            }
            return None;
        }
        let ghost cur = v@.skip(j as int);
        proof {
            assert(cur[0] == v@[j as int]);
        }
        let c = v[j];
        if c == '"' {
            proof {
                assert(cur.skip(1) =~= v@.skip(j as int + 1));
                assert(acc@ + Seq::<char>::empty() =~= acc@);
            }
            let s = string_from_chars(&acc);
            return Some((s, j + 1));
        } else if c == '\\' {
            if v.len() - j < 2 {
                return None;
            }
            let e = v[j + 1];
            proof {
                assert(cur[1] == v@[j as int + 1]);
            }
            if e == 'u' {
                if v.len() - j < 6 {
                    return None;
                }
                proof {
                    assert(cur[2] == v@[j as int + 2]);
                    assert(cur[3] == v@[j as int + 3]);
                    assert(cur[4] == v@[j as int + 4]);
                    assert(cur[5] == v@[j as int + 5]);
                }
                let va = match hex_val_char(v[j + 2]) {
                    Some(x) => x,
                    None => {
                        return None;
                    },
                };
                let vb = match hex_val_char(v[j + 3]) {
                    Some(x) => x,
                    None => {
                        return None;
                    },
                };
                let vc = match hex_val_char(v[j + 4]) {
                    Some(x) => x,
                    None => {
                        return None;
                    },
                };
                let vd = match hex_val_char(v[j + 5]) {
                    Some(x) => x,
                    None => {
                        return None;
                    },
                };
                let u = va * 4096 + vb * 256 + vc * 16 + vd;
                if 0xD800 <= u && u < 0xE000 {
                    return None;
                }
                let ch = char_from_u32(u).unwrap();
                let ghost prev = acc@;
                acc.push(ch);
                proof {
                    vstd::utf8::char_u32_cast(ch, u);
                    assert(acc@ =~= prev + seq![ch]);
                    assert(cur.skip(6) =~= v@.skip(j as int + 6));
                    lemma_prepend_assoc(
                        prev,
                        seq![ch],
                        spec_parse_string_body(v@.skip(j as int + 6)),
                    );
                }
                j = j + 6;
            } else {
                let ch = match short_unescape(e) {
                    Some(x) => x,
                    None => {
                        return None;
                    },
                };
                let ghost prev = acc@;
                acc.push(ch);
                proof {
                    assert(acc@ =~= prev + seq![ch]);
                    assert(cur.skip(2) =~= v@.skip(j as int + 2));
                    lemma_prepend_assoc(
                        prev,
                        seq![ch],
                        spec_parse_string_body(v@.skip(j as int + 2)),
                    );
                }
                j = j + 2;
            }
        } else if (c as u32) < 0x20 {
            return None;
        } else {
            let ghost prev = acc@;
            acc.push(c);
            proof {
                assert(acc@ =~= prev + seq![c]);
                assert(cur.skip(1) =~= v@.skip(j as int + 1));
                lemma_prepend_assoc(prev, seq![c], spec_parse_string_body(v@.skip(j as int + 1)));
            }
            j = j + 1;
        }
    }
}

/// Parses a boolean member starting at position `i`.
fn parse_bool(v: &Vec<char>, i: usize) -> (r: Option<(bool, usize)>)
    requires
        i <= v.len(),
    ensures
        match spec_parse_bool(v@.skip(i as int)) {
            Some((b, rest)) => {
                &&& r matches Some(p)
                &&& p.0 == b
                &&& i <= p.1 <= v.len()
                &&& rest == v@.skip(p.1 as int)
            },
            None => r is None,
        },
{
    match expect_lit(v, i, "true") {
        Some(j) => Some((true, j)),
        None => match expect_lit(v, i, "false") {
            Some(j) => Some((false, j)),
            None => None,
        },
    }
}

/// True when the character is insignificant JSON whitespace.
fn is_ws_char(c: char) -> (r: bool)
    ensures
        r == is_json_ws(c),
{
    c == ' ' || c == '\t' || c == '\n' || c == '\r'
}

/// Consumes insignificant whitespace from position `i`.
#[verifier::loop_isolation(false)]
fn skip_ws(v: &Vec<char>, i: usize) -> (r: usize)
    requires
        i <= v.len(),
    ensures
        i <= r <= v.len(),
        v@.skip(r as int) == spec_ws(v@.skip(i as int)),
{
    let mut j = i;
    while j < v.len() && is_ws_char(v[j])
        invariant
            i <= j <= v.len(),
            spec_ws(v@.skip(i as int)) == spec_ws(v@.skip(j as int)),
        decreases v.len() - j,
    {
        proof {
            assert(v@.skip(j as int)[0] == v@[j as int]);
            assert(v@.skip(j as int).skip(1) =~= v@.skip(j as int + 1));
        }
        j = j + 1;
    }
    proof {
        if j < v.len() {
            assert(v@.skip(j as int)[0] == v@[j as int]);
        }
        assert(spec_ws(v@.skip(j as int)) == v@.skip(j as int));
    }
    j
}

/// Scans past one JSON value starting at position `i`.
#[verifier::loop_isolation(false)]
fn skip_value(v: &Vec<char>, i: usize) -> (r: Option<usize>)
    requires
        i <= v.len(),
    ensures
        match spec_skip_value(v@.skip(i as int)) {
            Some(rest) => {
                &&& r matches Some(j)
                &&& i <= j <= v.len()
                &&& rest == v@.skip(j as int)
            },
            None => r is None,
        },
{
    let mut j = i;
    let mut depth: usize = 0;
    let mut in_str = false;
    let mut esc = false;
    let mut started = false;
    loop
        invariant
            i <= j <= v.len(),
            depth <= j - i,
            !in_str ==> !esc,
            spec_skip_value(v@.skip(i as int)) == spec_skip_value_from(
                v@.skip(j as int),
                depth as nat,
                in_str,
                esc,
                started,
            ),
        decreases v.len() - j,
    {
        if j == v.len() {
            proof {
                assert(v@.skip(j as int) =~= Seq::<char>::empty());
            }
            if depth == 0 && !in_str && started {
                return Some(j);
            }
            return None;
        }
        let c = v[j];
        proof {
            assert(v@.skip(j as int)[0] == v@[j as int]);
            assert(v@.skip(j as int).skip(1) =~= v@.skip(j as int + 1));
        }
        if in_str {
            if esc {
                esc = false;
            } else if c == '\\' {
                esc = true;
            } else if c == '"' {
                if depth == 0 {
                    return Some(j + 1);
                }
                in_str = false;
            }
            started = true;
            j = j + 1;
        } else if c == '"' {
            in_str = true;
            esc = false;
            started = true;
            j = j + 1;
        } else if c == '{' || c == '[' {
            depth = depth + 1;
            started = true;
            j = j + 1;
        } else if c == '}' || c == ']' {
            if depth == 0 {
                if started {
                    return Some(j);
                }
                return None;
            } else if depth == 1 {
                return Some(j + 1);
            }
            depth = depth - 1;
            started = true;
            j = j + 1;
        } else if c == ',' || is_ws_char(c) {
            if depth == 0 {
                if started {
                    return Some(j);
                }
                return None;
            }
            started = true;
            j = j + 1;
        } else {
            started = true;
            j = j + 1;
        }
    }
}

/// Parses the tag array starting at position `i`: the tag values and the
/// position after the closing bracket.
#[verifier::loop_isolation(false)]
fn parse_tags(v: &Vec<char>, i: usize) -> (r: Option<(Vec<String>, usize)>)
    requires
        i <= v.len(),
    ensures
        match spec_parse_tags(v@.skip(i as int)) {
            Some((ts, rest)) => {
                &&& r matches Some(p)
                &&& p.0.deep_view() == ts
                &&& i <= p.1 <= v.len()
                &&& rest == v@.skip(p.1 as int)
            },
            None => r is None,
        },
{
    if i == v.len() || v[i] != '[' {
        proof {
            if i < v.len() {
                assert(v@.skip(i as int)[0] == v@[i as int]);
            }
        }
        return None;
    }
    proof {
        assert(v@.skip(i as int)[0] == '[');
        assert(v@.skip(i as int).skip(1) =~= v@.skip(i as int + 1));
    }
    let h = skip_ws(v, i + 1);
    let ghost start = v@.skip(h as int);
    if h < v.len() && v[h] == ']' {
        let out: Vec<String> = Vec::new();
        proof {
            assert(start[0] == v@[h as int]);
            assert(start.skip(1) =~= v@.skip(h as int + 1));
            assert(out.deep_view() =~= Seq::<Seq<char>>::empty());
        }
        return Some((out, h + 1));
    }
    proof {
        if h < v@.len() {
            assert(start[0] == v@[h as int]);
        }
    }
    let mut out: Vec<String> = Vec::new();
    let mut j: usize = h;
    proof {
        lemma_prepend_tags_empty(spec_parse_tags_items(start));
        assert(out.deep_view() =~= Seq::<Seq<char>>::empty());
    }
    loop
        invariant
            h <= j <= v.len(),
            spec_parse_tags_items(start) == spec_prepend_tags(
                out.deep_view(),
                spec_parse_tags_items(v@.skip(j as int)),
            ),
        decreases v.len() - j,
    {
        match parse_string(v, j) {
            None => {
                return None;
            },
            Some((t, k)) => {
                let k1 = skip_ws(v, k);
                if k1 < v.len() && v[k1] == ',' {
                    proof {
                        assert(v@.skip(k1 as int)[0] == v@[k1 as int]);
                        assert(v@.skip(k1 as int).skip(1) =~= v@.skip(k1 as int + 1));
                    }
                    let k2 = skip_ws(v, k1 + 1);
                    let ghost prev = out.deep_view();
                    let ghost tv = t@;
                    out.push(t);
                    proof {
                        assert(out.deep_view() =~= prev + seq![tv]);
                        lemma_prepend_tags_assoc(
                            prev,
                            seq![tv],
                            spec_parse_tags_items(v@.skip(k2 as int)),
                        );
                    }
                    j = k2;
                } else if k1 < v.len() && v[k1] == ']' {
                    proof {
                        assert(v@.skip(k1 as int)[0] == v@[k1 as int]);
                        assert(v@.skip(k1 as int).skip(1) =~= v@.skip(k1 as int + 1));
                    }
                    let ghost prev = out.deep_view();
                    let ghost tv = t@;
                    out.push(t);
                    proof {
                        assert(out.deep_view() =~= prev + seq![tv]);
                        assert(prev + seq![tv] =~= prev + seq![tv] + Seq::<Seq<char>>::empty());
                    }
                    return Some((out, k1 + 1));
                } else {
                    proof {
                        if k1 < v@.len() {
                            assert(v@.skip(k1 as int)[0] == v@[k1 as int]);
                        } else {
                            assert(v@.skip(k1 as int).len() == 0);
                        }
                    }
                    return None;
                }
            },
        }
    }
}

/// The schema members read so far, as read.
struct Partial {
    msg_type: Option<String>,
    highlight: Option<bool>,
    message: Option<String>,
    away: Option<bool>,
    channel: Option<String>,
    server: Option<String>,
    date: Option<String>,
    tags: Option<Vec<String>>,
}

/// The value of an optional string member.
spec fn view_opt_str(o: Option<String>) -> Option<Seq<char>> {
    match o {
        Some(s) => Some(s@),
        None => None,
    }
}

/// The value of the optional tag list.
spec fn view_opt_tags(o: Option<Vec<String>>) -> Option<Seq<Seq<char>>> {
    match o {
        Some(t) => Some(t.deep_view()),
        None => None,
    }
}

/// The mathematical value of the members read so far.
spec fn partial_view(p: Partial) -> PartialView {
    PartialView {
        msg_type: view_opt_str(p.msg_type),
        highlight: p.highlight,
        message: view_opt_str(p.message),
        away: p.away,
        channel: view_opt_str(p.channel),
        server: view_opt_str(p.server),
        date: view_opt_str(p.date),
        tags: view_opt_tags(p.tags),
    }
}

/// Reads one member's value at position `i` and records it in `p`.
fn parse_member_value(v: &Vec<char>, key: &String, i: usize, p: &mut Partial) -> (r: Option<
    usize,
>)
    requires
        i <= v.len(),
    ensures
        match spec_parse_member_value(key@, partial_view(*old(p)), v@.skip(i as int)) {
            Some((acc2, rest)) => {
                &&& r matches Some(j)
                &&& i <= j <= v.len()
                &&& acc2 == partial_view(*final(p))
                &&& rest == v@.skip(j as int)
            },
            None => r is None,
        },
{
    if str_eq(key.as_str(), "type") {
        if p.msg_type.is_some() {
            return None;
        }
        match parse_string(v, i) {
            Some((s, k)) => {
                p.msg_type = Some(s);
                Some(k)
            },
            None => None,
        }
    } else if str_eq(key.as_str(), "highlight") {
        if p.highlight.is_some() {
            return None;
        }
        match parse_bool(v, i) {
            Some((b, k)) => {
                p.highlight = Some(b);
                Some(k)
            },
            None => None,
        }
    } else if str_eq(key.as_str(), "message") {
        if p.message.is_some() {
            return None;
        }
        match parse_string(v, i) {
            Some((s, k)) => {
                p.message = Some(s);
                Some(k)
            },
            None => None,
        }
    } else if str_eq(key.as_str(), "away") {
        if p.away.is_some() {
            return None;
        }
        match parse_bool(v, i) {
            Some((b, k)) => {
                p.away = Some(b);
                Some(k)
            },
            None => None,
        }
    } else if str_eq(key.as_str(), "channel") {
        if p.channel.is_some() {
            return None;
        }
        match parse_string(v, i) {
            Some((s, k)) => {
                p.channel = Some(s);
                Some(k)
            },
            None => None,
        }
    } else if str_eq(key.as_str(), "server") {
        if p.server.is_some() {
            return None;
        }
        match parse_string(v, i) {
            Some((s, k)) => {
                p.server = Some(s);
                Some(k)
            },
            None => None,
        }
    } else if str_eq(key.as_str(), "date") {
        if p.date.is_some() {
            return None;
        }
        match parse_string(v, i) {
            Some((s, k)) => {
                p.date = Some(s);
                Some(k)
            },
            None => None,
        }
    } else if str_eq(key.as_str(), "tags") {
        if p.tags.is_some() {
            return None;
        }
        match parse_tags(v, i) {
            Some((t, k)) => {
                p.tags = Some(t);
                Some(k)
            },
            None => None,
        }
    } else {
        match skip_value(v, i) {
            Some(k) => Some(k),
            None => None,
        }
    }
}

/// Parses a whole wire message from the characters of the payload.
#[verifier::loop_isolation(false)]
#[verifier::rlimit(100)]
fn parse_message(v: &Vec<char>) -> (r: Option<Message>)
    ensures
        match spec_parse_message(v@) {
            Some(mv) => r matches Some(m) && m@ == mv,
            None => r is None,
        },
{
    proof {
        assert(v@.skip(0) =~= v@);
    }
    let b = skip_ws(v, 0);
    if b == v.len() || v[b] != '{' {
        proof {
            if b < v.len() {
                assert(v@.skip(b as int)[0] == v@[b as int]);
            }
        }
        return None;
    }
    proof {
        assert(v@.skip(b as int)[0] == '{');
        assert(v@.skip(b as int).skip(1) =~= v@.skip(b as int + 1));
    }
    let h = skip_ws(v, b + 1);
    let ghost start = v@.skip(h as int);
    if h < v.len() && v[h] == '}' {
        // an object without members lacks every schema member
        proof {
            assert(start[0] == v@[h as int]);
        }
        return None;
    }
    proof {
        if h < v@.len() {
            assert(start[0] == v@[h as int]);
        }
    }
    let mut p = Partial {
        msg_type: None,
        highlight: None,
        message: None,
        away: None,
        channel: None,
        server: None,
        date: None,
        tags: None,
    };
    let mut i = h;
    proof {
        assert(partial_view(p) == spec_partial_empty());
    }
    loop
        invariant
            h <= i <= v.len(),
            spec_parse_members(start, spec_partial_empty()) == spec_parse_members(
                v@.skip(i as int),
                partial_view(p),
            ),
        decreases v.len() - i,
    {
        let (key, k0) = match parse_string(v, i) {
            Some(x) => x,
            None => {
                return None;
            },
        };
        let k1 = skip_ws(v, k0);
        if k1 == v.len() || v[k1] != ':' {
            proof {
                if k1 < v.len() {
                    assert(v@.skip(k1 as int)[0] == v@[k1 as int]);
                }
            }
            return None;
        }
        proof {
            assert(v@.skip(k1 as int)[0] == ':');
            assert(v@.skip(k1 as int).skip(1) =~= v@.skip(k1 as int + 1));
        }
        let k2 = skip_ws(v, k1 + 1);
        let k3 = match parse_member_value(v, &key, k2, &mut p) {
            Some(k) => k,
            None => {
                return None;
            },
        };
        let k4 = skip_ws(v, k3);
        if k4 < v.len() && v[k4] == ',' {
            proof {
                assert(v@.skip(k4 as int)[0] == v@[k4 as int]);
                assert(v@.skip(k4 as int).skip(1) =~= v@.skip(k4 as int + 1));
            }
            i = skip_ws(v, k4 + 1);
        } else if k4 < v.len() && v[k4] == '}' {
            proof {
                assert(v@.skip(k4 as int)[0] == v@[k4 as int]);
                assert(v@.skip(k4 as int).skip(1) =~= v@.skip(k4 as int + 1));
            }
            let e = skip_ws(v, k4 + 1);
            if e != v.len() {
                proof {
                    assert(v@.skip(e as int).len() > 0);
                }
                return None;
            }
            proof {
                assert(v@.skip(e as int) =~= Seq::<char>::empty());
            }
            let Partial { msg_type, highlight, message, away, channel, server, date, tags } = p;
            match (msg_type, highlight, message, away, channel, server, date, tags) {
                (
                    Some(msg_type),
                    Some(highlight),
                    Some(message),
                    Some(away),
                    Some(channel),
                    Some(server),
                    Some(date),
                    Some(tags),
                ) => {
                    let m = Message {
                        msg_type,
                        highlight,
                        message,
                        away,
                        channel,
                        server,
                        date,
                        tags,
                    };
                    return Some(m);
                },
                _ => {
                    return None;
                },
            }
        } else {
            proof {
                if k4 < v@.len() {
                    assert(v@.skip(k4 as int)[0] == v@[k4 as int]);
                } else {
                    assert(v@.skip(k4 as int).len() == 0);
                }
            }
            return None;
        }
    }
}

/// Decodes a payload into a message: the bytes must be UTF-8 text, and the
/// text must be the wire form of exactly one message.
pub fn decode(payload: &[u8]) -> (r: Result<Message, DecodeError>)
    ensures
        !valid_utf8(payload@) <==> r == Result::<Message, DecodeError>::Err(DecodeError::Encoding),
        valid_utf8(payload@) ==> match spec_parse_message(decode_utf8(payload@)) {
            Some(mv) => r matches Ok(m) && m@ == mv,
            None => r == Result::<Message, DecodeError>::Err(DecodeError::Schema),
        },
{
    let text = match utf8_to_str(payload) {
        Some(t) => t,
        None => {
            return Err(DecodeError::Encoding);
        },
    };
    proof {
        encode_utf8_valid_utf8(text@);
        encode_utf8_decode_utf8(text@);
    }
    let chars = chars_of(text);
    match parse_message(&chars) {
        Some(m) => Ok(m),
        None => Err(DecodeError::Schema),
    }
}

/// Encodes a message into its wire bytes.
#[verifier::rlimit(30)]
pub fn encode(m: &Message) -> (r: Vec<u8>)
    ensures
        r@ == spec_wire_bytes(m@),
{
    let mut w: Vec<char> = Vec::new();
    push_str_chars(&mut w, "{\"type\":");
    push_quoted(&mut w, m.msg_type.as_str());
    push_str_chars(&mut w, ",\"highlight\":");
    push_bool(&mut w, m.highlight);
    push_str_chars(&mut w, ",\"message\":");
    push_quoted(&mut w, m.message.as_str());
    push_str_chars(&mut w, ",\"away\":");
    push_bool(&mut w, m.away);
    push_str_chars(&mut w, ",\"channel\":");
    push_quoted(&mut w, m.channel.as_str());
    push_str_chars(&mut w, ",\"server\":");
    push_quoted(&mut w, m.server.as_str());
    push_str_chars(&mut w, ",\"date\":");
    push_quoted(&mut w, m.date.as_str());
    push_str_chars(&mut w, ",\"tags\":");
    push_tags(&mut w, &m.tags);
    w.push('}');
    proof {
        let c1 = "{\"type\":"@;
        let c2 = spec_quote(m@.msg_type);
        let c3 = ",\"highlight\":"@;
        let c4 = spec_bool_chars(m@.highlight);
        let c5 = ",\"message\":"@;
        let c6 = spec_quote(m@.message);
        let c7 = ",\"away\":"@;
        let c8 = spec_bool_chars(m@.away);
        let c9 = ",\"channel\":"@;
        let c10 = spec_quote(m@.channel);
        let c11 = ",\"server\":"@;
        let c12 = spec_quote(m@.server);
        let c13 = ",\"date\":"@;
        let c14 = spec_quote(m@.date);
        let c15 = ",\"tags\":"@;
        let c16 = spec_tags_chars(m@.tags);
        let c17 = seq!['}'];
        assert(Seq::<char>::empty() + c1 =~= c1);
        let p2 = c1 + c2;
        let p3 = p2 + c3;
        let p4 = p3 + c4;
        let p5 = p4 + c5;
        let p6 = p5 + c6;
        let p7 = p6 + c7;
        let p8 = p7 + c8;
        let p9 = p8 + c9;
        let p10 = p9 + c10;
        let p11 = p10 + c11;
        let p12 = p11 + c12;
        let p13 = p12 + c13;
        let p14 = p13 + c14;
        let p15 = p14 + c15;
        let p16 = p15 + c16;
        assert(p16.push('}') =~= p16 + c17);
        assert(w@ == p16 + c17);
        let s16 = c16 + c17;
        lemma_concat_assoc(p15, c16, c17);
        let s15 = c15 + s16;
        lemma_concat_assoc(p14, c15, s16);
        let s14 = c14 + s15;
        lemma_concat_assoc(p13, c14, s15);
        let s13 = c13 + s14;
        lemma_concat_assoc(p12, c13, s14);
        let s12 = c12 + s13;
        lemma_concat_assoc(p11, c12, s13);
        let s11 = c11 + s12;
        lemma_concat_assoc(p10, c11, s12);
        let s10 = c10 + s11;
        lemma_concat_assoc(p9, c10, s11);
        let s9 = c9 + s10;
        lemma_concat_assoc(p8, c9, s10);
        let s8 = c8 + s9;
        lemma_concat_assoc(p7, c8, s9);
        let s7 = c7 + s8;
        lemma_concat_assoc(p6, c7, s8);
        let s6 = c6 + s7;
        lemma_concat_assoc(p5, c6, s7);
        let s5 = c5 + s6;
        lemma_concat_assoc(p4, c5, s6);
        let s4 = c4 + s5;
        lemma_concat_assoc(p3, c4, s5);
        let s3 = c3 + s4;
        lemma_concat_assoc(p2, c3, s4);
        lemma_concat_assoc(c1, c2, s3);
        assert(w@ == c1 + (c2 + s3));
        assert(w@ == spec_wire(m@));
    }
    let rendered = string_from_chars(&w);
    let bytes = rendered.as_str().as_bytes_vec();
    bytes
}

/// A hexadecimal digit reads back as its value.
proof fn lemma_hex_round(x: u32)
    requires
        x < 16,
    ensures
        spec_hex_val(spec_hex_digit(x)) == Some(x),
{
}

/// A literal at the head of the input is consumed exactly.
proof fn lemma_parse_lit_exact(l: Seq<char>, rest: Seq<char>)
    ensures
        spec_parse_lit(l + rest, l) == Some(rest),
{
    assert((l + rest).take(l.len() as int) =~= l);
    assert((l + rest).skip(l.len() as int) =~= rest);
}

/// Parsing an escaped string body undoes the escaping: the rendering of
/// `s` followed by a closing quote and `rest` reads back as `s` and
/// `rest`.
proof fn lemma_parse_body_of_escape(s: Seq<char>, rest: Seq<char>)
    ensures
        spec_parse_string_body(spec_escape(s) + seq!['"'] + rest) == Some((s, rest)),
    decreases s.len(),
{
    let u = spec_escape(s) + seq!['"'] + rest;
    if s.len() == 0 {
        assert(u =~= seq!['"'] + rest);
        assert(u[0] == '"');
        assert(u.skip(1) =~= rest);
        assert(s =~= Seq::<char>::empty());
    } else {
        let c = s[0];
        let s2 = s.drop_first();
        lemma_parse_body_of_escape(s2, rest);
        let tail = spec_escape(s2) + seq!['"'] + rest;
        if c == '"' {
            assert(u =~= seq!['\\', '"'] + tail);
            assert(u[0] == '\\' && u[1] == '"');
            assert(u.skip(2) =~= tail);
            assert(seq![c] + s2 =~= s);
        } else if c == '\\' {
            assert(u =~= seq!['\\', '\\'] + tail);
            assert(u[0] == '\\' && u[1] == '\\');
            assert(u.skip(2) =~= tail);
            assert(seq![c] + s2 =~= s);
        } else if (c as u32) < 0x20 {
            let cu = c as u32;
            let h1 = spec_hex_digit(cu / 16);
            let h0 = spec_hex_digit(cu % 16);
            assert(u =~= seq!['\\', 'u', '0', '0', h1, h0] + tail);
            assert(u[0] == '\\' && u[1] == 'u' && u[2] == '0' && u[3] == '0' && u[4] == h1 && u[5]
                == h0);
            lemma_hex_round(cu / 16);
            lemma_hex_round(cu % 16);
            assert(spec_hex4(u[2], u[3], u[4], u[5]) == Some(cu));
            assert(is_scalar(cu));
            vstd::utf8::char_u32_cast(c, cu);
            assert(u.skip(6) =~= tail);
            assert(seq![c] + s2 =~= s);
        } else {
            assert(u =~= seq![c] + tail);
            assert(u[0] == c);
            assert(u.skip(1) =~= tail);
            assert(seq![c] + s2 =~= s);
        }
    }
}

/// Parsing a quoted string member undoes the quoting.
proof fn lemma_parse_string_of_quote(s: Seq<char>, rest: Seq<char>)
    ensures
        spec_parse_string(spec_quote(s) + rest) == Some((s, rest)),
{
    let u = spec_quote(s) + rest;
    assert(u =~= seq!['"'] + (spec_escape(s) + seq!['"'] + rest));
    assert(u[0] == '"');
    assert(u.skip(1) =~= spec_escape(s) + seq!['"'] + rest);
    lemma_parse_body_of_escape(s, rest);
}

/// Parsing a rendered boolean member reads back its value.
proof fn lemma_parse_bool_of(b: bool, rest: Seq<char>)
    ensures
        spec_parse_bool(spec_bool_chars(b) + rest) == Some((b, rest)),
{
    reveal_strlit("true");
    reveal_strlit("false");
    if b {
        lemma_parse_lit_exact("true"@, rest);
    } else {
        lemma_parse_lit_exact("false"@, rest);
        let u = "false"@ + rest;
        assert(u.len() >= 4);
        assert(u.take(4)[0] == 'f');
        assert(spec_parse_lit(u, "true"@) is None);
    }
}

/// Skipping whitespace does nothing where none stands.
proof fn lemma_ws_noop(s: Seq<char>)
    requires
        s.len() == 0 || !is_json_ws(s[0]),
    ensures
        spec_ws(s) == s,
{
}

/// Parsing the rendered elements of a non-empty tag array reads back the
/// tags.
proof fn lemma_parse_tags_items_of(tags: Seq<Seq<char>>, rest: Seq<char>)
    requires
        tags.len() > 0,
    ensures
        spec_parse_tags_items(spec_tags_items(tags) + seq![']'] + rest) == Some((tags, rest)),
    decreases tags.len(),
{
    let u = spec_tags_items(tags) + seq![']'] + rest;
    if tags.len() == 1 {
        let r1 = seq![']'] + rest;
        assert(u =~= spec_quote(tags[0]) + r1);
        lemma_parse_string_of_quote(tags[0], r1);
        assert(r1[0] == ']');
        lemma_ws_noop(r1);
        assert(r1.skip(1) =~= rest);
        assert(seq![tags[0]] =~= tags);
    } else {
        let tags2 = tags.drop_first();
        let next = spec_tags_items(tags2) + seq![']'] + rest;
        let r1 = seq![','] + next;
        assert(u =~= spec_quote(tags[0]) + r1);
        lemma_parse_string_of_quote(tags[0], r1);
        assert(r1[0] == ',');
        lemma_ws_noop(r1);
        assert(r1.skip(1) =~= next);
        assert(spec_quote(tags2[0])[0] == '"');
        assert(spec_tags_items(tags2)[0] == '"');
        assert(next[0] == '"');
        lemma_ws_noop(next);
        lemma_parse_tags_items_of(tags2, rest);
        assert(seq![tags[0]] + tags2 =~= tags);
    }
}

/// Parsing a rendered tag array reads back the tags.
proof fn lemma_parse_tags_of(tags: Seq<Seq<char>>, rest: Seq<char>)
    ensures
        spec_parse_tags(spec_tags_chars(tags) + rest) == Some((tags, rest)),
{
    let u = spec_tags_chars(tags) + rest;
    assert(u =~= seq!['['] + (spec_tags_items(tags) + seq![']'] + rest));
    assert(u[0] == '[');
    let s1 = u.skip(1);
    assert(s1 =~= spec_tags_items(tags) + seq![']'] + rest);
    if tags.len() == 0 {
        assert(s1 =~= seq![']'] + rest);
        assert(s1[0] == ']');
        lemma_ws_noop(s1);
        assert(s1.skip(1) =~= rest);
        assert(tags =~= Seq::<Seq<char>>::empty());
    } else {
        assert(spec_quote(tags[0])[0] == '"');
        assert(spec_tags_items(tags)[0] == '"');
        assert(s1[0] == '"');
        lemma_ws_noop(s1);
        lemma_parse_tags_items_of(tags, rest);
    }
}

/// The schema keys are pairwise distinct.
proof fn lemma_keys_distinct()
    ensures
        "type"@ != "highlight"@,
        "type"@ != "message"@,
        "type"@ != "away"@,
        "type"@ != "channel"@,
        "type"@ != "server"@,
        "type"@ != "date"@,
        "type"@ != "tags"@,
        "highlight"@ != "message"@,
        "highlight"@ != "away"@,
        "highlight"@ != "channel"@,
        "highlight"@ != "server"@,
        "highlight"@ != "date"@,
        "highlight"@ != "tags"@,
        "message"@ != "away"@,
        "message"@ != "channel"@,
        "message"@ != "server"@,
        "message"@ != "date"@,
        "message"@ != "tags"@,
        "away"@ != "channel"@,
        "away"@ != "server"@,
        "away"@ != "date"@,
        "away"@ != "tags"@,
        "channel"@ != "server"@,
        "channel"@ != "date"@,
        "channel"@ != "tags"@,
        "server"@ != "date"@,
        "server"@ != "tags"@,
        "date"@ != "tags"@,
{
    reveal_strlit("type");
    reveal_strlit("highlight");
    reveal_strlit("message");
    reveal_strlit("away");
    reveal_strlit("channel");
    reveal_strlit("server");
    reveal_strlit("date");
    reveal_strlit("tags");
    assert("type"@.len() == 4 && "highlight"@.len() == 9 && "message"@.len() == 7 && "away"@.len()
        == 4 && "channel"@.len() == 7 && "server"@.len() == 6 && "date"@.len() == 4
        && "tags"@.len() == 4);
    assert("type"@[0] == 't' && "type"@[1] == 'y');
    assert("away"@[0] == 'a');
    assert("date"@[0] == 'd');
    assert("tags"@[0] == 't' && "tags"@[1] == 'a');
    assert("message"@[0] == 'm');
    assert("channel"@[0] == 'c');
}

/// One canonical member followed by a comma: reading it records its
/// value and moves on to the next member.
proof fn lemma_member_comma(
    key: Seq<char>,
    val: Seq<char>,
    next: Seq<char>,
    acc: PartialView,
    acc2: PartialView,
)
    requires
        spec_parse_member_value(key, acc, val + (seq![','] + next)) == Some(
            (acc2, seq![','] + next),
        ),
        val.len() > 0,
        !is_json_ws(val[0]),
        next.len() > 0,
        !is_json_ws(next[0]),
    ensures
        spec_parse_members(spec_quote(key) + (seq![':'] + (val + (seq![','] + next))), acc)
            == spec_parse_members(next, acc2),
{
    let r1 = seq![':'] + (val + (seq![','] + next));
    let u = spec_quote(key) + r1;
    lemma_parse_string_of_quote(key, r1);
    assert(r1[0] == ':');
    lemma_ws_noop(r1);
    assert(r1.skip(1) =~= val + (seq![','] + next));
    assert((val + (seq![','] + next))[0] == val[0]);
    lemma_ws_noop(val + (seq![','] + next));
    let r5 = seq![','] + next;
    assert(r5[0] == ',');
    lemma_ws_noop(r5);
    assert(r5.skip(1) =~= next);
    lemma_ws_noop(next);
    assert(spec_parse_members(u, acc) == spec_parse_members(next, acc2));
}

/// The last canonical member, followed by the closing brace: reading it
/// completes the object.
proof fn lemma_member_close(
    key: Seq<char>,
    val: Seq<char>,
    tail: Seq<char>,
    acc: PartialView,
    acc2: PartialView,
)
    requires
        spec_parse_member_value(key, acc, val + (seq!['}'] + tail)) == Some(
            (acc2, seq!['}'] + tail),
        ),
        val.len() > 0,
        !is_json_ws(val[0]),
    ensures
        spec_parse_members(spec_quote(key) + (seq![':'] + (val + (seq!['}'] + tail))), acc)
            == Some((acc2, tail)),
{
    let r1 = seq![':'] + (val + (seq!['}'] + tail));
    let u = spec_quote(key) + r1;
    lemma_parse_string_of_quote(key, r1);
    assert(r1[0] == ':');
    lemma_ws_noop(r1);
    assert(r1.skip(1) =~= val + (seq!['}'] + tail));
    assert((val + (seq!['}'] + tail))[0] == val[0]);
    lemma_ws_noop(val + (seq!['}'] + tail));
    let r5 = seq!['}'] + tail;
    assert(r5[0] == '}');
    lemma_ws_noop(r5);
    assert(r5.skip(1) =~= tail);
    assert(spec_parse_members(u, acc) == Some((acc2, tail)));
}

/// Each key chunk of the canonical rendering is the quoted key between
/// its surrounding punctuation.
#[verifier::rlimit(100)]
proof fn lemma_key_chunks()
    ensures
        "{\"type\":"@ == seq!['{'] + (spec_quote("type"@) + seq![':']),
        ",\"highlight\":"@ == seq![','] + (spec_quote("highlight"@) + seq![':']),
        ",\"message\":"@ == seq![','] + (spec_quote("message"@) + seq![':']),
        ",\"away\":"@ == seq![','] + (spec_quote("away"@) + seq![':']),
        ",\"channel\":"@ == seq![','] + (spec_quote("channel"@) + seq![':']),
        ",\"server\":"@ == seq![','] + (spec_quote("server"@) + seq![':']),
        ",\"date\":"@ == seq![','] + (spec_quote("date"@) + seq![':']),
        ",\"tags\":"@ == seq![','] + (spec_quote("tags"@) + seq![':']),
{
    reveal_strlit("{\"type\":");
    reveal_strlit(",\"highlight\":");
    reveal_strlit(",\"message\":");
    reveal_strlit(",\"away\":");
    reveal_strlit(",\"channel\":");
    reveal_strlit(",\"server\":");
    reveal_strlit(",\"date\":");
    reveal_strlit(",\"tags\":");
    reveal_strlit("type");
    reveal_strlit("highlight");
    reveal_strlit("message");
    reveal_strlit("away");
    reveal_strlit("channel");
    reveal_strlit("server");
    reveal_strlit("date");
    reveal_strlit("tags");
    reveal_with_fuel(spec_escape, 11);
    assert("{\"type\":"@ =~= seq!['{'] + (spec_quote("type"@) + seq![':']));
    assert(",\"highlight\":"@ =~= seq![','] + (spec_quote("highlight"@) + seq![':']));
    assert(",\"message\":"@ =~= seq![','] + (spec_quote("message"@) + seq![':']));
    assert(",\"away\":"@ =~= seq![','] + (spec_quote("away"@) + seq![':']));
    assert(",\"channel\":"@ =~= seq![','] + (spec_quote("channel"@) + seq![':']));
    assert(",\"server\":"@ =~= seq![','] + (spec_quote("server"@) + seq![':']));
    assert(",\"date\":"@ =~= seq![','] + (spec_quote("date"@) + seq![':']));
    assert(",\"tags\":"@ =~= seq![','] + (spec_quote("tags"@) + seq![':']));
}

/// Round trip of the wire rendering: the characters of the wire form of
/// any message parse back to exactly that message.
#[verifier::rlimit(100)]
proof fn lemma_wire_round_trip(m: MessageView)
    ensures
        spec_parse_message(spec_wire(m)) == Some(m),
{
    let e = Seq::<char>::empty();
    let colon = seq![':'];
    let comma = seq![','];
    let close = seq!['}'];
    reveal_strlit("true");
    reveal_strlit("false");
    lemma_keys_distinct();
    lemma_key_chunks();

    let s8 = spec_quote("tags"@) + (colon + (spec_tags_chars(m.tags) + (close + e)));
    let s7 = spec_quote("date"@) + (colon + (spec_quote(m.date) + (comma + s8)));
    let s6 = spec_quote("server"@) + (colon + (spec_quote(m.server) + (comma + s7)));
    let s5 = spec_quote("channel"@) + (colon + (spec_quote(m.channel) + (comma + s6)));
    let s4 = spec_quote("away"@) + (colon + (spec_bool_chars(m.away) + (comma + s5)));
    let s3 = spec_quote("message"@) + (colon + (spec_quote(m.message) + (comma + s4)));
    let s2 = spec_quote("highlight"@) + (colon + (spec_bool_chars(m.highlight) + (comma + s3)));
    let s1 = spec_quote("type"@) + (colon + (spec_quote(m.msg_type) + (comma + s2)));

    let acc0 = spec_partial_empty();
    let acc1 = PartialView { msg_type: Some(m.msg_type), ..acc0 };
    let acc2 = PartialView { highlight: Some(m.highlight), ..acc1 };
    let acc3 = PartialView { message: Some(m.message), ..acc2 };
    let acc4 = PartialView { away: Some(m.away), ..acc3 };
    let acc5 = PartialView { channel: Some(m.channel), ..acc4 };
    let acc6 = PartialView { server: Some(m.server), ..acc5 };
    let acc7 = PartialView { date: Some(m.date), ..acc6 };
    let acc8 = PartialView { tags: Some(m.tags), ..acc7 };

    assert(spec_quote(m.msg_type)[0] == '"');
    assert(spec_quote(m.message)[0] == '"');
    assert(spec_quote(m.channel)[0] == '"');
    assert(spec_quote(m.server)[0] == '"');
    assert(spec_quote(m.date)[0] == '"');
    assert(spec_tags_chars(m.tags)[0] == '[');
    assert(spec_bool_chars(m.highlight).len() > 0 && !is_json_ws(spec_bool_chars(m.highlight)[0]))
        by {
        if m.highlight {
            assert("true"@[0] == 't');
        } else {
            assert("false"@[0] == 'f');
        }
    };
    assert(spec_bool_chars(m.away).len() > 0 && !is_json_ws(spec_bool_chars(m.away)[0])) by {
        if m.away {
            assert("true"@[0] == 't');
        } else {
            assert("false"@[0] == 'f');
        }
    };
    assert(spec_quote("type"@)[0] == '"');
    assert(spec_quote("highlight"@)[0] == '"');
    assert(spec_quote("message"@)[0] == '"');
    assert(spec_quote("away"@)[0] == '"');
    assert(spec_quote("channel"@)[0] == '"');
    assert(spec_quote("server"@)[0] == '"');
    assert(spec_quote("date"@)[0] == '"');
    assert(spec_quote("tags"@)[0] == '"');
    assert(s2[0] == '"' && s3[0] == '"' && s4[0] == '"' && s5[0] == '"' && s6[0] == '"' && s7[0]
        == '"' && s8[0] == '"');

    lemma_parse_tags_of(m.tags, close + e);
    assert(spec_parse_member_value("tags"@, acc7, spec_tags_chars(m.tags) + (close + e)) == Some(
        (acc8, close + e),
    ));
    lemma_member_close("tags"@, spec_tags_chars(m.tags), e, acc7, acc8);
    assert(spec_parse_members(s8, acc7) == Some((acc8, e)));

    lemma_parse_string_of_quote(m.date, comma + s8);
    assert(spec_parse_member_value("date"@, acc6, spec_quote(m.date) + (comma + s8)) == Some(
        (acc7, comma + s8),
    ));
    lemma_member_comma("date"@, spec_quote(m.date), s8, acc6, acc7);

    lemma_parse_string_of_quote(m.server, comma + s7);
    assert(spec_parse_member_value("server"@, acc5, spec_quote(m.server) + (comma + s7)) == Some(
        (acc6, comma + s7),
    ));
    lemma_member_comma("server"@, spec_quote(m.server), s7, acc5, acc6);

    lemma_parse_string_of_quote(m.channel, comma + s6);
    assert(spec_parse_member_value("channel"@, acc4, spec_quote(m.channel) + (comma + s6))
        == Some((acc5, comma + s6)));
    lemma_member_comma("channel"@, spec_quote(m.channel), s6, acc4, acc5);

    lemma_parse_bool_of(m.away, comma + s5);
    assert(spec_parse_member_value("away"@, acc3, spec_bool_chars(m.away) + (comma + s5)) == Some(
        (acc4, comma + s5),
    ));
    lemma_member_comma("away"@, spec_bool_chars(m.away), s5, acc3, acc4);

    lemma_parse_string_of_quote(m.message, comma + s4);
    assert(spec_parse_member_value("message"@, acc2, spec_quote(m.message) + (comma + s4))
        == Some((acc3, comma + s4)));
    lemma_member_comma("message"@, spec_quote(m.message), s4, acc2, acc3);

    lemma_parse_bool_of(m.highlight, comma + s3);
    assert(spec_parse_member_value("highlight"@, acc1, spec_bool_chars(m.highlight) + (comma
        + s3)) == Some((acc2, comma + s3)));
    lemma_member_comma("highlight"@, spec_bool_chars(m.highlight), s3, acc1, acc2);

    lemma_parse_string_of_quote(m.msg_type, comma + s2);
    assert(spec_parse_member_value("type"@, acc0, spec_quote(m.msg_type) + (comma + s2)) == Some(
        (acc1, comma + s2),
    ));
    lemma_member_comma("type"@, spec_quote(m.msg_type), s2, acc0, acc1);

    assert(spec_parse_members(s1, acc0) == Some((acc8, e)));

    let kq1 = spec_quote("type"@);
    let kq2 = spec_quote("highlight"@);
    let kq3 = spec_quote("message"@);
    let kq4 = spec_quote("away"@);
    let kq5 = spec_quote("channel"@);
    let kq6 = spec_quote("server"@);
    let kq7 = spec_quote("date"@);
    let kq8 = spec_quote("tags"@);
    let t = spec_tags_chars(m.tags);

    assert(close + e =~= close);
    let u8 = ",\"tags\":"@ + (t + close);
    lemma_concat_assoc(comma, kq8 + colon, t + close);
    lemma_concat_assoc(kq8, colon, t + close);
    assert(u8 == comma + s8);

    let u7 = ",\"date\":"@ + (spec_quote(m.date) + u8);
    lemma_concat_assoc(comma, kq7 + colon, spec_quote(m.date) + u8);
    lemma_concat_assoc(kq7, colon, spec_quote(m.date) + u8);
    assert(u7 == comma + s7);

    let u6 = ",\"server\":"@ + (spec_quote(m.server) + u7);
    lemma_concat_assoc(comma, kq6 + colon, spec_quote(m.server) + u7);
    lemma_concat_assoc(kq6, colon, spec_quote(m.server) + u7);
    assert(u6 == comma + s6);

    let u5 = ",\"channel\":"@ + (spec_quote(m.channel) + u6);
    lemma_concat_assoc(comma, kq5 + colon, spec_quote(m.channel) + u6);
    lemma_concat_assoc(kq5, colon, spec_quote(m.channel) + u6);
    assert(u5 == comma + s5);

    let u4 = ",\"away\":"@ + (spec_bool_chars(m.away) + u5);
    lemma_concat_assoc(comma, kq4 + colon, spec_bool_chars(m.away) + u5);
    lemma_concat_assoc(kq4, colon, spec_bool_chars(m.away) + u5);
    assert(u4 == comma + s4);

    let u3 = ",\"message\":"@ + (spec_quote(m.message) + u4);
    lemma_concat_assoc(comma, kq3 + colon, spec_quote(m.message) + u4);
    lemma_concat_assoc(kq3, colon, spec_quote(m.message) + u4);
    assert(u3 == comma + s3);

    let u2 = ",\"highlight\":"@ + (spec_bool_chars(m.highlight) + u3);
    lemma_concat_assoc(comma, kq2 + colon, spec_bool_chars(m.highlight) + u3);
    lemma_concat_assoc(kq2, colon, spec_bool_chars(m.highlight) + u3);
    assert(u2 == comma + s2);

    let u1 = "{\"type\":"@ + (spec_quote(m.msg_type) + u2);
    lemma_concat_assoc(seq!['{'], kq1 + colon, spec_quote(m.msg_type) + u2);
    lemma_concat_assoc(kq1, colon, spec_quote(m.msg_type) + u2);
    assert(u1 == seq!['{'] + s1);

    let w = spec_wire(m);
    assert(w == u1);
    assert(w[0] == '{');
    lemma_ws_noop(w);
    assert(w.skip(1) =~= s1);
    assert(s1[0] == '"');
    lemma_ws_noop(s1);
    assert(spec_parse_message(w) == spec_complete(acc8));
    assert(spec_complete(acc8) == Some(
        MessageView {
            msg_type: m.msg_type,
            highlight: m.highlight,
            message: m.message,
            away: m.away,
            channel: m.channel,
            server: m.server,
            date: m.date,
            tags: m.tags,
        },
    ));
    assert(m == MessageView {
        msg_type: m.msg_type,
        highlight: m.highlight,
        message: m.message,
        away: m.away,
        channel: m.channel,
        server: m.server,
        date: m.date,
        tags: m.tags,
    });
}

/// The codec round trip: the wire bytes of any message are valid UTF-8,
/// they decode back to the wire characters, and those characters parse
/// back to exactly the encoded message. With the contracts of [`encode`]
/// and [`decode`], decoding an encoded message always succeeds and
/// returns an equal message.
pub proof fn lemma_round_trip(m: MessageView)
    ensures
        valid_utf8(spec_wire_bytes(m)),
        decode_utf8(spec_wire_bytes(m)) == spec_wire(m),
        spec_parse_message(spec_wire(m)) == Some(m),
{
    encode_utf8_valid_utf8(spec_wire(m));
    encode_utf8_decode_utf8(spec_wire(m));
    lemma_wire_round_trip(m);
}

} // verus!

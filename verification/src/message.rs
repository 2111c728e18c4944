//! The decoded chat event and the rules that read it.

use vstd::prelude::*;
use vstd::string::StrSliceExecFns;

use crate::text::str_eq;

verus! {

/// One decoded chat event, as carried on the wire.
///
/// A message is built once per delivery by the decoder and never changed
/// afterwards. `tags` is an ordered list of free-form classifiers; a tag of
/// the form `nick_<name>` encodes the sender of the event.
#[derive(Debug, PartialEq)]
pub struct Message {
    pub msg_type: String,
    pub highlight: bool,
    pub message: String,
    pub away: bool,
    pub channel: String,
    pub server: String,
    pub date: String,
    pub tags: Vec<String>,
}

/// The mathematical value of a [`Message`]: every string as its character
/// sequence.
pub struct MessageView {
    pub msg_type: Seq<char>,
    pub highlight: bool,
    pub message: Seq<char>,
    pub away: bool,
    pub channel: Seq<char>,
    pub server: Seq<char>,
    pub date: Seq<char>,
    pub tags: Seq<Seq<char>>,
}

impl View for Message {
    type V = MessageView;

    open spec fn view(&self) -> MessageView {
        MessageView {
            msg_type: self.msg_type@,
            highlight: self.highlight,
            message: self.message@,
            away: self.away,
            channel: self.channel@,
            server: self.server@,
            date: self.date@,
            tags: self.tags.deep_view(),
        }
    }
}

/// True when the tag encodes a sender: the prefix `nick_` followed by a
/// non-empty name.
pub open spec fn is_nick_tag(tag: Seq<char>) -> bool {
    tag.len() > 5 && tag.subrange(0, 5) == "nick_"@
}

/// The sender encoded in the tag list: the remainder of the first tag of the
/// form `nick_<name>`, or nothing when no tag has that form.
pub open spec fn spec_sender(tags: Seq<Seq<char>>) -> Option<Seq<char>>
    decreases tags.len(),
{
    if tags.len() == 0 {
        None
    } else if is_nick_tag(tags[0]) {
        Some(tags[0].subrange(5, tags[0].len() as int))
    } else {
        spec_sender(tags.drop_first())
    }
}

/// The notification headline for a message: the sender (or `unknown`) for a
/// private message, the channel for everything else.
pub open spec fn spec_summary(m: MessageView) -> Seq<char> {
    if m.msg_type == "private"@ {
        match spec_sender(m.tags) {
            Some(s) => s,
            None => "unknown"@,
        }
    } else {
        m.channel
    }
}

/// The remainder of `tag` after `nick_` when the tag encodes a sender.
fn nick_suffix(tag: &str) -> (r: Option<String>)
    ensures
        r is Some <==> is_nick_tag(tag@),
        r matches Some(s) ==> s@ == tag@.subrange(5, tag@.len() as int),
{
    proof {
        reveal_strlit("nick_");
    }
    let n = tag.unicode_len();
    if n < 6 {
        proof {
            assert(!is_nick_tag(tag@));
        }
        return None;
    }
    if tag.get_char(0) == 'n' && tag.get_char(1) == 'i' && tag.get_char(2) == 'c'
        && tag.get_char(3) == 'k' && tag.get_char(4) == '_' {
        proof {
            assert(tag@.subrange(0, 5) =~= "nick_"@);
        }
        Some(tag.substring_char(5, n).to_owned())
    } else {
        proof {
            assert(tag@.subrange(0, 5) != "nick_"@) by {
                if tag@.subrange(0, 5) == "nick_"@ {
                    assert(tag@.subrange(0, 5)[0] == 'n');
                    assert(tag@.subrange(0, 5)[1] == 'i');
                    assert(tag@.subrange(0, 5)[2] == 'c');
                    assert(tag@.subrange(0, 5)[3] == 'k');
                    assert(tag@.subrange(0, 5)[4] == '_');
                }
            }
        }
        None
    }
}

impl Message {
    /// The sender of the message, read from the first `nick_<name>` tag.
    pub fn sender(&self) -> (r: Option<String>)
        ensures
            r is Some <==> spec_sender(self@.tags) is Some,
            r matches Some(s) ==> spec_sender(self@.tags) == Some(s@),
    {
        let n = self.tags.len();
        proof {
            assert(self@.tags.skip(0) =~= self@.tags);
        }
        for i in 0..n
            invariant
                n == self.tags.len(),
                spec_sender(self@.tags) == spec_sender(self@.tags.skip(i as int)),
        {
            proof {
                assert(self@.tags.skip(i as int)[0] == self@.tags[i as int]);
            }
            match nick_suffix(self.tags[i].as_str()) {
                Some(s) => {
                    return Some(s);
                }
                None => {
                    proof {
                        assert(self@.tags.skip(i as int).drop_first() =~= self@.tags.skip(
                            i as int + 1,
                        ));
                    }
                }
            }
        }
        proof {
            assert(self@.tags.skip(n as int) =~= Seq::<Seq<char>>::empty());
        }
        None
    }

    /// The notification headline: the sender (or `unknown`) for a private
    /// message, the channel otherwise.
    pub fn summary(&self) -> (r: String)
        ensures
            r@ == spec_summary(self@),
    {
        if str_eq(self.msg_type.as_str(), "private") {
            match self.sender() {
                Some(s) => s,
                None => "unknown".to_owned(),
            }
        } else {
            self.channel.clone()
        }
    }

    /// The notification body: the message text, verbatim.
    pub fn body(&self) -> (r: String)
        ensures
            r@ == self@.message,
    {
        self.message.clone()
    }
}

} // verus!

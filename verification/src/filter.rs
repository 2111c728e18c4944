//! The configuration-derived suppression rule set.

use vstd::prelude::*;

use crate::message::{Message, MessageView, spec_sender};
use crate::text::str_eq;

verus! {

/// The three ignore-sets built from configuration at startup. Matching is
/// case-sensitive; the sets are never changed after construction.
pub struct Filter {
    ignored_channels: Vec<String>,
    ignored_senders: Vec<String>,
    ignored_tags: Vec<String>,
}

/// The mathematical value of a [`Filter`]: three sets of character
/// sequences.
pub struct FilterView {
    pub ignored_channels: Set<Seq<char>>,
    pub ignored_senders: Set<Seq<char>>,
    pub ignored_tags: Set<Seq<char>>,
}

impl View for Filter {
    type V = FilterView;

    closed spec fn view(&self) -> FilterView {
        FilterView {
            ignored_channels: self.ignored_channels.deep_view().to_set(),
            ignored_senders: self.ignored_senders.deep_view().to_set(),
            ignored_tags: self.ignored_tags.deep_view().to_set(),
        }
    }
}

/// True when no two entries of the list are equal.
pub open spec fn no_dups(s: Seq<Seq<char>>) -> bool {
    forall|i: int, j: int| 0 <= i < j < s.len() ==> s[i] != s[j]
}

/// The set of values carried by the present entries of a list of optional
/// strings.
pub open spec fn present_values(items: Seq<Option<String>>) -> Set<Seq<char>> {
    Set::new(
        |x: Seq<char>|
            exists|i: int|
                {
                    &&& 0 <= i < items.len()
                    &&& (#[trigger] items[i]) matches Some(s)
                    &&& s@ == x
                },
    )
}

/// True when `s` is one of the entries of `v`.
fn contains_str(v: &Vec<String>, s: &str) -> (r: bool)
    ensures
        r == v.deep_view().contains(s@),
{
    let n = v.len();
    for i in 0..n
        invariant
            n == v.len(),
            forall|j: int| 0 <= j < i ==> v.deep_view()[j] != s@,
    {
        if str_eq(v[i].as_str(), s) {
            proof {
                assert(v.deep_view()[i as int] == s@);
            }
            return true;
        }
    }
    false
}

/// Appends `s` unless an equal entry is already present, keeping the list
/// free of duplicates.
fn push_unique(v: &mut Vec<String>, s: String)
    requires
        no_dups(old(v).deep_view()),
    ensures
        no_dups(final(v).deep_view()),
        forall|x: Seq<char>|
            #[trigger] final(v).deep_view().contains(x) <==> (old(v).deep_view().contains(x) || x
                == s@),
{
    if !contains_str(v, s.as_str()) {
        let ghost before = v.deep_view();
        v.push(s);
        proof {
            assert(final(v).deep_view() =~= before.push(s@));
            assert(forall|x: Seq<char>|
                #[trigger] before.push(s@).contains(x) <==> (before.contains(x) || x == s@)) by {
                assert(forall|x: Seq<char>| #[trigger] before.contains(x) ==> before.push(s@).contains(x))
                    by {
                    assert(forall|x: Seq<char>| before.contains(x) ==> exists|i: int|
                        0 <= i < before.len() && before[i] == x);
                    assert(forall|i: int|
                        0 <= i < before.len() ==> before.push(s@)[i] == #[trigger] before[i]);
                };
                assert(before.push(s@)[before.len() as int] == s@);
            };
        }
    }
}

/// Collects the present entries of `items` into a duplicate-free list whose
/// members are exactly the present values.
fn collect_present(items: &Vec<Option<String>>) -> (r: Vec<String>)
    ensures
        no_dups(r.deep_view()),
        r.deep_view().to_set() == present_values(items@),
{
    let mut out: Vec<String> = Vec::new();
    let n = items.len();
    proof {
        assert(out.deep_view() =~= Seq::<Seq<char>>::empty());
    }
    for i in 0..n
        invariant
            n == items.len(),
            no_dups(out.deep_view()),
            forall|x: Seq<char>|
                #[trigger] out.deep_view().contains(x) <==> present_values(items@.take(i as int)).contains(
                    x,
                ),
    {
        let ghost prefix = items@.take(i as int);
        let ghost prefix1 = items@.take(i as int + 1);
        proof {
            assert(prefix1 =~= prefix.push(items@[i as int]));
            assert(forall|x: Seq<char>|
                present_values(prefix).contains(x) ==> #[trigger] present_values(prefix1).contains(
                    x,
                )) by {
                assert forall|x: Seq<char>|
                    present_values(prefix).contains(x) implies #[trigger] present_values(
                    prefix1,
                ).contains(x) by {
                    let k = choose|k: int|
                        {
                            &&& 0 <= k < prefix.len()
                            &&& (#[trigger] prefix[k]) matches Some(s)
                            &&& s@ == x
                        };
                    assert(prefix1[k] == prefix[k]);
                };
            };
        }
        match &items[i] {
            Some(s) => {
                push_unique(&mut out, s.clone());
                proof {
                    assert(prefix1[i as int] matches Some(t) && t@ == s@);
                    assert forall|x: Seq<char>|
                        present_values(prefix1).contains(x) implies (present_values(
                        prefix,
                    ).contains(x) || x == s@) by {
                        let k = choose|k: int|
                            {
                                &&& 0 <= k < prefix1.len()
                                &&& (#[trigger] prefix1[k]) matches Some(t)
                                &&& t@ == x
                            };
                        if k < i as int {
                            assert(prefix[k] == prefix1[k]);
                        }
                    };
                }
            }
            None => {
                proof {
                    assert forall|x: Seq<char>|
                        present_values(prefix1).contains(x) implies present_values(
                        prefix,
                    ).contains(x) by {
                        let k = choose|k: int|
                            {
                                &&& 0 <= k < prefix1.len()
                                &&& (#[trigger] prefix1[k]) matches Some(t)
                                &&& t@ == x
                            };
                        assert(k != i as int);
                        assert(prefix[k] == prefix1[k]);
                    };
                }
            }
        }
    }
    proof {
        assert(items@.take(n as int) =~= items@);
        assert(out.deep_view().to_set() =~= present_values(items@));
    }
    out
}

/// True when the filter suppresses the message: its channel, its sender or
/// one of its tags is in the corresponding ignore-set.
pub open spec fn spec_should_filter(f: FilterView, m: MessageView) -> bool {
    ||| f.ignored_channels.contains(m.channel)
    ||| (spec_sender(m.tags) matches Some(s) && f.ignored_senders.contains(s))
    ||| exists|i: int| 0 <= i < m.tags.len() && f.ignored_tags.contains(#[trigger] m.tags[i])
}

impl Filter {
    /// Builds the ignore-sets from the configured lists. An absent entry
    /// (one the configuration could not read as a string) is skipped; the
    /// rest are kept as a set, without duplicates.
    pub fn new(
        ignored_channels: &Vec<Option<String>>,
        ignored_senders: &Vec<Option<String>>,
        ignored_tags: &Vec<Option<String>>,
    ) -> (r: Filter)
        ensures
            r@.ignored_channels == present_values(ignored_channels@),
            r@.ignored_senders == present_values(ignored_senders@),
            r@.ignored_tags == present_values(ignored_tags@),
    {
        Filter {
            ignored_channels: collect_present(ignored_channels),
            ignored_senders: collect_present(ignored_senders),
            ignored_tags: collect_present(ignored_tags),
        }
    }

    /// Decides suppression for one message. The decision is a pure function
    /// of the filter's sets and the message's value: equal inputs always
    /// yield the same answer.
    pub fn should_filter(&self, message: &Message) -> (r: bool)
        ensures
            r == spec_should_filter(self@, message@),
    {
        if contains_str(&self.ignored_channels, message.channel.as_str()) {
            return true;
        }
        match message.sender() {
            Some(s) => {
                if contains_str(&self.ignored_senders, s.as_str()) {
                    return true;
                }
            }
            None => {}
        }
        let n = message.tags.len();
        for i in 0..n
            invariant
                n == message.tags.len(),
                !self@.ignored_channels.contains(message@.channel),
                spec_sender(message@.tags) matches Some(s) ==> !self@.ignored_senders.contains(s),
                forall|j: int| 0 <= j < i ==> !self@.ignored_tags.contains(#[trigger] message@.tags[j]),
        {
            if contains_str(&self.ignored_tags, message.tags[i].as_str()) {
                proof {
                    assert(self@.ignored_tags.contains(message@.tags[i as int]));
                }
                return true;
            }
        }
        false
    }
}

/// Suppression is a pure function of the filter's sets and the message's
/// value: any two evaluations of the same filter on the same message
/// answer alike.
pub proof fn lemma_should_filter_deterministic(f: FilterView, m: MessageView, r1: bool, r2: bool)
    requires
        r1 == spec_should_filter(f, m),
        r2 == spec_should_filter(f, m),
    ensures
        r1 == r2,
{
}

/// If the message's channel is in the ignored channels, the message is
/// suppressed, whatever its sender and tags are.
pub proof fn lemma_ignored_channel_filters(f: FilterView, m: MessageView)
    requires
        f.ignored_channels.contains(m.channel),
    ensures
        spec_should_filter(f, m),
{
}

/// If the message's channel is not ignored but its sender is in the ignored
/// senders, the message is suppressed.
pub proof fn lemma_ignored_sender_filters(f: FilterView, m: MessageView)
    requires
        !f.ignored_channels.contains(m.channel),
        spec_sender(m.tags) matches Some(s) && f.ignored_senders.contains(s),
    ensures
        spec_should_filter(f, m),
{
}

/// If neither the channel, nor the sender, nor any tag matches its
/// ignore-set, the message is not suppressed.
pub proof fn lemma_unmatched_passes(f: FilterView, m: MessageView)
    requires
        !f.ignored_channels.contains(m.channel),
        spec_sender(m.tags) matches Some(s) ==> !f.ignored_senders.contains(s),
        forall|i: int| 0 <= i < m.tags.len() ==> !f.ignored_tags.contains(#[trigger] m.tags[i]),
    ensures
        !spec_should_filter(f, m),
{
}

} // verus!

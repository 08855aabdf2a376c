use std::collections::HashMap;

use vstd::prelude::*;

use crate::ids::ChannelId;

verus! {

broadcast use vstd::std_specs::hash::group_hash_axioms;

/// A subscriber of a channel: the task in a slot of the task group, under
/// the slot's generation.
#[derive(Debug, Clone, Copy, PartialEq, Eq, Structural)]
pub struct Subscriber {
    pub slot: usize,
    pub generation: u64,
}

/// The subscribers of `subs` that a publication from `origin` reaches: all of
/// them, in order, but `origin` itself when `exclude_origin` is set.
pub open spec fn recipients(subs: Seq<Subscriber>, origin: Subscriber, exclude_origin: bool) -> Seq<Subscriber>
    decreases subs.len(),
{
    if subs.len() == 0 {
        Seq::empty()
    } else {
        let rest = recipients(subs.drop_last(), origin, exclude_origin);
        if exclude_origin && subs.last() == origin {
            rest
        } else {
            rest.push(subs.last())
        }
    }
}

/// Each recipient is a subscriber, and never the excluded origin.
pub proof fn lemma_recipients(subs: Seq<Subscriber>, origin: Subscriber, exclude_origin: bool)
    ensures
        recipients(subs, origin, exclude_origin).len() <= subs.len(),
        forall|j: int|
            0 <= j < recipients(subs, origin, exclude_origin).len() ==> subs.contains(
                #[trigger] recipients(subs, origin, exclude_origin)[j],
            ) && !(exclude_origin && recipients(subs, origin, exclude_origin)[j] == origin),
    decreases subs.len(),
{
    if subs.len() > 0 {
        lemma_recipients(subs.drop_last(), origin, exclude_origin);
        let rest = recipients(subs.drop_last(), origin, exclude_origin);
        assert forall|j: int| 0 <= j < rest.len() implies subs.contains(#[trigger] rest[j]) by {
            let k = choose|k: int| 0 <= k < subs.drop_last().len() && subs.drop_last()[k] == rest[j];
            assert(subs[k] == rest[j]);
        }
        assert(subs[subs.len() - 1] == subs.last());
    }
}

/// A list of subscribers without repeats yields recipients without repeats.
pub proof fn lemma_recipients_distinct(subs: Seq<Subscriber>, origin: Subscriber, exclude_origin: bool)
    requires
        subs.no_duplicates(),
    ensures
        recipients(subs, origin, exclude_origin).no_duplicates(),
    decreases subs.len(),
{
    if subs.len() > 0 {
        let d = subs.drop_last();
        assert(d.no_duplicates()) by {
            assert forall|a: int, b: int| 0 <= a < b < d.len() implies d[a] != d[b] by {
                assert(d[a] == subs[a] && d[b] == subs[b]);
            }
        }
        lemma_recipients_distinct(d, origin, exclude_origin);
        lemma_recipients(d, origin, exclude_origin);
        let rest = recipients(d, origin, exclude_origin);
        assert(!rest.contains(subs.last())) by {
            if rest.contains(subs.last()) {
                let k = choose|k: int| 0 <= k < rest.len() && rest[k] == subs.last();
                assert(d.contains(rest[k]));
                let m = choose|m: int| 0 <= m < d.len() && d[m] == rest[k];
                assert(subs[m] == subs[subs.len() - 1]);
            }
        }
    }
}

/// Call-scoped publish/subscribe: each channel has an ordered list of
/// subscribers; a channel comes into being at its first subscription.
pub struct MsgHub {
    channels: HashMap<u64, Vec<Subscriber>>,
}

pub open spec fn channel_key(c: ChannelId) -> u64 {
    match c {
        ChannelId::Call(k) => k,
    }
}

impl MsgHub {
    /// The subscribers of each channel, in order of subscription.
    pub closed spec fn subscribers(&self, c: ChannelId) -> Seq<Subscriber> {
        if self.channels@.contains_key(channel_key(c)) {
            self.channels@[channel_key(c)]@
        } else {
            Seq::empty()
        }
    }

    pub fn new() -> (r: MsgHub)
        ensures
            forall|c: ChannelId| #[trigger] r.subscribers(c) == Seq::<Subscriber>::empty(),
    {
        MsgHub { channels: HashMap::new() }
    }

    fn key(channel: ChannelId) -> (r: u64)
        ensures
            r == channel_key(channel),
    {
        match channel {
            ChannelId::Call(k) => k,
        }
    }

    /// Adds `sub` at the end of the channel's subscribers, unless it is already there.
    pub fn subcribe(&mut self, channel: ChannelId, sub: Subscriber)
        ensures
            old(self).subscribers(channel).contains(sub) ==> final(self).subscribers(channel) == old(
                self,
            ).subscribers(channel),
            !old(self).subscribers(channel).contains(sub) ==> final(self).subscribers(channel) == old(
                self,
            ).subscribers(channel).push(sub),
            forall|c: ChannelId| c != channel ==> #[trigger] final(self).subscribers(c) == old(self).subscribers(c),
            old(self).subscribers(channel).no_duplicates() ==> final(self).subscribers(channel).no_duplicates(),
    {
        let k = Self::key(channel);
        let mut subs = match self.channels.remove(&k) {
            Some(v) => v,
            None => Vec::new(),
        };
        let ghost s0 = subs@;
        assert(s0 == old(self).subscribers(channel));
        let mut i: usize = 0;
        let mut found = false;
        while i < subs.len()
            invariant
                i <= subs@.len(),
                subs@ == s0,
                found == exists|j: int| 0 <= j < i && subs@[j] == sub,
            decreases subs@.len() - i,
        {
            if subs[i] == sub {
                found = true;
            }
            i = i + 1;
        }
        if !found {
            subs.push(sub);
        }
        self.channels.insert(k, subs);
        proof {
            assert forall|c: ChannelId| c != channel implies #[trigger] self.subscribers(c) == old(self).subscribers(c) by {
                assert(channel_key(c) != k);
            }
        }
    }

    /// Removes `sub` from the channel's subscribers.
    pub fn unsubcribe(&mut self, channel: ChannelId, sub: Subscriber)
        ensures
            final(self).subscribers(channel) == old(self).subscribers(channel).filter(|s: Subscriber| s != sub),
            forall|j: int|
                0 <= j < final(self).subscribers(channel).len() ==> old(self).subscribers(channel).contains(
                    #[trigger] final(self).subscribers(channel)[j],
                ) && final(self).subscribers(channel)[j] != sub,
            forall|c: ChannelId| c != channel ==> #[trigger] final(self).subscribers(c) == old(self).subscribers(c),
            old(self).subscribers(channel).no_duplicates() ==> final(self).subscribers(channel).no_duplicates(),
    {
        let k = Self::key(channel);
        let subs = match self.channels.remove(&k) {
            Some(v) => v,
            None => Vec::new(),
        };
        let ghost s0 = subs@;
        assert(s0 == old(self).subscribers(channel));
        let mut kept: Vec<Subscriber> = Vec::new();
        let mut i: usize = 0;
        while i < subs.len()
            invariant
                i <= subs@.len(),
                subs@ == s0,
                kept@ == s0.take(i as int).filter(|s: Subscriber| s != sub),
                forall|j: int| 0 <= j < kept@.len() ==> s0.contains(#[trigger] kept@[j]) && kept@[j] != sub,
                forall|j: int| 0 <= j < kept@.len() ==> exists|m: int| 0 <= m < i && s0[m] == #[trigger] kept@[j],
                s0.no_duplicates() ==> kept@.no_duplicates(),
            decreases subs@.len() - i,
        {
            proof {
                assert(s0.take(i + 1).drop_last() == s0.take(i as int));
                reveal_with_fuel(Seq::filter, 1);
            }
            if subs[i] != sub {
                let ghost k0 = kept@;
                kept.push(subs[i]);
                proof {
                    if s0.no_duplicates() {
                        assert forall|a: int, b: int| 0 <= a < b < kept@.len() implies kept@[a] != kept@[b] by {
                            if b == kept@.len() - 1 {
                                let m = choose|m: int| 0 <= m < i && s0[m] == #[trigger] k0[a];
                                assert(k0[a] == kept@[a]);
                            }
                        }
                    }
                    assert forall|j: int| 0 <= j < kept@.len() implies exists|m: int| 0 <= m < i + 1 && s0[m] == #[trigger] kept@[j] by {
                        if j < k0.len() {
                            assert(k0[j] == kept@[j]);
                            let m = choose|m: int| 0 <= m < i && s0[m] == #[trigger] k0[j];
                        } else {
                            assert(s0[i as int] == kept@[j]);
                        }
                    }
                }
            }
            i = i + 1;
        }
        assert(s0.take(s0.len() as int) == s0);
        self.channels.insert(k, kept);
        proof {
            assert forall|c: ChannelId| c != channel implies #[trigger] self.subscribers(c) == old(self).subscribers(c) by {
                assert(channel_key(c) != k);
            }
        }
    }

    /// The subscribers a payload published by `origin` on `channel` is
    /// delivered to: every current subscriber, in order, but `origin` when
    /// `exclude_origin` is set.
    pub fn publish(&self, channel: ChannelId, origin: Subscriber, exclude_origin: bool) -> (r: Vec<Subscriber>)
        ensures
            r@ == recipients(self.subscribers(channel), origin, exclude_origin),
    {
        let k = Self::key(channel);
        let mut out: Vec<Subscriber> = Vec::new();
        match self.channels.get(&k) {
            Some(subs) => {
                let ghost s0 = subs@;
                let mut i: usize = 0;
                while i < subs.len()
                    invariant
                        i <= s0.len(),
                        subs@ == s0,
                        out@ == recipients(s0.take(i as int), origin, exclude_origin),
                    decreases s0.len() - i,
                {
                    proof {
                        assert(s0.take(i + 1).drop_last() == s0.take(i as int));
                    }
                    if !(exclude_origin && subs[i] == origin) {
                        out.push(subs[i]);
                    }
                    i = i + 1;
                }
                assert(s0.take(s0.len() as int) == s0);
            },
            None => {},
        }
        out
    }

    /// The subscribers a payload sent directly to `to` on `channel` is
    /// delivered to: `to` alone, if it is subscribed there.
    pub fn publish_direct(&self, channel: ChannelId, to: Subscriber) -> (r: Vec<Subscriber>)
        ensures
            r@ == (if self.subscribers(channel).contains(to) {
                seq![to]
            } else {
                Seq::<Subscriber>::empty()
            }),
    {
        let k = Self::key(channel);
        let mut out: Vec<Subscriber> = Vec::new();
        match self.channels.get(&k) {
            Some(subs) => {
                let mut i: usize = 0;
                while i < subs.len()
                    invariant
                        i <= subs@.len(),
                        subs@ == self.subscribers(channel),
                        out@.len() == 0,
                        forall|j: int| 0 <= j < i ==> subs@[j] != to,
                    decreases subs@.len() - i,
                {
                    if subs[i] == to {
                        out.push(to);
                        assert(out@ =~= seq![to]);
                        return out;
                    }
                    i = i + 1;
                }
            },
            None => {},
        }
        out
    }
}

} // verus!

//! All channels, by their ids. A channel comes into being when it is first used.

use dashmap::DashMap;
use tokio::sync::broadcast::Receiver;
use vstd::prelude::*;

use crate::channel::{
    fresh, subscription_of, texts, views, Channel, ChannelState, Delivery, Queued, LIVE_CAPACITY,
    MAX_QUEUE,
};
use crate::tables::{
    channel_put, channel_table, channel_take, channels_retain_live, new_channels,
};

verus! {

/// The states of channels.
pub open spec fn states(table: Map<Seq<char>, Channel>) -> Map<Seq<char>, ChannelState> {
    table.map_values(|ch: Channel| ch.state())
}

/// Is `ch` what channel `id` is when it is used at `now`: the channel there is,
/// or a new one with nothing queued and nothing sent?
pub open spec fn is_opened(
    channels: Map<Seq<char>, ChannelState>,
    id: Seq<char>,
    now: u128,
    ch: ChannelState,
) -> bool {
    if channels.contains_key(id) {
        ch == channels[id].touch(now)
    } else {
        &&& ch.queue == Seq::<Queued>::empty()
        &&& ch.touched == now
        &&& ch.live.unused()
        &&& ch.live.capacity == LIVE_CAPACITY
    }
}

/// Is `after` what a sweep at `now` leaves of the channels `before`? Each stays
/// or goes by the number of listeners that it is found to have; but for that
/// count, those that stay are as they were.
pub open spec fn swept_channels(
    before: Map<Seq<char>, Channel>,
    after: Map<Seq<char>, Channel>,
    now: u128,
    ttl: u128,
) -> bool {
    &&& after.dom().subset_of(before.dom())
    &&& forall|id: Seq<char>| #[trigger]
        before.contains_key(id) ==> exists|receivers: usize|
            {
                &&& #[trigger] before[id].state().can_have(receivers)
                &&& after.contains_key(id) == before[id].state().kept(receivers, now, ttl)
                &&& after.contains_key(id) ==> after[id].state() == before[id].state().counted(
                    receivers as nat,
                )
            }
}

/// The same of the channels' states.
pub open spec fn swept_states(
    before: Map<Seq<char>, ChannelState>,
    after: Map<Seq<char>, ChannelState>,
    now: u128,
    ttl: u128,
) -> bool {
    &&& after.dom().subset_of(before.dom())
    &&& forall|id: Seq<char>| #[trigger]
        before.contains_key(id) ==> exists|receivers: usize|
            {
                &&& #[trigger] before[id].can_have(receivers)
                &&& after.contains_key(id) == before[id].kept(receivers, now, ttl)
                &&& after.contains_key(id) ==> after[id] == before[id].counted(
                    receivers as nat,
                )
            }
}

/// No channel has too many messages queued.
pub open spec fn short_queues(channels: Map<Seq<char>, ChannelState>) -> bool {
    forall|id: Seq<char>| #[trigger]
        channels.contains_key(id) ==> channels[id].queue.len() <= MAX_QUEUE
}

/// Fewer channels have no longer queues.
proof fn lemma_short_submap(
    channels: Map<Seq<char>, ChannelState>,
    fewer: Map<Seq<char>, ChannelState>,
)
    requires
        short_queues(channels),
        fewer.submap_of(channels),
    ensures
        short_queues(fewer),
{
    assert forall|id: Seq<char>| #[trigger] fewer.contains_key(id) implies fewer[id].queue.len()
        <= MAX_QUEUE by {
        assert(fewer.dom().contains(id));
        assert(channels.contains_key(id));
    }
}

/// The channels.
pub struct Hub {
    channels: DashMap<String, Channel>,
}

impl Hub {
    /// The channels' states, by id.
    pub closed spec fn channels(&self) -> Map<Seq<char>, ChannelState> {
        states(channel_table(self.channels))
    }

    /// The invariant: every queue stays short.
    pub open spec fn wf(&self) -> bool {
        short_queues(self.channels())
    }

    /// No channels.
    pub fn new() -> (hub: Hub)
        ensures
            hub.wf(),
            hub.channels() == Map::<Seq<char>, ChannelState>::empty(),
    {
        let hub: Hub = Hub { channels: new_channels() };
        assert(hub.channels() =~= Map::empty());
        hub
    }

    /// Takes a channel out to use it at `now`; a new one if there is none.
    fn channel(&mut self, id: &str, now: u128) -> (ch: Channel)
        requires
            old(self).wf(),
        ensures
            final(self).wf(),
            ch.wf(),
            is_opened(old(self).channels(), id@, now, ch.state()),
            final(self).channels() == old(self).channels().remove(id@),
    {
        let ghost before = channel_table(self.channels);
        let known: Option<Channel> = channel_take(&mut self.channels, id);
        assert(states(before.remove(id@)) =~= states(before).remove(id@));
        proof {
            lemma_short_submap(states(before), states(before).remove(id@));
        }
        match known {
            Some(mut ch) => {
                assert(states(before).contains_key(id@));
                ch.touch(now);
                ch
            },
            None => Channel::new(now),
        }
    }

    /// Puts a channel in its place.
    fn restore(&mut self, id: &str, ch: Channel)
        requires
            old(self).wf(),
            ch.wf(),
        ensures
            final(self).wf(),
            final(self).channels() == old(self).channels().insert(id@, ch.state()),
    {
        let ghost before = channel_table(self.channels);
        channel_put(&mut self.channels, id.to_string(), ch);
        proof {
            let after = states(before).insert(id@, ch.state());
            assert(states(before.insert(id@, ch)) =~= after);
            assert forall|other: Seq<char>| #[trigger]
                after.contains_key(other) implies after[other].queue.len() <= MAX_QUEUE by {
                if other != id@ {
                    assert(states(before).contains_key(other));
                }
            }
        }
    }

    /// Connects a listener to a channel: it gets what is queued there, and all
    /// that is posted from then on.
    pub fn listen(&mut self, id: &str, now: u128, ttl: u128) -> (r: (Receiver<String>, Vec<String>))
        requires
            old(self).wf(),
        ensures
            final(self).wf(),
            exists|ch: ChannelState|
                {
                    &&& #[trigger] is_opened(old(self).channels(), id@, now, ch)
                    &&& final(self).channels() == old(self).channels().insert(id@, ch.listened())
                    &&& views(r.1@) == texts(fresh(ch.queue, now, ttl))
                    &&& subscription_of(r.0) == ch.live.subscription()
                },
    {
        let ghost before = self.channels();
        let mut ch: Channel = self.channel(id, now);
        let ghost opened = ch.state();
        let r: (Receiver<String>, Vec<String>) = ch.listen(now, ttl);
        self.restore(id, ch);
        assert(self.channels() =~= before.insert(id@, opened.listened()));
        r
    }

    /// Posts a message to a channel: it is delivered live or queued.
    pub fn post(&mut self, id: &str, msg: String, now: u128, ttl: u128) -> (d: Delivery)
        requires
            old(self).wf(),
        ensures
            final(self).wf(),
            exists|ch: ChannelState, receivers: nat|
                {
                    &&& #[trigger] is_opened(old(self).channels(), id@, now, ch)
                    &&& d == Delivery::Live <==> receivers > 0
                    &&& receivers > 0 ==> ch.live.heard
                    &&& final(self).channels() == old(self).channels().insert(
                        id@,
                        #[trigger] ch.posted(msg@, receivers, now, ttl),
                    )
                },
    {
        let ghost before = self.channels();
        let mut ch: Channel = self.channel(id, now);
        let ghost opened = ch.state();
        let d: Delivery = ch.post(msg, now, ttl);
        let ghost used = ch.state();
        self.restore(id, ch);
        assert(self.channels() =~= before.insert(id@, used));
        d
    }

    /// Queues a message in a channel whether or not anybody listens.
    pub fn enqueue(&mut self, id: &str, msg: String, now: u128, ttl: u128)
        requires
            old(self).wf(),
        ensures
            final(self).wf(),
            exists|ch: ChannelState|
                {
                    &&& #[trigger] is_opened(old(self).channels(), id@, now, ch)
                    &&& final(self).channels() == old(self).channels().insert(
                        id@,
                        ch.enqueue(msg@, now, ttl),
                    )
                },
    {
        let ghost before = self.channels();
        let mut ch: Channel = self.channel(id, now);
        let ghost opened = ch.state();
        ch.enqueue(msg, now, ttl);
        self.restore(id, ch);
        assert(self.channels() =~= before.insert(id@, opened.enqueue(msg@, now, ttl)));
    }

    /// Takes out what is queued in a channel; nothing if there is no such
    /// channel, and none comes into being.
    pub fn drain(&mut self, id: &str, now: u128, ttl: u128) -> (msgs: Vec<String>)
        requires
            old(self).wf(),
        ensures
            final(self).wf(),
            if old(self).channels().contains_key(id@) {
                let ch = old(self).channels()[id@];
                &&& final(self).channels() == old(self).channels().insert(
                    id@,
                    ch.touch(now).drained(),
                )
                &&& views(msgs@) == texts(fresh(ch.queue, now, ttl))
            } else {
                final(self).channels() == old(self).channels() && msgs@.len() == 0
            },
    {
        let ghost before = channel_table(self.channels);
        match channel_take(&mut self.channels, id) {
            Some(mut ch) => {
                assert(states(before).contains_key(id@));
                assert(states(before.remove(id@)) =~= states(before).remove(id@));
                proof {
                    lemma_short_submap(states(before), states(before).remove(id@));
                }
                ch.touch(now);
                let ghost touched = ch.state();
                let msgs: Vec<String> = ch.drain_queue(now, ttl);
                self.restore(id, ch);
                assert(self.channels() =~= states(before).insert(id@, touched.drained()));
                msgs
            },
            None => {
                assert(before.remove(id@) =~= before);
                Vec::new()
            },
        }
    }

    /// Drops the channels that nobody listens to and that have been idle too
    /// long. Queued messages can't outlive `ttl` and can't be newer than the
    /// last use, so an idle channel's queue is always stale.
    pub fn sweep(&mut self, now: u128, ttl: u128)
        requires
            old(self).wf(),
        ensures
            final(self).wf(),
            swept_states(old(self).channels(), final(self).channels(), now, ttl),
    {
        let ghost before = channel_table(self.channels);
        channels_retain_live(&mut self.channels, now, ttl);
        proof {
            let after = channel_table(self.channels);
            assert forall|id: Seq<char>| #[trigger] states(before).contains_key(id) implies exists|
                receivers: usize,
            |
                {
                    &&& #[trigger] states(before)[id].can_have(receivers)
                    &&& states(after).contains_key(id) == states(before)[id].kept(
                        receivers,
                        now,
                        ttl,
                    )
                    &&& states(after).contains_key(id) ==> states(after)[id]
                        == states(before)[id].counted(receivers as nat)
                } by {
                assert(before.contains_key(id));
                let receivers = choose|receivers: usize|
                    {
                        &&& #[trigger] before[id].state().can_have(receivers)
                        &&& after.contains_key(id) == before[id].state().kept(receivers, now, ttl)
                        &&& after.contains_key(id) ==> after[id].state()
                            == before[id].state().counted(receivers as nat)
                    };
                assert(states(before)[id].can_have(receivers));
            }
            assert forall|id: Seq<char>| #[trigger] states(after).contains_key(id) implies states(
                after,
            )[id].queue.len() <= MAX_QUEUE by {
                assert(after.dom().contains(id) && before.dom().contains(id));
                assert(states(before).contains_key(id));
            }
        }
    }
}

} // verus!

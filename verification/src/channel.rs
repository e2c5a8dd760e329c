//! One channel: a live broadcast to connected listeners, and a short queue that
//! covers the time while there is none.

use std::collections::VecDeque;

use tokio::sync::broadcast;
use tokio::sync::broadcast::{Receiver, Sender};
use vstd::arithmetic::power2::is_pow2;
use vstd::prelude::*;

use crate::clock::NANOS_PER_SEC;

verus! {

/// Max messages buffered per channel while no listener is connected.
pub const MAX_QUEUE: usize = 5;

/// Empty, idle channels are swept after this many seconds.
pub const IDLE_TTL_SECS: u64 = 300;

/// How many messages a listener may lag behind before it misses some.
pub const LIVE_CAPACITY: usize = 64;

/// `tokio::sync::broadcast::Sender`, the sending half of a live broadcast.
#[verifier::external_type_specification]
#[verifier::external_body]
#[verifier::reject_recursive_types(T)]
pub struct ExSender<T>(Sender<T>);

/// `tokio::sync::broadcast::Receiver`, what a listener reads from.
#[verifier::external_type_specification]
#[verifier::external_body]
#[verifier::reject_recursive_types(T)]
pub struct ExReceiver<T>(Receiver<T>);

/// A message that was tried to be sent, and how many receivers there were then.
pub ghost struct Offer {
    pub msg: Seq<char>,
    pub receivers: nat,
}

/// A live broadcast, and what was asked of it.
#[verifier::ext_equal]
pub ghost struct Broadcast {
    /// Tells this broadcast from others.
    pub id: nat,
    /// The messages that it has taken for its receivers, in order.
    pub sent: Seq<Seq<char>>,
    /// Has anybody ever listened to it?
    pub heard: bool,
    /// How many messages it holds for a listener that lags behind.
    pub capacity: nat,
    /// All that was tried to be sent, in order.
    pub offers: Seq<Offer>,
    /// How many receivers there were each time that they were counted.
    pub counts: Seq<nat>,
}

/// A listener's share in a live broadcast.
pub ghost struct Subscription {
    /// The broadcast that it listens to.
    pub id: nat,
    /// How many messages the broadcast had taken before: the listener gets those
    /// that follow.
    pub from: nat,
}

/// What a sender has sent.
pub uninterp spec fn broadcast_of(tx: Sender<String>) -> Broadcast;

/// What a receiver is to receive.
pub uninterp spec fn subscription_of(rx: Receiver<String>) -> Subscription;

/// Calls `broadcast::channel` and keeps its sending half: nothing was sent yet,
/// and with the receiving half dropped nobody listens. Its buffer holds as many
/// messages as asked for, rounded up to a power of two. The call panics on a
/// capacity of zero or above half of `usize::MAX`.
#[verifier::external_body]
fn new_sender(capacity: usize) -> (tx: Sender<String>)
    requires
        0 < capacity <= usize::MAX / 2,
    ensures
        broadcast_of(tx).unused(),
        capacity <= broadcast_of(tx).capacity < 2 * capacity,
        is_pow2(broadcast_of(tx).capacity as int),
{
    broadcast::channel(capacity).0
}

/// Calls `Sender::send`. Whether it succeeds depends on the receivers alive at
/// that moment: either there is at least one, the message is taken for all of
/// them and their number returned, or there is none, the message is handed back
/// and nothing is sent. There is none if the sender was never subscribed to. The
/// attempt is noted with the number of receivers that it found.
#[verifier::external_body]
fn send_live(tx: &mut Sender<String>, msg: String) -> (sent: Result<usize, String>)
    ensures
        match sent {
            Ok(receivers) => receivers >= 1 && broadcast_of(*old(tx)).heard,
            Err(unsent) => unsent == msg,
        },
        broadcast_of(*final(tx)) == (match sent {
            Ok(receivers) => broadcast_of(*old(tx)).taking(msg@, receivers as nat),
            Err(_) => broadcast_of(*old(tx)).refusing(msg@),
        }),
{
    tx.send(msg).map_err(|e| e.0)
}

/// Calls `Sender::subscribe`: a receiver of what is sent after this call. A
/// receiver that lags more than the capacity behind misses messages; that is
/// not said here.
/// The call panics only where a quarter of `usize::MAX` receivers are alive at
/// once, which is more than memory holds.
#[verifier::external_body]
fn subscribe_live(tx: &mut Sender<String>) -> (rx: Receiver<String>)
    ensures
        subscription_of(rx) == broadcast_of(*old(tx)).subscription(),
        broadcast_of(*final(tx)) == broadcast_of(*old(tx)).joined(),
{
    tx.subscribe()
}

impl Broadcast {
    /// Has nothing been sent, and nobody listened yet?
    pub open spec fn unused(self) -> bool {
        &&& self.sent == Seq::<Seq<char>>::empty()
        &&& !self.heard
        &&& self.offers == Seq::<Offer>::empty()
        &&& self.counts == Seq::<nat>::empty()
    }

    /// The broadcast after one more listener has joined.
    pub open spec fn joined(self) -> Broadcast {
        Broadcast { heard: true, ..self }
    }

    /// The broadcast after one more message, taken for that many receivers.
    pub open spec fn taking(self, msg: Seq<char>, receivers: nat) -> Broadcast {
        Broadcast {
            sent: self.sent.push(msg),
            offers: self.offers.push(Offer { msg, receivers }),
            ..self
        }
    }

    /// The broadcast after a message that there was no receiver for.
    pub open spec fn refusing(self, msg: Seq<char>) -> Broadcast {
        Broadcast { offers: self.offers.push(Offer { msg, receivers: 0 }), ..self }
    }

    /// The broadcast after its receivers were counted.
    pub open spec fn counted(self, receivers: nat) -> Broadcast {
        Broadcast { counts: self.counts.push(receivers), ..self }
    }

    /// The share of a listener that joins now.
    pub open spec fn subscription(self) -> Subscription {
        Subscription { id: self.id, from: self.sent.len() }
    }
}

/// Calls `Sender::receiver_count`. Receivers come and go with their listeners;
/// all that is claimed of the number is that a sender that was never subscribed
/// to has none. The number is noted.
#[verifier::external_body]
fn count_live(tx: &mut Sender<String>) -> (receivers: usize)
    ensures
        receivers > 0 ==> broadcast_of(*old(tx)).heard,
        broadcast_of(*final(tx)) == broadcast_of(*old(tx)).counted(receivers as nat),
{
    tx.receiver_count()
}

/// A queued message: when it was queued, in nanoseconds, and its text.
pub type Queued = (u128, Seq<char>);

/// Nanoseconds from `at` to `now`; none if `at` lies ahead.
pub open spec fn age(at: u128, now: u128) -> int {
    if now >= at {
        now - at
    } else {
        0
    }
}

/// The messages of a queue that are younger than `ttl` at `now`.
pub open spec fn fresh(queue: Seq<Queued>, now: u128, ttl: u128) -> Seq<Queued> {
    queue.filter(|entry: Queued| age(entry.0, now) < ttl)
}

/// A queue after one more message: what has expired leaves first, and then the
/// oldest if the queue is full.
pub open spec fn enqueued(queue: Seq<Queued>, msg: Seq<char>, now: u128, ttl: u128) -> Seq<Queued> {
    let alive = fresh(queue, now, ttl);
    let kept = if alive.len() >= MAX_QUEUE {
        alive.drop_first()
    } else {
        alive
    };
    kept.push((now, msg))
}

/// The texts of queued messages.
pub open spec fn texts(queue: Seq<Queued>) -> Seq<Seq<char>> {
    queue.map_values(|entry: Queued| entry.1)
}

/// The texts of strings.
pub open spec fn views(strings: Seq<String>) -> Seq<Seq<char>> {
    strings.map_values(|s: String| s@)
}

/// Queue entries as they are stored.
pub open spec fn entries(stored: Seq<(u128, String)>) -> Seq<Queued> {
    stored.map_values(|entry: (u128, String)| (entry.0, entry.1@))
}

/// How long an unused channel stays, in nanoseconds, if messages live for `ttl`.
pub open spec fn idle_nanos(ttl: u128) -> int {
    let idle = IDLE_TTL_SECS * NANOS_PER_SEC;
    if idle < ttl {
        ttl as int
    } else {
        idle
    }
}

/// A channel's state.
#[verifier::ext_equal]
pub ghost struct ChannelState {
    /// Messages no listener was there for, oldest first.
    pub queue: Seq<Queued>,
    /// When the channel was last used, in nanoseconds.
    pub touched: u128,
    /// What goes to connected listeners.
    pub live: Broadcast,
}

impl ChannelState {
    /// Is the channel still kept at `now`, with that many listeners?
    pub open spec fn kept(self, receivers: usize, now: u128, ttl: u128) -> bool {
        receivers > 0 || age(self.touched, now) < idle_nanos(ttl)
    }

    /// Can the channel have that many listeners?
    pub open spec fn can_have(self, receivers: usize) -> bool {
        receivers > 0 ==> self.live.heard
    }

    /// The channel used once more.
    pub open spec fn touch(self, now: u128) -> ChannelState {
        ChannelState { touched: now, ..self }
    }

    /// The channel with one more message queued.
    pub open spec fn enqueue(self, msg: Seq<char>, now: u128, ttl: u128) -> ChannelState {
        ChannelState { queue: enqueued(self.queue, msg, now, ttl), ..self }
    }

    /// The channel after one more message went to that many listeners.
    pub open spec fn broadcast(self, msg: Seq<char>, receivers: nat) -> ChannelState {
        ChannelState { live: self.live.taking(msg, receivers), ..self }
    }

    /// The channel after a message found no listener.
    pub open spec fn unheard(self, msg: Seq<char>) -> ChannelState {
        ChannelState { live: self.live.refusing(msg), ..self }
    }

    /// The channel after its listeners were counted.
    pub open spec fn counted(self, receivers: nat) -> ChannelState {
        ChannelState { live: self.live.counted(receivers), ..self }
    }

    /// The channel after a message was posted while it had that many listeners.
    pub open spec fn posted(
        self,
        msg: Seq<char>,
        receivers: nat,
        now: u128,
        ttl: u128,
    ) -> ChannelState {
        if receivers > 0 {
            self.broadcast(msg, receivers)
        } else {
            self.unheard(msg).enqueue(msg, now, ttl)
        }
    }

    /// The channel with nothing queued.
    pub open spec fn drained(self) -> ChannelState {
        ChannelState { queue: Seq::empty(), ..self }
    }

    /// The channel after a listener has connected and taken what was queued.
    pub open spec fn listened(self) -> ChannelState {
        ChannelState { live: self.live.joined(), ..self.drained() }
    }
}

/// What became of a posted message.
#[derive(Debug, Clone, Copy, PartialEq, Eq, Structural)]
pub enum Delivery {
    /// A listener was connected and gets it.
    Live,
    /// No listener was connected; it waits in the queue.
    Queued,
}

/// A channel.
pub struct Channel {
    tx: Sender<String>,
    queue: VecDeque<(u128, String)>,
    touched: u128,
}

/// One more entry is filtered in or out at the end.
proof fn lemma_fresh_take(queue: Seq<Queued>, k: int, now: u128, ttl: u128)
    requires
        0 <= k < queue.len(),
    ensures
        fresh(queue.take(k + 1), now, ttl) == (if age(queue[k].0, now) < ttl {
            fresh(queue.take(k), now, ttl).push(queue[k])
        } else {
            fresh(queue.take(k), now, ttl)
        }),
{
    reveal(Seq::filter);
    assert(queue.take(k + 1).drop_last() =~= queue.take(k));
}

/// Nothing is added by looking at what is fresh.
pub(crate) proof fn lemma_fresh_len(queue: Seq<Queued>, now: u128, ttl: u128)
    ensures
        fresh(queue, now, ttl).len() <= queue.len(),
{
    broadcast use vstd::seq_lib::group_filter_ensures;

}

/// Is a message queued at `at` younger than `ttl` at `now`?
fn is_fresh(at: u128, now: u128, ttl: u128) -> (yes: bool)
    ensures
        yes == (age(at, now) < ttl),
{
    if now >= at {
        now - at < ttl
    } else {
        0 < ttl
    }
}

impl Channel {
    /// The channel's state.
    pub closed spec fn state(&self) -> ChannelState {
        ChannelState { queue: entries(self.queue@), touched: self.touched, live: broadcast_of(self.tx) }
    }

    /// The channel's invariant: the queue stays short.
    pub open spec fn wf(&self) -> bool {
        self.state().queue.len() <= MAX_QUEUE
    }

    /// A channel first used at `now`.
    pub fn new(now: u128) -> (ch: Channel)
        ensures
            ch.wf(),
            ch.state().queue == Seq::<Queued>::empty(),
            ch.state().touched == now,
            ch.state().live.unused(),
            ch.state().live.capacity == LIVE_CAPACITY,
    {
        proof {
            reveal_with_fuel(is_pow2, 8);
        }
        Channel {
            tx: new_sender(LIVE_CAPACITY),
            queue: VecDeque::with_capacity(MAX_QUEUE),
            touched: now,
        }
    }

    /// Uses the channel at `now`.
    pub fn touch(&mut self, now: u128)
        ensures
            final(self).state() == old(self).state().touch(now),
    {
        self.touched = now;
    }

    /// Drops what has expired.
    fn retain_fresh(&mut self, now: u128, ttl: u128)
        ensures
            final(self).state() == (ChannelState {
                queue: fresh(old(self).state().queue, now, ttl),
                ..old(self).state()
            }),
    {
        let ghost stored = self.queue@;
        let ghost all = entries(stored);
        let ghost mut k: int = 0;
        let mut alive: VecDeque<(u128, String)> = VecDeque::with_capacity(MAX_QUEUE);
        assert(fresh(all.take(0), now, ttl) =~= Seq::empty()) by {
            reveal(Seq::filter);
        }
        assert(stored.skip(0) =~= stored);
        while self.queue.len() > 0
            invariant
                0 <= k <= stored.len(),
                self.queue@ == stored.skip(k),
                self.touched == old(self).touched,
                broadcast_of(self.tx) == broadcast_of(old(self).tx),
                all == entries(stored),
                entries(alive@) =~= fresh(all.take(k), now, ttl),
            decreases self.queue@.len(),
        {
            let next: Option<(u128, String)> = self.queue.pop_front();
            if let Some(entry) = next {
                proof {
                    assert(entry == stored[k]);
                    lemma_fresh_take(all, k, now, ttl);
                    assert(self.queue@ =~= stored.skip(k + 1));
                }
                if is_fresh(entry.0, now, ttl) {
                    alive.push_back(entry);
                }
                proof {
                    k = k + 1;
                }
            }
        }
        assert(all.take(k) =~= all);
        self.queue = alive;
    }

    /// Queues a message; the oldest makes room if the queue is full.
    pub fn enqueue(&mut self, msg: String, now: u128, ttl: u128)
        requires
            old(self).wf(),
        ensures
            final(self).wf(),
            final(self).state() == old(self).state().enqueue(msg@, now, ttl),
    {
        proof {
            lemma_fresh_len(self.state().queue, now, ttl);
        }
        self.retain_fresh(now, ttl);
        let ghost alive = self.state().queue;
        if self.queue.len() >= MAX_QUEUE {
            let oldest: Option<(u128, String)> = self.queue.pop_front();
            assert(entries(self.queue@) =~= alive.drop_first());
        }
        let ghost kept = entries(self.queue@);
        self.queue.push_back((now, msg));
        assert(entries(self.queue@) =~= kept.push((now, msg@)));
    }

    /// Takes all queued messages out; the expired ones are not handed on.
    pub fn drain_queue(&mut self, now: u128, ttl: u128) -> (msgs: Vec<String>)
        ensures
            final(self).state() == old(self).state().drained(),
            views(msgs@) == texts(fresh(old(self).state().queue, now, ttl)),
    {
        self.retain_fresh(now, ttl);
        let ghost stored = self.queue@;
        let mut msgs: Vec<String> = Vec::new();
        assert(stored.skip(0) =~= stored);
        while self.queue.len() > 0
            invariant
                msgs@.len() <= stored.len(),
                self.queue@ == stored.skip(msgs@.len() as int),
                self.touched == old(self).touched,
                broadcast_of(self.tx) == broadcast_of(old(self).tx),
                forall|i: int| 0 <= i < msgs@.len() ==> msgs@[i] == stored[i].1,
            decreases self.queue@.len(),
        {
            let next: Option<(u128, String)> = self.queue.pop_front();
            if let Some(entry) = next {
                assert(self.queue@ =~= stored.skip((msgs@.len() + 1) as int));
                msgs.push(entry.1);
            }
        }
        assert(views(msgs@) =~= texts(entries(stored)));
        assert(entries(self.queue@) =~= Seq::empty());
        msgs
    }

    /// Connects a listener: it gets what is queued at once, and a receiver of
    /// all that is posted from then on. The receiver is made first, so that
    /// nothing falls between the two.
    pub fn listen(&mut self, now: u128, ttl: u128) -> (r: (Receiver<String>, Vec<String>))
        ensures
            final(self).state() == old(self).state().listened(),
            views(r.1@) == texts(fresh(old(self).state().queue, now, ttl)),
            subscription_of(r.0) == old(self).state().live.subscription(),
    {
        let rx: Receiver<String> = subscribe_live(&mut self.tx);
        let backlog: Vec<String> = self.drain_queue(now, ttl);
        (rx, backlog)
    }

    /// What becomes of a posted message, given what the live broadcast said to
    /// it: one that was handed back is queued.
    pub fn settle(&mut self, sent: Result<usize, String>, now: u128, ttl: u128) -> (d: Delivery)
        requires
            old(self).wf(),
        ensures
            final(self).wf(),
            match sent {
                Ok(_) => d == Delivery::Live && final(self).state() == old(self).state(),
                Err(unsent) => d == Delivery::Queued && final(self).state() == old(
                    self,
                ).state().enqueue(unsent@, now, ttl),
            },
    {
        match sent {
            Ok(_) => Delivery::Live,
            Err(unsent) => {
                self.enqueue(unsent, now, ttl);
                Delivery::Queued
            },
        }
    }

    /// Posts a message: it is delivered live if a listener is connected, and
    /// queued otherwise, as it is for certain if none ever was. It is never
    /// dropped in between.
    pub fn post(&mut self, msg: String, now: u128, ttl: u128) -> (d: Delivery)
        requires
            old(self).wf(),
        ensures
            final(self).wf(),
            ({
                let receivers = final(self).state().live.offers.last().receivers;
                &&& d == Delivery::Live <==> receivers > 0
                &&& receivers > 0 ==> old(self).state().live.heard
                &&& final(self).state() == old(self).state().posted(msg@, receivers, now, ttl)
            }),
    {
        let sent: Result<usize, String> = send_live(&mut self.tx, msg);
        self.settle(sent, now, ttl)
    }

    /// Is the channel still kept at `now`, with that many listeners?
    pub fn is_kept(&self, receivers: usize, now: u128, ttl: u128) -> (kept: bool)
        ensures
            kept == self.state().kept(receivers, now, ttl),
    {
        let idle: u128 = IDLE_TTL_SECS as u128 * NANOS_PER_SEC;
        let limit: u128 = if idle < ttl { ttl } else { idle };
        receivers > 0 || is_fresh(self.touched, now, limit)
    }

    /// Is the channel still kept at `now`, with the listeners it has?
    pub fn is_live(&mut self, now: u128, ttl: u128) -> (kept: bool)
        ensures
            exists|receivers: usize|
                {
                    &&& #[trigger] old(self).state().can_have(receivers)
                    &&& kept == old(self).state().kept(receivers, now, ttl)
                    &&& final(self).state() == old(self).state().counted(receivers as nat)
                },
    {
        let receivers: usize = count_live(&mut self.tx);
        assert(old(self).state().can_have(receivers));
        self.is_kept(receivers, now, ttl)
    }
}

} // verus!

//! What the bridge promises: no message is lost between a poster and a listener.

use serde_json::Value;
use vstd::prelude::*;

use crate::addr::IpAddr;
use crate::channel::{
    age, enqueued, fresh, idle_nanos, subscription_of, texts, views, ChannelState, Queued, Subscription,
};
use crate::channel_laws::{law_sweep_loses_no_message, queue_after, used_since_queued};
use crate::clock::Moment;
use crate::hub::{is_opened, swept_states};
use crate::json::{json_parse, queued_value_of};
use crate::state::{
    fetched, id_too_long, listened, posted, push_prefix, replies, Bridge, Listening, PostStep,
};
use crate::web::Status;

verus! {

/// A post that is answered `OK QUEUED`, or that goes to a device, is the last
/// message of its queue.
pub proof fn law_queued_is_in_the_queue(
    before: Bridge,
    after: Bridge,
    step: PostStep,
    push_enabled: bool,
    id: Seq<char>,
    ip: IpAddr,
    body: Seq<char>,
    at: Moment,
    ttl: u128,
)
    requires
        posted(before, after, step, push_enabled, id, ip, body, at, ttl),
        !id_too_long(id),
        replies(step, "OK QUEUED"@) || push_prefix().is_prefix_of(id),
    ensures
        after.channels.contains_key(id),
        after.channels[id].queue.len() > 0,
        after.channels[id].queue.last() == (at.nanos, body),
        after.channels[id].touched == at.nanos,
{
    lemma_replies_differ();
}

/// The two answers to a post are told apart.
pub(crate) proof fn lemma_replies_differ()
    ensures
        "OK"@ != "OK QUEUED"@,
{
    reveal_strlit("OK");
    reveal_strlit("OK QUEUED");
    assert("OK"@.len() != "OK QUEUED"@.len());
}

/// The last entry of a queue is the last of what is fresh, as long as it is.
proof fn lemma_fresh_last(queue: Seq<Queued>, now: u128, ttl: u128)
    requires
        queue.len() > 0,
        age(queue.last().0, now) < ttl,
    ensures
        fresh(queue, now, ttl).len() > 0,
        fresh(queue, now, ttl).last() == queue.last(),
{
    reveal(Seq::filter);
}

/// What was queued is delivered: a listener that connects while the message is
/// alive gets it, last of all that was waiting.
pub proof fn law_listener_gets_what_was_queued(
    before: Bridge,
    between: Bridge,
    after: Bridge,
    step: PostStep,
    push_enabled: bool,
    id: Seq<char>,
    poster: IpAddr,
    body: Seq<char>,
    posted_at: Moment,
    r: Result<Listening, Status>,
    listener: IpAddr,
    at: Moment,
    ttl: u128,
)
    requires
        posted(before, between, step, push_enabled, id, poster, body, posted_at, ttl),
        replies(step, "OK QUEUED"@),
        listened(between, after, r, id, listener, at, ttl),
        age(posted_at.nanos, at.nanos) < ttl,
    ensures
        r matches Ok(listening) && listening.backlog@.len() > 0 && listening.backlog@.last()@
            == body,
        after.channels[id].queue.len() == 0,
{
    lemma_replies_differ();
    law_queued_is_in_the_queue(
        before,
        between,
        step,
        push_enabled,
        id,
        poster,
        body,
        posted_at,
        ttl,
    );
    let queue = between.channels[id].queue;
    lemma_fresh_last(queue, at.nanos, ttl);
    if let Ok(listening) = r {
        assert(views(listening.backlog@).len() == listening.backlog@.len());
        assert(views(listening.backlog@).last() == listening.backlog@.last()@);
        assert(texts(fresh(queue, at.nanos, ttl)).last() == body);
    }
}

/// A push that is delayed or lost can be recovered: while it is alive, fetching
/// the queue of its device hands it out, and a second fetch finds nothing.
pub proof fn law_push_can_be_recovered(
    before: Bridge,
    between: Bridge,
    after: Bridge,
    end: Bridge,
    step: PostStep,
    push_enabled: bool,
    id: Seq<char>,
    poster: IpAddr,
    body: Seq<char>,
    posted_at: Moment,
    first: Result<Vec<Value>, Status>,
    now: u128,
    second: Result<Vec<Value>, Status>,
    later: u128,
    ttl: u128,
)
    requires
        posted(before, between, step, push_enabled, id, poster, body, posted_at, ttl),
        !id_too_long(id),
        push_prefix().is_prefix_of(id),
        fetched(between, after, first, id, now, ttl),
        age(posted_at.nanos, now) < ttl,
        fetched(after, end, second, id, later, ttl),
    ensures
        first matches Ok(values) && values@.len() > 0 && values@.last() == queued_value_of(
            body,
            json_parse(body),
        ),
        second matches Ok(values) && values@.len() == 0,
{
    law_queued_is_in_the_queue(
        before,
        between,
        step,
        push_enabled,
        id,
        poster,
        body,
        posted_at,
        ttl,
    );
    let queue = between.channels[id].queue;
    lemma_fresh_last(queue, now, ttl);
    assert(texts(fresh(queue, now, ttl)).last() == body);
    assert(fresh(Seq::<Queued>::empty(), later, ttl) =~= Seq::empty()) by {
        reveal(Seq::filter);
    }
}

/// Posts that nobody listens to build up the queue one by one: together with
/// what the queue keeps of a run of posts, this says what the next listener
/// gets.
pub proof fn law_posts_build_the_queue(
    before: Bridge,
    after: Bridge,
    step: PostStep,
    push_enabled: bool,
    id: Seq<char>,
    ip: IpAddr,
    body: Seq<char>,
    at: Moment,
    ttl: u128,
    earlier: Seq<Queued>,
)
    requires
        posted(before, after, step, push_enabled, id, ip, body, at, ttl),
        !id_too_long(id),
        replies(step, "OK QUEUED"@) || push_prefix().is_prefix_of(id),
        if before.channels.contains_key(id) {
            before.channels[id].queue == queue_after(earlier, ttl)
        } else {
            earlier.len() == 0
        },
    ensures
        after.channels[id].queue == queue_after(earlier.push((at.nanos, body)), ttl),
{
    lemma_replies_differ();
    assert(earlier.push((at.nanos, body)).drop_last() =~= earlier);
    assert(earlier.len() == 0 ==> queue_after(earlier, ttl) =~= Seq::empty());
}

/// A message is delivered or queued, and not both: one that is answered `OK` is
/// the next of the channel's broadcast and leaves the queue as it was; one that
/// is answered `OK QUEUED` is the last of the queue and leaves the broadcast as
/// it was. There is no third answer.
pub proof fn law_delivered_or_queued(
    before: Bridge,
    after: Bridge,
    step: PostStep,
    push_enabled: bool,
    id: Seq<char>,
    ip: IpAddr,
    body: Seq<char>,
    at: Moment,
    ttl: u128,
)
    requires
        posted(before, after, step, push_enabled, id, ip, body, at, ttl),
        !id_too_long(id),
        !push_prefix().is_prefix_of(id),
    ensures
        replies(step, "OK"@) != replies(step, "OK QUEUED"@),
        replies(step, "OK"@) ==> {
            &&& before.channels.contains_key(id)
            &&& after.channels[id].live == before.channels[id].live.taking(
                body,
                after.channels[id].live.offers.last().receivers,
            )
            &&& after.channels[id].queue == before.channels[id].queue
        },
        replies(step, "OK QUEUED"@) ==> {
            &&& before.channels.contains_key(id) ==> after.channels[id].live
                == before.channels[id].live.refusing(body)
            &&& before.channels.contains_key(id) ==> after.channels[id].live.sent
                == before.channels[id].live.sent
            &&& after.channels[id].queue.last() == (at.nanos, body)
        },
{
    lemma_replies_differ();
}

/// A post to a channel that nobody has ever listened to is queued.
pub proof fn law_unheard_is_queued(
    before: Bridge,
    after: Bridge,
    step: PostStep,
    push_enabled: bool,
    id: Seq<char>,
    ip: IpAddr,
    body: Seq<char>,
    at: Moment,
    ttl: u128,
)
    requires
        posted(before, after, step, push_enabled, id, ip, body, at, ttl),
        !id_too_long(id),
        !push_prefix().is_prefix_of(id),
        before.channels.contains_key(id) ==> !before.channels[id].live.heard,
    ensures
        replies(step, "OK QUEUED"@),
        after.channels.contains_key(id),
        !after.channels[id].live.heard,
{
}

/// Nothing falls between the queue and the live broadcast: a listener that has
/// connected has everything that was waiting, and the next message that is
/// delivered live is the first that it receives.
pub proof fn law_no_gap_for_a_listener(
    before: Bridge,
    between: Bridge,
    after: Bridge,
    r: Result<Listening, Status>,
    id: Seq<char>,
    listener: IpAddr,
    connected_at: Moment,
    step: PostStep,
    push_enabled: bool,
    poster: IpAddr,
    body: Seq<char>,
    at: Moment,
    ttl: u128,
)
    requires
        listened(before, between, r, id, listener, connected_at, ttl),
        posted(between, after, step, push_enabled, id, poster, body, at, ttl),
        replies(step, "OK"@),
    ensures
        between.channels[id].queue.len() == 0,
        r matches Ok(listening) && {
            let share = subscription_of(listening.live);
            let live = after.channels[id].live;
            &&& share.id == live.id
            &&& live.sent.len() == share.from + 1
            &&& live.sent[share.from as int] == body
        },
{
    lemma_replies_differ();
}

/// What is queued in a channel, if there is one.
pub open spec fn waiting(bridge: Bridge, id: Seq<char>) -> Seq<Queued> {
    if bridge.channels.contains_key(id) {
        bridge.channels[id].queue
    } else {
        Seq::empty()
    }
}

/// All that a listener is given by the time its channel has come to `ch`: what
/// was waiting for it, and what the broadcast has taken since it joined.
pub open spec fn received(listening: Listening, ch: ChannelState) -> Seq<Seq<char>> {
    views(listening.backlog@) + ch.live.sent.skip(subscription_of(listening.live).from as int)
}

/// A queue after one more message holds that message once, behind what it keeps.
proof fn lemma_enqueued_once(queue: Seq<Queued>, body: Seq<char>, at: u128, now: u128, ttl: u128)
    requires
        age(at, now) < ttl,
    ensures
        texts(fresh(enqueued(queue, body, at, ttl), now, ttl)) == texts(
            fresh(enqueued(queue, body, at, ttl).drop_last(), now, ttl),
        ).push(body),
{
    reveal(Seq::filter);
    let after = enqueued(queue, body, at, ttl);
    let earlier = fresh(after.drop_last(), now, ttl);
    assert(fresh(after, now, ttl) == earlier.push(after.last()));
    assert(texts(earlier.push(after.last())) =~= texts(earlier).push(body));
}

/// A post that comes just before a listener connects is handed over once. Queued,
/// it is the last that the listener is given, behind what the queue kept, and it
/// is neither in the queue nor sent live any more; on a channel that nobody
/// listened to before, that is what happens. Sent live, it went to those who
/// listened before, and the new listener is given what was waiting.
pub proof fn law_post_then_listen_hands_over_once(
    before: Bridge,
    between: Bridge,
    after: Bridge,
    step: PostStep,
    push_enabled: bool,
    id: Seq<char>,
    poster: IpAddr,
    body: Seq<char>,
    posted_at: Moment,
    r: Result<Listening, Status>,
    listener: IpAddr,
    at: Moment,
    ttl: u128,
)
    requires
        posted(before, between, step, push_enabled, id, poster, body, posted_at, ttl),
        listened(between, after, r, id, listener, at, ttl),
        !id_too_long(id),
        !push_prefix().is_prefix_of(id),
        age(posted_at.nanos, at.nanos) < ttl,
    ensures
        replies(step, "OK"@) != replies(step, "OK QUEUED"@),
        before.channels.contains_key(id) && before.channels[id].live.heard || replies(
            step,
            "OK QUEUED"@,
        ),
        waiting(after, id).len() == 0,
        r matches Ok(listening) && received(listening, after.channels[id]) == (if replies(
            step,
            "OK QUEUED"@,
        ) {
            texts(
                fresh(
                    enqueued(waiting(before, id), body, posted_at.nanos, ttl).drop_last(),
                    at.nanos,
                    ttl,
                ),
            ).push(body)
        } else {
            texts(fresh(waiting(before, id), at.nanos, ttl))
        }),
        replies(step, "OK"@) ==> after.channels[id].live.sent == before.channels[id].live.sent.push(
            body,
        ),
        replies(step, "OK QUEUED"@) && before.channels.contains_key(id)
            ==> after.channels[id].live.sent == before.channels[id].live.sent,
{
    lemma_replies_differ();
    lemma_enqueued_once(waiting(before, id), body, posted_at.nanos, at.nanos, ttl);
    if let Ok(listening) = r {
        let sent = after.channels[id].live.sent;
        assert(sent.skip(sent.len() as int) =~= Seq::empty());
        assert(received(listening, after.channels[id]) =~= views(listening.backlog@));
    }
}

/// A post that comes just after a listener has connected is handed over once.
/// Sent live, it is the one message that the listener is given besides what was
/// waiting, and it is not queued. Handed back, because the listener is gone
/// already, it is the one message of the queue, for the next listener.
pub proof fn law_listen_then_post_hands_over_once(
    before: Bridge,
    between: Bridge,
    after: Bridge,
    r: Result<Listening, Status>,
    id: Seq<char>,
    listener: IpAddr,
    connected_at: Moment,
    step: PostStep,
    push_enabled: bool,
    poster: IpAddr,
    body: Seq<char>,
    at: Moment,
    ttl: u128,
)
    requires
        listened(before, between, r, id, listener, connected_at, ttl),
        posted(between, after, step, push_enabled, id, poster, body, at, ttl),
        !id_too_long(id),
        !push_prefix().is_prefix_of(id),
    ensures
        replies(step, "OK"@) != replies(step, "OK QUEUED"@),
        r matches Ok(listening) && {
            let earlier = texts(fresh(waiting(before, id), connected_at.nanos, ttl));
            if replies(step, "OK"@) {
                &&& received(listening, after.channels[id]) == earlier.push(body)
                &&& waiting(after, id).len() == 0
            } else {
                &&& received(listening, after.channels[id]) == earlier
                &&& waiting(after, id) == seq![(at.nanos, body)]
            }
        },
{
    lemma_replies_differ();
    if let Ok(listening) = r {
        let from = between.channels[id].live.sent.len() as int;
        let sent = after.channels[id].live.sent;
        assert(fresh(Seq::<Queued>::empty(), at.nanos, ttl) =~= Seq::empty()) by {
            reveal(Seq::filter);
        }
        if replies(step, "OK"@) {
            assert(sent.skip(from) =~= seq![body]);
            assert(views(listening.backlog@) + seq![body] =~= views(listening.backlog@).push(body));
        } else {
            assert(sent.skip(from) =~= Seq::empty());
            assert(views(listening.backlog@) + Seq::<Seq<char>>::empty() =~= views(
                listening.backlog@,
            ));
            assert(waiting(after, id) =~= seq![(at.nanos, body)]);
        }
    }
}

/// Does a listener's share belong to the broadcast that a channel now has?
pub open spec fn is_tuned(share: Subscription, ch: ChannelState) -> bool {
    share.id == ch.live.id && share.from <= ch.live.sent.len()
}

/// A listener stays with its channel: whatever happens on it, the broadcast
/// remains the one that the listener shares in, and keeps all that was sent; a
/// message that is delivered live comes behind the point where the listener
/// joined.
pub proof fn law_listener_stays_tuned(
    before: Bridge,
    after: Bridge,
    share: Subscription,
    step: PostStep,
    push_enabled: bool,
    r: Result<Listening, Status>,
    fetch: Result<Vec<Value>, Status>,
    id: Seq<char>,
    ip: IpAddr,
    body: Seq<char>,
    at: Moment,
    ttl: u128,
)
    requires
        before.channels.contains_key(id),
        is_tuned(share, before.channels[id]),
        ({
            ||| posted(before, after, step, push_enabled, id, ip, body, at, ttl)
            ||| listened(before, after, r, id, ip, at, ttl)
            ||| fetched(before, after, fetch, id, at.nanos, ttl)
        }),
    ensures
        after.channels.contains_key(id),
        is_tuned(share, after.channels[id]),
        before.channels[id].live.sent.is_prefix_of(after.channels[id].live.sent),
        posted(before, after, step, push_enabled, id, ip, body, at, ttl) && replies(step, "OK"@)
            ==> {
            let sent = after.channels[id].live.sent;
            share.from < sent.len() && sent.last() == body
        },
{
    lemma_replies_differ();
}

/// What happens on a channel is no business of the others.
pub proof fn law_channels_are_independent(
    before: Bridge,
    after: Bridge,
    step: PostStep,
    push_enabled: bool,
    r: Result<Listening, Status>,
    fetch: Result<Vec<Value>, Status>,
    id: Seq<char>,
    ip: IpAddr,
    body: Seq<char>,
    at: Moment,
    ttl: u128,
    other: Seq<char>,
)
    requires
        ({
            ||| posted(before, after, step, push_enabled, id, ip, body, at, ttl)
            ||| listened(before, after, r, id, ip, at, ttl)
            ||| fetched(before, after, fetch, id, at.nanos, ttl)
        }),
        other != id,
    ensures
        after.channels.contains_key(other) == before.channels.contains_key(other),
        before.channels.contains_key(other) ==> after.channels[other] == before.channels[other],
{
}

/// No channel has a message that was queued after the channel was last used, and
/// none was used after `now`.
pub open spec fn on_time(channels: Map<Seq<char>, ChannelState>, now: u128) -> bool {
    forall|id: Seq<char>| #[trigger]
        channels.contains_key(id) ==> used_since_queued(channels[id]) && channels[id].touched <= now
}

/// Every post, listener and fetch keeps it so on a clock that does not run
/// backwards.
pub proof fn law_stays_on_time(
    before: Bridge,
    after: Bridge,
    step: PostStep,
    push_enabled: bool,
    r: Result<Listening, Status>,
    fetch: Result<Vec<Value>, Status>,
    id: Seq<char>,
    ip: IpAddr,
    body: Seq<char>,
    last: u128,
    at: Moment,
    ttl: u128,
)
    requires
        on_time(before.channels, last),
        last <= at.nanos,
        ({
            ||| posted(before, after, step, push_enabled, id, ip, body, at, ttl)
            ||| listened(before, after, r, id, ip, at, ttl)
            ||| fetched(before, after, fetch, id, at.nanos, ttl)
        }),
    ensures
        on_time(after.channels, at.nanos),
{
    assert forall|key: Seq<char>| #[trigger] after.channels.contains_key(key) implies
        used_since_queued(after.channels[key]) && after.channels[key].touched <= at.nanos by {
        if key != id {
            assert(before.channels.contains_key(key));
        } else if after != before {
            lemma_opened_stays_on_time(before, id, last, body, at, ttl);
        }
    }
}

/// A channel that is used is on time, however it is used.
proof fn lemma_opened_stays_on_time(
    before: Bridge,
    id: Seq<char>,
    last: u128,
    body: Seq<char>,
    at: Moment,
    ttl: u128,
)
    requires
        on_time(before.channels, last),
        last <= at.nanos,
    ensures
        forall|ch: ChannelState| #[trigger]
            is_opened(before.channels, id, at.nanos, ch) ==> {
                &&& used_since_queued(ch) && ch.touched == at.nanos
                &&& used_since_queued(ch.enqueue(body, at.nanos, ttl))
                &&& used_since_queued(ch.drained())
                &&& used_since_queued(ch.listened())
                &&& forall|receivers: nat|
                    used_since_queued(#[trigger] ch.posted(body, receivers, at.nanos, ttl))
            },
        before.channels.contains_key(id) ==> is_opened(
            before.channels,
            id,
            at.nanos,
            before.channels[id].touch(at.nanos),
        ),
{
    assert forall|ch: ChannelState| #[trigger]
        is_opened(before.channels, id, at.nanos, ch) implies {
        &&& used_since_queued(ch) && ch.touched == at.nanos
        &&& used_since_queued(ch.enqueue(body, at.nanos, ttl))
        &&& used_since_queued(ch.drained())
        &&& used_since_queued(ch.listened())
        &&& forall|receivers: nat|
            used_since_queued(#[trigger] ch.posted(body, receivers, at.nanos, ttl))
    } by {
        crate::channel_laws::law_used_since_queued(ch, body, at.nanos, ttl);
        assert(ch.touch(at.nanos) == ch);
        assert(used_since_queued(ch.enqueue(body, at.nanos, ttl)));
        assert forall|receivers: nat|
            used_since_queued(#[trigger] ch.posted(body, receivers, at.nanos, ttl)) by {
            if receivers == 0 {
                assert(ch.posted(body, receivers, at.nanos, ttl).queue == ch.enqueue(
                    body,
                    at.nanos,
                    ttl,
                ).queue);
            }
        }
    }
}

/// A sweep loses no message that could still be delivered: a channel that it
/// drops while nobody listens has nothing left that is fresh then or later.
pub proof fn law_sweep_is_safe(
    before: Map<Seq<char>, ChannelState>,
    after: Map<Seq<char>, ChannelState>,
    id: Seq<char>,
    now: u128,
    later: u128,
    ttl: u128,
)
    requires
        on_time(before, now),
        swept_states(before, after, now, ttl),
        before.contains_key(id),
        now <= later,
    ensures
        if after.contains_key(id) {
            &&& after[id].queue == before[id].queue
            &&& after[id].touched == before[id].touched
            &&& after[id].live == before[id].live.counted(after[id].live.counts.last())
        } else {
            fresh(before[id].queue, later, ttl).len() == 0
        },
        before[id].kept(0, now, ttl) ==> after.contains_key(id),
{
    if after.contains_key(id) {
        assert(after.dom().contains(id));
    } else {
        law_sweep_loses_no_message(before[id], now, later, ttl);
    }
}

/// Channels don't accumulate: one that nobody has ever listened to is gone with
/// the first sweep after it has been idle for long enough.
pub proof fn law_unheard_channels_go(
    before: Map<Seq<char>, ChannelState>,
    after: Map<Seq<char>, ChannelState>,
    id: Seq<char>,
    now: u128,
    ttl: u128,
)
    requires
        swept_states(before, after, now, ttl),
        before.contains_key(id),
        !before[id].live.heard,
        age(before[id].touched, now) >= idle_nanos(ttl),
    ensures
        !after.contains_key(id),
{
}

} // verus!

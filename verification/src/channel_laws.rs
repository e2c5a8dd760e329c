//! What a channel promises of the messages that nobody was listening for.

use vstd::prelude::*;

use crate::channel::{
    age, enqueued, fresh, lemma_fresh_len, ChannelState, Queued, MAX_QUEUE,
};

verus! {

/// The queue after messages were posted while nobody listened.
pub open spec fn queue_after(posted: Seq<Queued>, ttl: u128) -> Seq<Queued>
    decreases posted.len(),
{
    if posted.len() == 0 {
        Seq::empty()
    } else {
        enqueued(queue_after(posted.drop_last(), ttl), posted.last().1, posted.last().0, ttl)
    }
}

/// The last few of some messages.
pub open spec fn latest(posted: Seq<Queued>) -> Seq<Queued> {
    if posted.len() <= MAX_QUEUE {
        posted
    } else {
        posted.skip(posted.len() - MAX_QUEUE)
    }
}

/// Messages were posted one after the other, and none after `now`.
pub open spec fn posted_by(posted: Seq<Queued>, now: u128) -> bool {
    &&& forall|i: int, j: int|
        0 <= i <= j < posted.len() ==> (#[trigger] posted[i]).0 <= (#[trigger] posted[j]).0
    &&& posted.len() > 0 ==> posted.last().0 <= now
}

/// What is fresh later was fresh before.
proof fn lemma_fresh_later(queue: Seq<Queued>, now: u128, later: u128, ttl: u128)
    requires
        now <= later,
    ensures
        fresh(fresh(queue, now, ttl), later, ttl) == fresh(queue, later, ttl),
    decreases queue.len(),
{
    reveal(Seq::filter);
    if queue.len() > 0 {
        lemma_fresh_later(queue.drop_last(), now, later, ttl);
        let front = fresh(queue.drop_last(), now, ttl);
        assert(front.push(queue.last()).drop_last() =~= front);
    }
}

/// What is fresh of two queues, one behind the other.
proof fn lemma_fresh_push(queue: Seq<Queued>, entry: Queued, now: u128, ttl: u128)
    ensures
        fresh(queue.push(entry), now, ttl) == (if age(entry.0, now) < ttl {
            fresh(queue, now, ttl).push(entry)
        } else {
            fresh(queue, now, ttl)
        }),
{
    reveal(Seq::filter);
    assert(queue.push(entry).drop_last() =~= queue);
}

/// A first entry that has expired does not matter.
proof fn lemma_fresh_drop_first(queue: Seq<Queued>, now: u128, ttl: u128)
    requires
        queue.len() > 0,
        age(queue[0].0, now) >= ttl,
    ensures
        fresh(queue.drop_first(), now, ttl) == fresh(queue, now, ttl),
    decreases queue.len(),
{
    reveal(Seq::filter);
    if queue.len() > 1 {
        lemma_fresh_drop_first(queue.drop_last(), now, ttl);
        assert(queue.drop_first().drop_last() =~= queue.drop_last().drop_first());
        assert(queue.drop_first().last() == queue.last());
    } else {
        assert(queue.drop_first() =~= Seq::empty());
        assert(queue.drop_last() =~= Seq::empty());
        reveal_with_fuel(Seq::filter, 2);
    }
}

/// If the oldest message of all is fresh, every one is.
proof fn lemma_all_fresh(queue: Seq<Queued>, now: u128, ttl: u128)
    requires
        posted_by(queue, now),
        queue.len() > 0 ==> age(queue[0].0, now) < ttl,
    ensures
        fresh(queue, now, ttl) == queue,
    decreases queue.len(),
{
    reveal(Seq::filter);
    if queue.len() > 0 {
        let rest = queue.drop_last();
        assert(queue[0].0 <= queue[queue.len() - 1].0);
        assert(posted_by(rest, now)) by {
            assert forall|i: int, j: int| 0 <= i <= j < rest.len() implies (#[trigger] rest[i]).0
                <= (#[trigger] rest[j]).0 by {
                assert(queue[i].0 <= queue[j].0);
            }
            if rest.len() > 0 {
                assert(queue[rest.len() - 1].0 <= queue[queue.len() - 1].0);
            }
        }
        lemma_all_fresh(rest, now, ttl);
        assert(rest.push(queue.last()) =~= queue);
    }
}

/// A listener that connects gets the latest five of the messages posted while
/// nobody listened, in the order in which they were posted, as far as they have
/// not expired; nothing else.
pub proof fn law_queue_keeps_the_latest(posted: Seq<Queued>, now: u128, ttl: u128)
    requires
        posted_by(posted, now),
    ensures
        fresh(queue_after(posted, ttl), now, ttl) == fresh(latest(posted), now, ttl),
        queue_after(posted, ttl).len() <= MAX_QUEUE,
    decreases posted.len(),
{
    if posted.len() > 0 {
        let entry = posted.last();
        let at = entry.0;
        let rest = posted.drop_last();
        assert(posted_by(rest, at)) by {
            assert forall|i: int, j: int| 0 <= i <= j < rest.len() implies (#[trigger] rest[i]).0
                <= (#[trigger] rest[j]).0 by {
                assert(posted[i].0 <= posted[j].0);
            }
            if rest.len() > 0 {
                assert(posted[rest.len() - 1].0 <= posted[posted.len() - 1].0);
            }
        }
        law_queue_keeps_the_latest(rest, at, ttl);
        let held = latest(rest);
        let alive = fresh(queue_after(rest, ttl), at, ttl);
        assert(posted_by(held, at)) by {
            let skipped = rest.len() - held.len();
            assert(held =~= rest.skip(skipped));
            assert forall|i: int, j: int| 0 <= i <= j < held.len() implies (#[trigger] held[i]).0
                <= (#[trigger] held[j]).0 by {
                assert(rest[i + skipped].0 <= rest[j + skipped].0);
            }
        }
        lemma_fresh_later(held, at, now, ttl);
        if held.len() < MAX_QUEUE {
            assert(latest(posted) =~= held.push(entry));
            lemma_fresh_len(held, at, ttl);
            lemma_fresh_push(alive, entry, now, ttl);
            lemma_fresh_push(held, entry, now, ttl);
        } else {
            let kept = held.drop_first();
            assert(latest(posted) =~= kept.push(entry));
            if age(held[0].0, at) < ttl {
                lemma_all_fresh(held, at, ttl);
                lemma_fresh_push(kept, entry, now, ttl);
            } else {
                lemma_fresh_drop_first(held, at, ttl);
                lemma_fresh_len(kept, at, ttl);
                lemma_fresh_drop_first(held, now, ttl);
                lemma_fresh_push(alive, entry, now, ttl);
                lemma_fresh_push(kept, entry, now, ttl);
            }
        }
    } else {
        assert(queue_after(posted, ttl) =~= posted);
    }
}

/// A message older than its time to live is never delivered: all that is handed
/// on comes from the queue and is still fresh.
pub proof fn law_expired_is_never_delivered(queue: Seq<Queued>, now: u128, ttl: u128, i: int)
    requires
        0 <= i < fresh(queue, now, ttl).len(),
    ensures
        age(fresh(queue, now, ttl)[i].0, now) < ttl,
        queue.contains(fresh(queue, now, ttl)[i]),
{
    broadcast use vstd::seq_lib::group_filter_ensures;

    let alive = fresh(queue, now, ttl);
    let is_fresh = |entry: Queued| age(entry.0, now) < ttl;
    assert(alive == queue.filter(is_fresh));
    assert(queue.filter(is_fresh).contains(alive[i]));
    queue.lemma_filter_contains_rev(is_fresh, alive[i]);
}

/// A message is delivered from the queue at most once: nothing is left of it
/// after the queue was drained.
pub proof fn law_drained_is_gone(state: ChannelState, now: u128, ttl: u128)
    ensures
        fresh(state.drained().queue, now, ttl).len() == 0,
        state.drained().drained() == state.drained(),
{
    lemma_fresh_len(state.drained().queue, now, ttl);
}

/// No message was queued after the channel was last used.
pub open spec fn used_since_queued(state: ChannelState) -> bool {
    forall|i: int| 0 <= i < state.queue.len() ==> (#[trigger] state.queue[i]).0 <= state.touched
}

/// Using a channel, and queueing a message in it, keep it so on a clock that
/// does not run backwards.
pub proof fn law_used_since_queued(state: ChannelState, msg: Seq<char>, now: u128, ttl: u128)
    requires
        used_since_queued(state),
        state.touched <= now,
    ensures
        used_since_queued(state.touch(now)),
        used_since_queued(state.touch(now).enqueue(msg, now, ttl)),
        used_since_queued(state.touch(now).drained()),
{
    let after = state.touch(now).enqueue(msg, now, ttl);
    let alive = fresh(state.queue, now, ttl);
    assert forall|i: int| 0 <= i < after.queue.len() implies (#[trigger] after.queue[i]).0
        <= after.touched by {
        if i < after.queue.len() - 1 {
            let shift: int = if alive.len() >= MAX_QUEUE { 1 } else { 0 };
            assert(after.queue[i] == alive[i + shift]);
            law_expired_is_never_delivered(state.queue, now, ttl, i + shift);
        }
    }
}

/// A channel without listeners that has been idle too long holds nothing that
/// could still be delivered, so that sweeping it loses no message.
pub proof fn law_sweep_loses_no_message(state: ChannelState, now: u128, later: u128, ttl: u128)
    requires
        used_since_queued(state),
        !state.kept(0, now, ttl),
        now <= later,
    ensures
        fresh(state.queue, later, ttl).len() == 0,
{
    let alive = fresh(state.queue, later, ttl);
    if alive.len() > 0 {
        law_expired_is_never_delivered(state.queue, later, ttl, 0);
    }
}

} // verus!

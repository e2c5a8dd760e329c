//! What each endpoint does, said of what goes in, what comes out and what is
//! kept.

use serde_json::Value;
use vstd::prelude::*;
use vstd::utf8::encode_utf8;

use crate::addr::IpAddr;
use crate::channel::{fresh, subscription_of, texts, views, ChannelState, Offer, Queued};
use crate::clock::Moment;
use crate::hub::swept_states;
use crate::json::{json_parse, json_string, queued_value_of, Parsed};
use crate::ledger_laws::Happening;
use crate::state::{fetched, listened, posted, refuses, replies, Bridge, Listening, PostStep};
use crate::state_laws::{lemma_replies_differ, waiting};
use crate::web::Status;

verus! {

/// The messages of a queue that were queued less than `ttl` nanoseconds before
/// `now`, in their order; one that is dated ahead counts as new.
pub open spec fn alive(queue: Seq<Queued>, now: u128, ttl: u128) -> Seq<Queued> {
    queue.filter(
        |entry: Queued|
            if entry.0 <= now {
                now - entry.0 < ttl
            } else {
                0 < ttl
            },
    )
}

/// What is handed on of a queue is exactly what is younger than its time to live.
pub proof fn law_fresh_is_alive(queue: Seq<Queued>, now: u128, ttl: u128)
    ensures
        fresh(queue, now, ttl) == alive(queue, now, ttl),
    decreases queue.len(),
{
    reveal(Seq::filter);
    if queue.len() > 0 {
        law_fresh_is_alive(queue.drop_last(), now, ttl);
    }
}

/// What was ever tried to be sent on a channel.
pub open spec fn offers(bridge: Bridge, id: Seq<char>) -> Seq<Offer> {
    if bridge.channels.contains_key(id) {
        bridge.channels[id].live.offers
    } else {
        Seq::empty()
    }
}

/// What was ever sent to listeners of a channel.
pub open spec fn sent(bridge: Bridge, id: Seq<char>) -> Seq<Seq<char>> {
    if bridge.channels.contains_key(id) {
        bridge.channels[id].live.sent
    } else {
        Seq::empty()
    }
}

/// A post goes to whoever listens: every message is offered to the live broadcast
/// once. It is answered `OK` exactly when there was a receiver for it then, and
/// is sent and not queued; it is answered `OK QUEUED` exactly when there was
/// none, and is queued and not sent.
pub proof fn law_post_goes_to_whoever_listens(
    before: Bridge,
    after: Bridge,
    step: PostStep,
    push_enabled: bool,
    id: Seq<char>,
    ip: IpAddr,
    body: Seq<char>,
    at: Moment,
    ttl: u128,
)
    requires
        posted(before, after, step, push_enabled, id, ip, body, at, ttl),
        encode_utf8(id).len() <= 256,
        !"apns_"@.is_prefix_of(id),
    ensures
        offers(after, id).len() == offers(before, id).len() + 1,
        offers(before, id).is_prefix_of(offers(after, id)),
        offers(after, id).last().msg == body,
        offers(after, id).last().receivers > 0 ==> {
            &&& replies(step, "OK"@)
            &&& !replies(step, "OK QUEUED"@)
            &&& sent(after, id) == sent(before, id).push(body)
            &&& waiting(after, id) == waiting(before, id)
        },
        offers(after, id).last().receivers == 0 ==> {
            &&& replies(step, "OK QUEUED"@)
            &&& !replies(step, "OK"@)
            &&& sent(after, id) == sent(before, id)
            &&& waiting(after, id).len() > 0
            &&& waiting(after, id).last() == (at.nanos, body)
        },
{
    lemma_replies_differ();
    assert(offers(before, id).is_prefix_of(offers(after, id)));
}

/// A queue after one more message: what is alive of it stays in order, the oldest
/// makes room where there are five already, and the message comes last.
pub proof fn law_queue_takes_one_more(
    before: Bridge,
    after: Bridge,
    step: PostStep,
    push_enabled: bool,
    id: Seq<char>,
    ip: IpAddr,
    body: Seq<char>,
    at: Moment,
    ttl: u128,
)
    requires
        posted(before, after, step, push_enabled, id, ip, body, at, ttl),
        encode_utf8(id).len() <= 256,
        "apns_"@.is_prefix_of(id) || replies(step, "OK QUEUED"@),
    ensures
        ({
            let kept = alive(waiting(before, id), at.nanos, ttl);
            waiting(after, id) == (if kept.len() >= 5 {
                kept.skip(1)
            } else {
                kept
            }).push((at.nanos, body))
        }),
{
    lemma_replies_differ();
    law_fresh_is_alive(waiting(before, id), at.nanos, ttl);
    let kept = alive(waiting(before, id), at.nanos, ttl);
    if kept.len() >= 5 {
        assert(kept.skip(1) =~= kept.drop_first());
    }
}

/// A post to a device is handed over to be pushed, with the token that follows
/// `apns_` and the body as it is, or refused where pushes are not set up; either
/// way a copy is queued, and no listener is sent anything.
pub proof fn law_push_goes_to_the_device(
    before: Bridge,
    after: Bridge,
    step: PostStep,
    push_enabled: bool,
    token: Seq<char>,
    ip: IpAddr,
    body: Seq<char>,
    at: Moment,
    ttl: u128,
)
    requires
        posted(before, after, step, push_enabled, "apns_"@ + token, ip, body, at, ttl),
        encode_utf8("apns_"@ + token).len() <= 256,
    ensures
        push_enabled ==> (step matches PostStep::Push { token: t, body: b } && t@ == token && b@
            == body),
        !push_enabled ==> refuses(step, Status::ServiceUnavailable, "APNS NOT CONFIGURED"@),
        waiting(after, "apns_"@ + token).len() > 0,
        waiting(after, "apns_"@ + token).last() == (at.nanos, body),
        sent(after, "apns_"@ + token) == sent(before, "apns_"@ + token),
        offers(after, "apns_"@ + token) == offers(before, "apns_"@ + token),
{
    let id = "apns_"@ + token;
    assert("apns_"@ =~= id.take("apns_"@.len() as int));
    assert("apns_"@.is_prefix_of(id));
    assert(id.skip("apns_"@.len() as int) =~= token);
}

/// An id of more than 256 bytes is refused everywhere and leaves no trace, and no
/// other is refused for its length; a queue can be fetched exactly of ids that
/// start with `apns_`.
pub proof fn law_ids_are_checked(
    before: Bridge,
    after: Bridge,
    step: PostStep,
    push_enabled: bool,
    r: Result<Listening, Status>,
    fetch: Result<Vec<Value>, Status>,
    id: Seq<char>,
    ip: IpAddr,
    body: Seq<char>,
    at: Moment,
    ttl: u128,
)
    ensures
        posted(before, after, step, push_enabled, id, ip, body, at, ttl) ==> if encode_utf8(
            id,
        ).len() > 256 {
            refuses(step, Status::UriTooLong, "ID TOO LONG"@) && after == before
        } else {
            !(step matches PostStep::Reply(Err((status, _))) && status == Status::UriTooLong)
        },
        listened(before, after, r, id, ip, at, ttl) ==> if encode_utf8(id).len() > 256 {
            r == Err::<Listening, Status>(Status::UriTooLong) && after == before
        } else {
            r is Ok
        },
        fetched(before, after, fetch, id, at.nanos, ttl) ==> if encode_utf8(id).len() > 256 {
            fetch == Err::<Vec<Value>, Status>(Status::UriTooLong) && after == before
        } else if "apns_"@.is_prefix_of(id) {
            fetch is Ok
        } else {
            fetch == Err::<Vec<Value>, Status>(Status::NotFound) && after == before
        },
{
}

/// Everything is counted as what it is: a post under its channel, a push under
/// its token, a listener as a connect. A fetch and a refused request are not
/// counted. None of them touches the rate limits.
pub proof fn law_everything_is_counted(
    before: Bridge,
    after: Bridge,
    step: PostStep,
    push_enabled: bool,
    r: Result<Listening, Status>,
    fetch: Result<Vec<Value>, Status>,
    id: Seq<char>,
    token: Seq<char>,
    ip: IpAddr,
    body: Seq<char>,
    at: Moment,
    ttl: u128,
)
    ensures
        posted(before, after, step, push_enabled, id, ip, body, at, ttl) && encode_utf8(id).len()
            <= 256 && !"apns_"@.is_prefix_of(id) ==> after.ledger == (Happening::Post {
            ip,
            channel: id,
            now: at.secs,
        }).applied(before.ledger),
        posted(before, after, step, push_enabled, id, ip, body, at, ttl) && encode_utf8(id).len()
            <= 256 && id == "apns_"@ + token ==> after.ledger == (Happening::Push {
            ip,
            token,
            now: at.secs,
        }).applied(before.ledger),
        listened(before, after, r, id, ip, at, ttl) && encode_utf8(id).len() <= 256
            ==> after.ledger == (Happening::Connect { ip, now: at.secs }).applied(before.ledger),
        fetched(before, after, fetch, id, at.nanos, ttl) ==> after.ledger == before.ledger,
        posted(before, after, step, push_enabled, id, ip, body, at, ttl) || listened(
            before,
            after,
            r,
            id,
            ip,
            at,
            ttl,
        ) || fetched(before, after, fetch, id, at.nanos, ttl) ==> after.buckets == before.buckets,
{
    if id == "apns_"@ + token {
        assert("apns_"@ =~= id.take("apns_"@.len() as int));
        assert("apns_"@.is_prefix_of(id));
        assert(id.skip("apns_"@.len() as int) =~= token);
    }
}

/// A listener that connects gets every message that is alive in the queue, and
/// nothing else, in order; nothing of it stays queued; and it joins the broadcast
/// behind all that was sent.
pub proof fn law_listener_gets_all_that_is_alive(
    before: Bridge,
    after: Bridge,
    r: Result<Listening, Status>,
    id: Seq<char>,
    ip: IpAddr,
    at: Moment,
    ttl: u128,
)
    requires
        listened(before, after, r, id, ip, at, ttl),
        encode_utf8(id).len() <= 256,
    ensures
        r matches Ok(listening) && {
            let waited = alive(waiting(before, id), at.nanos, ttl);
            &&& listening.backlog@.len() == waited.len()
            &&& forall|i: int|
                0 <= i < waited.len() ==> (#[trigger] listening.backlog@[i])@ == waited[i].1
            &&& subscription_of(listening.live).from == sent(before, id).len()
        },
        after.channels.contains_key(id),
        after.channels[id].queue.len() == 0,
        after.channels[id].live.heard,
        after.channels[id].touched == at.nanos,
        sent(after, id) == sent(before, id),
        offers(after, id) == offers(before, id),
{
    law_fresh_is_alive(waiting(before, id), at.nanos, ttl);
    if let Ok(listening) = r {
        let waited = alive(waiting(before, id), at.nanos, ttl);
        assert(views(listening.backlog@) == texts(waited));
        assert(views(listening.backlog@).len() == listening.backlog@.len());
        assert forall|i: int| 0 <= i < waited.len() implies (#[trigger] listening.backlog@[i])@
            == waited[i].1 by {
            assert(views(listening.backlog@)[i] == listening.backlog@[i]@);
            assert(texts(waited)[i] == waited[i].1);
        }
    }
}

/// A queued message is handed out as the object that it is, if it is one, and as
/// the string of its text if it is any other JSON or none.
pub proof fn law_queued_value_by_kind(body: Seq<char>, parsed: Parsed, object: Value)
    ensures
        parsed == Parsed::Object(object) ==> queued_value_of(body, parsed) == object,
        !(parsed is Object) ==> queued_value_of(body, parsed) == json_string(body),
{
}

/// Is `value` what is handed out for `body`: that very object, if the body reads
/// as a JSON object, and the JSON string of the body otherwise?
pub open spec fn is_handed_out(value: Value, body: Seq<char>) -> bool {
    match json_parse(body) {
        Parsed::Object(object) => value == object,
        Parsed::Null(_) => value == json_string(body),
        Parsed::Bool(_) => value == json_string(body),
        Parsed::Number(_) => value == json_string(body),
        Parsed::Text(_) => value == json_string(body),
        Parsed::Array(_) => value == json_string(body),
        Parsed::Invalid => value == json_string(body),
    }
}

/// A fetch hands out every message that is alive in the queue of a device, in
/// order, each as the object that it is or else as the string of its text, and
/// leaves the queue empty. Of a device that nothing was posted to it hands out
/// nothing, and nothing comes into being.
pub proof fn law_fetch_hands_out_by_kind(
    before: Bridge,
    after: Bridge,
    fetch: Result<Vec<Value>, Status>,
    id: Seq<char>,
    now: u128,
    ttl: u128,
)
    requires
        fetched(before, after, fetch, id, now, ttl),
        encode_utf8(id).len() <= 256,
        "apns_"@.is_prefix_of(id),
    ensures
        fetch matches Ok(values) && {
            let waited = alive(waiting(before, id), now, ttl);
            &&& values@.len() == waited.len()
            &&& forall|i: int|
                0 <= i < waited.len() ==> is_handed_out(#[trigger] values@[i], waited[i].1)
        },
        waiting(after, id).len() == 0,
        after.channels.contains_key(id) == before.channels.contains_key(id),
        before.channels.contains_key(id) ==> {
            &&& after.channels[id].touched == now
            &&& after.channels[id].live == before.channels[id].live
        },
{
    law_fresh_is_alive(waiting(before, id), now, ttl);
    let waited = alive(waiting(before, id), now, ttl);
    if let Ok(values) = fetch {
        if before.channels.contains_key(id) {
            assert forall|i: int| 0 <= i < waited.len() implies is_handed_out(
                #[trigger] values@[i],
                waited[i].1,
            ) by {
                assert(texts(waited)[i] == waited[i].1);
                let body = waited[i].1;
                assert(values@[i] == queued_value_of(body, json_parse(body)));
            }
        } else {
            assert(waited =~= Seq::empty()) by {
                reveal(Seq::filter);
            }
        }
    }
}

/// A channel that is used is noted as used then, and only that one is.
pub proof fn law_use_is_noted(
    before: Bridge,
    after: Bridge,
    step: PostStep,
    push_enabled: bool,
    id: Seq<char>,
    ip: IpAddr,
    body: Seq<char>,
    at: Moment,
    ttl: u128,
)
    requires
        posted(before, after, step, push_enabled, id, ip, body, at, ttl),
        encode_utf8(id).len() <= 256,
    ensures
        after.channels.contains_key(id),
        after.channels[id].touched == at.nanos,
        after.channels.dom() == before.channels.dom().insert(id),
{
    assert(after.channels.dom() =~= before.channels.dom().insert(id));
}

/// A channel is kept exactly while it has a listener, or was used less than 300
/// seconds ago, or less than a message lives if that is longer.
pub proof fn law_kept_while_in_use(ch: ChannelState, receivers: usize, now: u128, ttl: u128)
    ensures
        receivers > 0 ==> ch.kept(receivers, now, ttl),
        receivers == 0 ==> (ch.kept(receivers, now, ttl) <==> {
            ||| ch.touched > now
            ||| now - ch.touched < 300_000_000_000
            ||| now - ch.touched < ttl
        }),
{
}

/// A sweep goes by the listeners that it finds and by the time since a channel
/// was last used: a channel stays exactly when it has a listener or was used less
/// than 300 seconds ago, or less than a message lives if that is longer. Nothing
/// comes into being.
pub proof fn law_sweep_goes_by_listeners(
    before: Map<Seq<char>, ChannelState>,
    after: Map<Seq<char>, ChannelState>,
    id: Seq<char>,
    now: u128,
    ttl: u128,
)
    requires
        swept_states(before, after, now, ttl),
    ensures
        after.contains_key(id) ==> before.contains_key(id),
        after.contains_key(id) ==> {
            let idle = if before[id].touched <= now {
                now - before[id].touched
            } else {
                0
            };
            let receivers = after[id].live.counts.last();
            &&& after[id].live.counts == before[id].live.counts.push(receivers)
            &&& receivers > 0 || idle < 300_000_000_000 || idle < ttl
            &&& after[id].live.sent == before[id].live.sent
            &&& after[id].live.offers == before[id].live.offers
            &&& after[id].live.id == before[id].live.id
        },
        before.contains_key(id) && !after.contains_key(id) ==> {
            &&& before[id].touched <= now
            &&& now - before[id].touched >= 300_000_000_000
            &&& now - before[id].touched >= ttl
        },
{
    if after.contains_key(id) {
        assert(after.dom().contains(id));
        assert(before.dom().contains(id));
        assert(before.contains_key(id));
    }
}

} // verus!

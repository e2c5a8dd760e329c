//! The bridge: what each endpoint does to the channels, the counters and the
//! rate limiter, and what it answers.

use serde_json::Value;
use tokio::sync::broadcast::Receiver;
use vstd::prelude::*;
use vstd::utf8::encode_utf8;

use crate::addr::{IpAddr, IpKey};
use crate::auth::{admin_authorized, authorized};
use crate::channel::{fresh, subscription_of, texts, views, ChannelState, Delivery};
use crate::clock::{unix_secs, Clock, ClockError, Moment, DAY, MINUTE, NANOS_PER_SEC};
use crate::hub::{is_opened, swept_states, Hub};
use crate::json::{json_parse, queued_json_value, queued_value_of};
use crate::ratelimit::{checked_buckets, swept_buckets, Limits, RateLimiter, Windows};
use crate::stats::{ConnectionGuard, Ledger, Snapshot, Stats, HISTORY};
use crate::text::strip_prefix;
use crate::web::{admin_401, rate_limited, Refusal, Status};

verus! {

broadcast use vstd::string::group_string_axioms;

/// Longest accepted channel id / apns token path segment, in bytes.
pub const MAX_ID_LEN: usize = 256;

/// What the ids of push channels start with.
pub open spec fn push_prefix() -> Seq<char> {
    "apns_"@
}

/// Is an id too long to be accepted?
pub open spec fn id_too_long(id: Seq<char>) -> bool {
    encode_utf8(id).len() > MAX_ID_LEN
}

/// Is an id too long to be accepted?
fn is_id_too_long(id: &str) -> (yes: bool)
    ensures
        yes == id_too_long(id@),
{
    id.as_bytes().len() > MAX_ID_LEN
}

/// A listener that has connected.
pub struct Listening {
    /// Stands for the listener in the counters.
    pub guard: ConnectionGuard,
    /// What was queued for it.
    pub backlog: Vec<String>,
    /// All that is posted from now on.
    pub live: Receiver<String>,
}

/// What is to be done about a posted message.
pub enum PostStep {
    /// It is dealt with: this is the answer.
    Reply(Result<&'static str, (Status, String)>),
    /// It is to be sent to a device, as a push.
    Push { token: String, body: String },
}

/// Everything that the bridge keeps, as the endpoints see it.
#[verifier::ext_equal]
pub ghost struct Bridge {
    pub channels: Map<Seq<char>, ChannelState>,
    pub ledger: Ledger,
    pub buckets: Map<IpKey, Windows>,
}

/// Everything that the bridge keeps.
pub struct AppState {
    hub: Hub,
    limiter: RateLimiter,
    stats: Stats,
    push_enabled: bool,
    admin_password: Option<String>,
    msg_ttl: u64,
    clock: Clock,
}

/// Does a post step answer with this text?
pub open spec fn replies(step: PostStep, text: Seq<char>) -> bool {
    step matches PostStep::Reply(Ok(reply)) && reply@ == text
}

/// Does a post step refuse with this status and text?
pub open spec fn refuses(step: PostStep, status: Status, text: Seq<char>) -> bool {
    step matches PostStep::Reply(Err((s, reply))) && s == status && reply@ == text
}

/// What a post to an id that is too long comes to: it is refused and leaves no
/// trace.
pub open spec fn post_refused(before: Bridge, after: Bridge, step: PostStep) -> bool {
    refuses(step, Status::UriTooLong, "ID TOO LONG"@) && after == before
}

/// What a post to a device comes to. It is counted, and a copy is kept in the
/// recovery queue whatever comes of the push; the push itself is still to be
/// sent if pushes are set up.
pub open spec fn post_pushed(
    before: Bridge,
    after: Bridge,
    step: PostStep,
    push_enabled: bool,
    id: Seq<char>,
    ip: IpAddr,
    body: Seq<char>,
    at: Moment,
    ttl: u128,
) -> bool {
    let token = id.skip(push_prefix().len() as int);
    &&& after.ledger == before.ledger.pushed(ip, token, at.secs)
    &&& after.buckets == before.buckets
    &&& exists|ch: ChannelState|
        {
            &&& #[trigger] is_opened(before.channels, id, at.nanos, ch)
            &&& after.channels == before.channels.insert(id, ch.enqueue(body, at.nanos, ttl))
        }
    &&& if push_enabled {
        step matches PostStep::Push { token: t, body: b } && t@ == token && b@ == body
    } else {
        refuses(step, Status::ServiceUnavailable, "APNS NOT CONFIGURED"@)
    }
}

/// What a post to a channel comes to. It is counted; the message is delivered
/// live, or queued if nobody listens (as it is where nobody ever did), and the
/// answer says which.
pub open spec fn post_delivered(
    before: Bridge,
    after: Bridge,
    step: PostStep,
    id: Seq<char>,
    ip: IpAddr,
    body: Seq<char>,
    at: Moment,
    ttl: u128,
) -> bool {
    &&& after.ledger == before.ledger.posted(ip, id, at.secs)
    &&& after.buckets == before.buckets
    &&& exists|ch: ChannelState, receivers: nat|
        {
            &&& #[trigger] is_opened(before.channels, id, at.nanos, ch)
            &&& receivers > 0 ==> ch.live.heard
            &&& after.channels == before.channels.insert(
                id,
                #[trigger] ch.posted(body, receivers, at.nanos, ttl),
            )
            &&& if receivers > 0 {
                replies(step, "OK"@)
            } else {
                replies(step, "OK QUEUED"@)
            }
        }
}

/// What a post comes to.
pub open spec fn posted(
    before: Bridge,
    after: Bridge,
    step: PostStep,
    push_enabled: bool,
    id: Seq<char>,
    ip: IpAddr,
    body: Seq<char>,
    at: Moment,
    ttl: u128,
) -> bool {
    if id_too_long(id) {
        post_refused(before, after, step)
    } else if push_prefix().is_prefix_of(id) {
        post_pushed(before, after, step, push_enabled, id, ip, body, at, ttl)
    } else {
        post_delivered(before, after, step, id, ip, body, at, ttl)
    }
}

/// What a listener that connects gets, and what it changes.
pub open spec fn listened(
    before: Bridge,
    after: Bridge,
    r: Result<Listening, Status>,
    id: Seq<char>,
    ip: IpAddr,
    at: Moment,
    ttl: u128,
) -> bool {
    match r {
        Ok(listening) => {
            &&& !id_too_long(id)
            &&& after.ledger == before.ledger.connected(ip, at.secs)
            &&& after.buckets == before.buckets
            &&& exists|ch: ChannelState|
                {
                    &&& #[trigger] is_opened(before.channels, id, at.nanos, ch)
                    &&& after.channels == before.channels.insert(id, ch.listened())
                    &&& views(listening.backlog@) == texts(fresh(ch.queue, at.nanos, ttl))
                    &&& subscription_of(listening.live) == ch.live.subscription()
                }
        },
        Err(status) => id_too_long(id) && status == Status::UriTooLong && after == before,
    }
}

/// What the recovery queue of a device is handed out as, and what that changes.
pub open spec fn fetched(
    before: Bridge,
    after: Bridge,
    r: Result<Vec<Value>, Status>,
    id: Seq<char>,
    now: u128,
    ttl: u128,
) -> bool {
    match r {
        Ok(values) => {
            &&& !id_too_long(id) && push_prefix().is_prefix_of(id)
            &&& if before.channels.contains_key(id) {
                let ch = before.channels[id];
                &&& after == (Bridge {
                    channels: before.channels.insert(id, ch.touch(now).drained()),
                    ..before
                })
                &&& values@ == texts(fresh(ch.queue, now, ttl)).map_values(
                    |body: Seq<char>| queued_value_of(body, json_parse(body)),
                )
            } else {
                after == before && values@.len() == 0
            }
        },
        Err(status) => {
            &&& after == before
            &&& if id_too_long(id) {
                status == Status::UriTooLong
            } else {
                !push_prefix().is_prefix_of(id) && status == Status::NotFound
            }
        },
    }
}

/// Texts as the recovery queue hands them out.
fn queued_values(bodies: Vec<String>) -> (values: Vec<Value>)
    ensures
        values@ == views(bodies@).map_values(
            |body: Seq<char>| queued_value_of(body, json_parse(body)),
        ),
{
    let mut values: Vec<Value> = Vec::new();
    while values.len() < bodies.len()
        invariant
            values@.len() <= bodies@.len(),
            forall|i: int|
                0 <= i < values@.len() ==> values@[i] == queued_value_of(
                    bodies@[i]@,
                    json_parse(bodies@[i]@),
                ),
        decreases bodies@.len() - values@.len(),
    {
        let body: String = bodies[values.len()].clone();
        values.push(queued_json_value(body));
    }
    assert(values@ =~= views(bodies@).map_values(
        |body: Seq<char>| queued_value_of(body, json_parse(body)),
    ));
    values
}

impl AppState {
    /// Everything that the bridge keeps.
    pub closed spec fn bridge(&self) -> Bridge {
        Bridge {
            channels: self.hub.channels(),
            ledger: self.stats.ledger(),
            buckets: self.limiter.buckets(),
        }
    }

    /// The rate limits.
    pub closed spec fn limits(&self) -> Limits {
        self.limiter.limits()
    }

    /// Are pushes set up?
    pub closed spec fn push_enabled(&self) -> bool {
        self.push_enabled
    }

    /// The admin password.
    pub closed spec fn password(&self) -> Option<Seq<char>> {
        match self.admin_password {
            Some(password) => Some(password@),
            None => None,
        }
    }

    /// How long a queued message lives, in nanoseconds.
    pub closed spec fn ttl(&self) -> u128 {
        (self.msg_ttl * NANOS_PER_SEC) as u128
    }

    /// The nanoseconds that the monotonic clock showed when it was last read.
    pub closed spec fn shown(&self) -> u128 {
        self.clock.shown()
    }

    /// Does this have the same settings as another state?
    pub open spec fn same_settings(&self, other: &AppState) -> bool {
        &&& self.limits() == other.limits()
        &&& self.push_enabled() == other.push_enabled()
        &&& self.password() == other.password()
        &&& self.ttl() == other.ttl()
    }

    /// The invariant: bounded queues, bounded counters, buckets within limits.
    pub open spec fn wf(&self) -> bool {
        &&& crate::hub::short_queues(self.bridge().channels)
        &&& self.bridge().ledger.bounded()
        &&& crate::ratelimit::valid_buckets(self.bridge().buckets, self.limits())
    }

    /// A bridge with no channels yet. Messages live for `msg_ttl` seconds.
    pub fn new(
        limiter: RateLimiter,
        stats: Stats,
        push_enabled: bool,
        admin_password: Option<String>,
        msg_ttl: u64,
    ) -> (state: AppState)
        requires
            limiter.wf(),
            stats.wf(),
        ensures
            state.wf(),
            state.bridge() == (Bridge {
                channels: Map::empty(),
                ledger: stats.ledger(),
                buckets: limiter.buckets(),
            }),
            state.limits() == limiter.limits(),
            state.push_enabled() == push_enabled,
            state.password() == (match admin_password {
                Some(password) => Some(password@),
                None => None,
            }),
            state.ttl() == msg_ttl * NANOS_PER_SEC,
            state.shown() == 0,
    {
        let state: AppState = AppState {
            hub: Hub::new(),
            limiter,
            stats,
            push_enabled,
            admin_password,
            msg_ttl,
            clock: Clock::start(),
        };
        assert(state.ttl() == msg_ttl * NANOS_PER_SEC) by {
            assert(msg_ttl * NANOS_PER_SEC <= u128::MAX) by (nonlinear_arith)
                requires
                    msg_ttl <= u64::MAX,
                    NANOS_PER_SEC == 1_000_000_000,
            ;
        }
        state
    }

    /// What both clocks show, given what the system clock shows: nothing if that
    /// shows nothing. The monotonic clock goes back behind no earlier moment.
    pub fn now_by(&mut self, secs: Result<u64, ClockError>) -> (r: Result<Moment, ClockError>)
        ensures
            final(self).bridge() == old(self).bridge(),
            final(self).same_settings(old(self)),
            match secs {
                Ok(secs) => {
                    &&& r matches Ok(at) && at.secs == secs && at.nanos == final(self).shown()
                    &&& final(self).shown() >= old(self).shown()
                },
                Err(e) => r == Err::<Moment, ClockError>(e) && final(self).shown() == old(
                    self,
                ).shown(),
            },
    {
        match secs {
            Ok(secs) => Ok(Moment { secs, nanos: self.clock.nanos() }),
            Err(e) => Err(e),
        }
    }

    /// What both clocks show now. The monotonic clock goes back behind no
    /// earlier moment.
    pub fn now(&mut self) -> (r: Result<Moment, ClockError>)
        ensures
            final(self).bridge() == old(self).bridge(),
            final(self).same_settings(old(self)),
            match r {
                Ok(at) => at.nanos >= old(self).shown() && final(self).shown() == at.nanos,
                Err(_) => final(self).shown() == old(self).shown(),
            },
    {
        self.now_by(unix_secs())
    }

    /// How long a queued message lives, in nanoseconds.
    fn ttl_nanos(&self) -> (ttl: u128)
        ensures
            ttl == self.ttl(),
    {
        assert(self.msg_ttl * NANOS_PER_SEC <= u128::MAX) by (nonlinear_arith)
            requires
                self.msg_ttl <= u64::MAX,
                NANOS_PER_SEC == 1_000_000_000,
        ;
        self.msg_ttl as u128 * NANOS_PER_SEC
    }

    /// Connects a listener to a channel.
    pub fn listen(&mut self, id: &str, ip: IpAddr, at: Moment) -> (r: Result<Listening, Status>)
        requires
            old(self).wf(),
        ensures
            final(self).wf(),
            final(self).same_settings(old(self)),
            final(self).shown() == old(self).shown(),
            listened(
                old(self).bridge(),
                final(self).bridge(),
                r,
                id@,
                ip,
                at,
                old(self).ttl(),
            ),
    {
        if is_id_too_long(id) {
            return Err(Status::UriTooLong);
        }
        let ttl: u128 = self.ttl_nanos();
        let guard: ConnectionGuard = self.stats.connect_guard_at(ip, at.secs);
        let (live, backlog) = self.hub.listen(id, at.nanos, ttl);
        Ok(Listening { guard, backlog, live })
    }

    /// Takes note that a listener has disconnected.
    pub fn disconnect(&mut self, guard: ConnectionGuard)
        requires
            old(self).wf(),
        ensures
            final(self).wf(),
            final(self).same_settings(old(self)),
            final(self).shown() == old(self).shown(),
            final(self).bridge() == (Bridge {
                ledger: old(self).bridge().ledger.disconnected(),
                ..old(self).bridge()
            }),
    {
        self.stats.disconnect(guard);
    }

    /// Posts a message to a channel or a device.
    pub fn post_message(&mut self, id: &str, ip: IpAddr, body: String, at: Moment) -> (step:
        PostStep)
        requires
            old(self).wf(),
        ensures
            final(self).wf(),
            final(self).same_settings(old(self)),
            final(self).shown() == old(self).shown(),
            posted(
                old(self).bridge(),
                final(self).bridge(),
                step,
                old(self).push_enabled(),
                id@,
                ip,
                body@,
                at,
                old(self).ttl(),
            ),
    {
        if is_id_too_long(id) {
            return PostStep::Reply(Err((Status::UriTooLong, "ID TOO LONG".to_string())));
        }
        let ttl: u128 = self.ttl_nanos();
        if let Some(token) = strip_prefix(id, "apns_") {
            self.stats.record_push_at(ip, token, at.secs);
            // Keep a short recovery copy independently of APNs delivery. A
            // client can drain it later from the token's `/queued` endpoint if
            // the push is delayed or lost.
            self.hub.enqueue(id, body.clone(), at.nanos, ttl);
            if !self.push_enabled {
                return PostStep::Reply(
                    Err((Status::ServiceUnavailable, "APNS NOT CONFIGURED".to_string())),
                );
            }
            return PostStep::Push { token: token.to_string(), body };
        }
        self.stats.record_post_at(ip, id, at.secs);
        match self.hub.post(id, body, at.nanos, ttl) {
            Delivery::Live => PostStep::Reply(Ok("OK")),
            Delivery::Queued => PostStep::Reply(Ok("OK QUEUED")),
        }
    }

    /// Hands out, and empties, the recovery queue of a device.
    pub fn get_queued(&mut self, id: &str, at: Moment) -> (r: Result<Vec<Value>, Status>)
        requires
            old(self).wf(),
        ensures
            final(self).wf(),
            final(self).same_settings(old(self)),
            final(self).shown() == old(self).shown(),
            fetched(
                old(self).bridge(),
                final(self).bridge(),
                r,
                id@,
                at.nanos,
                old(self).ttl(),
            ),
    {
        if is_id_too_long(id) {
            return Err(Status::UriTooLong);
        }
        if strip_prefix(id, "apns_").is_none() {
            return Err(Status::NotFound);
        }
        let ttl: u128 = self.ttl_nanos();
        let bodies: Vec<String> = self.hub.drain(id, at.nanos, ttl);
        assert(bodies@.len() == views(bodies@).len());
        Ok(queued_values(bodies))
    }

    /// Holds a request against the rate limits.
    pub fn rate_limit(&mut self, ip: IpAddr, at: Moment) -> (r: Result<(), Refusal>)
        requires
            old(self).wf(),
        ensures
            final(self).wf(),
            final(self).same_settings(old(self)),
            final(self).shown() == old(self).shown(),
            ({
                let (buckets, admitted) = checked_buckets(
                    old(self).bridge().buckets,
                    old(self).limits(),
                    ip,
                    at.secs,
                );
                &&& final(self).bridge() == (Bridge { buckets, ..old(self).bridge() })
                &&& match r {
                    Ok(_) => admitted,
                    Err(refusal) => !admitted && refusal.is_rate_limited(),
                }
            }),
    {
        if self.limiter.check_at(ip, at.secs) {
            Ok(())
        } else {
            Err(rate_limited())
        }
    }

    /// Does an `Authorization` header give the admin password?
    pub fn admin_authorized(&self, header: Option<&str>) -> (ok: bool)
        ensures
            ok == authorized(
                self.password(),
                (match header {
                    Some(text) => Some(text@),
                    None => None,
                }),
            ),
    {
        match &self.admin_password {
            Some(password) => admin_authorized(Some(password.as_str()), header),
            None => false,
        }
    }

    /// Is a request for the admin page to be answered? It is held against the
    /// rate limits first, and only then against the password.
    pub fn admin_page(&mut self, ip: IpAddr, header: Option<&str>, at: Moment) -> (r: Result<
        (),
        Refusal,
    >)
        requires
            old(self).wf(),
        ensures
            final(self).wf(),
            final(self).same_settings(old(self)),
            final(self).shown() == old(self).shown(),
            ({
                let (buckets, admitted) = checked_buckets(
                    old(self).bridge().buckets,
                    old(self).limits(),
                    ip,
                    at.secs,
                );
                let known = authorized(
                    old(self).password(),
                    (match header {
                        Some(text) => Some(text@),
                        None => None,
                    }),
                );
                &&& final(self).bridge() == (Bridge { buckets, ..old(self).bridge() })
                &&& match r {
                    Ok(_) => admitted && known,
                    Err(refusal) => if admitted {
                        !known && refusal.is_unauthorized()
                    } else {
                        refusal.is_rate_limited()
                    },
                }
            }),
    {
        match self.rate_limit(ip, at) {
            Ok(_) => if self.admin_authorized(header) {
                Ok(())
            } else {
                Err(admin_401())
            },
            Err(refusal) => Err(refusal),
        }
    }

    /// The counters, for a request that the admin page would be answered to. For
    /// such a request the moment lies a day or more after the Unix epoch.
    pub fn admin_stats(&mut self, ip: IpAddr, header: Option<&str>, at: Moment) -> (r: Result<
        Snapshot,
        Refusal,
    >)
        requires
            old(self).wf(),
            checked_buckets(old(self).bridge().buckets, old(self).limits(), ip, at.secs).1
                && authorized(
                old(self).password(),
                (match header {
                    Some(text) => Some(text@),
                    None => None,
                }),
            ) ==> at.secs / MINUTE + 1 >= HISTORY,
        ensures
            final(self).wf(),
            final(self).same_settings(old(self)),
            final(self).shown() == old(self).shown(),
            ({
                let (buckets, admitted) = checked_buckets(
                    old(self).bridge().buckets,
                    old(self).limits(),
                    ip,
                    at.secs,
                );
                let known = authorized(
                    old(self).password(),
                    (match header {
                        Some(text) => Some(text@),
                        None => None,
                    }),
                );
                match r {
                    Ok(snapshot) => {
                        &&& admitted && known
                        &&& final(self).bridge() == (Bridge {
                            buckets,
                            ledger: old(self).bridge().ledger.rolled(at.secs / DAY),
                            ..old(self).bridge()
                        })
                        &&& snapshot.shows(final(self).bridge().ledger, at.secs / MINUTE)
                    },
                    Err(refusal) => {
                        &&& final(self).bridge() == (Bridge { buckets, ..old(self).bridge() })
                        &&& if admitted {
                            !known && refusal.is_unauthorized()
                        } else {
                            refusal.is_rate_limited()
                        }
                    },
                }
            }),
    {
        match self.admin_page(ip, header, at) {
            Ok(_) => Ok(self.stats.snapshot_at(at.secs)),
            Err(refusal) => Err(refusal),
        }
    }

    /// Drops what is no longer needed: idle channels and stale buckets.
    pub fn sweep(&mut self, at: Moment)
        requires
            old(self).wf(),
        ensures
            final(self).wf(),
            final(self).same_settings(old(self)),
            final(self).shown() == old(self).shown(),
            final(self).bridge().ledger == old(self).bridge().ledger,
            final(self).bridge().buckets == swept_buckets(
                old(self).bridge().buckets,
                at.secs / DAY,
            ),
            swept_states(
                old(self).bridge().channels,
                final(self).bridge().channels,
                at.nanos,
                old(self).ttl(),
            ),
    {
        let ttl: u128 = self.ttl_nanos();
        self.hub.sweep(at.nanos, ttl);
        self.limiter.sweep_at(at.secs);
    }
}

} // verus!

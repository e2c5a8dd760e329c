//! What the rate limiter promises its clients, over any run of requests and
//! sweeps.

use vstd::prelude::*;

use crate::addr::{IpAddr, IpKey};
use crate::clock::{DAY, MINUTE};
use crate::ratelimit::{
    checked_buckets, lemma_checked_keeps_valid, lemma_swept_keeps_valid, rolled, setting,
    swept_buckets, valid_buckets, windows_of, Limits, Windows,
};
use crate::text::unsigned_value;

verus! {

/// The periods that requests are limited over.
pub enum Period {
    Second,
    Minute,
    Day,
}

impl Period {
    /// The number of the period that second `now` lies in.
    pub open spec fn id(self, now: u64) -> u64 {
        match self {
            Period::Second => now,
            Period::Minute => now / MINUTE,
            Period::Day => now / DAY,
        }
    }

    /// The window that counts this period.
    pub open spec fn window(self, w: Windows) -> (u64, u32) {
        match self {
            Period::Second => w.sec,
            Period::Minute => w.min,
            Period::Day => w.day,
        }
    }

    /// The limit on this period.
    pub open spec fn limit(self, limits: Limits) -> u32 {
        match self {
            Period::Second => limits.per_sec,
            Period::Minute => limits.per_min,
            Period::Day => limits.per_day,
        }
    }

    /// The requests that windows count in period `id`.
    pub open spec fn used(self, w: Windows, id: u64) -> u32 {
        rolled(self.window(w), id).1
    }
}

/// Something that happens to the limiter at a second of the clock.
pub enum Event {
    Request { ip: IpAddr, now: u64 },
    Sweep { now: u64 },
}

impl Event {
    /// When it happens.
    pub open spec fn now(self) -> u64 {
        match self {
            Event::Request { ip: _, now } => now,
            Event::Sweep { now } => now,
        }
    }

    /// The buckets afterwards, and whether a request was admitted.
    pub open spec fn applied(self, buckets: Map<IpKey, Windows>, limits: Limits) -> (
        Map<IpKey, Windows>,
        bool,
    ) {
        match self {
            Event::Request { ip, now } => checked_buckets(buckets, limits, ip, now),
            Event::Sweep { now } => (swept_buckets(buckets, now / DAY), false),
        }
    }

    /// Is this a request of the client in bucket `key`, in period `id`?
    pub open spec fn is_of(self, key: IpKey, period: Period, id: u64) -> bool {
        self matches Event::Request { ip, now } && ip.bucket().pair() == key && period.id(now) == id
    }
}

/// The buckets after a run of events.
pub open spec fn run(buckets: Map<IpKey, Windows>, limits: Limits, events: Seq<Event>) -> Map<
    IpKey,
    Windows,
>
    decreases events.len(),
{
    if events.len() == 0 {
        buckets
    } else {
        events.last().applied(run(buckets, limits, events.drop_last()), limits).0
    }
}

/// How many requests of the client in bucket `key` a run admits in period `id`.
pub open spec fn admitted(
    buckets: Map<IpKey, Windows>,
    limits: Limits,
    events: Seq<Event>,
    key: IpKey,
    period: Period,
    id: u64,
) -> nat
    decreases events.len(),
{
    if events.len() == 0 {
        0
    } else {
        let rest = events.drop_last();
        let before = run(buckets, limits, rest);
        let earlier = admitted(buckets, limits, rest, key, period, id);
        if events.last().is_of(key, period, id) && events.last().applied(before, limits).1 {
            earlier + 1
        } else {
            earlier
        }
    }
}

/// The clock does not run backwards during a run.
pub open spec fn in_order(events: Seq<Event>) -> bool {
    forall|i: int, j: int| 0 <= i <= j < events.len() ==> #[trigger] events[i].now() <= #[trigger]
        events[j].now()
}

/// A request is admitted exactly when every window has room for it.
pub proof fn law_admitted_iff_room(w: Windows, limits: Limits, now: u64)
    ensures
        w.charged(limits, now).1 <==> forall|period: Period|
            #[trigger] period.used(w, period.id(now)) < period.limit(limits),
{
    let admitted = w.charged(limits, now).1;
    if forall|period: Period| #[trigger] period.used(w, period.id(now)) < period.limit(limits) {
        assert(Period::Second.used(w, Period::Second.id(now)) < Period::Second.limit(limits));
        assert(Period::Minute.used(w, Period::Minute.id(now)) < Period::Minute.limit(limits));
        assert(Period::Day.used(w, Period::Day.id(now)) < Period::Day.limit(limits));
        assert(admitted);
    }
}

/// An admitted request counts once in each of its windows, and one turned away
/// counts in none.
pub proof fn law_counted_iff_admitted(w: Windows, limits: Limits, now: u64, period: Period)
    ensures
        ({
            let (after, admitted) = w.charged(limits, now);
            let id = period.id(now);
            period.used(after, id) == period.used(w, id) + (if admitted { 1int } else { 0 })
        }),
{
}

/// A request touches no other client's windows.
pub proof fn law_clients_are_independent(
    buckets: Map<IpKey, Windows>,
    limits: Limits,
    ip: IpAddr,
    now: u64,
    other: IpKey,
)
    requires
        other != ip.bucket().pair(),
    ensures
        windows_of(checked_buckets(buckets, limits, ip, now).0, other) == windows_of(buckets, other),
{
}

/// A sweep forgets nothing that still counts that day: whatever a client has
/// used of a window of the day, it has still used afterwards.
pub proof fn law_sweep_keeps_what_counts(
    buckets: Map<IpKey, Windows>,
    limits: Limits,
    swept_at: u64,
    key: IpKey,
    now: u64,
    period: Period,
)
    requires
        valid_buckets(buckets, limits),
        now / DAY == swept_at / DAY,
    ensures
        period.used(
            windows_of(swept_buckets(buckets, swept_at / DAY), key),
            period.id(now),
        ) == period.used(windows_of(buckets, key), period.id(now)),
{
    assert((now / MINUTE) / (DAY / MINUTE) == now / DAY) by (nonlinear_arith)
        requires
            MINUTE == 60,
            DAY == 86_400,
    ;
    assert(buckets.contains_key(key) ==> buckets[key].aligned());
}

/// Every run keeps the buckets valid.
pub proof fn law_run_keeps_valid(
    buckets: Map<IpKey, Windows>,
    limits: Limits,
    events: Seq<Event>,
)
    requires
        valid_buckets(buckets, limits),
    ensures
        valid_buckets(run(buckets, limits, events), limits),
    decreases events.len(),
{
    if events.len() > 0 {
        law_run_keeps_valid(buckets, limits, events.drop_last());
        let before = run(buckets, limits, events.drop_last());
        match events.last() {
            Event::Request { ip, now } => lemma_checked_keeps_valid(before, limits, ip, now),
            Event::Sweep { now } => lemma_swept_keeps_valid(before, limits, now / DAY),
        }
    }
}

/// Later seconds lie in no earlier period.
proof fn lemma_period_monotonic(period: Period, a: u64, b: u64)
    requires
        a <= b,
    ensures
        period.id(a) <= period.id(b),
{
    assert(a / MINUTE <= b / MINUTE && a / DAY <= b / DAY) by (nonlinear_arith)
        requires
            a <= b,
            MINUTE == 60,
            DAY == 86_400,
    ;
}

/// A run in order is so without its last event, which is not earlier than any.
proof fn lemma_in_order_rest(events: Seq<Event>)
    requires
        in_order(events),
        events.len() > 0,
    ensures
        in_order(events.drop_last()),
        events.len() > 1 ==> events.drop_last().last().now() <= events.last().now(),
{
    let rest = events.drop_last();
    assert forall|i: int, j: int| 0 <= i <= j < rest.len() implies #[trigger] rest[i].now()
        <= #[trigger] rest[j].now() by {
        assert(events[i].now() <= events[j].now());
    }
    if rest.len() > 0 {
        assert(events[events.len() - 2].now() <= events[events.len() - 1].now());
    }
}

/// Until its period is over, every admitted request is still counted.
proof fn lemma_admitted_are_counted(
    buckets: Map<IpKey, Windows>,
    limits: Limits,
    events: Seq<Event>,
    key: IpKey,
    period: Period,
    id: u64,
)
    requires
        valid_buckets(buckets, limits),
        in_order(events),
    ensures
        ({
            let n = admitted(buckets, limits, events, key, period, id);
            let w = windows_of(run(buckets, limits, events), key);
            &&& n <= period.limit(limits)
            &&& events.len() > 0 && period.id(events.last().now()) == id ==> n <= period.used(w, id)
            &&& events.len() == 0 || period.id(events.last().now()) < id ==> n == 0
        }),
    decreases events.len(),
{
    if events.len() > 0 {
        let rest = events.drop_last();
        lemma_in_order_rest(events);
        lemma_admitted_are_counted(buckets, limits, rest, key, period, id);
        law_run_keeps_valid(buckets, limits, rest);
        law_run_keeps_valid(buckets, limits, events);
        let before = run(buckets, limits, rest);
        let now = events.last().now();
        if rest.len() > 0 {
            lemma_period_monotonic(period, rest.last().now(), now);
        }
        assert(before.contains_key(key) ==> before[key].within(limits));
        let after = run(buckets, limits, events);
        assert(after.contains_key(key) ==> after[key].within(limits));
        match events.last() {
            Event::Request { ip, now } => {
                if ip.bucket().pair() == key {
                    law_counted_iff_admitted(windows_of(before, key), limits, now, period);
                } else {
                    law_clients_are_independent(before, limits, ip, now, key);
                }
            },
            Event::Sweep { now } => {
                law_sweep_keeps_what_counts(before, limits, now, key, now, period);
            },
        }
    }
}

/// However a run of requests and sweeps goes, no client has more requests
/// admitted in one second, one minute or one day than the limit on it.
pub proof fn law_limits_hold(
    buckets: Map<IpKey, Windows>,
    limits: Limits,
    events: Seq<Event>,
    key: IpKey,
    period: Period,
    id: u64,
)
    requires
        valid_buckets(buckets, limits),
        in_order(events),
    ensures
        admitted(buckets, limits, events, key, period, id) <= period.limit(limits),
{
    lemma_admitted_are_counted(buckets, limits, events, key, period, id);
}

/// In a run from the start, the windows count what was admitted and no more.
proof fn lemma_used_is_admitted(
    limits: Limits,
    events: Seq<Event>,
    key: IpKey,
    period: Period,
    id: u64,
)
    requires
        in_order(events),
        events.len() > 0 ==> period.id(events.last().now()) <= id,
    ensures
        period.used(windows_of(run(Map::empty(), limits, events), key), id) == admitted(
            Map::empty(),
            limits,
            events,
            key,
            period,
            id,
        ),
    decreases events.len(),
{
    let none = Map::<IpKey, Windows>::empty();
    if events.len() > 0 {
        let rest = events.drop_last();
        let now = events.last().now();
        lemma_in_order_rest(events);
        if rest.len() > 0 {
            lemma_period_monotonic(period, rest.last().now(), now);
        }
        lemma_used_is_admitted(limits, rest, key, period, id);
        lemma_admitted_are_counted(none, limits, rest, key, period, id);
        law_run_keeps_valid(none, limits, rest);
        let before = run(none, limits, rest);
        match events.last() {
            Event::Request { ip, now } => {
                if ip.bucket().pair() == key {
                    law_counted_iff_admitted(windows_of(before, key), limits, now, period);
                } else {
                    law_clients_are_independent(before, limits, ip, now, key);
                }
            },
            Event::Sweep { now } => {
                law_sweep_keeps_what_counts(before, limits, now, key, now, period);
            },
        }
    }
}

/// A client within its limits is never refused, and one beyond them always is:
/// however a run of requests and sweeps went from the start, a request that
/// follows is admitted exactly when fewer requests of the client than the limit
/// were admitted in its second, in its minute and in its day. The limiter knows
/// the client or has room for one more.
pub proof fn law_refused_iff_used_up(limits: Limits, events: Seq<Event>, ip: IpAddr, now: u64)
    requires
        in_order(events),
        events.len() > 0 ==> events.last().now() <= now,
        ({
            let buckets = run(Map::empty(), limits, events);
            buckets.contains_key(ip.bucket().pair()) || buckets.len() < 1_000_000
        }),
    ensures
        checked_buckets(run(Map::empty(), limits, events), limits, ip, now).1
            <==> forall|period: Period|
            #[trigger] admitted(
                Map::empty(),
                limits,
                events,
                ip.bucket().pair(),
                period,
                period.id(now),
            ) < period.limit(limits),
{
    let none = Map::<IpKey, Windows>::empty();
    let key = ip.bucket().pair();
    let w = windows_of(run(none, limits, events), key);
    law_admitted_iff_room(w, limits, now);
    assert forall|period: Period|
        #[trigger] admitted(none, limits, events, key, period, period.id(now)) == period.used(
            w,
            period.id(now),
        ) by {
        if events.len() > 0 {
            lemma_period_monotonic(period, events.last().now(), now);
        }
        lemma_used_is_admitted(limits, events, key, period, period.id(now));
    }
    if w.charged(limits, now).1 {
        assert forall|period: Period|
            #[trigger] admitted(none, limits, events, key, period, period.id(now)) < period.limit(
                limits,
            ) by {
            assert(period.used(w, period.id(now)) < period.limit(limits));
        }
    } else {
        let period = choose|period: Period|
            #[trigger] period.used(w, period.id(now)) >= period.limit(limits);
        assert(admitted(none, limits, events, key, period, period.id(now)) >= period.limit(limits));
    }
}

/// The limiter never holds more than a million clients; only while it holds that
/// many is a client that it does not know turned away, and that changes nothing.
pub proof fn law_table_is_bounded(
    buckets: Map<IpKey, Windows>,
    limits: Limits,
    events: Seq<Event>,
    ip: IpAddr,
    now: u64,
)
    requires
        valid_buckets(buckets, limits),
    ensures
        run(buckets, limits, events).len() <= 1_000_000,
        buckets.len() >= 1_000_000 && !buckets.contains_key(ip.bucket().pair())
            ==> checked_buckets(buckets, limits, ip, now) == (buckets, false),
        buckets.len() < 1_000_000 || buckets.contains_key(ip.bucket().pair()) ==> checked_buckets(
            buckets,
            limits,
            ip,
            now,
        ).0.contains_key(ip.bucket().pair()),
{
    law_run_keeps_valid(buckets, limits, events);
}

/// A sweep keeps exactly the clients whose day is the present one, as they are.
pub proof fn law_sweep_drops_what_is_stale(
    buckets: Map<IpKey, Windows>,
    swept_at: u64,
    key: IpKey,
)
    ensures
        ({
            let swept = swept_buckets(buckets, swept_at / 86_400);
            &&& swept.contains_key(key) <==> buckets.contains_key(key) && buckets[key].day.0
                == swept_at / 86_400
            &&& swept.contains_key(key) ==> swept[key] == buckets[key]
        }),
{
}

/// The periods are seconds, minutes of 60 and days of 86400 of them.
pub proof fn law_periods(now: u64)
    ensures
        Period::Second.id(now) == now,
        Period::Minute.id(now) == now / 60,
        Period::Day.id(now) == now / 86_400,
{
}

/// A limit is what its variable says, if that is a number of 32 bits, and the
/// default in every other case.
pub proof fn law_limits_as_set(text: &str, default: u32, n: u32)
    ensures
        setting(None, default) == default,
        unsigned_value(text@, u32::MAX as nat) == Some(n as nat) ==> setting(Some(text), default)
            == n,
        unsigned_value(text@, u32::MAX as nat) is None ==> setting(Some(text), default) == default,
{
}

} // verus!

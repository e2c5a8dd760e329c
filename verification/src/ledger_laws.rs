//! The counters tell the truth: what they hold after any run of posts, pushes,
//! listeners that come and go, and looks at the numbers.

use vstd::prelude::*;

use crate::addr::{law_keys_tell_addresses_apart, IpAddr};
use crate::clock::{DAY, MINUTE};
use crate::stats::{minute_count, Activity, Ledger, HISTORY, MAX_KEYS};
use crate::stats_laws::{
    in_sequence, law_history_is_complete, lemma_minute_count_beyond, none_after,
};

verus! {

/// Something that happens at a second of the clock.
pub ghost enum Happening {
    Post { ip: IpAddr, channel: Seq<char>, now: u64 },
    Push { ip: IpAddr, token: Seq<char>, now: u64 },
    Connect { ip: IpAddr, now: u64 },
    Disconnect { now: u64 },
    Look { now: u64 },
}

impl Happening {
    /// When it happens.
    pub open spec fn now(self) -> u64 {
        match self {
            Happening::Post { ip: _, channel: _, now } => now,
            Happening::Push { ip: _, token: _, now } => now,
            Happening::Connect { ip: _, now } => now,
            Happening::Disconnect { now } => now,
            Happening::Look { now } => now,
        }
    }

    /// The ledger afterwards.
    pub open spec fn applied(self, ledger: Ledger) -> Ledger {
        match self {
            Happening::Post { ip, channel, now } => ledger.posted(ip, channel, now),
            Happening::Push { ip, token, now } => ledger.pushed(ip, token, now),
            Happening::Connect { ip, now } => ledger.connected(ip, now),
            Happening::Disconnect { now: _ } => ledger.disconnected(),
            Happening::Look { now } => ledger.rolled(now / DAY),
        }
    }

    /// The activity that this is, and whose, if it is one that is counted.
    pub open spec fn activity(self) -> Option<(Activity, IpAddr)> {
        match self {
            Happening::Post { ip, channel: _, now: _ } => Some((Activity::Post, ip)),
            Happening::Push { ip, token: _, now: _ } => Some((Activity::Push, ip)),
            Happening::Connect { ip, now: _ } => Some((Activity::Connect, ip)),
            Happening::Disconnect { now: _ } => None,
            Happening::Look { now: _ } => None,
        }
    }

    /// Is this such an activity?
    pub open spec fn is_a(self, what: Activity) -> bool {
        self.activity() matches Some((a, _)) && a == what
    }

    /// Is this such an activity of that client?
    pub open spec fn is_by(self, what: Activity, ip: IpAddr) -> bool {
        self.activity() == Some((what, ip))
    }

    /// Is this such an activity in that minute?
    pub open spec fn is_in(self, what: Activity, min: u64) -> bool {
        self.is_a(what) && self.now() / MINUTE == min
    }

    /// Is this a post to that channel?
    pub open spec fn posts_to(self, name: Seq<char>) -> bool {
        self matches Happening::Post { ip: _, channel, now: _ } && channel == name
    }

    /// Is this a push to that device?
    pub open spec fn pushes_to(self, name: Seq<char>) -> bool {
        self matches Happening::Push { ip: _, token, now: _ } && token == name
    }

    /// If this uses `name`, does its table know the name or have room for it?
    pub open spec fn finds_name(self, before: Ledger, name: Seq<char>) -> bool {
        &&& self.posts_to(name) ==> before.per_channel.contains_key(name)
            || before.per_channel.len() < MAX_KEYS
        &&& self.pushes_to(name) ==> before.per_token.contains_key(name) || before.per_token.len()
            < MAX_KEYS
    }

    /// If this is an activity of that client, does the table know the client or
    /// have room for it?
    pub open spec fn finds_client(self, before: Ledger, ip: IpAddr) -> bool {
        self.activity() matches Some((_, by)) && by == ip ==> before.per_ip.contains_key(ip.pair())
            || before.per_ip.len() < MAX_KEYS
    }
}

/// The ledger after a run.
pub open spec fn run(ledger: Ledger, events: Seq<Happening>) -> Ledger
    decreases events.len(),
{
    if events.len() == 0 {
        ledger
    } else {
        events.last().applied(run(ledger, events.drop_last()))
    }
}

/// How often something happens in a run.
pub open spec fn tally(events: Seq<Happening>, counts: spec_fn(Happening) -> bool) -> nat
    decreases events.len(),
{
    if events.len() == 0 {
        0
    } else {
        tally(events.drop_last(), counts) + (if counts(events.last()) { 1nat } else { 0nat })
    }
}

/// The clock does not run backwards during a run.
pub open spec fn in_order(events: Seq<Happening>) -> bool {
    forall|i: int, j: int| 0 <= i <= j < events.len() ==> #[trigger] events[i].now() <= #[trigger]
        events[j].now()
}

/// A run lies within one day.
pub open spec fn within_day(events: Seq<Happening>, day: u64) -> bool {
    forall|i: int| 0 <= i < events.len() ==> #[trigger] events[i].now() / DAY == day
}

/// A run in order is so without its last event, which is not earlier than any.
pub(crate) proof fn lemma_in_order_rest(events: Seq<Happening>)
    requires
        in_order(events),
        events.len() > 0,
    ensures
        in_order(events.drop_last()),
        events.len() > 1 ==> events.drop_last().last().now() <= events.last().now(),
{
    let rest = events.drop_last();
    assert forall|i: int, j: int| 0 <= i <= j < rest.len() implies #[trigger] rest[i].now()
        <= #[trigger] rest[j].now() by {
        assert(events[i].now() <= events[j].now());
    }
    if rest.len() > 0 {
        assert(events[events.len() - 2].now() <= events[events.len() - 1].now());
    }
}

/// A run within a day is so without its last event, which lies in it too.
proof fn lemma_within_day_rest(events: Seq<Happening>, day: u64)
    requires
        within_day(events, day),
        events.len() > 0,
    ensures
        within_day(events.drop_last(), day),
        events.last().now() / DAY == day,
{
    let rest = events.drop_last();
    assert forall|i: int| 0 <= i < rest.len() implies #[trigger] rest[i].now() / DAY == day by {
        assert(events[i].now() / DAY == day);
    }
    assert(events[events.len() - 1].now() / DAY == day);
}

/// Every run keeps the ledger within its bounds.
pub proof fn law_ledger_stays_bounded(ledger: Ledger, events: Seq<Happening>)
    requires
        ledger.bounded(),
    ensures
        run(ledger, events).bounded(),
    decreases events.len(),
{
    if events.len() > 0 {
        law_ledger_stays_bounded(ledger, events.drop_last());
    }
}

/// The totals count every post, push and connect since the start, as long as
/// the counters do not run over.
pub proof fn law_totals_are_true(ledger: Ledger, events: Seq<Happening>, what: Activity)
    requires
        ledger.totals.count(what) + tally(events, |e: Happening| e.is_a(what)) <= u64::MAX,
    ensures
        run(ledger, events).totals.count(what) == ledger.totals.count(what) + tally(
            events,
            |e: Happening| e.is_a(what),
        ),
    decreases events.len(),
{
    if events.len() > 0 {
        law_totals_are_true(ledger, events.drop_last(), what);
    }
}

/// How many listeners more have connected than disconnected in a run.
pub open spec fn joined(events: Seq<Happening>) -> int {
    tally(events, |e: Happening| e.is_a(Activity::Connect)) - tally(
        events,
        |e: Happening| e is Disconnect,
    )
}

/// The gauge wraps around by whole turns of its 64 bits.
proof fn lemma_gauge_turns(ledger: Ledger, events: Seq<Happening>) -> (turns: int)
    ensures
        run(ledger, events).sse_active == ledger.sse_active + joined(events) + turns
            * 0x1_0000_0000_0000_0000,
    decreases events.len(),
{
    if events.len() > 0 {
        let turns = lemma_gauge_turns(ledger, events.drop_last());
        let before = run(ledger, events.drop_last()).sse_active;
        let e = events.last();
        if e.is_a(Activity::Connect) && before == i64::MAX {
            turns - 1
        } else if e is Disconnect && before == i64::MIN {
            turns + 1
        } else {
            turns
        }
    } else {
        0
    }
}

/// The gauge shows how many listeners have connected and not disconnected yet,
/// as long as that is a number that it can show.
pub proof fn law_gauge_is_true(ledger: Ledger, events: Seq<Happening>)
    requires
        i64::MIN <= ledger.sse_active + joined(events) <= i64::MAX,
    ensures
        run(ledger, events).sse_active == ledger.sse_active + joined(events),
{
    let turns = lemma_gauge_turns(ledger, events);
}

/// Is this what a table of names holds of something that happened `n` times?
pub open spec fn holds(entry: Option<u64>, n: nat) -> bool {
    match entry {
        Some(count) => count == n && n > 0,
        None => n == 0,
    }
}

/// Whenever `name` is posted to or pushed to in a run, its table knows it already
/// or has room for it.
pub open spec fn name_fits(ledger: Ledger, events: Seq<Happening>, name: Seq<char>) -> bool {
    forall|k: int|
        0 <= k < events.len() ==> events[k].finds_name(
            #[trigger] run(ledger, events.take(k)),
            name,
        )
}

/// Whenever a client is active in a run, the table knows it already or has room
/// for it.
pub open spec fn client_fits(ledger: Ledger, events: Seq<Happening>, ip: IpAddr) -> bool {
    forall|k: int|
        0 <= k < events.len() ==> events[k].finds_client(
            #[trigger] run(ledger, events.take(k)),
            ip,
        )
}

/// The tables of the day count every channel posted to and every device pushed
/// to, and how often, and nothing else, as long as they are not full and their
/// counters do not run over.
pub proof fn law_names_are_true(ledger: Ledger, events: Seq<Happening>, name: Seq<char>)
    requires
        ledger.per_channel.is_empty(),
        ledger.per_token.is_empty(),
        within_day(events, ledger.day),
        name_fits(ledger, events, name),
        tally(events, |e: Happening| e.posts_to(name)) <= u64::MAX,
        tally(events, |e: Happening| e.pushes_to(name)) <= u64::MAX,
    ensures
        run(ledger, events).day == ledger.day,
        holds(
            run(ledger, events).per_channel.get(name),
            tally(events, |e: Happening| e.posts_to(name)),
        ),
        holds(
            run(ledger, events).per_token.get(name),
            tally(events, |e: Happening| e.pushes_to(name)),
        ),
    decreases events.len(),
{
    if events.len() > 0 {
        let rest = events.drop_last();
        lemma_within_day_rest(events, ledger.day);
        assert(events.take(events.len() - 1) =~= rest);
        assert forall|k: int| 0 <= k < rest.len() implies rest[k].finds_name(
            #[trigger] run(ledger, rest.take(k)),
            name,
        ) by {
            assert(rest.take(k) =~= events.take(k));
        }
        law_names_are_true(ledger, rest, name);
    }
}

/// The table of the day counts every client that was active, and what it did,
/// and no other, as long as it is not full and its counters do not run over.
pub proof fn law_clients_are_true(ledger: Ledger, events: Seq<Happening>, ip: IpAddr)
    requires
        ledger.per_ip.is_empty(),
        within_day(events, ledger.day),
        client_fits(ledger, events, ip),
        tally(events, |e: Happening| e.is_by(Activity::Post, ip)) <= u64::MAX,
        tally(events, |e: Happening| e.is_by(Activity::Push, ip)) <= u64::MAX,
        tally(events, |e: Happening| e.is_by(Activity::Connect, ip)) <= u64::MAX,
    ensures
        run(ledger, events).day == ledger.day,
        ({
            let posts = tally(events, |e: Happening| e.is_by(Activity::Post, ip));
            let pushes = tally(events, |e: Happening| e.is_by(Activity::Push, ip));
            let connects = tally(events, |e: Happening| e.is_by(Activity::Connect, ip));
            match run(ledger, events).per_ip.get(ip.pair()) {
                Some(counts) => {
                    &&& posts + pushes + connects > 0
                    &&& counts.posts == posts
                    &&& counts.pushes == pushes
                    &&& counts.connects == connects
                },
                None => posts == 0 && pushes == 0 && connects == 0,
            }
        }),
    decreases events.len(),
{
    if events.len() > 0 {
        let rest = events.drop_last();
        lemma_within_day_rest(events, ledger.day);
        assert(events.take(events.len() - 1) =~= rest);
        assert forall|k: int| 0 <= k < rest.len() implies rest[k].finds_client(
            #[trigger] run(ledger, rest.take(k)),
            ip,
        ) by {
            assert(rest.take(k) =~= events.take(k));
        }
        law_clients_are_true(ledger, rest, ip);
        if let Some((_, other)) = events.last().activity() {
            if other.pair() == ip.pair() {
                law_keys_tell_addresses_apart(other, ip);
            }
        }
    }
}

/// The graph shows how often everything happened in each of the minutes of the
/// last 24 hours, as long as the counter of that minute does not run over.
pub proof fn law_graph_is_true(
    ledger: Ledger,
    events: Seq<Happening>,
    what: Activity,
    min: u64,
    now: u64,
)
    requires
        ledger.minutes.len() == 0,
        in_order(events),
        events.len() > 0 ==> events.last().now() <= now,
        tally(events, |e: Happening| e.is_in(what, min)) <= u32::MAX,
        min <= now / MINUTE < min + HISTORY,
    ensures
        ({
            let minutes = run(ledger, events).minutes;
            &&& minute_count(minutes, min as int, what) == tally(
                events,
                |e: Happening| e.is_in(what, min),
            )
            &&& in_sequence(minutes)
            &&& none_after(minutes, now / MINUTE)
            &&& minutes.len() <= HISTORY
        }),
    decreases events.len(),
{
    if events.len() > 0 {
        let rest = events.drop_last();
        let last = events.last().now();
        lemma_in_order_rest(events);
        lemma_minutes_of_run(ledger, rest, last);
        law_graph_is_true(ledger, rest, what, min, now);
        let minutes = run(ledger, rest).minutes;
        lemma_minute_monotonic(last, now);
        if let Some((a, _)) = events.last().activity() {
            let at = last / MINUTE;
            if min <= at {
                law_history_is_complete(minutes, at, a, min, what);
            } else {
                law_history_is_complete(minutes, at, a, at, what);
                let after = run(ledger, events).minutes;
                lemma_minute_count_beyond(after, min as int, what);
                lemma_minute_count_beyond(minutes, min as int, what);
            }
        }
    }
}

/// Later seconds lie in no earlier minute.
proof fn lemma_minute_monotonic(a: u64, b: u64)
    requires
        a <= b,
    ensures
        a / MINUTE <= b / MINUTE,
{
    assert(a / MINUTE <= b / MINUTE) by (nonlinear_arith)
        requires
            a <= b,
            MINUTE == 60,
    ;
}

/// The minutes kept after a run follow each other and end with the run.
proof fn lemma_minutes_of_run(ledger: Ledger, events: Seq<Happening>, now: u64)
    requires
        ledger.minutes.len() == 0,
        in_order(events),
        events.len() > 0 ==> events.last().now() <= now,
    ensures
        ({
            let minutes = run(ledger, events).minutes;
            &&& in_sequence(minutes)
            &&& none_after(minutes, now / MINUTE)
            &&& minutes.len() <= HISTORY
        }),
    decreases events.len(),
{
    if events.len() > 0 {
        let rest = events.drop_last();
        let last = events.last().now();
        lemma_in_order_rest(events);
        lemma_minutes_of_run(ledger, rest, last);
        lemma_minute_monotonic(last, now);
        if let Some((a, _)) = events.last().activity() {
            let at = last / MINUTE;
            law_history_is_complete(run(ledger, rest).minutes, at, a, at, a);
        }
    }
}

} // verus!

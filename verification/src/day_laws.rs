//! The tables of the day hold what happened that day, whatever happened on the
//! days before, and a snapshot shows it.

use vstd::prelude::*;

use crate::addr::{law_keys_tell_addresses_apart, IpAddr, IpKey};
use crate::ledger_laws::{
    holds, in_order, joined, law_gauge_is_true, law_graph_is_true, law_totals_are_true,
    lemma_in_order_rest, run, tally, Happening,
};
use crate::stats::{Activity, Counts, Ledger, Snapshot};

verus! {

/// The day that the counters were last used on in a run, if they were; a listener
/// that leaves does not count as use.
pub open spec fn last_day(events: Seq<Happening>) -> Option<u64>
    decreases events.len(),
{
    if events.len() == 0 {
        None
    } else if events.last() is Disconnect {
        last_day(events.drop_last())
    } else {
        Some(events.last().now() / 86_400)
    }
}

/// Is this a post to that channel on that day?
pub open spec fn posts_on(name: Seq<char>, day: u64) -> spec_fn(Happening) -> bool {
    |e: Happening| e.posts_to(name) && e.now() / 86_400 == day
}

/// Is this a push to that device on that day?
pub open spec fn pushes_on(name: Seq<char>, day: u64) -> spec_fn(Happening) -> bool {
    |e: Happening| e.pushes_to(name) && e.now() / 86_400 == day
}

/// Is this such an activity of that client on that day?
pub open spec fn is_by_on(what: Activity, ip: IpAddr, day: u64) -> spec_fn(Happening) -> bool {
    |e: Happening| e.is_by(what, ip) && e.now() / 86_400 == day
}

/// Whenever `name` is used in a run, its table is of an earlier day, knows it
/// already, or has room for it.
pub open spec fn name_finds_room(ledger: Ledger, events: Seq<Happening>, name: Seq<char>) -> bool {
    forall|k: int|
        0 <= k < events.len() ==> {
            let before = #[trigger] run(ledger, events.take(k));
            ||| before.day != events[k].now() / 86_400
            ||| {
                &&& events[k].posts_to(name) ==> before.per_channel.contains_key(name)
                    || before.per_channel.len() < 100_000
                &&& events[k].pushes_to(name) ==> before.per_token.contains_key(name)
                    || before.per_token.len() < 100_000
            }
        }
}

/// Whenever a client is active in a run, the table is of an earlier day, knows it
/// already, or has room for it.
pub open spec fn client_finds_room(ledger: Ledger, events: Seq<Happening>, ip: IpAddr) -> bool {
    forall|k: int|
        0 <= k < events.len() ==> {
            let before = #[trigger] run(ledger, events.take(k));
            ||| before.day != events[k].now() / 86_400
            ||| events[k].activity() matches Some((_, by)) && by == ip
                ==> before.per_ip.contains_key(ip.pair()) || before.per_ip.len() < 100_000
        }
}

/// Nothing is counted in a run on a day after its last.
proof fn lemma_nothing_later(
    events: Seq<Happening>,
    day: u64,
    counts: spec_fn(Happening) -> bool,
)
    requires
        in_order(events),
        last_day(events) matches Some(last) ==> last < day,
        forall|e: Happening| #[trigger]
            counts(e) ==> e.now() / 86_400 == day && !(e is Disconnect),
    ensures
        tally(events, counts) == 0,
    decreases events.len(),
{
    if events.len() > 0 {
        let rest = events.drop_last();
        lemma_in_order_rest(events);
        if !(events.last() is Disconnect) {
            lemma_last_day_bound(rest, events.last().now());
        }
        lemma_nothing_later(rest, day, counts);
    }
}

/// The last day of a run is no later than the run's end.
proof fn lemma_last_day_bound(events: Seq<Happening>, now: u64)
    requires
        in_order(events),
        events.len() > 0 ==> events.last().now() <= now,
    ensures
        last_day(events) matches Some(last) ==> last <= now / 86_400,
    decreases events.len(),
{
    if events.len() > 0 {
        lemma_in_order_rest(events);
        if events.last() is Disconnect {
            lemma_last_day_bound(events.drop_last(), now);
        }
    }
}

/// After any run, over however many days, the ledger counts the last day seen.
pub proof fn law_day_is_the_last_seen(ledger: Ledger, events: Seq<Happening>)
    ensures
        run(ledger, events).day == (match last_day(events) {
            Some(day) => day,
            None => ledger.day,
        }),
    decreases events.len(),
{
    if events.len() > 0 {
        law_day_is_the_last_seen(ledger, events.drop_last());
    }
}

/// After a run over any number of days, the tables of names hold of every name
/// exactly how often it was used on the last day seen, and nothing of the days
/// before, as long as they are not full and their counters do not run over.
pub proof fn law_names_of_the_day(
    ledger: Ledger,
    events: Seq<Happening>,
    name: Seq<char>,
    day: u64,
)
    requires
        ledger.per_channel.is_empty(),
        ledger.per_token.is_empty(),
        in_order(events),
        name_finds_room(ledger, events, name),
        last_day(events) == Some(day) || last_day(events) is None,
        events.len() <= u64::MAX,
    ensures
        holds(run(ledger, events).per_channel.get(name), tally(events, posts_on(name, day))),
        holds(run(ledger, events).per_token.get(name), tally(events, pushes_on(name, day))),
    decreases events.len(),
{
    if events.len() > 0 {
        let rest = events.drop_last();
        let e = events.last();
        let before = run(ledger, rest);
        lemma_in_order_rest(events);
        assert(events.take(events.len() - 1) =~= rest);
        lemma_name_finds_room_rest(ledger, events, name);
        lemma_tally_bound(rest, posts_on(name, day));
        lemma_tally_bound(rest, pushes_on(name, day));
        law_day_is_the_last_seen(ledger, rest);
        match last_day(rest) {
            Some(earlier) => {
                law_names_of_the_day(ledger, rest, name, earlier);
                lemma_last_day_bound(rest, e.now());
                if earlier != day {
                    lemma_nothing_later(rest, day, posts_on(name, day));
                    lemma_nothing_later(rest, day, pushes_on(name, day));
                }
            },
            None => {
                law_names_of_the_day(ledger, rest, name, day);
                lemma_nothing_later(rest, day, posts_on(name, day));
                lemma_nothing_later(rest, day, pushes_on(name, day));
            },
        }
    }
}

/// Nothing happens more often than there are events.
proof fn lemma_tally_bound(events: Seq<Happening>, counts: spec_fn(Happening) -> bool)
    ensures
        tally(events, counts) <= events.len(),
    decreases events.len(),
{
    if events.len() > 0 {
        lemma_tally_bound(events.drop_last(), counts);
    }
}

/// A name that finds room in a run does so without its last event.
proof fn lemma_name_finds_room_rest(ledger: Ledger, events: Seq<Happening>, name: Seq<char>)
    requires
        name_finds_room(ledger, events, name),
        events.len() > 0,
    ensures
        name_finds_room(ledger, events.drop_last(), name),
{
    let rest = events.drop_last();
    assert forall|k: int| 0 <= k < rest.len() implies {
        let before = #[trigger] run(ledger, rest.take(k));
        ||| before.day != rest[k].now() / 86_400
        ||| {
            &&& rest[k].posts_to(name) ==> before.per_channel.contains_key(name)
                || before.per_channel.len() < 100_000
            &&& rest[k].pushes_to(name) ==> before.per_token.contains_key(name)
                || before.per_token.len() < 100_000
        }
    } by {
        assert(rest.take(k) =~= events.take(k));
    }
}

/// A client that finds room in a run does so without its last event.
proof fn lemma_client_finds_room_rest(ledger: Ledger, events: Seq<Happening>, ip: IpAddr)
    requires
        client_finds_room(ledger, events, ip),
        events.len() > 0,
    ensures
        client_finds_room(ledger, events.drop_last(), ip),
{
    let rest = events.drop_last();
    assert forall|k: int| 0 <= k < rest.len() implies {
        let before = #[trigger] run(ledger, rest.take(k));
        ||| before.day != rest[k].now() / 86_400
        ||| rest[k].activity() matches Some((_, by)) && by == ip ==> before.per_ip.contains_key(
            ip.pair(),
        ) || before.per_ip.len() < 100_000
    } by {
        assert(rest.take(k) =~= events.take(k));
    }
}

/// What a client did on a day of a run.
pub open spec fn holds_client(
    entry: Option<Counts>,
    events: Seq<Happening>,
    ip: IpAddr,
    day: u64,
) -> bool {
    let posts = tally(events, is_by_on(Activity::Post, ip, day));
    let pushes = tally(events, is_by_on(Activity::Push, ip, day));
    let connects = tally(events, is_by_on(Activity::Connect, ip, day));
    match entry {
        Some(counts) => {
            &&& posts + pushes + connects > 0
            &&& counts.posts == posts
            &&& counts.pushes == pushes
            &&& counts.connects == connects
        },
        None => posts == 0 && pushes == 0 && connects == 0,
    }
}

/// After a run over any number of days, the table of clients holds of every
/// client exactly what it did on the last day seen, and nothing of the days
/// before, as long as it is not full and its counters do not run over.
pub proof fn law_clients_of_the_day(
    ledger: Ledger,
    events: Seq<Happening>,
    ip: IpAddr,
    day: u64,
)
    requires
        ledger.per_ip.is_empty(),
        in_order(events),
        client_finds_room(ledger, events, ip),
        last_day(events) == Some(day) || last_day(events) is None,
        events.len() <= u64::MAX,
    ensures
        holds_client(run(ledger, events).per_ip.get(ip.pair()), events, ip, day),
    decreases events.len(),
{
    if events.len() > 0 {
        let rest = events.drop_last();
        let e = events.last();
        lemma_in_order_rest(events);
        assert(events.take(events.len() - 1) =~= rest);
        lemma_client_finds_room_rest(ledger, events, ip);
        lemma_tally_bound(rest, is_by_on(Activity::Post, ip, day));
        lemma_tally_bound(rest, is_by_on(Activity::Push, ip, day));
        lemma_tally_bound(rest, is_by_on(Activity::Connect, ip, day));
        law_day_is_the_last_seen(ledger, rest);
        let fresh_day = match last_day(rest) {
            Some(earlier) => earlier != day,
            None => true,
        };
        match last_day(rest) {
            Some(earlier) => {
                law_clients_of_the_day(ledger, rest, ip, earlier);
                lemma_last_day_bound(rest, e.now());
            },
            None => {
                law_clients_of_the_day(ledger, rest, ip, day);
            },
        }
        if fresh_day {
            lemma_nothing_later(rest, day, is_by_on(Activity::Post, ip, day));
            lemma_nothing_later(rest, day, is_by_on(Activity::Push, ip, day));
            lemma_nothing_later(rest, day, is_by_on(Activity::Connect, ip, day));
        }
        if let Some((_, other)) = e.activity() {
            if other.pair() == ip.pair() {
                law_keys_tell_addresses_apart(other, ip);
            }
        }
    }
}

/// The first activity of a new day finds empty tables: they hold that activity
/// alone, whatever they held the day before.
pub proof fn law_day_starts_afresh(ledger: Ledger, ip: IpAddr, name: Seq<char>, now: u64)
    requires
        ledger.day != now / 86_400,
    ensures
        ({
            let after = ledger.posted(ip, name, now);
            &&& after.day == now / 86_400
            &&& after.per_ip == Map::<IpKey, Counts>::empty().insert(
                ip.pair(),
                Counts { posts: 1, pushes: 0, connects: 0 },
            )
            &&& after.per_channel == Map::<Seq<char>, u64>::empty().insert(name, 1)
            &&& after.per_token == Map::<Seq<char>, u64>::empty()
        }),
        ({
            let after = ledger.pushed(ip, name, now);
            &&& after.day == now / 86_400
            &&& after.per_ip == Map::<IpKey, Counts>::empty().insert(
                ip.pair(),
                Counts { posts: 0, pushes: 1, connects: 0 },
            )
            &&& after.per_channel == Map::<Seq<char>, u64>::empty()
            &&& after.per_token == Map::<Seq<char>, u64>::empty().insert(name, 1)
        }),
        ({
            let after = ledger.connected(ip, now);
            &&& after.day == now / 86_400
            &&& after.per_ip == Map::<IpKey, Counts>::empty().insert(
                ip.pair(),
                Counts { posts: 0, pushes: 0, connects: 1 },
            )
            &&& after.per_channel == Map::<Seq<char>, u64>::empty()
            &&& after.per_token == Map::<Seq<char>, u64>::empty()
        }),
{
}

/// A snapshot tells the run that led to it: all posts, pushes and connects since
/// the start, the listeners that are still there, and minute by minute what
/// happened in the last 1440 minutes, of which the last is the present one.
pub proof fn law_snapshot_tells_the_run(
    day: u64,
    events: Seq<Happening>,
    now: u64,
    snapshot: Snapshot,
    i: int,
)
    requires
        snapshot.shows(run(Ledger::begun(day), events), now / 60),
        in_order(events),
        events.len() > 0 ==> events.last().now() <= now,
        now / 60 >= 1439,
        0 <= i < 1440,
        events.len() <= u64::MAX,
        i64::MIN <= joined(events) <= i64::MAX,
        tally(events, |e: Happening| e.is_in(Activity::Post, (now / 60 - 1439 + i) as u64))
            <= u32::MAX,
        tally(events, |e: Happening| e.is_in(Activity::Push, (now / 60 - 1439 + i) as u64))
            <= u32::MAX,
        tally(events, |e: Happening| e.is_in(Activity::Connect, (now / 60 - 1439 + i) as u64))
            <= u32::MAX,
    ensures
        snapshot.sse_active == joined(events),
        snapshot.totals.posts == tally(events, |e: Happening| e.is_a(Activity::Post)),
        snapshot.totals.pushes == tally(events, |e: Happening| e.is_a(Activity::Push)),
        snapshot.totals.connects == tally(events, |e: Happening| e.is_a(Activity::Connect)),
        snapshot.start_min == now / 60 - 1439,
        snapshot.posts@.len() == 1440,
        snapshot.pushes@.len() == 1440,
        snapshot.connects@.len() == 1440,
        snapshot.posts@[i] == tally(
            events,
            |e: Happening| e.is_in(Activity::Post, (now / 60 - 1439 + i) as u64),
        ),
        snapshot.pushes@[i] == tally(
            events,
            |e: Happening| e.is_in(Activity::Push, (now / 60 - 1439 + i) as u64),
        ),
        snapshot.connects@[i] == tally(
            events,
            |e: Happening| e.is_in(Activity::Connect, (now / 60 - 1439 + i) as u64),
        ),
{
    let start = Ledger::begun(day);
    let min = (now / 60 - 1439 + i) as u64;
    law_gauge_is_true(start, events);
    lemma_tally_bound(events, |e: Happening| e.is_a(Activity::Post));
    lemma_tally_bound(events, |e: Happening| e.is_a(Activity::Push));
    lemma_tally_bound(events, |e: Happening| e.is_a(Activity::Connect));
    law_totals_are_true(start, events, Activity::Post);
    law_totals_are_true(start, events, Activity::Push);
    law_totals_are_true(start, events, Activity::Connect);
    law_graph_is_true(start, events, Activity::Post, min, now);
    law_graph_is_true(start, events, Activity::Push, min, now);
    law_graph_is_true(start, events, Activity::Connect, min, now);
}

/// A snapshot shows how many different channels were posted to, and how many
/// different devices pushed to, on the last day seen.
pub proof fn law_snapshot_counts_the_names(
    day: u64,
    events: Seq<Happening>,
    today: u64,
    min: u64,
    snapshot: Snapshot,
)
    requires
        snapshot.shows(run(Ledger::begun(day), events), min),
        in_order(events),
        forall|name: Seq<char>| #[trigger] name_finds_room(Ledger::begun(day), events, name),
        last_day(events) == Some(today),
        events.len() <= u64::MAX,
    ensures
        snapshot.unique_channels == Set::new(
            |name: Seq<char>| tally(events, posts_on(name, today)) > 0,
        ).len(),
        snapshot.unique_push_tokens == Set::new(
            |name: Seq<char>| tally(events, pushes_on(name, today)) > 0,
        ).len(),
{
    let after = run(Ledger::begun(day), events);
    let channels = Set::new(|name: Seq<char>| tally(events, posts_on(name, today)) > 0);
    let tokens = Set::new(|name: Seq<char>| tally(events, pushes_on(name, today)) > 0);
    assert forall|name: Seq<char>| after.per_channel.dom().contains(name) == #[trigger]
        channels.contains(name) && after.per_token.dom().contains(name) == tokens.contains(
        name,
    ) by {
        assert(name_finds_room(Ledger::begun(day), events, name));
        law_names_of_the_day(Ledger::begun(day), events, name, today);
    }
    assert(after.per_channel.dom() =~= channels);
    assert forall|name: Seq<char>| after.per_token.dom().contains(name) == #[trigger]
        tokens.contains(name) by {
        assert(name_finds_room(Ledger::begun(day), events, name));
        law_names_of_the_day(Ledger::begun(day), events, name, today);
    }
    assert(after.per_token.dom() =~= tokens);
}

/// Every key of the table of clients is that of an address.
proof fn lemma_keys_are_addresses(ledger: Ledger, events: Seq<Happening>, key: IpKey)
    requires
        ledger.per_ip.is_empty(),
        run(ledger, events).per_ip.contains_key(key),
    ensures
        exists|ip: IpAddr| #[trigger] ip.pair() == key,
    decreases events.len(),
{
    if events.len() > 0 {
        let rest = events.drop_last();
        if run(ledger, rest).per_ip.contains_key(key) {
            lemma_keys_are_addresses(ledger, rest, key);
        } else {
            let (_, ip) = events.last().activity()->0;
            assert(ip.pair() == key);
        }
    }
}

/// Did a client do anything on that day?
pub open spec fn is_active_on(events: Seq<Happening>, ip: IpAddr, day: u64) -> bool {
    ||| tally(events, is_by_on(Activity::Post, ip, day)) > 0
    ||| tally(events, is_by_on(Activity::Push, ip, day)) > 0
    ||| tally(events, is_by_on(Activity::Connect, ip, day)) > 0
}

/// A snapshot shows how many different clients were active on the last day seen.
pub proof fn law_snapshot_counts_the_clients(
    day: u64,
    events: Seq<Happening>,
    today: u64,
    min: u64,
    snapshot: Snapshot,
)
    requires
        snapshot.shows(run(Ledger::begun(day), events), min),
        in_order(events),
        forall|ip: IpAddr| #[trigger] client_finds_room(Ledger::begun(day), events, ip),
        last_day(events) == Some(today),
        events.len() <= u64::MAX,
    ensures
        snapshot.unique_ips == Set::new(
            |key: IpKey|
                exists|ip: IpAddr| #[trigger]
                    ip.pair() == key && is_active_on(events, ip, today),
        ).len(),
{
    let after = run(Ledger::begun(day), events);
    let active = Set::new(
        |key: IpKey|
            exists|ip: IpAddr| #[trigger] ip.pair() == key && is_active_on(events, ip, today),
    );
    assert forall|key: IpKey| after.per_ip.dom().contains(key) == #[trigger]
        active.contains(key) by {
        if after.per_ip.dom().contains(key) {
            lemma_keys_are_addresses(Ledger::begun(day), events, key);
            let ip = choose|ip: IpAddr| #[trigger] ip.pair() == key;
            assert(client_finds_room(Ledger::begun(day), events, ip));
            law_clients_of_the_day(Ledger::begun(day), events, ip, today);
            assert(ip.pair() == key && is_active_on(events, ip, today));
        }
        if active.contains(key) {
            let ip = choose|ip: IpAddr| #[trigger]
                ip.pair() == key && is_active_on(events, ip, today);
            assert(client_finds_room(Ledger::begun(day), events, ip));
            law_clients_of_the_day(Ledger::begun(day), events, ip, today);
        }
    }
    assert(after.per_ip.dom() =~= active);
}

} // verus!

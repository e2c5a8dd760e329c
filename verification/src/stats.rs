//! Aggregate activity counters: nothing of a message is ever kept, and no
//! identity leaves the server.

use std::collections::VecDeque;

use dashmap::DashMap;
use vstd::prelude::*;

use crate::addr::{IpAddr, IpKey};
use crate::clock::{unix_secs, ClockError, DAY, MINUTE};
use crate::ranking::{count_keys, is_leading, is_top, lists, ranking, top_counts};
use crate::tables::{
    clear_ips, clear_names, ip_get, ip_put, ip_rows, ips_len, name_get, name_put, name_rows,
    names_len, new_ips, new_names,
};

verus! {

/// Minutes of history kept for the graph (24 h).
pub const HISTORY: usize = 1440;

/// Cap on per-day distinct keys tracked, to bound memory.
pub const MAX_KEYS: usize = 100_000;

/// How many rows a ranked list shows.
pub const TOP_ROWS: usize = 10;

/// What is counted.
#[derive(Debug, Clone, Copy, PartialEq, Eq, Structural)]
pub enum Activity {
    Post,
    Push,
    Connect,
}

/// What happened in one minute. Counters wrap around when they run over.
#[derive(Debug, Clone, Copy, PartialEq, Eq, Structural)]
pub struct Minute {
    /// The number of the minute since the Unix epoch.
    pub min: u64,
    pub posts: u32,
    pub pushes: u32,
    pub connects: u32,
}

/// What one client did in a day, or all did since the start. Counters wrap
/// around when they run over.
#[derive(Debug, Clone, Copy, PartialEq, Eq, Structural)]
pub struct Counts {
    pub posts: u64,
    pub pushes: u64,
    pub connects: u64,
}

impl Minute {
    /// A minute in which nothing happened.
    pub open spec fn quiet(min: u64) -> Minute {
        Minute { min, posts: 0, pushes: 0, connects: 0 }
    }

    /// The count of one activity.
    pub open spec fn count(self, what: Activity) -> u32 {
        match what {
            Activity::Post => self.posts,
            Activity::Push => self.pushes,
            Activity::Connect => self.connects,
        }
    }

    /// The minute with one more of an activity.
    pub open spec fn bumped(self, what: Activity) -> Minute {
        match what {
            Activity::Post => Minute { posts: self.posts.wrapping_add(1), ..self },
            Activity::Push => Minute { pushes: self.pushes.wrapping_add(1), ..self },
            Activity::Connect => Minute { connects: self.connects.wrapping_add(1), ..self },
        }
    }

    /// Counts one more of an activity.
    fn bump(self, what: Activity) -> (m: Minute)
        ensures
            m == self.bumped(what),
    {
        match what {
            Activity::Post => Minute { posts: self.posts.wrapping_add(1), ..self },
            Activity::Push => Minute { pushes: self.pushes.wrapping_add(1), ..self },
            Activity::Connect => Minute { connects: self.connects.wrapping_add(1), ..self },
        }
    }
}

impl Counts {
    /// Nothing counted yet.
    pub open spec fn none() -> Counts {
        Counts { posts: 0, pushes: 0, connects: 0 }
    }

    /// The count of one activity.
    pub open spec fn count(self, what: Activity) -> u64 {
        match what {
            Activity::Post => self.posts,
            Activity::Push => self.pushes,
            Activity::Connect => self.connects,
        }
    }

    /// The counts with one more of an activity.
    pub open spec fn bumped(self, what: Activity) -> Counts {
        match what {
            Activity::Post => Counts { posts: self.posts.wrapping_add(1), ..self },
            Activity::Push => Counts { pushes: self.pushes.wrapping_add(1), ..self },
            Activity::Connect => Counts { connects: self.connects.wrapping_add(1), ..self },
        }
    }

    /// Everything that is counted, taken together.
    pub open spec fn total(self) -> u128 {
        (self.posts + self.pushes + self.connects) as u128
    }

    /// Counts one more of an activity.
    fn bump(self, what: Activity) -> (c: Counts)
        ensures
            c == self.bumped(what),
    {
        match what {
            Activity::Post => Counts { posts: self.posts.wrapping_add(1), ..self },
            Activity::Push => Counts { pushes: self.pushes.wrapping_add(1), ..self },
            Activity::Connect => Counts { connects: self.connects.wrapping_add(1), ..self },
        }
    }
}

/// Clients' counts as ranking keys.
pub open spec fn total_keys(rows: Seq<Counts>) -> Seq<u128> {
    rows.map_values(|row: Counts| row.total())
}

/// The minutes kept after one more of an activity in minute `min`. The last
/// minute is continued or a new one begun; the oldest makes room for it.
pub open spec fn bumped_minutes(minutes: Seq<Minute>, min: u64, what: Activity) -> Seq<Minute> {
    if minutes.len() > 0 && minutes.last().min == min {
        minutes.drop_last().push(minutes.last().bumped(what))
    } else {
        let kept = if minutes.len() >= HISTORY {
            minutes.drop_first()
        } else {
            minutes
        };
        kept.push(Minute::quiet(min).bumped(what))
    }
}

/// How often an activity was counted in minute `min`: what the last entry of
/// that minute says, zero where there is none.
pub open spec fn minute_count(minutes: Seq<Minute>, min: int, what: Activity) -> u32
    decreases minutes.len(),
{
    if minutes.len() == 0 {
        0
    } else if minutes.last().min == min {
        minutes.last().count(what)
    } else {
        minute_count(minutes.drop_last(), min, what)
    }
}

/// The counts of an activity in `HISTORY` minutes from minute `start` on.
pub open spec fn series(minutes: Seq<Minute>, start: int, what: Activity) -> Seq<u32> {
    Seq::new(HISTORY as nat, |i: int| minute_count(minutes, start + i, what))
}

/// A table of clients after one more of an activity from `key`. A key not seen
/// before is left out while the table is full.
pub open spec fn counted_ip(table: Map<IpKey, Counts>, key: IpKey, what: Activity) -> Map<
    IpKey,
    Counts,
> {
    if table.contains_key(key) {
        table.insert(key, table[key].bumped(what))
    } else if table.len() < MAX_KEYS {
        table.insert(key, Counts::none().bumped(what))
    } else {
        table
    }
}

/// A table of names after one more use of `name`. A name not seen before is
/// left out while the table is full.
pub open spec fn counted_name(table: Map<Seq<char>, u64>, name: Seq<char>) -> Map<Seq<char>, u64> {
    if table.contains_key(name) {
        table.insert(name, table[name].wrapping_add(1))
    } else if table.len() < MAX_KEYS {
        table.insert(name, 1)
    } else {
        table
    }
}

/// Everything that is counted.
#[verifier::ext_equal]
pub ghost struct Ledger {
    /// Listeners connected right now.
    pub sse_active: i64,
    /// All posts, pushes and connects since the start.
    pub totals: Counts,
    /// The day that the three tables below count, since the Unix epoch.
    pub day: u64,
    pub per_ip: Map<IpKey, Counts>,
    pub per_channel: Map<Seq<char>, u64>,
    pub per_token: Map<Seq<char>, u64>,
    /// What happened in the last minutes, oldest first.
    pub minutes: Seq<Minute>,
}

impl Ledger {
    /// A ledger begun on day `day`.
    pub open spec fn begun(day: u64) -> Ledger {
        Ledger {
            sse_active: 0,
            totals: Counts::none(),
            day,
            per_ip: Map::empty(),
            per_channel: Map::empty(),
            per_token: Map::empty(),
            minutes: Seq::empty(),
        }
    }

    /// No table and no history grows beyond its bound.
    pub open spec fn bounded(self) -> bool {
        &&& self.per_ip.dom().finite() && self.per_ip.len() <= MAX_KEYS
        &&& self.per_channel.dom().finite() && self.per_channel.len() <= MAX_KEYS
        &&& self.per_token.dom().finite() && self.per_token.len() <= MAX_KEYS
        &&& self.minutes.len() <= HISTORY
    }

    /// The ledger on day `today`: the tables of another day are emptied.
    pub open spec fn rolled(self, today: u64) -> Ledger {
        if self.day == today {
            self
        } else {
            Ledger {
                day: today,
                per_ip: Map::empty(),
                per_channel: Map::empty(),
                per_token: Map::empty(),
                ..self
            }
        }
    }

    /// The ledger after one more of an activity from `ip` at second `now`, but
    /// for the table of names.
    pub open spec fn counted(self, ip: IpAddr, what: Activity, now: u64) -> Ledger {
        let rolled = self.rolled(now / DAY);
        Ledger {
            totals: rolled.totals.bumped(what),
            per_ip: counted_ip(rolled.per_ip, ip.pair(), what),
            minutes: bumped_minutes(rolled.minutes, now / MINUTE, what),
            ..rolled
        }
    }

    /// The ledger after a post to a channel.
    pub open spec fn posted(self, ip: IpAddr, channel: Seq<char>, now: u64) -> Ledger {
        let counted = self.counted(ip, Activity::Post, now);
        Ledger { per_channel: counted_name(counted.per_channel, channel), ..counted }
    }

    /// The ledger after a push to a device.
    pub open spec fn pushed(self, ip: IpAddr, token: Seq<char>, now: u64) -> Ledger {
        let counted = self.counted(ip, Activity::Push, now);
        Ledger { per_token: counted_name(counted.per_token, token), ..counted }
    }

    /// The ledger after a listener connects.
    pub open spec fn connected(self, ip: IpAddr, now: u64) -> Ledger {
        let counted = self.counted(ip, Activity::Connect, now);
        Ledger { sse_active: counted.sse_active.wrapping_add(1), ..counted }
    }

    /// The ledger after a listener disconnects.
    pub open spec fn disconnected(self) -> Ledger {
        Ledger { sse_active: self.sse_active.wrapping_sub(1), ..self }
    }
}

/// The counters.
pub struct Stats {
    sse_active: i64,
    totals: Counts,
    day: u64,
    per_ip: DashMap<IpKey, Counts>,
    per_channel: DashMap<String, u64>,
    per_token: DashMap<String, u64>,
    minutes: VecDeque<Minute>,
}

/// Stands for one connected listener; given back when it disconnects.
pub struct ConnectionGuard {
    held: (),
}

/// What the counters show at one moment: counts alone, ranked and anonymous.
#[derive(Debug, PartialEq, Eq)]
pub struct Snapshot {
    pub sse_active: i64,
    pub totals: Counts,
    pub unique_ips: usize,
    pub unique_channels: usize,
    pub unique_push_tokens: usize,
    pub top_ips: Vec<Counts>,
    pub top_channels: Vec<u64>,
    pub top_tokens: Vec<u64>,
    pub start_min: u64,
    pub posts: Vec<u32>,
    pub pushes: Vec<u32>,
    pub connects: Vec<u32>,
}

/// Are `top` the most active clients of a table, whatever the order in which
/// it hands out clients of equal activity?
pub open spec fn shows_top_ips(top: Seq<Counts>, table: Map<IpKey, Counts>) -> bool {
    exists|rows: Seq<Counts>| #[trigger]
        lists(rows, table) && rows.len() <= usize::MAX && is_top(
            top,
            rows,
            total_keys(rows),
            TOP_ROWS as nat,
        )
}

/// Are `top` the highest counts of a table?
pub open spec fn shows_top_names(top: Seq<u64>, table: Map<Seq<char>, u64>) -> bool {
    exists|rows: Seq<u64>| #[trigger]
        lists(rows, table) && rows.len() <= usize::MAX && is_top(
            top,
            rows,
            count_keys(rows),
            TOP_ROWS as nat,
        )
}

impl Snapshot {
    /// Does this show the ledger as it stands in minute `now_min`?
    pub open spec fn shows(self, ledger: Ledger, now_min: u64) -> bool {
        let start = now_min + 1 - HISTORY;
        &&& self.sse_active == ledger.sse_active
        &&& self.totals == ledger.totals
        &&& self.unique_ips == ledger.per_ip.len()
        &&& self.unique_channels == ledger.per_channel.len()
        &&& self.unique_push_tokens == ledger.per_token.len()
        &&& shows_top_ips(self.top_ips@, ledger.per_ip)
        &&& shows_top_names(self.top_channels@, ledger.per_channel)
        &&& shows_top_names(self.top_tokens@, ledger.per_token)
        &&& self.start_min == start
        &&& self.posts@ == series(ledger.minutes, start, Activity::Post)
        &&& self.pushes@ == series(ledger.minutes, start, Activity::Push)
        &&& self.connects@ == series(ledger.minutes, start, Activity::Connect)
    }
}

/// Seconds since the Unix epoch.
pub fn now_secs() -> Result<u64, ClockError> {
    unix_secs()
}

/// The clients with the most activity, the busiest first; of equally busy ones
/// the first listed.
pub fn top_ips(rows: &Vec<Counts>, n: usize) -> (top: Vec<Counts>)
    ensures
        is_top(top@, rows@, total_keys(rows@), n as nat),
{
    let mut keys: Vec<u128> = Vec::new();
    let mut i: usize = 0;
    while i < rows.len()
        invariant
            i <= rows@.len(),
            keys@ =~= total_keys(rows@.take(i as int)),
        decreases rows@.len() - i,
    {
        let row: Counts = rows[i];
        keys.push(row.posts as u128 + row.pushes as u128 + row.connects as u128);
        i = i + 1;
    }
    assert(rows@.take(rows@.len() as int) =~= rows@);
    let order: Vec<usize> = ranking(&keys, n);
    let mut top: Vec<Counts> = Vec::new();
    while top.len() < order.len()
        invariant
            is_leading(order@, total_keys(rows@), n as nat),
            top@.len() <= order@.len(),
            forall|j: int| 0 <= j < top@.len() ==> top@[j] == rows@[order@[j] as int],
        decreases order@.len() - top@.len(),
    {
        let place: usize = order[top.len()];
        top.push(rows[place]);
    }
    assert(top@ =~= order@.map_values(|place: usize| rows@[place as int]));
    top
}

/// The counts of the three activities, minute by minute, from minute `start` on;
/// zero where no minute was kept.
pub fn dense_series(minutes: &VecDeque<Minute>, start: u64) -> (r: (Vec<u32>, Vec<u32>, Vec<u32>))
    ensures
        r.0@ == series(minutes@, start as int, Activity::Post),
        r.1@ == series(minutes@, start as int, Activity::Push),
        r.2@ == series(minutes@, start as int, Activity::Connect),
{
    let mut posts: Vec<u32> = vec![0; HISTORY];
    let mut pushes: Vec<u32> = vec![0; HISTORY];
    let mut connects: Vec<u32> = vec![0; HISTORY];
    let mut k: usize = 0;
    assert(posts@ =~= series(minutes@.take(0), start as int, Activity::Post));
    assert(pushes@ =~= series(minutes@.take(0), start as int, Activity::Push));
    assert(connects@ =~= series(minutes@.take(0), start as int, Activity::Connect));
    while k < minutes.len()
        invariant
            k <= minutes@.len(),
            posts@ == series(minutes@.take(k as int), start as int, Activity::Post),
            pushes@ == series(minutes@.take(k as int), start as int, Activity::Push),
            connects@ == series(minutes@.take(k as int), start as int, Activity::Connect),
        decreases minutes@.len() - k,
    {
        let m: Minute = minutes[k];
        proof {
            let next = minutes@.take(k + 1);
            assert(next.drop_last() =~= minutes@.take(k as int));
            assert(next.last() == m);
        }
        // The upper bound guards against a backward clock step.
        if m.min >= start && m.min - start < HISTORY as u64 {
            let i: usize = (m.min - start) as usize;
            posts.set(i, m.posts);
            pushes.set(i, m.pushes);
            connects.set(i, m.connects);
        }
        k = k + 1;
        assert(posts@ =~= series(minutes@.take(k as int), start as int, Activity::Post));
        assert(pushes@ =~= series(minutes@.take(k as int), start as int, Activity::Push));
        assert(connects@ =~= series(minutes@.take(k as int), start as int, Activity::Connect));
    }
    assert(minutes@.take(minutes@.len() as int) =~= minutes@);
    (posts, pushes, connects)
}

/// Counts one more use of `name`, within the bound on the table.
fn count_name(table: &mut DashMap<String, u64>, name: &str)
    ensures
        crate::tables::name_table(*final(table)) == counted_name(
            crate::tables::name_table(*old(table)),
            name@,
        ),
{
    match name_get(table, name) {
        Some(n) => name_put(table, name.to_string(), n.wrapping_add(1)),
        None => if names_len(table) < MAX_KEYS {
            name_put(table, name.to_string(), 1);
        },
    }
}

impl Stats {
    /// Everything that is counted.
    pub closed spec fn ledger(&self) -> Ledger {
        Ledger {
            sse_active: self.sse_active,
            totals: self.totals,
            day: self.day,
            per_ip: crate::tables::ip_table(self.per_ip),
            per_channel: crate::tables::name_table(self.per_channel),
            per_token: crate::tables::name_table(self.per_token),
            minutes: self.minutes@,
        }
    }

    /// The counters' invariant: bounded memory.
    pub open spec fn wf(&self) -> bool {
        self.ledger().bounded()
    }

    /// Counters begun at second `now`.
    pub fn new_at(now: u64) -> (stats: Stats)
        ensures
            stats.wf(),
            stats.ledger() == Ledger::begun(now / DAY),
    {
        Stats {
            sse_active: 0,
            totals: Counts { posts: 0, pushes: 0, connects: 0 },
            day: now / DAY,
            per_ip: new_ips(),
            per_channel: new_names(),
            per_token: new_names(),
            minutes: VecDeque::with_capacity(HISTORY),
        }
    }

    /// Counters begun at the second that a clock shows, if it shows one.
    pub fn new_by(clock: Result<u64, ClockError>) -> (r: Result<Stats, ClockError>)
        ensures
            match clock {
                Ok(now) => r matches Ok(stats) && stats.wf() && stats.ledger() == Ledger::begun(
                    now / DAY,
                ),
                Err(e) => r == Err::<Stats, ClockError>(e),
            },
    {
        match clock {
            Ok(now) => Ok(Stats::new_at(now)),
            Err(e) => Err(e),
        }
    }

    /// Counters begun now.
    pub fn new() -> (r: Result<Stats, ClockError>)
        ensures
            r matches Ok(stats) ==> stats.wf() && exists|now: u64|
                stats.ledger() == Ledger::begun(#[trigger] (now / DAY)),
    {
        Stats::new_by(now_secs())
    }

    /// Resets the per-day tables at midnight UTC.
    pub fn roll_day(&mut self, now: u64)
        requires
            old(self).wf(),
        ensures
            final(self).wf(),
            final(self).ledger() == old(self).ledger().rolled(now / DAY),
    {
        let today: u64 = now / DAY;
        if self.day != today {
            self.day = today;
            clear_ips(&mut self.per_ip);
            clear_names(&mut self.per_channel);
            clear_names(&mut self.per_token);
        }
    }

    /// Counts one more of an activity in the minute of second `now`.
    fn bump_minute(&mut self, now: u64, what: Activity)
        requires
            old(self).wf(),
        ensures
            final(self).wf(),
            final(self).ledger() == (Ledger {
                minutes: bumped_minutes(old(self).ledger().minutes, now / MINUTE, what),
                ..old(self).ledger()
            }),
    {
        let min: u64 = now / MINUTE;
        let ghost before = self.minutes@;
        let last: Option<Minute> = self.minutes.pop_back();
        match last {
            Some(m) => {
                assert(before =~= self.minutes@.push(m));
                if m.min == min {
                    self.minutes.push_back(m.bump(what));
                    assert(self.minutes@ =~= bumped_minutes(before, min, what));
                    return ;
                }
                self.minutes.push_back(m);
                assert(self.minutes@ =~= before);
            },
            None => {},
        }
        if self.minutes.len() >= HISTORY {
            let oldest: Option<Minute> = self.minutes.pop_front();
            assert(self.minutes@ =~= before.drop_first());
        }
        let quiet: Minute = Minute { min, posts: 0, pushes: 0, connects: 0 };
        self.minutes.push_back(quiet.bump(what));
    }

    /// Counts one more of an activity from `ip`, within the bound on the table.
    fn count_ip(&mut self, ip: IpAddr, what: Activity)
        requires
            old(self).wf(),
        ensures
            final(self).wf(),
            final(self).ledger() == (Ledger {
                per_ip: counted_ip(old(self).ledger().per_ip, ip.pair(), what),
                ..old(self).ledger()
            }),
    {
        let key: IpKey = ip.to_pair();
        match ip_get(&self.per_ip, key) {
            Some(counts) => ip_put(&mut self.per_ip, key, counts.bump(what)),
            None => if ips_len(&self.per_ip) < MAX_KEYS {
                let none: Counts = Counts { posts: 0, pushes: 0, connects: 0 };
                ip_put(&mut self.per_ip, key, none.bump(what));
            },
        }
    }

    /// Counts one more of an activity everywhere but in the tables of names.
    fn count(&mut self, ip: IpAddr, what: Activity, now: u64)
        requires
            old(self).wf(),
        ensures
            final(self).wf(),
            final(self).ledger() == old(self).ledger().counted(ip, what, now),
    {
        self.roll_day(now);
        self.totals = self.totals.bump(what);
        self.bump_minute(now, what);
        self.count_ip(ip, what);
    }

    /// Counts a post to a channel at second `now`.
    pub fn record_post_at(&mut self, ip: IpAddr, channel: &str, now: u64)
        requires
            old(self).wf(),
        ensures
            final(self).wf(),
            final(self).ledger() == old(self).ledger().posted(ip, channel@, now),
    {
        self.count(ip, Activity::Post, now);
        count_name(&mut self.per_channel, channel);
    }

    /// Counts a post to a channel at the second that a clock shows, if it shows one.
    pub fn record_post_by(
        &mut self,
        ip: IpAddr,
        channel: &str,
        clock: Result<u64, ClockError>,
    ) -> (r: Result<(), ClockError>)
        requires
            old(self).wf(),
        ensures
            final(self).wf(),
            match clock {
                Ok(now) => r is Ok && final(self).ledger() == old(self).ledger().posted(
                    ip,
                    channel@,
                    now,
                ),
                Err(e) => final(self).ledger() == old(self).ledger() && r == Err::<(), ClockError>(
                    e,
                ),
            },
    {
        match clock {
            Ok(now) => {
                self.record_post_at(ip, channel, now);
                Ok(())
            },
            Err(e) => Err(e),
        }
    }

    /// Counts a post to a channel now.
    pub fn record_post(&mut self, ip: IpAddr, channel: &str) -> (r: Result<(), ClockError>)
        requires
            old(self).wf(),
        ensures
            final(self).wf(),
            match r {
                Ok(_) => exists|now: u64|
                    final(self).ledger() == #[trigger] old(self).ledger().posted(ip, channel@, now),
                Err(_) => final(self).ledger() == old(self).ledger(),
            },
    {
        self.record_post_by(ip, channel, now_secs())
    }

    /// Counts a push to a device at second `now`.
    pub fn record_push_at(&mut self, ip: IpAddr, token: &str, now: u64)
        requires
            old(self).wf(),
        ensures
            final(self).wf(),
            final(self).ledger() == old(self).ledger().pushed(ip, token@, now),
    {
        self.count(ip, Activity::Push, now);
        count_name(&mut self.per_token, token);
    }

    /// Counts a push to a device at the second that a clock shows, if it shows one.
    pub fn record_push_by(
        &mut self,
        ip: IpAddr,
        token: &str,
        clock: Result<u64, ClockError>,
    ) -> (r: Result<(), ClockError>)
        requires
            old(self).wf(),
        ensures
            final(self).wf(),
            match clock {
                Ok(now) => r is Ok && final(self).ledger() == old(self).ledger().pushed(
                    ip,
                    token@,
                    now,
                ),
                Err(e) => final(self).ledger() == old(self).ledger() && r == Err::<(), ClockError>(
                    e,
                ),
            },
    {
        match clock {
            Ok(now) => {
                self.record_push_at(ip, token, now);
                Ok(())
            },
            Err(e) => Err(e),
        }
    }

    /// Counts a push to a device now.
    pub fn record_push(&mut self, ip: IpAddr, token: &str) -> (r: Result<(), ClockError>)
        requires
            old(self).wf(),
        ensures
            final(self).wf(),
            match r {
                Ok(_) => exists|now: u64|
                    final(self).ledger() == #[trigger] old(self).ledger().pushed(ip, token@, now),
                Err(_) => final(self).ledger() == old(self).ledger(),
            },
    {
        self.record_push_by(ip, token, now_secs())
    }

    /// Counts a listener that connects at second `now`, and returns a guard
    /// that stands for the live connection.
    pub fn connect_guard_at(&mut self, ip: IpAddr, now: u64) -> (guard: ConnectionGuard)
        requires
            old(self).wf(),
        ensures
            final(self).wf(),
            final(self).ledger() == old(self).ledger().connected(ip, now),
    {
        self.count(ip, Activity::Connect, now);
        self.sse_active = self.sse_active.wrapping_add(1);
        ConnectionGuard { held: () }
    }

    /// Counts a listener that connects at the second that a clock shows, if it
    /// shows one, and returns a guard that stands for the live connection.
    pub fn connect_guard_by(&mut self, ip: IpAddr, clock: Result<u64, ClockError>) -> (r: Result<
        ConnectionGuard,
        ClockError,
    >)
        requires
            old(self).wf(),
        ensures
            final(self).wf(),
            match clock {
                Ok(now) => r is Ok && final(self).ledger() == old(self).ledger().connected(ip, now),
                Err(e) => final(self).ledger() == old(self).ledger() && r == Err::<
                    ConnectionGuard,
                    ClockError,
                >(e),
            },
    {
        match clock {
            Ok(now) => Ok(self.connect_guard_at(ip, now)),
            Err(e) => Err(e),
        }
    }

    /// Counts a listener that connects now, and returns a guard that stands
    /// for the live connection.
    pub fn connect_guard(&mut self, ip: IpAddr) -> (r: Result<ConnectionGuard, ClockError>)
        requires
            old(self).wf(),
        ensures
            final(self).wf(),
            match r {
                Ok(_) => exists|now: u64|
                    final(self).ledger() == #[trigger] old(self).ledger().connected(ip, now),
                Err(_) => final(self).ledger() == old(self).ledger(),
            },
    {
        self.connect_guard_by(ip, now_secs())
    }

    /// Takes a guard back: its listener has disconnected.
    pub fn disconnect(&mut self, guard: ConnectionGuard)
        requires
            old(self).wf(),
        ensures
            final(self).wf(),
            final(self).ledger() == old(self).ledger().disconnected(),
    {
        let ConnectionGuard { held: _ } = guard;
        self.sse_active = self.sse_active.wrapping_sub(1);
    }

    /// What the counters show at second `now`, which lies a day or more after
    /// the Unix epoch.
    pub fn snapshot_at(&mut self, now: u64) -> (snapshot: Snapshot)
        requires
            old(self).wf(),
            now / MINUTE + 1 >= HISTORY,
        ensures
            final(self).wf(),
            final(self).ledger() == old(self).ledger().rolled(now / DAY),
            snapshot.shows(final(self).ledger(), now / MINUTE),
    {
        self.roll_day(now);
        // Dense last-24h series, zero-filled where no bucket exists.
        let start: u64 = now / MINUTE + 1 - HISTORY as u64;
        let (posts, pushes, connects) = dense_series(&self.minutes, start);
        // Identities (IPs, channel IDs, push tokens) never leave the server:
        // only ranked, anonymous counts.
        let ips: Vec<Counts> = ip_rows(&self.per_ip);
        let channels: Vec<u64> = name_rows(&self.per_channel);
        let tokens: Vec<u64> = name_rows(&self.per_token);
        let snapshot: Snapshot = Snapshot {
            sse_active: self.sse_active,
            totals: self.totals,
            unique_ips: ips_len(&self.per_ip),
            unique_channels: names_len(&self.per_channel),
            unique_push_tokens: names_len(&self.per_token),
            top_ips: top_ips(&ips, TOP_ROWS),
            top_channels: top_counts(&channels, TOP_ROWS),
            top_tokens: top_counts(&tokens, TOP_ROWS),
            start_min: start,
            posts,
            pushes,
            connects,
        };
        proof {
            assert(ips.len() == ips@.len());
            assert(channels.len() == channels@.len());
            assert(tokens.len() == tokens@.len());
            assert(lists(ips@, self.ledger().per_ip));
            assert(lists(channels@, self.ledger().per_channel));
            assert(lists(tokens@, self.ledger().per_token));
        }
        snapshot
    }

    /// What the counters show at the second that a clock shows. There is nothing
    /// to show, and nothing changes, if it shows none or one that lies less than
    /// a day after the Unix epoch.
    pub fn snapshot_by(&mut self, clock: Result<u64, ClockError>) -> (r: Result<
        Snapshot,
        ClockError,
    >)
        requires
            old(self).wf(),
        ensures
            final(self).wf(),
            match clock {
                Ok(now) if now / MINUTE + 1 >= HISTORY => {
                    &&& final(self).ledger() == old(self).ledger().rolled(now / DAY)
                    &&& r matches Ok(snapshot) && snapshot.shows(
                        final(self).ledger(),
                        now / MINUTE,
                    )
                },
                _ => final(self).ledger() == old(self).ledger() && r == Err::<Snapshot, ClockError>(
                    ClockError,
                ),
            },
    {
        match clock {
            Ok(now) => if now / MINUTE + 1 >= HISTORY as u64 {
                Ok(self.snapshot_at(now))
            } else {
                Err(ClockError)
            },
            Err(e) => Err(e),
        }
    }

    /// What the counters show now. There is nothing to show, and nothing
    /// changes, on a clock that stands less than a day after the Unix epoch.
    pub fn snapshot(&mut self) -> (r: Result<Snapshot, ClockError>)
        requires
            old(self).wf(),
        ensures
            final(self).wf(),
            match r {
                Ok(snapshot) => exists|now: u64|
                    {
                        &&& now / MINUTE + 1 >= HISTORY
                        &&& final(self).ledger() == old(self).ledger().rolled(now / DAY)
                        &&& snapshot.shows(final(self).ledger(), #[trigger] (now / MINUTE))
                    },
                Err(_) => final(self).ledger() == old(self).ledger(),
            },
    {
        self.snapshot_by(now_secs())
    }
}

} // verus!

//! What the counters promise.

use vstd::prelude::*;

use crate::addr::{IpAddr, IpKey};
use crate::clock::{DAY, MINUTE};
use crate::ranking::{
    at_most, count_keys, is_leading, is_top, law_top_counts_are_anonymous, law_top_counts_descend,
    law_top_without_ties_is_determined, lemma_lists_len, lemma_lists_same, lemma_top_of_table,
    lists, lists_by, no_ties, ranks_before,
};
use crate::stats::{
    bumped_minutes, counted_ip, counted_name, minute_count, series, shows_top_names, total_keys,
    Activity, Counts, Ledger, Minute, Snapshot, HISTORY, TOP_ROWS,
};

verus! {

/// The minutes kept follow each other, as they do unless the clock is set back.
pub open spec fn in_sequence(minutes: Seq<Minute>) -> bool {
    forall|i: int, j: int|
        0 <= i < j < minutes.len() ==> #[trigger] minutes[i].min < #[trigger] minutes[j].min
}

/// No minute kept lies after minute `min`.
pub open spec fn none_after(minutes: Seq<Minute>, min: u64) -> bool {
    minutes.len() > 0 ==> minutes.last().min <= min
}

/// An entry of another minute does not matter.
proof fn lemma_minute_count_drop_first(minutes: Seq<Minute>, min: int, what: Activity)
    requires
        minutes.len() > 0,
        minutes[0].min != min,
    ensures
        minute_count(minutes.drop_first(), min, what) == minute_count(minutes, min, what),
    decreases minutes.len(),
{
    if minutes.len() > 1 {
        assert(minutes.drop_first().last() == minutes.last());
        assert(minutes.drop_first().drop_last() =~= minutes.drop_last().drop_first());
        if minutes.last().min != min {
            lemma_minute_count_drop_first(minutes.drop_last(), min, what);
        }
    } else {
        reveal_with_fuel(minute_count, 2);
    }
}

/// A minute later than all that are kept has no count.
pub(crate) proof fn lemma_minute_count_beyond(minutes: Seq<Minute>, min: int, what: Activity)
    requires
        in_sequence(minutes),
        minutes.len() > 0 ==> minutes.last().min < min,
    ensures
        minute_count(minutes, min, what) == 0,
    decreases minutes.len(),
{
    if minutes.len() > 0 {
        let rest = minutes.drop_last();
        if rest.len() > 0 {
            assert(minutes[minutes.len() - 2].min < minutes[minutes.len() - 1].min);
        }
        assert forall|i: int, j: int| 0 <= i < j < rest.len() implies #[trigger] rest[i].min
            < #[trigger] rest[j].min by {
            assert(minutes[i].min < minutes[j].min);
        }
        lemma_minute_count_beyond(rest, min, what);
    }
}

/// In a run of minutes that follow each other, the first lies at least as many
/// minutes back as there are minutes after it.
proof fn lemma_in_sequence_spread(minutes: Seq<Minute>, k: int)
    requires
        in_sequence(minutes),
        0 <= k < minutes.len(),
    ensures
        minutes[0].min + k <= minutes[k].min,
    decreases k,
{
    if k > 0 {
        lemma_in_sequence_spread(minutes, k - 1);
        assert(minutes[k - 1].min < minutes[k].min);
    }
}

/// Whatever is counted shows in its minute, and shows for a whole day: one more
/// of an activity changes the count of that activity in that minute alone,
/// among all the minutes of the last 24 hours.
pub proof fn law_history_is_complete(
    minutes: Seq<Minute>,
    now_min: u64,
    what: Activity,
    min: u64,
    other: Activity,
)
    requires
        in_sequence(minutes),
        none_after(minutes, now_min),
        minutes.len() <= HISTORY,
        min <= now_min < min + HISTORY,
    ensures
        ({
            let after = bumped_minutes(minutes, now_min, what);
            let before_count = minute_count(minutes, min as int, other);
            minute_count(after, min as int, other) == (if min == now_min && other == what {
                before_count.wrapping_add(1)
            } else {
                before_count
            })
        }),
        in_sequence(bumped_minutes(minutes, now_min, what)),
        none_after(bumped_minutes(minutes, now_min, what), now_min),
{
    let after = bumped_minutes(minutes, now_min, what);
    if minutes.len() > 0 && minutes.last().min == now_min {
        assert(after.drop_last() =~= minutes.drop_last());
        assert forall|i: int, j: int| 0 <= i < j < after.len() implies #[trigger] after[i].min
            < #[trigger] after[j].min by {
            assert(minutes[i].min < minutes[j].min);
        }
    } else {
        let kept = if minutes.len() >= HISTORY {
            minutes.drop_first()
        } else {
            minutes
        };
        assert(after.drop_last() =~= kept);
        assert forall|i: int, j: int| 0 <= i < j < after.len() implies #[trigger] after[i].min
            < #[trigger] after[j].min by {
            let shift: int = if minutes.len() >= HISTORY { 1 } else { 0 };
            if j < kept.len() {
                assert(minutes[i + shift].min < minutes[j + shift].min);
            } else {
                assert(after[i] == minutes[i + shift]);
                if i + shift < minutes.len() - 1 {
                    assert(minutes[i + shift].min < minutes[minutes.len() - 1].min);
                }
            }
        }
        if minutes.len() >= HISTORY {
            lemma_in_sequence_spread(minutes, minutes.len() - 1);
            lemma_minute_count_drop_first(minutes, min as int, other);
        }
        lemma_minute_count_beyond(minutes, now_min as int, other);
    }
}

/// Midnight empties the tables of the day, and no other moment does; the totals,
/// the gauge and the history are spared. What was rolled to a day once stays as
/// it is for the rest of it.
pub proof fn law_midnight(ledger: Ledger, today: u64)
    ensures
        ({
            let rolled = ledger.rolled(today);
            &&& rolled.day == today
            &&& if ledger.day != today {
                &&& rolled.per_ip.is_empty()
                &&& rolled.per_channel.is_empty()
                &&& rolled.per_token.is_empty()
            } else {
                rolled == ledger
            }
            &&& rolled.totals == ledger.totals
            &&& rolled.sse_active == ledger.sse_active
            &&& rolled.minutes == ledger.minutes
            &&& rolled.rolled(today) == rolled
        }),
{
}

/// Identities do not show: a snapshot of one ledger is just as well a snapshot of
/// any other that counts the same under other addresses, channels and tokens.
pub proof fn law_snapshots_are_anonymous(
    snapshot: Snapshot,
    ledger: Ledger,
    other: Ledger,
    min: u64,
    clients: Seq<Counts>,
    channels: Seq<u64>,
    tokens: Seq<u64>,
)
    requires
        snapshot.shows(ledger, min),
        other.sse_active == ledger.sse_active,
        other.totals == ledger.totals,
        other.minutes == ledger.minutes,
        lists(clients, ledger.per_ip) && lists(clients, other.per_ip),
        lists(channels, ledger.per_channel) && lists(channels, other.per_channel),
        lists(tokens, ledger.per_token) && lists(tokens, other.per_token),
    ensures
        snapshot.shows(other, min),
{
    lemma_lists_len(clients, ledger.per_ip);
    lemma_lists_len(clients, other.per_ip);
    lemma_lists_len(channels, ledger.per_channel);
    lemma_lists_len(channels, other.per_channel);
    lemma_lists_len(tokens, ledger.per_token);
    lemma_lists_len(tokens, other.per_token);
    let ips = choose|rows: Seq<Counts>| #[trigger]
        lists(rows, ledger.per_ip) && rows.len() <= usize::MAX && is_top(
            snapshot.top_ips@,
            rows,
            total_keys(rows),
            TOP_ROWS as nat,
        );
    lemma_lists_same(ips, clients, ledger.per_ip, other.per_ip);
    lemma_top_names_same(
        ledger.per_channel,
        other.per_channel,
        channels,
        snapshot.top_channels@,
    );
    lemma_top_names_same(ledger.per_token, other.per_token, tokens, snapshot.top_tokens@);
}

/// A ranked list of one table is one of every table with the same counts.
proof fn lemma_top_names_same(
    table: Map<Seq<char>, u64>,
    other: Map<Seq<char>, u64>,
    counts: Seq<u64>,
    top: Seq<u64>,
)
    requires
        lists(counts, table),
        lists(counts, other),
        shows_top_names(top, table),
    ensures
        shows_top_names(top, other),
{
    let rows = choose|rows: Seq<u64>| #[trigger]
        lists(rows, table) && rows.len() <= usize::MAX && is_top(
            top,
            rows,
            count_keys(rows),
            TOP_ROWS as nat,
        );
    lemma_lists_same(rows, counts, table, other);
}

/// Two snapshots of one state show the same ranked channels and tokens, in
/// whatever order the tables hand out their entries; so do snapshots of states
/// that count the same under other names.
pub proof fn law_ranked_names_are_determined(
    a: Snapshot,
    b: Snapshot,
    ledger_a: Ledger,
    ledger_b: Ledger,
    min_a: u64,
    min_b: u64,
    channels: Seq<u64>,
    tokens: Seq<u64>,
)
    requires
        ledger_a.bounded(),
        ledger_b.bounded(),
        a.shows(ledger_a, min_a),
        b.shows(ledger_b, min_b),
        lists(channels, ledger_a.per_channel),
        lists(channels, ledger_b.per_channel),
        lists(tokens, ledger_a.per_token),
        lists(tokens, ledger_b.per_token),
    ensures
        a.top_channels@ == b.top_channels@,
        a.top_tokens@ == b.top_tokens@,
{
    lemma_same_counts_same_top(
        ledger_a.per_channel,
        ledger_b.per_channel,
        channels,
        a.top_channels@,
        b.top_channels@,
    );
    lemma_same_counts_same_top(
        ledger_a.per_token,
        ledger_b.per_token,
        tokens,
        a.top_tokens@,
        b.top_tokens@,
    );
}

/// Tables of names that hold the same counts have the same ranked list.
proof fn lemma_same_counts_same_top(
    table_a: Map<Seq<char>, u64>,
    table_b: Map<Seq<char>, u64>,
    counts: Seq<u64>,
    top_a: Seq<u64>,
    top_b: Seq<u64>,
)
    requires
        table_a.dom().finite(),
        table_b.dom().finite(),
        lists(counts, table_a),
        lists(counts, table_b),
        shows_top_names(top_a, table_a),
        shows_top_names(top_b, table_b),
    ensures
        top_a == top_b,
{
    let n = TOP_ROWS as nat;
    let rows_a = choose|rows: Seq<u64>| #[trigger]
        lists(rows, table_a) && rows.len() <= usize::MAX && is_top(
            top_a,
            rows,
            count_keys(rows),
            n,
        );
    let rows_b = choose|rows: Seq<u64>| #[trigger]
        lists(rows, table_b) && rows.len() <= usize::MAX && is_top(
            top_b,
            rows,
            count_keys(rows),
            n,
        );
    law_top_counts_are_anonymous(table_a, table_b, counts, rows_a, rows_b, top_a, top_b, n);
}

/// How a client is ranked.
pub open spec fn client_rank() -> spec_fn(Counts) -> u128 {
    |row: Counts| row.total()
}

/// Two snapshots of one ledger show the same ranked clients where no two clients
/// of the day are equally active.
pub proof fn law_ranked_clients_are_determined(
    a: Snapshot,
    b: Snapshot,
    ledger: Ledger,
    min_a: u64,
    min_b: u64,
)
    requires
        a.shows(ledger, min_a),
        b.shows(ledger, min_b),
        no_ties(ledger.per_ip, client_rank()),
    ensures
        a.top_ips@ == b.top_ips@,
{
    let n = TOP_ROWS as nat;
    let rows_a = choose|rows: Seq<Counts>| #[trigger]
        lists(rows, ledger.per_ip) && rows.len() <= usize::MAX && is_top(
            a.top_ips@,
            rows,
            total_keys(rows),
            n,
        );
    let rows_b = choose|rows: Seq<Counts>| #[trigger]
        lists(rows, ledger.per_ip) && rows.len() <= usize::MAX && is_top(
            b.top_ips@,
            rows,
            total_keys(rows),
            n,
        );
    assert(total_keys(rows_a) =~= rows_a.map_values(client_rank()));
    assert(total_keys(rows_b) =~= rows_b.map_values(client_rank()));
    law_top_without_ties_is_determined(
        ledger.per_ip,
        client_rank(),
        rows_a,
        rows_b,
        a.top_ips@,
        b.top_ips@,
        n,
    );
}

/// The ranked lists of a snapshot run from high to low, and show ten rows or as
/// many as there are.
pub proof fn law_rankings_descend(
    snapshot: Snapshot,
    ledger: Ledger,
    min: u64,
    i: int,
    j: int,
)
    requires
        snapshot.shows(ledger, min),
        0 <= i <= j,
    ensures
        snapshot.top_ips@.len() == at_most(ledger.per_ip.len(), TOP_ROWS as nat),
        snapshot.top_channels@.len() == at_most(ledger.per_channel.len(), TOP_ROWS as nat),
        snapshot.top_tokens@.len() == at_most(ledger.per_token.len(), TOP_ROWS as nat),
        j < snapshot.top_ips@.len() ==> snapshot.top_ips@[i].total()
            >= snapshot.top_ips@[j].total(),
        j < snapshot.top_channels@.len() ==> snapshot.top_channels@[i]
            >= snapshot.top_channels@[j],
        j < snapshot.top_tokens@.len() ==> snapshot.top_tokens@[i] >= snapshot.top_tokens@[j],
{
    let n = TOP_ROWS as nat;
    let ips = choose|rows: Seq<Counts>| #[trigger]
        lists(rows, ledger.per_ip) && rows.len() <= usize::MAX && is_top(
            snapshot.top_ips@,
            rows,
            total_keys(rows),
            n,
        );
    lemma_lists_len(ips, ledger.per_ip);
    let order = choose|order: Seq<usize>| #[trigger]
        is_leading(order, total_keys(ips), n) && snapshot.top_ips@ == order.map_values(
            |place: usize| ips[place as int],
        );
    if i < j < order.len() {
        assert(ranks_before(total_keys(ips), order[i], order[j]));
    }
    lemma_names_descend(ledger.per_channel, snapshot.top_channels@, i, j);
    lemma_names_descend(ledger.per_token, snapshot.top_tokens@, i, j);
}

/// A ranked list of names runs from high to low, and shows ten rows or as many
/// as there are.
proof fn lemma_names_descend(table: Map<Seq<char>, u64>, top: Seq<u64>, i: int, j: int)
    requires
        shows_top_names(top, table),
        0 <= i <= j,
    ensures
        top.len() == at_most(table.len(), TOP_ROWS as nat),
        j < top.len() ==> top[i] >= top[j],
{
    let rows = choose|rows: Seq<u64>| #[trigger]
        lists(rows, table) && rows.len() <= usize::MAX && is_top(
            top,
            rows,
            count_keys(rows),
            TOP_ROWS as nat,
        );
    lemma_lists_len(rows, table);
    if j < top.len() {
        law_top_counts_descend(top, rows, TOP_ROWS as nat, i, j);
    }
}

/// Are `shown` the ten busiest clients of a table, and `top` what they did? They
/// are as many as there are up to ten and none twice. Of two, the one whose
/// posts, pushes and connects add up to more comes first, and nobody left out has
/// a larger sum than anybody shown.
pub open spec fn are_busiest(
    shown: Seq<IpKey>,
    top: Seq<Counts>,
    table: Map<IpKey, Counts>,
) -> bool {
    &&& shown.no_duplicates()
    &&& shown.len() == top.len()
    &&& shown.len() == (if table.len() < 10 {
        table.len()
    } else {
        10
    })
    &&& forall|i: int|
        0 <= i < shown.len() ==> table.contains_key(#[trigger] shown[i]) && top[i]
            == table[shown[i]]
    &&& forall|i: int, j: int|
        0 <= i <= j < top.len() ==> (#[trigger] top[i]).posts + top[i].pushes + top[i].connects >= (
        #[trigger] top[j]).posts + top[j].pushes + top[j].connects
    &&& forall|key: IpKey, i: int|
        #[trigger] table.contains_key(key) && !shown.contains(key) && 0 <= i < top.len()
            ==> table[key].posts + table[key].pushes + table[key].connects <= (
        #[trigger] top[i]).posts + top[i].pushes + top[i].connects
}

/// Are `shown` the ten most used names of a table, and `top` how often they were
/// used? They are as many as there are up to ten and none twice, the more used
/// come first, and none left out was used more than one shown.
pub open spec fn are_most_used(
    shown: Seq<Seq<char>>,
    top: Seq<u64>,
    table: Map<Seq<char>, u64>,
) -> bool {
    &&& shown.no_duplicates()
    &&& shown.len() == top.len()
    &&& shown.len() == (if table.len() < 10 {
        table.len()
    } else {
        10
    })
    &&& forall|i: int|
        0 <= i < shown.len() ==> table.contains_key(#[trigger] shown[i]) && top[i]
            == table[shown[i]]
    &&& forall|i: int, j: int|
        0 <= i <= j < top.len() ==> #[trigger] top[i] >= #[trigger] top[j]
    &&& forall|name: Seq<char>, i: int|
        #[trigger] table.contains_key(name) && !shown.contains(name) && 0 <= i < top.len()
            ==> table[name] <= #[trigger] top[i]
}

/// The ranked lists of a snapshot show the busiest clients, the channels most
/// posted to and the devices most pushed to.
pub proof fn law_busiest_come_first(snapshot: Snapshot, ledger: Ledger, min: u64)
    requires
        snapshot.shows(ledger, min),
    ensures
        exists|shown: Seq<IpKey>|
            #[trigger] are_busiest(shown, snapshot.top_ips@, ledger.per_ip),
        exists|shown: Seq<Seq<char>>|
            #[trigger] are_most_used(shown, snapshot.top_channels@, ledger.per_channel),
        exists|shown: Seq<Seq<char>>|
            #[trigger] are_most_used(shown, snapshot.top_tokens@, ledger.per_token),
{
    let ips = choose|rows: Seq<Counts>| #[trigger]
        lists(rows, ledger.per_ip) && rows.len() <= usize::MAX && is_top(
            snapshot.top_ips@,
            rows,
            total_keys(rows),
            TOP_ROWS as nat,
        );
    assert(total_keys(ips) =~= ips.map_values(client_rank()));
    let shown = lemma_top_of_table(
        ledger.per_ip,
        client_rank(),
        ips,
        snapshot.top_ips@,
        TOP_ROWS as nat,
    );
    let top = snapshot.top_ips@;
    assert forall|i: int, j: int| 0 <= i <= j < top.len() implies (#[trigger] top[i]).posts
        + top[i].pushes + top[i].connects >= (#[trigger] top[j]).posts + top[j].pushes
        + top[j].connects by {
        assert(client_rank()(top[i]) >= client_rank()(top[j]));
    }
    assert forall|key: IpKey, i: int|
        #[trigger] ledger.per_ip.contains_key(key) && !shown.contains(key) && 0 <= i
            < top.len() implies ledger.per_ip[key].posts + ledger.per_ip[key].pushes
        + ledger.per_ip[key].connects <= (#[trigger] top[i]).posts + top[i].pushes
        + top[i].connects by {
        assert(client_rank()(ledger.per_ip[key]) <= client_rank()(top[i]));
    }
    assert(are_busiest(shown, top, ledger.per_ip));
    lemma_most_used_first(ledger.per_channel, snapshot.top_channels@);
    lemma_most_used_first(ledger.per_token, snapshot.top_tokens@);
}

/// A ranked list of names shows the most used.
proof fn lemma_most_used_first(table: Map<Seq<char>, u64>, top: Seq<u64>)
    requires
        shows_top_names(top, table),
    ensures
        exists|shown: Seq<Seq<char>>| #[trigger] are_most_used(shown, top, table),
{
    let rank = |count: u64| count as u128;
    let rows = choose|rows: Seq<u64>| #[trigger]
        lists(rows, table) && rows.len() <= usize::MAX && is_top(
            top,
            rows,
            count_keys(rows),
            TOP_ROWS as nat,
        );
    assert(count_keys(rows) =~= rows.map_values(rank));
    let shown = lemma_top_of_table(table, rank, rows, top, TOP_ROWS as nat);
    assert forall|i: int, j: int| 0 <= i <= j < top.len() implies #[trigger] top[i]
        >= #[trigger] top[j] by {
        assert(rank(top[i]) >= rank(top[j]));
    }
    assert forall|name: Seq<char>, i: int|
        #[trigger] table.contains_key(name) && !shown.contains(name) && 0 <= i
            < top.len() implies table[name] <= #[trigger] top[i] by {
        assert(rank(table[name]) <= rank(top[i]));
    }
    assert(are_most_used(shown, top, table));
}

/// A ranked list of clients' counts, whatever list it is taken from: it holds as
/// many rows as asked for and there are, each row of the list at most once. Of
/// two rows, the one whose posts, pushes and connects add up to more comes first,
/// and none left out has a larger sum than one that is shown.
pub proof fn law_ranked_rows_by_their_sums(top: Seq<Counts>, rows: Seq<Counts>, n: nat) -> (places:
    Seq<int>)
    requires
        is_top(top, rows, total_keys(rows), n),
        rows.len() <= usize::MAX,
    ensures
        places.no_duplicates(),
        places.len() == top.len(),
        top.len() == (if rows.len() < n {
            rows.len()
        } else {
            n
        }),
        forall|i: int|
            0 <= i < places.len() ==> 0 <= #[trigger] places[i] < rows.len() && top[i]
                == rows[places[i]],
        forall|i: int, j: int|
            0 <= i <= j < top.len() ==> (#[trigger] top[i]).posts + top[i].pushes + top[i].connects
                >= (#[trigger] top[j]).posts + top[j].pushes + top[j].connects,
        forall|p: int, i: int|
            0 <= p < rows.len() && !places.contains(p) && 0 <= i < top.len() ==> (
            #[trigger] rows[p]).posts + rows[p].pushes + rows[p].connects <= (
            #[trigger] top[i]).posts + top[i].pushes + top[i].connects,
{
    let table = Map::new(|p: int| 0 <= p < rows.len(), |p: int| rows[p]);
    let all = Seq::new(rows.len(), |p: int| p);
    assert(all.to_set() =~= table.dom()) by {
        assert forall|p: int| all.to_set().contains(p) == #[trigger] table.dom().contains(p) by {
            if table.dom().contains(p) {
                assert(all[p] == p);
            }
        }
    }
    assert(lists_by(rows, table, all));
    assert(total_keys(rows) =~= rows.map_values(client_rank()));
    lemma_lists_len(rows, table);
    let places = lemma_top_of_table(table, client_rank(), rows, top, n);
    assert forall|i: int| 0 <= i < places.len() implies 0 <= #[trigger] places[i] < rows.len()
        && top[i] == rows[places[i]] by {
        assert(table.contains_key(places[i]));
    }
    assert forall|i: int, j: int| 0 <= i <= j < top.len() implies (#[trigger] top[i]).posts
        + top[i].pushes + top[i].connects >= (#[trigger] top[j]).posts + top[j].pushes
        + top[j].connects by {
        assert(client_rank()(top[i]) >= client_rank()(top[j]));
    }
    assert forall|p: int, i: int|
        0 <= p < rows.len() && !places.contains(p) && 0 <= i < top.len() implies (
    #[trigger] rows[p]).posts + rows[p].pushes + rows[p].connects <= (#[trigger] top[i]).posts
        + top[i].pushes + top[i].connects by {
        assert(table.contains_key(p));
        assert(client_rank()(table[p]) <= client_rank()(top[i]));
    }
    places
}

/// A snapshot shows a post at once: taken at the same moment, the last minute
/// counts one more post than before, and the totals do too.
pub proof fn law_post_shows_in_snapshot(
    ledger: Ledger,
    ip: IpAddr,
    channel: Seq<char>,
    now: u64,
    snapshot: Snapshot,
)
    requires
        ledger.bounded(),
        in_sequence(ledger.minutes),
        none_after(ledger.minutes, now / MINUTE),
        now / MINUTE + 1 >= HISTORY,
        snapshot.shows(ledger.posted(ip, channel, now).rolled(now / DAY), now / MINUTE),
    ensures
        snapshot.totals.posts == ledger.totals.posts.wrapping_add(1),
        snapshot.posts@[HISTORY - 1] == minute_count(
            ledger.minutes,
            (now / MINUTE) as int,
            Activity::Post,
        ).wrapping_add(1),
{
    law_history_is_complete(
        ledger.minutes,
        now / MINUTE,
        Activity::Post,
        now / MINUTE,
        Activity::Post,
    );
}

/// Where a minute was kept twice, as after the clock was set back, the entry that
/// was begun last counts; a minute that was not kept counts nothing. The series
/// shows 1440 minutes in a row.
pub proof fn law_last_entry_counts(
    minutes: Seq<Minute>,
    m: Minute,
    min: int,
    what: Activity,
    start: int,
    i: int,
)
    ensures
        minute_count(Seq::empty(), min, what) == 0,
        m.min == min && what == Activity::Post ==> minute_count(minutes.push(m), min, what)
            == m.posts,
        m.min == min && what == Activity::Push ==> minute_count(minutes.push(m), min, what)
            == m.pushes,
        m.min == min && what == Activity::Connect ==> minute_count(minutes.push(m), min, what)
            == m.connects,
        m.min != min ==> minute_count(minutes.push(m), min, what) == minute_count(
            minutes,
            min,
            what,
        ),
        series(minutes, start, what).len() == 1440,
        0 <= i < 1440 ==> series(minutes, start, what)[i] == minute_count(
            minutes,
            start + i,
            what,
        ),
{
    assert(minutes.push(m).drop_last() =~= minutes);
}

/// One more of an activity goes to the last minute if that is the present one; if
/// not, a new minute is begun behind it, and the oldest of 1440 makes room.
pub proof fn law_minutes_take_one_more(minutes: Seq<Minute>, min: u64, what: Activity)
    ensures
        ({
            let after = bumped_minutes(minutes, min, what);
            let last = after.last();
            &&& after.len() > 0
            &&& last.min == min
            &&& if minutes.len() > 0 && minutes.last().min == min {
                &&& after.len() == minutes.len()
                &&& forall|i: int| 0 <= i < minutes.len() - 1 ==> after[i] == minutes[i]
                &&& last.posts == (if what == Activity::Post {
                    minutes.last().posts.wrapping_add(1)
                } else {
                    minutes.last().posts
                })
                &&& last.pushes == (if what == Activity::Push {
                    minutes.last().pushes.wrapping_add(1)
                } else {
                    minutes.last().pushes
                })
                &&& last.connects == (if what == Activity::Connect {
                    minutes.last().connects.wrapping_add(1)
                } else {
                    minutes.last().connects
                })
            } else {
                &&& after.drop_last() == (if minutes.len() >= 1440 {
                    minutes.skip(1)
                } else {
                    minutes
                })
                &&& last.posts == (if what == Activity::Post { 1u32 } else { 0u32 })
                &&& last.pushes == (if what == Activity::Push { 1u32 } else { 0u32 })
                &&& last.connects == (if what == Activity::Connect { 1u32 } else { 0u32 })
            }
        }),
{
    let after = bumped_minutes(minutes, min, what);
    if !(minutes.len() > 0 && minutes.last().min == min) {
        if minutes.len() >= 1440 {
            assert(after.drop_last() =~= minutes.skip(1));
        } else {
            assert(after.drop_last() =~= minutes);
        }
    }
}

/// A table counts what it knows and takes in what is new while it holds fewer
/// than a hundred thousand keys; what is new is left out while it holds more, and
/// nothing else in it changes.
pub proof fn law_tables_take_one_more(
    names: Map<Seq<char>, u64>,
    name: Seq<char>,
    clients: Map<IpKey, Counts>,
    key: IpKey,
    what: Activity,
)
    ensures
        names.contains_key(name) ==> counted_name(names, name) == names.insert(
            name,
            names[name].wrapping_add(1),
        ),
        !names.contains_key(name) && names.len() < 100_000 ==> counted_name(names, name)
            == names.insert(name, 1),
        !names.contains_key(name) && names.len() >= 100_000 ==> counted_name(names, name) == names,
        !clients.contains_key(key) && clients.len() >= 100_000 ==> counted_ip(clients, key, what)
            == clients,
        clients.contains_key(key) || clients.len() < 100_000 ==> {
            let was = if clients.contains_key(key) {
                clients[key]
            } else {
                Counts { posts: 0, pushes: 0, connects: 0 }
            };
            counted_ip(clients, key, what) == clients.insert(
                key,
                match what {
                    Activity::Post => Counts { posts: was.posts.wrapping_add(1), ..was },
                    Activity::Push => Counts { pushes: was.pushes.wrapping_add(1), ..was },
                    Activity::Connect => Counts { connects: was.connects.wrapping_add(1), ..was },
                },
            )
        },
{
}

} // verus!

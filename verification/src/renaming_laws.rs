//! The counters know nobody: what they show does not depend on who the clients,
//! the channels and the devices are.

use vstd::prelude::*;

use crate::addr::{law_keys_tell_addresses_apart, IpAddr, IpKey};
use crate::clock::DAY;
use crate::ledger_laws::{law_ledger_stays_bounded, run, Happening};
use crate::ranking::{lists, lists_by, no_ties};
use crate::stats::{Counts, Ledger, Snapshot};
use crate::stats_laws::{
    client_rank, law_ranked_clients_are_determined, law_ranked_names_are_determined,
    law_snapshots_are_anonymous,
};

verus! {

/// Other names for clients, channels and devices.
pub ghost struct Naming {
    pub clients: spec_fn(IpAddr) -> IpAddr,
    pub channels: spec_fn(Seq<char>) -> Seq<char>,
    pub tokens: spec_fn(Seq<char>) -> Seq<char>,
}

/// Different things stay different.
pub open spec fn one_to_one<A, B>(name: spec_fn(A) -> B) -> bool {
    forall|a: A, b: A| #[trigger] name(a) == #[trigger] name(b) ==> a == b
}

impl Naming {
    /// No two clients, channels or devices get the same name.
    pub open spec fn tells_apart(self) -> bool {
        &&& one_to_one(self.clients)
        &&& one_to_one(self.channels)
        &&& one_to_one(self.tokens)
    }

    /// The same happening under the other names.
    pub open spec fn renamed(self, event: Happening) -> Happening {
        match event {
            Happening::Post { ip, channel, now } => Happening::Post {
                ip: (self.clients)(ip),
                channel: (self.channels)(channel),
                now,
            },
            Happening::Push { ip, token, now } => Happening::Push {
                ip: (self.clients)(ip),
                token: (self.tokens)(token),
                now,
            },
            Happening::Connect { ip, now } => Happening::Connect { ip: (self.clients)(ip), now },
            Happening::Disconnect { now } => Happening::Disconnect { now },
            Happening::Look { now } => Happening::Look { now },
        }
    }

    /// The same run under the other names.
    pub open spec fn renamed_run(self, events: Seq<Happening>) -> Seq<Happening> {
        events.map_values(|event: Happening| self.renamed(event))
    }

    /// The table keys of clients under their other names.
    spec fn client_keys(self) -> spec_fn(IpAddr) -> IpKey {
        |ip: IpAddr| (self.clients)(ip).pair()
    }
}

/// The table keys of clients.
spec fn keys() -> spec_fn(IpAddr) -> IpKey {
    |ip: IpAddr| ip.pair()
}

/// Names as they are.
spec fn same() -> spec_fn(Seq<char>) -> Seq<char> {
    |name: Seq<char>| name
}

/// Two tables hold the same for everything, each under its own keys, and hold
/// nothing else.
spec fn corresponds<I, K, V>(
    a: Map<K, V>,
    b: Map<K, V>,
    key_a: spec_fn(I) -> K,
    key_b: spec_fn(I) -> K,
) -> bool {
    &&& a.dom().finite()
    &&& b.dom().finite()
    &&& a.len() == b.len()
    &&& forall|i: I| a.get(#[trigger] key_a(i)) == b.get(key_b(i))
    &&& forall|key: K| #[trigger] a.contains_key(key) ==> exists|i: I| key == #[trigger] key_a(i)
    &&& forall|key: K| #[trigger] b.contains_key(key) ==> exists|i: I| key == #[trigger] key_b(i)
}

/// Tables correspond still when both hold something new for the same thing.
proof fn lemma_insert_corresponds<I, K, V>(
    a: Map<K, V>,
    b: Map<K, V>,
    key_a: spec_fn(I) -> K,
    key_b: spec_fn(I) -> K,
    i: I,
    value: V,
)
    requires
        corresponds(a, b, key_a, key_b),
        one_to_one(key_a),
        one_to_one(key_b),
    ensures
        corresponds(a.insert(key_a(i), value), b.insert(key_b(i), value), key_a, key_b),
{
    let new_a = a.insert(key_a(i), value);
    let new_b = b.insert(key_b(i), value);
    assert(a.get(key_a(i)) == b.get(key_b(i)));
    assert forall|j: I| new_a.get(#[trigger] key_a(j)) == new_b.get(key_b(j)) by {
        assert(a.get(key_a(j)) == b.get(key_b(j)));
        if key_a(j) == key_a(i) {
            assert(j == i);
        }
        if key_b(j) == key_b(i) {
            assert(j == i);
        }
    }
    assert forall|key: K| #[trigger] new_a.contains_key(key) implies exists|j: I|
        key == #[trigger] key_a(j) by {
        if key != key_a(i) {
            assert(a.contains_key(key));
        }
    }
    assert forall|key: K| #[trigger] new_b.contains_key(key) implies exists|j: I|
        key == #[trigger] key_b(j) by {
        if key != key_b(i) {
            assert(b.contains_key(key));
        }
    }
}

/// What lists a table lists every table that corresponds to it.
proof fn lemma_corresponding_lists<I, K, V>(
    rows: Seq<V>,
    a: Map<K, V>,
    b: Map<K, V>,
    key_a: spec_fn(I) -> K,
    key_b: spec_fn(I) -> K,
)
    requires
        corresponds(a, b, key_a, key_b),
        one_to_one(key_a),
        one_to_one(key_b),
        lists(rows, a),
    ensures
        lists(rows, b),
{
    let by_a = choose|keys: Seq<K>| lists_by(rows, a, keys);
    let thing = |p: int| choose|i: I| by_a[p] == #[trigger] key_a(i);
    assert forall|p: int| 0 <= p < rows.len() implies {
        let i: I = #[trigger] thing(p);
        &&& by_a[p] == key_a(i)
        &&& a.contains_key(by_a[p])
        &&& b.contains_key(key_b(i))
        &&& rows[p] == b[key_b(i)]
    } by {
        assert(by_a.to_set().contains(by_a[p]));
        assert(a.contains_key(by_a[p]));
        assert(rows[p] == a[by_a[p]]);
        let i = thing(p);
        assert(a.get(key_a(i)) == b.get(key_b(i)));
    }
    let by_b = Seq::new(rows.len(), |p: int| key_b(thing(p)));
    assert(by_b.no_duplicates()) by {
        assert forall|p: int, q: int| 0 <= p < by_b.len() && 0 <= q < by_b.len() && p != q implies
            by_b[p] != by_b[q] by {
            assert(by_a[p] != by_a[q]);
            assert(by_a[p] == key_a(thing(p)) && by_a[q] == key_a(thing(q)));
        }
    }
    assert forall|key: K| by_b.to_set().contains(key) == #[trigger] b.dom().contains(key) by {
        if by_b.to_set().contains(key) {
            let p = choose|p: int| 0 <= p < by_b.len() && by_b[p] == key;
            assert(b.contains_key(key_b(thing(p))));
        }
        if b.dom().contains(key) {
            assert(b.contains_key(key));
            let i = choose|i: I| key == #[trigger] key_b(i);
            assert(a.get(key_a(i)) == b.get(key_b(i)));
            assert(by_a.to_set().contains(key_a(i)));
            let p = choose|p: int| 0 <= p < by_a.len() && by_a[p] == key_a(i);
            assert(by_a[p] == key_a(thing(p)));
            assert(thing(p) == i);
            assert(by_b[p] == key);
        }
    }
    assert(by_b.to_set() =~= b.dom());
    assert forall|p: int| 0 <= p < rows.len() implies #[trigger] rows[p] == b[by_b[p]] by {
        assert(rows[p] == b[key_b(thing(p))]);
    }
    assert(lists_by(rows, b, by_b));
}

/// Two ledgers count the same, the second under other names.
spec fn mirrors(a: Ledger, b: Ledger, naming: Naming) -> bool {
    &&& a.sse_active == b.sse_active
    &&& a.totals == b.totals
    &&& a.day == b.day
    &&& a.minutes == b.minutes
    &&& corresponds(a.per_ip, b.per_ip, keys(), naming.client_keys())
    &&& corresponds(a.per_channel, b.per_channel, same(), naming.channels)
    &&& corresponds(a.per_token, b.per_token, same(), naming.tokens)
}

/// The table keys of clients are one to one, under either name.
proof fn lemma_keys_one_to_one(naming: Naming)
    requires
        naming.tells_apart(),
    ensures
        one_to_one(keys()),
        one_to_one(naming.client_keys()),
        one_to_one(same()),
{
    assert forall|a: IpAddr, b: IpAddr| #[trigger] keys()(a) == #[trigger] keys()(b) implies a
        == b by {
        law_keys_tell_addresses_apart(a, b);
    }
    assert forall|a: IpAddr, b: IpAddr|
        #[trigger] naming.client_keys()(a) == #[trigger] naming.client_keys()(b) implies a == b by {
        law_keys_tell_addresses_apart((naming.clients)(a), (naming.clients)(b));
    }
}

/// Ledgers that mirror each other do so still on another day.
proof fn lemma_rolled_mirrors(a: Ledger, b: Ledger, naming: Naming, today: u64)
    requires
        mirrors(a, b, naming),
    ensures
        mirrors(a.rolled(today), b.rolled(today), naming),
{
}

/// Ledgers that mirror each other do so still after the same happening.
proof fn lemma_step_mirrors(a: Ledger, b: Ledger, naming: Naming, event: Happening)
    requires
        naming.tells_apart(),
        mirrors(a, b, naming),
    ensures
        mirrors(event.applied(a), naming.renamed(event).applied(b), naming),
{
    let today = event.now() / DAY;
    let (ra, rb) = (a.rolled(today), b.rolled(today));
    lemma_rolled_mirrors(a, b, naming, today);
    lemma_keys_one_to_one(naming);
    if let Some((what, ip)) = event.activity() {
        let counts = if ra.per_ip.contains_key(ip.pair()) {
            ra.per_ip[ip.pair()]
        } else {
            Counts::none()
        };
        assert(ra.per_ip.get(keys()(ip)) == rb.per_ip.get(naming.client_keys()(ip)));
        lemma_insert_corresponds(
            ra.per_ip,
            rb.per_ip,
            keys(),
            naming.client_keys(),
            ip,
            counts.bumped(what),
        );
    }
    match event {
        Happening::Post { ip: _, channel, now: _ } => {
            assert(ra.per_channel.get(same()(channel)) == rb.per_channel.get(
                (naming.channels)(channel),
            ));
            let count: u64 = if ra.per_channel.contains_key(channel) {
                ra.per_channel[channel].wrapping_add(1)
            } else {
                1
            };
            lemma_insert_corresponds(
                ra.per_channel,
                rb.per_channel,
                same(),
                naming.channels,
                channel,
                count,
            );
        },
        Happening::Push { ip: _, token, now: _ } => {
            assert(ra.per_token.get(same()(token)) == rb.per_token.get((naming.tokens)(token)));
            let count: u64 = if ra.per_token.contains_key(token) {
                ra.per_token[token].wrapping_add(1)
            } else {
                1
            };
            lemma_insert_corresponds(
                ra.per_token,
                rb.per_token,
                same(),
                naming.tokens,
                token,
                count,
            );
        },
        _ => {},
    }
}

/// Runs of the same events under different names lead to ledgers that mirror
/// each other.
proof fn lemma_runs_mirror(day: u64, events: Seq<Happening>, naming: Naming)
    requires
        naming.tells_apart(),
    ensures
        mirrors(
            run(Ledger::begun(day), events),
            run(Ledger::begun(day), naming.renamed_run(events)),
            naming,
        ),
    decreases events.len(),
{
    if events.len() > 0 {
        let rest = events.drop_last();
        lemma_runs_mirror(day, rest, naming);
        assert(naming.renamed_run(events).drop_last() =~= naming.renamed_run(rest));
        lemma_step_mirrors(
            run(Ledger::begun(day), rest),
            run(Ledger::begun(day), naming.renamed_run(rest)),
            naming,
            events.last(),
        );
    }
}

/// Whether two snapshots show the same, but for the ranked clients.
pub open spec fn shows_same(a: Snapshot, b: Snapshot) -> bool {
    &&& a.sse_active == b.sse_active
    &&& a.totals == b.totals
    &&& a.unique_ips == b.unique_ips
    &&& a.unique_channels == b.unique_channels
    &&& a.unique_push_tokens == b.unique_push_tokens
    &&& a.top_channels@ == b.top_channels@
    &&& a.top_tokens@ == b.top_tokens@
    &&& a.start_min == b.start_min
    &&& a.posts@ == b.posts@
    &&& a.pushes@ == b.pushes@
    &&& a.connects@ == b.connects@
}

/// Nobody can be told by the numbers: whatever happened, had it happened under
/// other addresses, channels and tokens, the snapshot would be the same. Of
/// clients that are equally active it is open which come first; where no two of
/// the day are, the ranked clients are the same too.
pub proof fn law_names_never_show(
    day: u64,
    events: Seq<Happening>,
    naming: Naming,
    a: Snapshot,
    b: Snapshot,
    min: u64,
)
    requires
        naming.tells_apart(),
        a.shows(run(Ledger::begun(day), events), min),
        b.shows(run(Ledger::begun(day), naming.renamed_run(events)), min),
    ensures
        shows_same(a, b),
        no_ties(run(Ledger::begun(day), events).per_ip, client_rank()) ==> a.top_ips@ == b.top_ips@,
{
    let la = run(Ledger::begun(day), events);
    let lb = run(Ledger::begun(day), naming.renamed_run(events));
    lemma_runs_mirror(day, events, naming);
    lemma_keys_one_to_one(naming);
    law_ledger_stays_bounded(Ledger::begun(day), events);
    law_ledger_stays_bounded(Ledger::begun(day), naming.renamed_run(events));
    let clients = choose|rows: Seq<Counts>| #[trigger] lists(rows, la.per_ip);
    let channels = choose|rows: Seq<u64>| #[trigger] lists(rows, la.per_channel);
    let tokens = choose|rows: Seq<u64>| #[trigger] lists(rows, la.per_token);
    lemma_corresponding_lists(clients, la.per_ip, lb.per_ip, keys(), naming.client_keys());
    lemma_corresponding_lists(
        channels,
        la.per_channel,
        lb.per_channel,
        same(),
        naming.channels,
    );
    lemma_corresponding_lists(tokens, la.per_token, lb.per_token, same(), naming.tokens);
    law_ranked_names_are_determined(a, b, la, lb, min, min, channels, tokens);
    law_snapshots_are_anonymous(b, lb, la, min, clients, channels, tokens);
    if no_ties(la.per_ip, client_rank()) {
        law_ranked_clients_are_determined(a, b, la, min, min);
    }
}

} // verus!

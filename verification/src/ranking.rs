//! Ranked lists: the highest counts first, and no more than a few of them.

use vstd::prelude::*;

verus! {

/// Does place `a` of `keys` rank before place `b`? Higher keys come first, and
/// of equal keys the one that is listed first.
pub open spec fn ranks_before(keys: Seq<u128>, a: usize, b: usize) -> bool {
    ||| keys[a as int] > keys[b as int]
    ||| keys[a as int] == keys[b as int] && a < b
}

/// The smaller of two lengths.
pub open spec fn at_most(len: nat, n: nat) -> nat {
    if len < n {
        len
    } else {
        n
    }
}

/// Does `order` list the `n` places of `keys` that rank first, in their order?
pub open spec fn is_leading(order: Seq<usize>, keys: Seq<u128>, n: nat) -> bool {
    &&& order.len() == at_most(keys.len(), n)
    &&& forall|i: int| 0 <= i < order.len() ==> #[trigger] order[i] < keys.len()
    &&& forall|i: int, j: int|
        0 <= i < j < order.len() ==> #[trigger] ranks_before(keys, order[i], order[j])
    &&& forall|i: int, place: usize|
        0 <= i < order.len() && place < keys.len() && !order.contains(place)
            ==> #[trigger] ranks_before(keys, order[i], place)
}

/// Are `top` the first `n` of `rows` when these are ranked by `keys`, one key
/// for each row?
pub open spec fn is_top<T>(top: Seq<T>, rows: Seq<T>, keys: Seq<u128>, n: nat) -> bool {
    exists|order: Seq<usize>| #[trigger]
        is_leading(order, keys, n) && top == order.map_values(|place: usize| rows[place as int])
}

/// Counts as ranking keys.
pub open spec fn count_keys(counts: Seq<u64>) -> Seq<u128> {
    counts.map_values(|count: u64| count as u128)
}

/// Placing one more key in a leading order keeps it leading, once what no
/// longer fits is cut off.
proof fn lemma_place_next(sorted: Seq<usize>, keys: Seq<u128>, i: usize, at: int, n: nat)
    requires
        i < keys.len(),
        is_leading(sorted, keys.take(i as int), n),
        0 <= at <= sorted.len(),
        forall|j: int| at <= j < sorted.len() ==> keys[#[trigger] sorted[j] as int] < keys[i as int],
        at > 0 ==> keys[sorted[at - 1] as int] >= keys[i as int],
    ensures
        is_leading(
            sorted.insert(at, i).take(at_most(i as nat + 1, n) as int),
            keys.take(i + 1),
            n,
        ),
{
    let before = keys.take(i as int);
    let after = keys.take(i + 1);
    let placed = sorted.insert(at, i);
    let kept = placed.take(at_most(i as nat + 1, n) as int);
    assert forall|j: int| 0 <= j < placed.len() implies #[trigger] placed[j] < after.len() by {
        if j != at {
            let o = if j < at { j } else { j - 1 };
            assert(placed[j] == sorted[o] && sorted[o] < before.len());
        }
    }
    assert forall|a: int, b: int| 0 <= a < b < placed.len() implies #[trigger] ranks_before(
        after,
        placed[a],
        placed[b],
    ) by {
        let oa = if a < at { a } else { a - 1 };
        let ob = if b < at { b } else { b - 1 };
        if a != at && b != at {
            assert(placed[a] == sorted[oa] && placed[b] == sorted[ob]);
            assert(sorted[oa] < before.len() && sorted[ob] < before.len());
            assert(ranks_before(before, sorted[oa], sorted[ob]));
        } else if b == at {
            assert(placed[a] == sorted[oa] && sorted[oa] < before.len());
            if a < at - 1 {
                assert(sorted[at - 1] < before.len());
                assert(ranks_before(before, sorted[a], sorted[at - 1]));
            }
        } else {
            assert(placed[b] == sorted[ob] && sorted[ob] < before.len());
        }
    }
    assert forall|a: int, place: usize|
        0 <= a < kept.len() && place < after.len() && !kept.contains(place) implies #[trigger]
    ranks_before(after, kept[a], place) by {
        assert(kept[a] == placed[a]);
        if placed.contains(place) {
            let b = choose|b: int| 0 <= b < placed.len() && placed[b] == place;
            if b < kept.len() {
                assert(kept[b] == place);
                assert(kept.contains(place));
            }
            assert(ranks_before(after, placed[a], placed[b]));
        } else {
            assert(placed[at] == i);
            assert(place != i);
            assert(!sorted.contains(place)) by {
                if sorted.contains(place) {
                    let o = choose|o: int| 0 <= o < sorted.len() && sorted[o] == place;
                    let b = if o < at { o } else { o + 1 };
                    assert(placed[b] == place);
                }
            }
            if a == at {
                // Something did not fit before, so the last place was taken.
                if sorted.len() == i {
                    lemma_full_order_lists_all(sorted, before, n, place);
                } else {
                    let last = sorted.len() - 1;
                    assert(at < sorted.len());
                    assert(sorted[last] < before.len());
                    assert(ranks_before(before, sorted[last], place));
                }
            } else {
                let o = if a < at { a } else { a - 1 };
                assert(placed[a] == sorted[o] && sorted[o] < before.len());
                assert(ranks_before(before, sorted[o], place));
            }
        }
    }
}

/// A leading order with as many places as there are keys lists them all.
proof fn lemma_full_order_lists_all(order: Seq<usize>, keys: Seq<u128>, n: nat, place: usize)
    requires
        is_leading(order, keys, n),
        order.len() == keys.len(),
        place < keys.len(),
    ensures
        order.contains(place),
{
    let ints = order.map_values(|p: usize| p as int);
    assert(ints.no_duplicates()) by {
        assert forall|a: int, b: int| 0 <= a < b < order.len() implies order[a] != order[b] by {
            assert(ranks_before(keys, order[a], order[b]));
        }
    }
    ints.unique_seq_to_set();
    let all = vstd::set_lib::set_int_range(0, keys.len() as int);
    vstd::set_lib::lemma_int_range(0, keys.len() as int);
    assert(ints.to_set().subset_of(all)) by {
        assert forall|x: int| ints.to_set().contains(x) implies all.contains(x) by {
            let a = choose|a: int| 0 <= a < ints.len() && ints[a] == x;
            assert(order[a] < keys.len());
        }
    }
    vstd::set_lib::lemma_subset_equality(ints.to_set(), all);
    assert(ints.to_set().contains(place as int));
    let a = choose|a: int| 0 <= a < ints.len() && ints[a] == place as int;
    assert(order[a] == place);
}

/// The `n` places of `keys` that rank first.
pub fn ranking(keys: &Vec<u128>, n: usize) -> (order: Vec<usize>)
    ensures
        is_leading(order@, keys@, n as nat),
{
    let mut order: Vec<usize> = Vec::new();
    let mut i: usize = 0;
    while i < keys.len()
        invariant
            i <= keys@.len(),
            is_leading(order@, keys@.take(i as int), n as nat),
        decreases keys@.len() - i,
    {
        let mut at: usize = order.len();
        let ghost sorted = order@;
        assert forall|j: int| 0 <= j < sorted.len() implies #[trigger] sorted[j] < i by {
            assert(sorted[j] < keys@.take(i as int).len());
        }
        while at > 0 && keys[order[at - 1]] < keys[i]
            invariant
                i < keys@.len(),
                at <= sorted.len(),
                order@ == sorted,
                forall|j: int| 0 <= j < sorted.len() ==> #[trigger] sorted[j] < i,
                forall|j: int|
                    at <= j < sorted.len() ==> keys@[#[trigger] sorted[j] as int] < keys@[i as int],
            decreases at,
        {
            at = at - 1;
            assert(sorted[at as int] < i);
        }
        proof {
            if at > 0 {
                assert(sorted[at - 1] < i);
            }
            lemma_place_next(sorted, keys@, i, at as int, n as nat);
        }
        if at < n {
            order.insert(at, i);
            assert(order@ =~= sorted.insert(at as int, i));
            if order.len() > n {
                order.truncate(n);
            }
        }
        assert(order@ =~= sorted.insert(at as int, i).take(at_most(i as nat + 1, n as nat) as int));
        i = i + 1;
    }
    assert(keys@.take(keys@.len() as int) =~= keys@);
    order
}

/// The `n` highest counts, highest first.
pub fn top_counts(counts: &Vec<u64>, n: usize) -> (top: Vec<u64>)
    ensures
        is_top(top@, counts@, count_keys(counts@), n as nat),
{
    let mut keys: Vec<u128> = Vec::new();
    let mut i: usize = 0;
    while i < counts.len()
        invariant
            i <= counts@.len(),
            keys@ =~= count_keys(counts@.take(i as int)),
        decreases counts@.len() - i,
    {
        keys.push(counts[i] as u128);
        i = i + 1;
    }
    assert(counts@.take(counts@.len() as int) =~= counts@);
    let order: Vec<usize> = ranking(&keys, n);
    let mut top: Vec<u64> = Vec::new();
    while top.len() < order.len()
        invariant
            is_leading(order@, count_keys(counts@), n as nat),
            top@.len() <= order@.len(),
            forall|j: int| 0 <= j < top@.len() ==> top@[j] == counts@[order@[j] as int],
        decreases order@.len() - top@.len(),
    {
        let place: usize = order[top.len()];
        top.push(counts[place]);
    }
    assert(top@ =~= order@.map_values(|place: usize| counts@[place as int]));
    top
}

/// Do `keys` name each entry of a table once, and `rows` what is stored there?
pub open spec fn lists_by<K, V>(rows: Seq<V>, table: Map<K, V>, keys: Seq<K>) -> bool {
    &&& keys.no_duplicates()
    &&& keys.to_set() == table.dom()
    &&& rows.len() == keys.len()
    &&& forall|i: int| 0 <= i < rows.len() ==> #[trigger] rows[i] == table[keys[i]]
}

/// Are `rows` the values of a table, in some order of its keys?
pub open spec fn lists<K, V>(rows: Seq<V>, table: Map<K, V>) -> bool {
    exists|keys: Seq<K>| lists_by(rows, table, keys)
}

/// A ranked list runs from high to low.
pub proof fn law_top_counts_descend(top: Seq<u64>, counts: Seq<u64>, n: nat, i: int, j: int)
    requires
        is_top(top, counts, count_keys(counts), n),
        0 <= i <= j < top.len(),
    ensures
        top[i] >= top[j],
{
    let order = choose|order: Seq<usize>| #[trigger]
        is_leading(order, count_keys(counts), n) && top == order.map_values(
            |place: usize| counts[place as int],
        );
    if i < j {
        assert(ranks_before(count_keys(counts), order[i], order[j]));
    }
}

/// Rows and keys leave no choice: there is one leading order.
pub proof fn law_leading_is_unique(a: Seq<usize>, b: Seq<usize>, keys: Seq<u128>, n: nat)
    requires
        is_leading(a, keys, n),
        is_leading(b, keys, n),
    ensures
        a == b,
{
    assert forall|i: int| 0 <= i < a.len() implies a[i] == b[i] by {
        lemma_leading_agree(a, b, keys, n, i);
    }
    assert(a =~= b);
}

/// Two leading orders agree up to any place.
proof fn lemma_leading_agree(a: Seq<usize>, b: Seq<usize>, keys: Seq<u128>, n: nat, i: int)
    requires
        is_leading(a, keys, n),
        is_leading(b, keys, n),
        0 <= i < a.len(),
    ensures
        a[i] == b[i],
    decreases i,
{
    assert forall|j: int| 0 <= j < i implies a[j] == b[j] by {
        lemma_leading_agree(a, b, keys, n, j);
    }
    if a[i] != b[i] {
        lemma_not_after(a, b, keys, n, i);
        lemma_not_after(b, a, keys, n, i);
    }
}

/// Where two leading orders first differ, the place that one takes does not
/// rank after the place that the other takes.
proof fn lemma_not_after(a: Seq<usize>, b: Seq<usize>, keys: Seq<u128>, n: nat, i: int)
    requires
        is_leading(a, keys, n),
        is_leading(b, keys, n),
        0 <= i < a.len(),
        forall|j: int| 0 <= j < i ==> a[j] == b[j],
        a[i] != b[i],
    ensures
        ranks_before(keys, a[i], b[i]),
{
    assert(a[i] < keys.len() && b[i] < keys.len());
    if a.contains(b[i]) {
        let j = choose|j: int| 0 <= j < a.len() && a[j] == b[i];
        if j < i {
            assert(ranks_before(keys, b[j], b[i]));
        }
        assert(ranks_before(keys, a[i], a[j]));
    } else {
        assert(ranks_before(keys, a[i], b[i]));
    }
}

/// The keys of a table under which more than `v` is counted.
spec fn keys_above<K>(table: Map<K, u64>, v: u64) -> Set<K> {
    Set::new(|key: K| table.contains_key(key) && table[key] > v)
}

/// Place `i` of a ranked list holds more than `v` exactly when more than `i`
/// counts of the table do.
proof fn lemma_top_threshold<K>(
    table: Map<K, u64>,
    rows: Seq<u64>,
    top: Seq<u64>,
    n: nat,
    i: int,
    v: u64,
)
    requires
        table.dom().finite(),
        rows.len() <= usize::MAX,
        lists(rows, table),
        is_top(top, rows, count_keys(rows), n),
        0 <= i < top.len(),
    ensures
        top[i] > v <==> keys_above(table, v).len() > i,
{
    let keys = choose|keys: Seq<K>| lists_by(rows, table, keys);
    let ranks = count_keys(rows);
    let order = choose|order: Seq<usize>| #[trigger]
        is_leading(order, ranks, n) && top == order.map_values(|place: usize| rows[place as int]);
    let above = keys_above(table, v);
    assert(above.subset_of(table.dom()));
    vstd::set_lib::lemma_len_subset(above, table.dom());
    if top[i] > v {
        // The first `i + 1` places all hold more than `v`.
        let first = Seq::new((i + 1) as nat, |j: int| keys[order[j] as int]);
        assert(first.no_duplicates()) by {
            assert forall|a: int, b: int| 0 <= a < b < first.len() implies first[a] != first[b] by {
                assert(ranks_before(ranks, order[a], order[b]));
                assert(order[a] < ranks.len() && order[b] < ranks.len());
            }
        }
        first.unique_seq_to_set();
        assert(first.to_set().subset_of(above)) by {
            assert forall|key: K| first.to_set().contains(key) implies above.contains(key) by {
                let j = choose|j: int| 0 <= j < first.len() && first[j] == key;
                assert(order[j] < ranks.len());
                assert(rows[order[j] as int] == table[keys[order[j] as int]]);
                if j < i {
                    assert(ranks_before(ranks, order[j], order[i]));
                }
                assert(order[i] < ranks.len());
                assert(keys.to_set().contains(key));
            }
        }
        vstd::set_lib::lemma_len_subset(first.to_set(), above);
    } else {
        // Whatever holds more than `v` ranks before place `i`.
        let first = Seq::new(i as nat, |j: int| keys[order[j] as int]);
        assert(above.subset_of(first.to_set())) by {
            assert forall|key: K| above.contains(key) implies first.to_set().contains(key) by {
                assert(keys.to_set().contains(key));
                let p = choose|p: int| 0 <= p < keys.len() && keys[p] == key;
                assert(rows[p] == table[keys[p]]);
                assert(order[i] < ranks.len());
                let place = p as usize;
                if order.contains(place) {
                    let j = choose|j: int| 0 <= j < order.len() && order[j] == place;
                    if j > i {
                        assert(ranks_before(ranks, order[i], order[j]));
                    }
                    assert(j < i);
                    assert(first[j] == key);
                } else {
                    assert(ranks_before(ranks, order[i], place));
                }
            }
        }
        vstd::seq_lib::seq_to_set_is_finite(first);
        vstd::set_lib::lemma_len_subset(above, first.to_set());
        first.lemma_cardinality_of_set();
    }
}

/// As many keys of a table as places of its rows hold more than `v`.
proof fn lemma_keys_above_len<K>(table: Map<K, u64>, rows: Seq<u64>, v: u64)
    requires
        lists(rows, table),
    ensures
        keys_above(table, v).len() == places_above(rows, v).len(),
{
    let keys = choose|keys: Seq<K>| lists_by(rows, table, keys);
    let places = places_above(rows, v);
    let above = keys_above(table, v);
    let key_at = |p: int| keys[p];
    vstd::set_lib::lemma_int_range(0, rows.len() as int);
    vstd::set_lib::lemma_len_subset(places, vstd::set_lib::set_int_range(0, rows.len() as int));
    assert(places.map(key_at) =~= above) by {
        assert forall|key: K| above.contains(key) implies places.map(key_at).contains(key) by {
            assert(keys.to_set().contains(key));
            let p = choose|p: int| 0 <= p < keys.len() && keys[p] == key;
            assert(rows[p] == table[keys[p]]);
            assert(places.contains(p) && key == key_at(p));
        }
        assert forall|key: K| places.map(key_at).contains(key) implies above.contains(key) by {
            let p = choose|p: int| places.contains(p) && key == key_at(p);
            assert(rows[p] == table[keys[p]]);
            assert(keys.to_set().contains(key));
        }
    }
    vstd::set_lib::lemma_map_size(places, above, key_at);
}

/// The places of a list that hold more than `v`.
spec fn places_above(rows: Seq<u64>, v: u64) -> Set<int> {
    Set::new(|p: int| 0 <= p < rows.len() && rows[p] > v)
}

/// A ranked list tells nothing of a table but its counts: two tables that hold
/// the same counts under whatever keys, each handing its rows out in whatever
/// order, have the same ranked list.
pub proof fn law_top_counts_are_anonymous<K, L>(
    table_a: Map<K, u64>,
    table_b: Map<L, u64>,
    counts: Seq<u64>,
    rows_a: Seq<u64>,
    rows_b: Seq<u64>,
    top_a: Seq<u64>,
    top_b: Seq<u64>,
    n: nat,
)
    requires
        table_a.dom().finite(),
        table_b.dom().finite(),
        lists(counts, table_a),
        lists(counts, table_b),
        rows_a.len() <= usize::MAX,
        rows_b.len() <= usize::MAX,
        lists(rows_a, table_a),
        lists(rows_b, table_b),
        is_top(top_a, rows_a, count_keys(rows_a), n),
        is_top(top_b, rows_b, count_keys(rows_b), n),
    ensures
        top_a == top_b,
{
    lemma_lists_len(counts, table_a);
    lemma_lists_len(counts, table_b);
    lemma_lists_len(rows_a, table_a);
    lemma_lists_len(rows_b, table_b);
    assert forall|i: int| 0 <= i < top_a.len() implies top_a[i] == top_b[i] by {
        lemma_keys_above_len(table_a, counts, top_a[i]);
        lemma_keys_above_len(table_b, counts, top_a[i]);
        lemma_top_threshold(table_a, rows_a, top_a, n, i, top_a[i]);
        lemma_top_threshold(table_b, rows_b, top_b, n, i, top_a[i]);
        lemma_keys_above_len(table_a, counts, top_b[i]);
        lemma_keys_above_len(table_b, counts, top_b[i]);
        lemma_top_threshold(table_a, rows_a, top_a, n, i, top_b[i]);
        lemma_top_threshold(table_b, rows_b, top_b, n, i, top_b[i]);
    }
    assert(top_a =~= top_b);
}

/// A table's rows are as many as its keys.
pub proof fn lemma_lists_len<K, V>(rows: Seq<V>, table: Map<K, V>)
    requires
        lists(rows, table),
    ensures
        rows.len() == table.len(),
{
    let keys = choose|keys: Seq<K>| lists_by(rows, table, keys);
    keys.unique_seq_to_set();
}

/// What lists one table lists every table that holds the same values.
pub proof fn lemma_lists_same<K, L, V>(
    rows: Seq<V>,
    values: Seq<V>,
    table_a: Map<K, V>,
    table_b: Map<L, V>,
)
    requires
        lists(rows, table_a),
        lists(values, table_a),
        lists(values, table_b),
    ensures
        lists(rows, table_b),
{
    let rows_by = choose|keys: Seq<K>| lists_by(rows, table_a, keys);
    let values_by_a = choose|keys: Seq<K>| lists_by(values, table_a, keys);
    let values_by_b = choose|keys: Seq<L>| lists_by(values, table_b, keys);
    lemma_lists_len(rows, table_a);
    lemma_lists_len(values, table_a);
    let place = |i: int| values_by_a.index_of(rows_by[i]);
    assert forall|i: int| 0 <= i < rows.len() implies 0 <= #[trigger] place(i) < values.len()
        && values_by_a[place(i)] == rows_by[i] by {
        assert(rows_by.to_set().contains(rows_by[i]));
        assert(values_by_a.to_set().contains(rows_by[i]));
    }
    let keys = Seq::new(rows.len(), |i: int| values_by_b[place(i)]);
    assert(keys.no_duplicates()) by {
        assert forall|i: int, j: int| 0 <= i < keys.len() && 0 <= j < keys.len() && i != j implies
            keys[i] != keys[j] by {
            assert(rows_by[i] != rows_by[j]);
            assert(values_by_a[place(i)] == rows_by[i] && values_by_a[place(j)] == rows_by[j]);
        }
    }
    assert forall|key: L| keys.to_set().contains(key) == #[trigger]
        table_b.dom().contains(key) by {
        if keys.to_set().contains(key) {
            let i = choose|i: int| 0 <= i < keys.len() && keys[i] == key;
            assert(0 <= place(i) < values.len());
            assert(values_by_b.to_set().contains(values_by_b[place(i)]));
        }
        if table_b.dom().contains(key) {
            assert(values_by_b.to_set().contains(key));
            let j = choose|j: int| 0 <= j < values_by_b.len() && values_by_b[j] == key;
            assert(values_by_a.to_set().contains(values_by_a[j]));
            assert(rows_by.to_set().contains(values_by_a[j]));
            let i = choose|i: int| 0 <= i < rows_by.len() && rows_by[i] == values_by_a[j];
            assert(values_by_a[place(i)] == values_by_a[j]);
            assert(keys[i] == key);
        }
    }
    assert(keys.to_set() =~= table_b.dom());
    assert forall|i: int| 0 <= i < rows.len() implies #[trigger] rows[i] == table_b[keys[i]] by {
        assert(values_by_a[place(i)] == rows_by[i]);
        assert(values[place(i)] == table_b[values_by_b[place(i)]]);
        assert(values[place(i)] == table_a[values_by_a[place(i)]]);
    }
    assert(lists_by(rows, table_b, keys));
}

/// No two entries of a table have the same ranking key.
pub open spec fn no_ties<K, V>(table: Map<K, V>, rank: spec_fn(V) -> u128) -> bool {
    forall|a: K, b: K|
        #[trigger] table.contains_key(a) && #[trigger] table.contains_key(b) && a != b ==> rank(
            table[a],
        ) != rank(table[b])
}

/// Where two listings of a table agree on the first places of their leading
/// orders, the entry that comes next in one does not rank above the other's.
proof fn lemma_next_not_above<K, V>(
    table: Map<K, V>,
    rank: spec_fn(V) -> u128,
    rows_a: Seq<V>,
    keys_a: Seq<K>,
    order_a: Seq<usize>,
    rows_b: Seq<V>,
    keys_b: Seq<K>,
    order_b: Seq<usize>,
    n: nat,
    i: int,
)
    requires
        lists_by(rows_a, table, keys_a),
        lists_by(rows_b, table, keys_b),
        rows_b.len() <= usize::MAX,
        is_leading(order_a, rows_a.map_values(rank), n),
        is_leading(order_b, rows_b.map_values(rank), n),
        0 <= i < order_a.len(),
        i < order_b.len(),
        forall|j: int|
            0 <= j < i ==> keys_a[#[trigger] order_a[j] as int] == keys_b[order_b[j] as int],
    ensures
        rank(rows_a[order_a[i] as int]) <= rank(rows_b[order_b[i] as int]),
{
    let ranks_b = rows_b.map_values(rank);
    let key = keys_a[order_a[i] as int];
    assert(order_a[i] < rows_a.map_values(rank).len());
    assert(order_b[i] < ranks_b.len());
    assert(keys_a.to_set().contains(key));
    assert(keys_b.to_set().contains(key));
    let p = choose|p: int| 0 <= p < keys_b.len() && keys_b[p] == key;
    assert(rows_b[p] == table[keys_b[p]] && rows_a[order_a[i] as int] == table[key]);
    let place = p as usize;
    if order_b.contains(place) {
        let j = choose|j: int| 0 <= j < order_b.len() && order_b[j] == place;
        if j < i {
            assert(keys_a[order_a[j] as int] == key);
            assert(ranks_before(rows_a.map_values(rank), order_a[j], order_a[i]));
            assert(order_a[j] < rows_a.map_values(rank).len());
        } else if j > i {
            assert(ranks_before(ranks_b, order_b[i], order_b[j]));
        }
    } else {
        assert(ranks_before(ranks_b, order_b[i], place));
    }
}

/// Without ties the leading orders of two listings of a table name the same
/// entries.
proof fn lemma_same_entry_leads<K, V>(
    table: Map<K, V>,
    rank: spec_fn(V) -> u128,
    rows_a: Seq<V>,
    keys_a: Seq<K>,
    order_a: Seq<usize>,
    rows_b: Seq<V>,
    keys_b: Seq<K>,
    order_b: Seq<usize>,
    n: nat,
    i: int,
)
    requires
        no_ties(table, rank),
        lists_by(rows_a, table, keys_a),
        lists_by(rows_b, table, keys_b),
        rows_a.len() <= usize::MAX,
        rows_b.len() <= usize::MAX,
        is_leading(order_a, rows_a.map_values(rank), n),
        is_leading(order_b, rows_b.map_values(rank), n),
        0 <= i < order_a.len(),
        i < order_b.len(),
    ensures
        keys_a[order_a[i] as int] == keys_b[order_b[i] as int],
    decreases i,
{
    assert forall|j: int| 0 <= j < i implies keys_a[#[trigger] order_a[j] as int]
        == keys_b[order_b[j] as int] by {
        lemma_same_entry_leads(
            table,
            rank,
            rows_a,
            keys_a,
            order_a,
            rows_b,
            keys_b,
            order_b,
            n,
            j,
        );
    }
    lemma_next_not_above(
        table,
        rank,
        rows_a,
        keys_a,
        order_a,
        rows_b,
        keys_b,
        order_b,
        n,
        i,
    );
    assert forall|j: int| 0 <= j < i implies keys_b[#[trigger] order_b[j] as int]
        == keys_a[order_a[j] as int] by {
        assert(keys_a[order_a[j] as int] == keys_b[order_b[j] as int]);
    }
    lemma_next_not_above(
        table,
        rank,
        rows_b,
        keys_b,
        order_b,
        rows_a,
        keys_a,
        order_a,
        n,
        i,
    );
    assert(order_a[i] < rows_a.map_values(rank).len());
    assert(order_b[i] < rows_b.map_values(rank).len());
    let a = keys_a[order_a[i] as int];
    let b = keys_b[order_b[i] as int];
    assert(keys_a.to_set().contains(a) && keys_b.to_set().contains(b));
    assert(rows_a[order_a[i] as int] == table[a] && rows_b[order_b[i] as int] == table[b]);
    assert(table.contains_key(a) && table.contains_key(b));
}

/// A ranked list without ties is determined: in whatever order a table hands its
/// rows out, the first of them are the same.
pub proof fn law_top_without_ties_is_determined<K, V>(
    table: Map<K, V>,
    rank: spec_fn(V) -> u128,
    rows_a: Seq<V>,
    rows_b: Seq<V>,
    top_a: Seq<V>,
    top_b: Seq<V>,
    n: nat,
)
    requires
        no_ties(table, rank),
        lists(rows_a, table),
        lists(rows_b, table),
        rows_a.len() <= usize::MAX,
        rows_b.len() <= usize::MAX,
        is_top(top_a, rows_a, rows_a.map_values(rank), n),
        is_top(top_b, rows_b, rows_b.map_values(rank), n),
    ensures
        top_a == top_b,
{
    lemma_lists_len(rows_a, table);
    lemma_lists_len(rows_b, table);
    let keys_a = choose|keys: Seq<K>| lists_by(rows_a, table, keys);
    let keys_b = choose|keys: Seq<K>| lists_by(rows_b, table, keys);
    let order_a = choose|order: Seq<usize>| #[trigger]
        is_leading(order, rows_a.map_values(rank), n) && top_a == order.map_values(
            |place: usize| rows_a[place as int],
        );
    let order_b = choose|order: Seq<usize>| #[trigger]
        is_leading(order, rows_b.map_values(rank), n) && top_b == order.map_values(
            |place: usize| rows_b[place as int],
        );
    assert forall|i: int| 0 <= i < top_a.len() implies top_a[i] == top_b[i] by {
        lemma_same_entry_leads(
            table,
            rank,
            rows_a,
            keys_a,
            order_a,
            rows_b,
            keys_b,
            order_b,
            n,
            i,
        );
        assert(order_a[i] < rows_a.map_values(rank).len());
        assert(order_b[i] < rows_b.map_values(rank).len());
        assert(rows_a[order_a[i] as int] == table[keys_a[order_a[i] as int]]);
        assert(rows_b[order_b[i] as int] == table[keys_b[order_b[i] as int]]);
    }
    assert(top_a =~= top_b);
}

/// The entries of a table that a ranked list of its rows shows: as many as fit,
/// none twice, those with higher ranking keys first, and none left out whose key
/// is higher than that of one shown.
pub proof fn lemma_top_of_table<K, V>(
    table: Map<K, V>,
    rank: spec_fn(V) -> u128,
    rows: Seq<V>,
    top: Seq<V>,
    n: nat,
) -> (shown: Seq<K>)
    requires
        lists(rows, table),
        rows.len() <= usize::MAX,
        is_top(top, rows, rows.map_values(rank), n),
    ensures
        shown.no_duplicates(),
        shown.len() == top.len(),
        top.len() == at_most(table.len(), n),
        forall|i: int|
            0 <= i < shown.len() ==> table.contains_key(#[trigger] shown[i]) && top[i]
                == table[shown[i]],
        forall|i: int, j: int|
            0 <= i <= j < top.len() ==> rank(#[trigger] top[i]) >= rank(#[trigger] top[j]),
        forall|key: K, i: int|
            #[trigger] table.contains_key(key) && !shown.contains(key) && 0 <= i < top.len()
                ==> rank(table[key]) <= rank(#[trigger] top[i]),
{
    lemma_lists_len(rows, table);
    let ranks = rows.map_values(rank);
    let keys = choose|keys: Seq<K>| lists_by(rows, table, keys);
    let order = choose|order: Seq<usize>| #[trigger]
        is_leading(order, ranks, n) && top == order.map_values(|place: usize| rows[place as int]);
    let shown = Seq::new(order.len(), |i: int| keys[order[i] as int]);
    assert forall|i: int| 0 <= i < shown.len() implies table.contains_key(#[trigger] shown[i])
        && top[i] == table[shown[i]] by {
        assert(order[i] < ranks.len());
        assert(keys.to_set().contains(keys[order[i] as int]));
        assert(rows[order[i] as int] == table[keys[order[i] as int]]);
    }
    assert(shown.no_duplicates()) by {
        assert forall|i: int, j: int| 0 <= i < shown.len() && 0 <= j < shown.len() && i
            != j implies shown[i] != shown[j] by {
            assert(order[i] < ranks.len() && order[j] < ranks.len());
            if i < j {
                assert(ranks_before(ranks, order[i], order[j]));
            } else {
                assert(ranks_before(ranks, order[j], order[i]));
            }
        }
    }
    assert forall|i: int, j: int| 0 <= i <= j < top.len() implies rank(#[trigger] top[i]) >= rank(
        #[trigger] top[j],
    ) by {
        assert(order[i] < ranks.len() && order[j] < ranks.len());
        if i < j {
            assert(ranks_before(ranks, order[i], order[j]));
        }
    }
    assert forall|key: K, i: int|
        #[trigger] table.contains_key(key) && !shown.contains(key) && 0 <= i < top.len() implies rank(
        table[key],
    ) <= rank(#[trigger] top[i]) by {
        assert(keys.to_set().contains(key));
        let p = choose|p: int| 0 <= p < keys.len() && keys[p] == key;
        assert(rows[p] == table[keys[p]]);
        let place = p as usize;
        if order.contains(place) {
            let j = choose|j: int| 0 <= j < order.len() && order[j] == place;
            assert(shown[j] == key);
        }
        assert(order[i] < ranks.len());
        assert(ranks_before(ranks, order[i], place));
    }
    shown
}

} // verus!

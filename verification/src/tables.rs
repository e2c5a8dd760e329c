//! The concurrent tables of the bridge, held in `dashmap::DashMap`.
//!
//! Every operation that changes a table takes it by `&mut`, so that no other
//! thread touches the table meanwhile and what it holds is a plain map.

use dashmap::DashMap;
use vstd::prelude::*;

use crate::addr::IpKey;
use crate::channel::Channel;
use crate::hub::swept_channels;
use crate::ranking::lists;
use crate::ratelimit::{swept_buckets, Windows};
use crate::stats::Counts;

verus! {

/// `dashmap::DashMap`, an opaque hash table.
#[verifier::external_type_specification]
#[verifier::external_body]
#[verifier::reject_recursive_types(K)]
#[verifier::reject_recursive_types(V)]
#[verifier::reject_recursive_types(S)]
pub struct ExDashMap<K, V, S>(DashMap<K, V, S>);

/// What a table of rate-limit buckets holds.
pub uninterp spec fn bucket_table(m: DashMap<IpKey, Windows>) -> Map<IpKey, Windows>;

/// Calls `DashMap::new`: the table is empty.
#[verifier::external_body]
pub(crate) fn new_buckets() -> (m: DashMap<IpKey, Windows>)
    ensures
        (bucket_table(m) == Map::<IpKey, Windows>::empty()),
{
    DashMap::new()
}

/// Calls `DashMap::len`: the number of keys.
#[verifier::external_body]
pub(crate) fn buckets_len(m: &DashMap<IpKey, Windows>) -> (n: usize)
    ensures
        n == bucket_table(*m).len(),
{
    m.len()
}

/// Calls `DashMap::get`: a copy of what is stored under `key`, if anything is.
#[verifier::external_body]
pub(crate) fn bucket_get(m: &DashMap<IpKey, Windows>, key: IpKey) -> (w: Option<Windows>)
    ensures
        w == bucket_table(*m).get(key),
{
    m.get(&key).map(|entry| *entry.value())
}

/// Calls `DashMap::insert`: `key` now leads to `w`, the rest stays.
#[verifier::external_body]
pub(crate) fn bucket_put(m: &mut DashMap<IpKey, Windows>, key: IpKey, w: Windows)
    ensures
        bucket_table(*final(m)) == bucket_table(*old(m)).insert(key, w),
{
    m.insert(key, w);
}

/// Calls `DashMap::retain`: exactly the buckets stay, unchanged, for which
/// `Windows::is_of_day` holds.
#[verifier::external_body]
pub(crate) fn buckets_retain_day(m: &mut DashMap<IpKey, Windows>, today: u64)
    ensures
        bucket_table(*final(m)) == swept_buckets(bucket_table(*old(m)), today),
{
    m.retain(|_, w| w.is_of_day(today))
}

/// What a table of clients holds.
pub uninterp spec fn ip_table(m: DashMap<IpKey, Counts>) -> Map<IpKey, Counts>;

/// Calls `DashMap::new`: the table is empty.
#[verifier::external_body]
pub(crate) fn new_ips() -> (m: DashMap<IpKey, Counts>)
    ensures
        (ip_table(m) == Map::<IpKey, Counts>::empty()),
{
    DashMap::new()
}

/// Calls `DashMap::len`: the number of keys.
#[verifier::external_body]
pub(crate) fn ips_len(m: &DashMap<IpKey, Counts>) -> (n: usize)
    ensures
        n == ip_table(*m).len(),
{
    m.len()
}

/// Calls `DashMap::get`: a copy of what is stored under `key`, if anything is.
#[verifier::external_body]
pub(crate) fn ip_get(m: &DashMap<IpKey, Counts>, key: IpKey) -> (r: Option<Counts>)
    ensures
        r == ip_table(*m).get(key),
{
    m.get(&key).map(|entry| *entry.value())
}

/// Calls `DashMap::insert`: `key` now leads to the given value, the rest stays.
#[verifier::external_body]
pub(crate) fn ip_put(m: &mut DashMap<IpKey, Counts>, key: IpKey, value: Counts)
    ensures
        ip_table(*final(m)) == ip_table(*old(m)).insert(key, value),
{
    m.insert(key, value);
}

/// Calls `DashMap::clear`: the table is empty afterwards.
#[verifier::external_body]
pub(crate) fn clear_ips(m: &mut DashMap<IpKey, Counts>)
    ensures
        (ip_table(*final(m)) == Map::<IpKey, Counts>::empty()),
{
    m.clear()
}

/// Calls `DashMap::iter` and copies the values out: each entry's once, in an
/// order that is not specified.
#[verifier::external_body]
pub(crate) fn ip_rows(m: &DashMap<IpKey, Counts>) -> (rows: Vec<Counts>)
    ensures
        lists(rows@, ip_table(*m)),
{
    m.iter().map(|entry| *entry.value()).collect()
}

/// What a table of names holds.
pub uninterp spec fn name_table(m: DashMap<String, u64>) -> Map<Seq<char>, u64>;

/// Calls `DashMap::new`: the table is empty.
#[verifier::external_body]
pub(crate) fn new_names() -> (m: DashMap<String, u64>)
    ensures
        (name_table(m) == Map::<Seq<char>, u64>::empty()),
{
    DashMap::new()
}

/// Calls `DashMap::len`: the number of keys.
#[verifier::external_body]
pub(crate) fn names_len(m: &DashMap<String, u64>) -> (n: usize)
    ensures
        n == name_table(*m).len(),
{
    m.len()
}

/// Calls `DashMap::get`: a copy of what is stored under `name`, if anything is.
#[verifier::external_body]
pub(crate) fn name_get(m: &DashMap<String, u64>, name: &str) -> (r: Option<u64>)
    ensures
        r == name_table(*m).get(name@),
{
    m.get(name).map(|entry| *entry.value())
}

/// Calls `DashMap::insert`: `name` now leads to the given value, the rest stays.
#[verifier::external_body]
pub(crate) fn name_put(m: &mut DashMap<String, u64>, name: String, value: u64)
    ensures
        name_table(*final(m)) == name_table(*old(m)).insert(name@, value),
{
    m.insert(name, value);
}

/// Calls `DashMap::clear`: the table is empty afterwards.
#[verifier::external_body]
pub(crate) fn clear_names(m: &mut DashMap<String, u64>)
    ensures
        (name_table(*final(m)) == Map::<Seq<char>, u64>::empty()),
{
    m.clear()
}

/// Calls `DashMap::iter` and copies the values out: each entry's once, in an
/// order that is not specified.
#[verifier::external_body]
pub(crate) fn name_rows(m: &DashMap<String, u64>) -> (rows: Vec<u64>)
    ensures
        lists(rows@, name_table(*m)),
{
    m.iter().map(|entry| *entry.value()).collect()
}

/// What a table of channels holds.
pub uninterp spec fn channel_table(m: DashMap<String, Channel>) -> Map<Seq<char>, Channel>;

/// Calls `DashMap::new`: the table is empty.
#[verifier::external_body]
pub(crate) fn new_channels() -> (m: DashMap<String, Channel>)
    ensures
        (channel_table(m) == Map::<Seq<char>, Channel>::empty()),
{
    DashMap::new()
}

/// Calls `DashMap::remove`: takes out what is stored under `id`, if anything is;
/// the rest stays.
#[verifier::external_body]
pub(crate) fn channel_take(m: &mut DashMap<String, Channel>, id: &str) -> (ch: Option<Channel>)
    ensures
        ch == channel_table(*old(m)).get(id@),
        channel_table(*final(m)) == channel_table(*old(m)).remove(id@),
{
    m.remove(id).map(|entry| entry.1)
}

/// Calls `DashMap::insert`: `id` now leads to `ch`, the rest stays.
#[verifier::external_body]
pub(crate) fn channel_put(m: &mut DashMap<String, Channel>, id: String, ch: Channel)
    ensures
        channel_table(*final(m)) == channel_table(*old(m)).insert(id@, ch),
{
    m.insert(id, ch);
}

/// Calls `DashMap::retain`: exactly the channels stay for which
/// `Channel::is_live` holds when it is asked, as that call leaves them.
#[verifier::external_body]
pub(crate) fn channels_retain_live(m: &mut DashMap<String, Channel>, now: u128, ttl: u128)
    ensures
        swept_channels(channel_table(*old(m)), channel_table(*final(m)), now, ttl),
{
    m.retain(|_, ch| ch.is_live(now, ttl))
}

} // verus!

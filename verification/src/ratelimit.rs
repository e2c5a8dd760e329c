//! Per-client request limits over a second, a minute and a day.

use dashmap::DashMap;
use vstd::prelude::*;

use crate::addr::{IpAddr, IpKey};
use crate::clock::{unix_secs, ClockError, DAY, MINUTE};
use crate::tables::{bucket_get, bucket_put, buckets_len, buckets_retain_day, new_buckets};
use crate::text::parse_unsigned;

verus! {

/// Most buckets that are held at once.
pub const MAX_BUCKETS: usize = 1_000_000;

/// The windows of one bucket. Each is the number of the second, minute or day
/// that it counts in, and the requests admitted there.
#[derive(Debug, Clone, Copy, PartialEq, Eq)]
pub struct Windows {
    pub sec: (u64, u32),
    pub min: (u64, u32),
    pub day: (u64, u32),
}

/// How many requests a client may make per second, minute and day.
#[derive(Debug, Clone, Copy, PartialEq, Eq, Structural)]
pub struct Limits {
    pub per_sec: u32,
    pub per_min: u32,
    pub per_day: u32,
}

/// A window as it stands when period `id` is looked at: a count left over from
/// another period is void.
pub open spec fn rolled(window: (u64, u32), id: u64) -> (u64, u32) {
    if window.0 != id {
        (id, 0)
    } else {
        window
    }
}

/// One more request in a window.
pub open spec fn counted(window: (u64, u32)) -> (u64, u32) {
    (window.0, (window.1 + 1) as u32)
}

impl Windows {
    /// The windows of a client not seen before.
    pub open spec fn unused() -> Windows {
        Windows { sec: (0, 0), min: (0, 0), day: (0, 0) }
    }

    /// What a request at second `now` makes of the windows, and whether it is
    /// admitted. The windows are looked at from the shortest to the longest,
    /// up to the first that is full; only an admitted request is counted.
    pub open spec fn charged(self, limits: Limits, now: u64) -> (Windows, bool) {
        let sec = rolled(self.sec, now);
        let min = rolled(self.min, now / MINUTE);
        let day = rolled(self.day, now / DAY);
        if sec.1 >= limits.per_sec {
            (Windows { sec, ..self }, false)
        } else if min.1 >= limits.per_min {
            (Windows { sec, min, ..self }, false)
        } else if day.1 >= limits.per_day {
            (Windows { sec, min, day }, false)
        } else {
            (Windows { sec: counted(sec), min: counted(min), day: counted(day) }, true)
        }
    }

    /// No window counts more requests than the limits admit.
    pub open spec fn within(self, limits: Limits) -> bool {
        &&& self.sec.1 <= limits.per_sec
        &&& self.min.1 <= limits.per_min
        &&& self.day.1 <= limits.per_day
    }

    /// A window that counts anything lies inside the longer windows.
    pub open spec fn aligned(self) -> bool {
        &&& self.sec.1 > 0 ==> self.min.0 == self.sec.0 / MINUTE && self.day.0 == self.sec.0 / DAY
        &&& self.min.1 > 0 ==> self.day.0 == self.min.0 / (DAY / MINUTE)
    }

    /// The windows of a client not seen before.
    pub fn new() -> (w: Windows)
        ensures
            w == Windows::unused(),
    {
        Windows { sec: (0, 0), min: (0, 0), day: (0, 0) }
    }

    /// Does the longest window count day `today`?
    pub fn is_of_day(&self, today: u64) -> (same: bool)
        ensures
            same == (self.day.0 == today),
    {
        self.day.0 == today
    }

    /// Resets a window that counts another period than `id`.
    fn roll(window: (u64, u32), id: u64) -> (r: (u64, u32))
        ensures
            r == rolled(window, id),
    {
        if window.0 != id {
            (id, 0)
        } else {
            window
        }
    }

    /// Admits a request at second `now` if every window has room for it, and
    /// counts it in all of them; otherwise counts it in none.
    pub fn charge(&mut self, limits: &Limits, now: u64) -> (admitted: bool)
        ensures
            (*final(self), admitted) == old(self).charged(*limits, now),
    {
        self.sec = Windows::roll(self.sec, now);
        if self.sec.1 >= limits.per_sec {
            return false;
        }
        self.min = Windows::roll(self.min, now / MINUTE);
        if self.min.1 >= limits.per_min {
            return false;
        }
        self.day = Windows::roll(self.day, now / DAY);
        if self.day.1 >= limits.per_day {
            return false;
        }
        self.sec = (self.sec.0, self.sec.1 + 1);
        self.min = (self.min.0, self.min.1 + 1);
        self.day = (self.day.0, self.day.1 + 1);
        true
    }
}

/// The windows that a client's next request is held against.
pub open spec fn windows_of(buckets: Map<IpKey, Windows>, key: IpKey) -> Windows {
    if buckets.contains_key(key) {
        buckets[key]
    } else {
        Windows::unused()
    }
}

/// What a request from `ip` at second `now` makes of the buckets, and whether
/// it is admitted. A client not seen before is turned away, and leaves no
/// trace, while the table is full.
pub open spec fn checked_buckets(
    buckets: Map<IpKey, Windows>,
    limits: Limits,
    ip: IpAddr,
    now: u64,
) -> (Map<IpKey, Windows>, bool) {
    let key = ip.bucket().pair();
    if buckets.len() >= MAX_BUCKETS && !buckets.contains_key(key) {
        (buckets, false)
    } else {
        let (windows, admitted) = windows_of(buckets, key).charged(limits, now);
        (buckets.insert(key, windows), admitted)
    }
}

/// The buckets whose longest window counts day `today`.
pub open spec fn swept_buckets(buckets: Map<IpKey, Windows>, today: u64) -> Map<IpKey, Windows> {
    Map::new(
        |key: IpKey| buckets.contains_key(key) && buckets[key].day.0 == today,
        |key: IpKey| buckets[key],
    )
}

/// Buckets as the limiter keeps them: not too many, none over its limits.
pub open spec fn valid_buckets(buckets: Map<IpKey, Windows>, limits: Limits) -> bool {
    &&& buckets.dom().finite()
    &&& buckets.len() <= MAX_BUCKETS
    &&& forall|key: IpKey| #[trigger]
        buckets.contains_key(key) ==> buckets[key].within(limits) && buckets[key].aligned()
}

/// A request keeps windows within their limits and aligned.
pub proof fn lemma_charged_keeps_windows(w: Windows, limits: Limits, now: u64)
    requires
        w.within(limits),
        w.aligned(),
    ensures
        w.charged(limits, now).0.within(limits),
        w.charged(limits, now).0.aligned(),
{
    assert((now / MINUTE) / (DAY / MINUTE) == now / DAY) by (nonlinear_arith)
        requires
            MINUTE == 60,
            DAY == 86_400,
    ;
}

/// A request keeps the buckets valid.
pub proof fn lemma_checked_keeps_valid(
    buckets: Map<IpKey, Windows>,
    limits: Limits,
    ip: IpAddr,
    now: u64,
)
    requires
        valid_buckets(buckets, limits),
    ensures
        valid_buckets(checked_buckets(buckets, limits, ip, now).0, limits),
{
    let key = ip.bucket().pair();
    lemma_charged_keeps_windows(windows_of(buckets, key), limits, now);
}

/// A sweep keeps the buckets valid and adds none.
pub proof fn lemma_swept_keeps_valid(buckets: Map<IpKey, Windows>, limits: Limits, today: u64)
    requires
        valid_buckets(buckets, limits),
    ensures
        valid_buckets(swept_buckets(buckets, today), limits),
        swept_buckets(buckets, today).submap_of(buckets),
{
    let swept = swept_buckets(buckets, today);
    vstd::set_lib::lemma_len_subset(swept.dom(), buckets.dom());
}

/// A rate limiter: its limits and the buckets of the clients seen today.
pub struct RateLimiter {
    limits: Limits,
    buckets: DashMap<IpKey, Windows>,
}

/// A whole number from the environment, or `default` where the
/// variable is unset or holds anything else.
pub fn env_u32(var: Option<&str>, default: u32) -> (n: u32)
    ensures
        n == setting(var, default),
{
    match var {
        Some(text) => match parse_unsigned(text, u32::MAX as u64) {
            Some(n) => n as u32,
            None => default,
        },
        None => default,
    }
}

/// What an environment variable that may hold a 32-bit number sets.
pub open spec fn setting(var: Option<&str>, default: u32) -> u32 {
    match var {
        Some(text) => match crate::text::unsigned_value(text@, u32::MAX as nat) {
            Some(n) => n as u32,
            None => default,
        },
        None => default,
    }
}

/// Seconds since the Unix epoch.
pub fn epoch_secs() -> Result<u64, ClockError> {
    unix_secs()
}

impl RateLimiter {
    /// The limits in force.
    pub closed spec fn limits(&self) -> Limits {
        self.limits
    }

    /// The buckets held.
    pub closed spec fn buckets(&self) -> Map<IpKey, Windows> {
        crate::tables::bucket_table(self.buckets)
    }

    /// The limiter's invariant.
    pub open spec fn wf(&self) -> bool {
        valid_buckets(self.buckets(), self.limits())
    }

    /// A limiter that has seen no client.
    pub fn new(limits: Limits) -> (limiter: RateLimiter)
        ensures
            limiter.wf(),
            limiter.limits() == limits,
            limiter.buckets() == Map::<IpKey, Windows>::empty(),
    {
        RateLimiter { limits, buckets: new_buckets() }
    }

    /// A limiter with the limits that the values of `RATE_PER_SEC`,
    /// `RATE_PER_MIN` and `RATE_PER_DAY` set.
    pub fn from_env(
        per_sec: Option<&str>,
        per_min: Option<&str>,
        per_day: Option<&str>,
    ) -> (limiter: RateLimiter)
        ensures
            limiter.wf(),
            limiter.limits() == (Limits {
                per_sec: setting(per_sec, 100),
                per_min: setting(per_min, 1_000),
                per_day: setting(per_day, 100_000),
            }),
            limiter.buckets() == Map::<IpKey, Windows>::empty(),
    {
        RateLimiter::new(
            Limits {
                per_sec: env_u32(per_sec, 100),
                per_min: env_u32(per_min, 1_000),
                per_day: env_u32(per_day, 100_000),
            },
        )
    }

    /// Admits or turns away a request from `ip` at second `now`.
    pub fn check_at(&mut self, ip: IpAddr, now: u64) -> (admitted: bool)
        requires
            old(self).wf(),
        ensures
            final(self).wf(),
            final(self).limits() == old(self).limits(),
            (final(self).buckets(), admitted) == checked_buckets(
                old(self).buckets(),
                old(self).limits(),
                ip,
                now,
            ),
    {
        proof {
            lemma_checked_keeps_valid(self.buckets(), self.limits(), ip, now);
        }
        let key: IpKey = ip.key().to_pair();
        let known: Option<Windows> = bucket_get(&self.buckets, key);
        // Bound the bucket map: a client cycling a huge IPv6 allocation can't
        // grow it without limit; unseen keys beyond the cap are denied.
        if buckets_len(&self.buckets) >= MAX_BUCKETS && known.is_none() {
            return false;
        }
        let mut windows: Windows = match known {
            Some(w) => w,
            None => Windows::new(),
        };
        let admitted: bool = windows.charge(&self.limits, now);
        bucket_put(&mut self.buckets, key, windows);
        admitted
    }

    /// Admits or turns away a request from `ip` at the second that a clock shows,
    /// if it shows one.
    pub fn check_by(&mut self, ip: IpAddr, clock: Result<u64, ClockError>) -> (r: Result<
        bool,
        ClockError,
    >)
        requires
            old(self).wf(),
        ensures
            final(self).wf(),
            final(self).limits() == old(self).limits(),
            match clock {
                Ok(now) => {
                    let (buckets, admitted) = checked_buckets(
                        old(self).buckets(),
                        old(self).limits(),
                        ip,
                        now,
                    );
                    final(self).buckets() == buckets && r == Ok::<bool, ClockError>(admitted)
                },
                Err(e) => final(self).buckets() == old(self).buckets() && r == Err::<
                    bool,
                    ClockError,
                >(e),
            },
    {
        match clock {
            Ok(now) => Ok(self.check_at(ip, now)),
            Err(e) => Err(e),
        }
    }

    /// Admits or turns away a request from `ip` now.
    pub fn check(&mut self, ip: IpAddr) -> (r: Result<bool, ClockError>)
        requires
            old(self).wf(),
        ensures
            final(self).wf(),
            final(self).limits() == old(self).limits(),
            match r {
                Ok(admitted) => exists|now: u64|
                    (final(self).buckets(), admitted) == #[trigger] checked_buckets(
                        old(self).buckets(),
                        old(self).limits(),
                        ip,
                        now,
                    ),
                Err(_) => final(self).buckets() == old(self).buckets(),
            },
    {
        self.check_by(ip, epoch_secs())
    }

    /// Drops the buckets whose day window is not that of second `now`.
    pub fn sweep_at(&mut self, now: u64)
        requires
            old(self).wf(),
        ensures
            final(self).wf(),
            final(self).limits() == old(self).limits(),
            final(self).buckets() == swept_buckets(old(self).buckets(), now / DAY),
    {
        proof {
            lemma_swept_keeps_valid(self.buckets(), self.limits(), now / DAY);
        }
        buckets_retain_day(&mut self.buckets, now / DAY);
    }

    /// Drops the buckets whose day window is not that of the second that a clock
    /// shows, if it shows one.
    pub fn sweep_by(&mut self, clock: Result<u64, ClockError>) -> (r: Result<(), ClockError>)
        requires
            old(self).wf(),
        ensures
            final(self).wf(),
            final(self).limits() == old(self).limits(),
            match clock {
                Ok(now) => r is Ok && final(self).buckets() == swept_buckets(
                    old(self).buckets(),
                    now / DAY,
                ),
                Err(e) => final(self).buckets() == old(self).buckets() && r == Err::<
                    (),
                    ClockError,
                >(e),
            },
    {
        match clock {
            Ok(now) => {
                self.sweep_at(now);
                Ok(())
            },
            Err(e) => Err(e),
        }
    }

    /// Drops the buckets whose day window is stale.
    pub fn sweep(&mut self) -> (r: Result<(), ClockError>)
        requires
            old(self).wf(),
        ensures
            final(self).wf(),
            final(self).limits() == old(self).limits(),
            match r {
                Ok(_) => exists|now: u64|
                    final(self).buckets() == swept_buckets(
                        old(self).buckets(),
                        #[trigger] (now / DAY),
                    ),
                Err(_) => final(self).buckets() == old(self).buckets(),
            },
    {
        self.sweep_by(epoch_secs())
    }
}

} // verus!

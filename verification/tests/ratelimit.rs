use sidepulse_bridge::addr::IpAddr;
use sidepulse_bridge::clock::ClockError;
use sidepulse_bridge::ratelimit::{env_u32, epoch_secs, Limits, RateLimiter, Windows};

fn limiter(per_sec: u32, per_min: u32, per_day: u32) -> RateLimiter {
    RateLimiter::new(Limits {
        per_sec,
        per_min,
        per_day,
    })
}

const A: IpAddr = IpAddr::V4(0x0a00_0001);
const B: IpAddr = IpAddr::V4(0x0a00_0002);

/// The IPv6 address of the eight groups.
fn v6(groups: [u16; 8]) -> IpAddr {
    IpAddr::V6(groups.iter().fold(0u128, |n, g| n << 16 | *g as u128))
}

#[test]
fn keys_of_addresses() {
    assert_eq!(A.key(), A);
    assert_eq!(v6([0, 0, 0, 0, 0, 0xffff, 0x0a00, 1]).key(), A);
    assert_eq!(v6([0x2001, 0xdb8, 1, 2, 3, 4, 5, 6]).key(), v6([0x2001, 0xdb8, 1, 2, 0, 0, 0, 0]));
    assert_eq!(
        v6([0x2001, 0xdb8, 1, 2, 0, 0, 0, 1]).key(),
        v6([0x2001, 0xdb8, 1, 2, 0xffff, 0xffff, 0xffff, 0xffff]).key()
    );
    assert_ne!(v6([0x2001, 0xdb8, 1, 2, 0, 0, 0, 0]).key(), v6([0x2001, 0xdb8, 1, 3, 0, 0, 0, 0]).key());
    assert_eq!(v6([0, 0, 0, 0, 0, 0, 0, 1]).key(), v6([0, 0, 0, 0, 0, 0, 0, 0]));
    // One bit off the mapped prefix is an ordinary address.
    assert_eq!(v6([0, 0, 0, 0, 0, 0xfffe, 0x0a00, 1]).key(), v6([0, 0, 0, 0, 0, 0, 0, 0]));
    assert_eq!(v6([0, 0, 0, 0, 1, 0xffff, 0x0a00, 1]).key(), v6([0, 0, 0, 0, 0, 0, 0, 0]));
    assert_eq!(A.to_pair(), (false, 0x0a00_0001));
    assert_eq!(v6([0, 0, 0, 0, 0, 0, 0, 1]).to_pair(), (true, 1));
}

#[test]
fn second_limit_resets_with_the_second() {
    let mut limiter = limiter(2, 100, 100);
    assert!(limiter.check_at(A, 1000));
    assert!(limiter.check_at(A, 1000));
    assert!(!limiter.check_at(A, 1000));
    assert!(limiter.check_at(B, 1000));
    assert!(limiter.check_at(A, 1001));
}

#[test]
fn minute_limit_spans_seconds() {
    let mut limiter = limiter(100, 3, 100);
    assert!(limiter.check_at(A, 60));
    assert!(limiter.check_at(A, 61));
    assert!(limiter.check_at(A, 62));
    assert!(!limiter.check_at(A, 63));
    assert!(!limiter.check_at(A, 119));
    assert!(limiter.check_at(A, 120));
}

#[test]
fn day_limit_spans_minutes() {
    let mut limiter = limiter(100, 100, 2);
    assert!(limiter.check_at(A, 86_400));
    assert!(limiter.check_at(A, 90_000));
    assert!(!limiter.check_at(A, 172_799));
    assert!(limiter.check_at(A, 172_800));
}

#[test]
fn refused_requests_do_not_count() {
    let mut limiter = limiter(1, 2, 100);
    assert!(limiter.check_at(A, 0));
    for _ in 0..10 {
        assert!(!limiter.check_at(A, 0));
    }
    assert!(limiter.check_at(A, 1));
    assert!(!limiter.check_at(A, 2));
}

#[test]
fn no_more_than_the_limit_in_any_window() {
    let mut limiter = limiter(3, 20, 50);
    let mut admitted = Vec::new();
    for now in 0..200u64 {
        for _ in 0..5 {
            if limiter.check_at(A, now) {
                admitted.push(now);
            }
        }
        if now % 7 == 0 {
            limiter.sweep_at(now);
        }
    }
    for now in 0..200u64 {
        assert!(admitted.iter().filter(|t| **t == now).count() <= 3);
    }
    for min in 0..4u64 {
        assert!(admitted.iter().filter(|t| **t / 60 == min).count() <= 20);
    }
    assert_eq!(admitted.len(), 50);
}

#[test]
fn networks_and_mapped_addresses_share_a_bucket() {
    let mut limiter = limiter(1, 100, 100);
    assert!(limiter.check_at(v6([0x2001, 0xdb8, 0, 0, 0, 0, 0, 1]), 5));
    assert!(!limiter.check_at(v6([0x2001, 0xdb8, 0, 0, 0, 0, 0, 2]), 5));
    assert!(limiter.check_at(v6([0, 0, 0, 0, 0, 0xffff, 0x0a00, 1]), 5));
    assert!(!limiter.check_at(A, 5));
    assert!(limiter.check_at(B, 5));
}

#[test]
fn sweep_drops_other_days_only() {
    let mut limiter = limiter(100, 100, 1);
    assert!(limiter.check_at(A, 86_400));
    limiter.sweep_at(86_401);
    assert!(!limiter.check_at(A, 86_402));
    limiter.sweep_at(172_800);
    // Back on the old day the bucket is gone, and with it the count.
    assert!(limiter.check_at(A, 86_403));
}

#[test]
fn windows_are_charged_in_order() {
    let limits = Limits {
        per_sec: 1,
        per_min: 1,
        per_day: 1,
    };
    let mut w = Windows::new();
    assert!(w.charge(&limits, 86_461));
    assert_eq!(
        w,
        Windows {
            sec: (86_461, 1),
            min: (1441, 1),
            day: (1, 1)
        }
    );
    assert!(!w.charge(&limits, 86_462));
    assert_eq!(
        w,
        Windows {
            sec: (86_462, 0),
            min: (1441, 1),
            day: (1, 1)
        }
    );
    assert!(w.is_of_day(1));
    assert!(!w.is_of_day(2));
    assert!(!w.charge(&limits, 86_520));
    assert_eq!(w.min, (1442, 0));
    assert_eq!(w.day, (1, 1));
}

#[test]
fn limits_from_the_environment() {
    assert_eq!(env_u32(None, 7), 7);
    assert_eq!(env_u32(Some("250"), 7), 250);
    assert_eq!(env_u32(Some("+250"), 7), 250);
    assert_eq!(env_u32(Some("0"), 7), 0);
    assert_eq!(env_u32(Some("4294967295"), 7), u32::MAX);
    for bad in ["4294967296", "", "+", "-1", " 5", "5 ", "0x10", "1_000", "++1"] {
        assert_eq!(env_u32(Some(bad), 7), 7);
    }

    let mut limiter = RateLimiter::from_env(Some("2"), None, Some("x"));
    assert!(limiter.check_at(A, 0));
    assert!(limiter.check_at(A, 0));
    assert!(!limiter.check_at(A, 0));
}

#[test]
fn default_limits() {
    let mut limiter = RateLimiter::from_env(None, None, None);
    let mut n = 0;
    while limiter.check_at(A, 0) {
        n += 1;
    }
    assert_eq!(n, 100);
    for now in 1..60 {
        while limiter.check_at(A, now) {
            n += 1;
        }
    }
    assert_eq!(n, 1_000);
}

#[test]
fn checks_on_the_system_clock() {
    let before = epoch_secs().unwrap();
    assert!(before > 1_700_000_000);
    let mut limiter = limiter(1_000, 1_000, 2);
    assert!(limiter.check(A).unwrap());
    assert!(limiter.check(A).unwrap());
    // Unless midnight passes in between, the day is used up.
    let third = limiter.check(A).unwrap();
    limiter.sweep().unwrap();
    let after = epoch_secs().unwrap();
    assert!(!third || after / 86_400 != before / 86_400);
}

#[test]
fn checks_by_a_given_clock() {
    let mut limiter = limiter(1, 10, 1);
    assert_eq!(limiter.check_by(A, Ok(86_400)), Ok(true));
    assert_eq!(limiter.check_by(A, Err(ClockError)), Err(ClockError));
    assert_eq!(limiter.check_by(A, Ok(86_401)), Ok(false));
    assert_eq!(limiter.sweep_by(Err(ClockError)), Err(ClockError));
    assert_eq!(limiter.check_by(A, Ok(86_401)), Ok(false));
    assert_eq!(limiter.sweep_by(Ok(172_800)), Ok(()));
    assert_eq!(limiter.check_by(A, Ok(86_401)), Ok(true));
}

#[test]
fn a_client_within_its_limits_is_never_refused() {
    let mut limiter = limiter(2, 5, 9);
    let mut admitted: Vec<u64> = Vec::new();
    for step in 0..400u64 {
        let now = 86_000 + step / 3;
        let room = admitted.iter().filter(|t| **t == now).count() < 2
            && admitted.iter().filter(|t| **t / 60 == now / 60).count() < 5
            && admitted.iter().filter(|t| **t / 86_400 == now / 86_400).count() < 9;
        assert_eq!(limiter.check_at(A, now), room);
        if room {
            admitted.push(now);
        }
        limiter.check_at(B, now);
        if step % 11 == 0 {
            limiter.sweep_at(now);
        }
    }
}

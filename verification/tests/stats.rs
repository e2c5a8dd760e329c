use std::collections::VecDeque;

use sidepulse_bridge::addr::IpAddr;
use sidepulse_bridge::clock::ClockError;
use sidepulse_bridge::ranking::{ranking, top_counts};
use sidepulse_bridge::stats::{
    dense_series, now_secs, top_ips, Counts, Minute, Snapshot, Stats, HISTORY,
};

const A: IpAddr = IpAddr::V4(1);
const B: IpAddr = IpAddr::V4(2);
/// Noon of some day, at the start of a minute.
const NOON: u64 = 20_000 * 86_400 + 43_200;

fn counts(posts: u64, pushes: u64, connects: u64) -> Counts {
    Counts {
        posts,
        pushes,
        connects,
    }
}

#[test]
fn fresh_counters_show_nothing() {
    let mut stats = Stats::new_at(NOON);
    let zeros = vec![0u32; HISTORY];
    assert_eq!(
        stats.snapshot_at(NOON),
        Snapshot {
            sse_active: 0,
            totals: counts(0, 0, 0),
            unique_ips: 0,
            unique_channels: 0,
            unique_push_tokens: 0,
            top_ips: vec![],
            top_channels: vec![],
            top_tokens: vec![],
            start_min: NOON / 60 + 1 - 1440,
            posts: zeros.clone(),
            pushes: zeros.clone(),
            connects: zeros,
        }
    );
}

#[test]
fn activity_is_counted_everywhere() {
    let mut stats = Stats::new_at(NOON);
    stats.record_post_at(A, "chan-1", NOON);
    stats.record_post_at(A, "chan-1", NOON + 59);
    stats.record_post_at(B, "chan-2", NOON + 60);
    stats.record_push_at(B, "tok", NOON + 60);
    let guard = stats.connect_guard_at(A, NOON + 61);

    let s = stats.snapshot_at(NOON + 61);
    assert_eq!(s.sse_active, 1);
    assert_eq!(s.totals, counts(3, 1, 1));
    assert_eq!(s.unique_ips, 2);
    assert_eq!(s.unique_channels, 2);
    assert_eq!(s.unique_push_tokens, 1);
    assert_eq!(s.top_ips, vec![counts(2, 0, 1), counts(1, 1, 0)]);
    assert_eq!(s.top_channels, vec![2, 1]);
    assert_eq!(s.top_tokens, vec![1]);
    assert_eq!(s.start_min, NOON / 60 + 2 - 1440);
    assert_eq!(s.posts[1438], 2);
    assert_eq!(s.posts[1439], 1);
    assert_eq!(s.pushes[1439], 1);
    assert_eq!(s.connects[1439], 1);
    assert_eq!(s.posts.iter().sum::<u32>(), 3);

    stats.disconnect(guard);
    assert_eq!(stats.snapshot_at(NOON + 61).sse_active, 0);
}

#[test]
fn midnight_empties_the_tables_of_the_day() {
    let mut stats = Stats::new_at(NOON);
    stats.record_post_at(A, "chan", NOON);
    stats.record_push_at(A, "tok", NOON);
    let midnight = NOON + 43_200;
    let s = stats.snapshot_at(midnight - 1);
    assert_eq!((s.unique_ips, s.unique_channels, s.unique_push_tokens), (1, 1, 1));
    let s = stats.snapshot_at(midnight);
    assert_eq!((s.unique_ips, s.unique_channels, s.unique_push_tokens), (0, 0, 0));
    assert!(s.top_ips.is_empty() && s.top_channels.is_empty() && s.top_tokens.is_empty());
    assert_eq!(s.totals, counts(1, 1, 0));
    assert_eq!(s.posts[1439 - 720], 1);

    stats.record_post_at(B, "chan", midnight);
    let s = stats.snapshot_at(midnight);
    assert_eq!(s.top_channels, vec![1]);
    assert_eq!(s.totals, counts(2, 1, 0));
}

#[test]
fn history_reaches_back_a_day() {
    let mut stats = Stats::new_at(NOON);
    for i in 0..1500u64 {
        stats.record_post_at(A, "c", NOON + 60 * i);
    }
    let last = NOON + 60 * 1499;
    let s = stats.snapshot_at(last);
    assert!(s.posts.iter().all(|n| *n == 1));
    // A day later all of it is out of the window.
    let s = stats.snapshot_at(last + 86_400);
    assert!(s.posts.iter().all(|n| *n == 0));
    let s = stats.snapshot_at(last + 86_400 - 60);
    assert_eq!(s.posts[0], 1);
}

#[test]
fn backward_clock_steps_do_no_harm() {
    let mut stats = Stats::new_at(NOON);
    stats.record_post_at(A, "c", NOON + 600);
    stats.record_post_at(A, "c", NOON);
    let s = stats.snapshot_at(NOON);
    assert_eq!(s.posts[1439], 1);
    assert_eq!(s.posts.iter().sum::<u32>(), 1);
}

#[test]
fn only_ten_rows_are_shown() {
    let mut stats = Stats::new_at(NOON);
    for i in 0..12u32 {
        for _ in 0..=i {
            stats.record_post_at(IpAddr::V4(i), &format!("chan-{i}"), NOON);
            stats.record_push_at(IpAddr::V4(i), &format!("tok-{i}"), NOON);
        }
    }
    let s = stats.snapshot_at(NOON);
    assert_eq!(s.top_channels, (3..=12).rev().collect::<Vec<u64>>());
    assert_eq!(s.top_tokens, (3..=12).rev().collect::<Vec<u64>>());
    assert_eq!(
        s.top_ips,
        (3..=12).rev().map(|n| counts(n, n, 0)).collect::<Vec<_>>()
    );
    assert_eq!(s.unique_ips, 12);
    assert_eq!(s.unique_channels, 12);
    assert_eq!(s.unique_push_tokens, 12);
}

#[test]
fn tables_are_bounded() {
    let mut stats = Stats::new_at(NOON);
    for i in 0..100_001u32 {
        stats.record_post_at(IpAddr::V4(i), &format!("{i}"), NOON);
    }
    stats.record_post_at(IpAddr::V4(7), "7", NOON);
    let s = stats.snapshot_at(NOON);
    assert_eq!(s.unique_ips, 100_000);
    assert_eq!(s.unique_channels, 100_000);
    assert_eq!(s.totals.posts, 100_002);
    assert_eq!(s.top_channels, vec![2, 1, 1, 1, 1, 1, 1, 1, 1, 1]);
}

#[test]
fn mapped_addresses_are_counted_apart() {
    let mut stats = Stats::new_at(NOON);
    stats.record_post_at(IpAddr::V4(1), "c", NOON);
    stats.record_post_at(IpAddr::V6(0xffff_0000_0001), "c", NOON);
    stats.record_post_at(IpAddr::V6(1), "c", NOON);
    assert_eq!(stats.snapshot_at(NOON).unique_ips, 3);
}

#[test]
fn rankings_put_the_highest_first_and_keep_ties_in_order() {
    assert_eq!(ranking(&vec![5, 9, 5, 1, 9], 4), vec![1, 4, 0, 2]);
    assert_eq!(ranking(&vec![5, 9], 4), vec![1, 0]);
    assert_eq!(ranking(&vec![5, 9], 0), Vec::<usize>::new());
    assert_eq!(ranking(&vec![1, 2, 3, 4], 1), vec![3]);
    assert_eq!(top_counts(&vec![3, 1, 2], 2), vec![3, 2]);
    assert_eq!(top_counts(&vec![1, 2, 3], 2), top_counts(&vec![2, 3, 1], 2));
    let rows = vec![counts(1, 1, 1), counts(0, 3, 0), counts(4, 0, 0)];
    assert_eq!(
        top_ips(&rows, 2),
        vec![counts(4, 0, 0), counts(1, 1, 1)]
    );
    // Sums beyond the range of one counter are still ranked.
    let rows = vec![counts(1, 0, 0), counts(u64::MAX, u64::MAX, u64::MAX)];
    assert_eq!(
        top_ips(&rows, 1),
        vec![counts(u64::MAX, u64::MAX, u64::MAX)]
    );
}

#[test]
fn series_take_the_last_entry_of_a_minute() {
    let minute = |min: u64, posts: u32| Minute {
        min,
        posts,
        pushes: 10 + posts,
        connects: 20 + posts,
    };
    let minutes: VecDeque<Minute> = vec![
        minute(99, 1),
        minute(100, 2),
        minute(1539, 3),
        minute(1540, 4),
        minute(100, 5),
    ]
    .into();
    let (posts, pushes, connects) = dense_series(&minutes, 100);
    assert_eq!((posts[0], pushes[0], connects[0]), (5, 15, 25));
    assert_eq!((posts[1439], pushes[1439], connects[1439]), (3, 13, 23));
    assert_eq!(posts.iter().sum::<u32>(), 8);
    assert_eq!(posts.len(), 1440);
}

#[test]
fn recording_on_the_system_clock() {
    assert!(now_secs().unwrap() > 1_700_000_000);
    let mut stats = Stats::new().unwrap();
    stats.record_post(A, "c").unwrap();
    stats.record_push(A, "t").unwrap();
    let guard = stats.connect_guard(A).unwrap();
    let s = stats.snapshot().unwrap();
    assert_eq!(s.totals, counts(1, 1, 1));
    assert_eq!(s.sse_active, 1);
    stats.disconnect(guard);
    assert_eq!(stats.snapshot().unwrap().sse_active, 0);
}

#[test]
fn recording_by_a_given_clock() {
    assert!(Stats::new_by(Err(ClockError)).is_err());
    let mut stats = Stats::new_by(Ok(NOON)).unwrap();
    assert!(stats.record_post_by(A, "c", Err(ClockError)).is_err());
    assert!(stats.record_push_by(A, "t", Err(ClockError)).is_err());
    assert!(stats.connect_guard_by(A, Err(ClockError)).is_err());
    assert!(stats.snapshot_by(Err(ClockError)).is_err());
    assert_eq!(stats.snapshot_by(Ok(NOON)).unwrap().totals, counts(0, 0, 0));
    stats.record_post_by(A, "c", Ok(NOON)).unwrap();
    stats.record_push_by(A, "t", Ok(NOON)).unwrap();
    let guard = stats.connect_guard_by(A, Ok(NOON)).unwrap();
    let s = stats.snapshot_by(Ok(NOON)).unwrap();
    assert_eq!(s.totals, counts(1, 1, 1));
    assert_eq!(s.posts[1439], 1);
    stats.disconnect(guard);
    // The first minute whose 24 hours lie wholly after the epoch.
    assert!(stats.snapshot_by(Ok(86_339)).is_err());
    assert_eq!(stats.snapshot_by(Ok(86_340)).unwrap().start_min, 0);
}

#[test]
fn rolling_to_the_same_day_changes_nothing() {
    let mut stats = Stats::new_at(NOON);
    stats.record_post_at(A, "c", NOON);
    stats.roll_day(NOON + 43_199);
    assert_eq!(stats.snapshot_at(NOON).top_channels, vec![1]);
    stats.roll_day(NOON + 43_200);
    let s = stats.snapshot_at(NOON + 43_200);
    assert!(s.top_channels.is_empty() && s.unique_ips == 0);
    assert_eq!(s.totals, counts(1, 0, 0));
}

#[test]
fn many_events_on_few_names_are_all_counted() {
    let mut stats = Stats::new_at(NOON);
    for n in 0..250_000u64 {
        stats.record_post_at(IpAddr::V4((n % 2) as u32), if n % 5 == 0 { "a" } else { "b" }, NOON);
    }
    let s = stats.snapshot_at(NOON);
    assert_eq!(s.top_channels, vec![200_000, 50_000]);
    assert_eq!(s.top_ips, vec![counts(125_000, 0, 0), counts(125_000, 0, 0)]);
    assert_eq!(s.posts[1439], 250_000);
}

#[test]
fn renamed_identities_show_the_same_numbers() {
    let snapshot = |ip: &dyn Fn(u32) -> IpAddr, name: &dyn Fn(u32) -> String| {
        let mut stats = Stats::new_at(NOON);
        for i in 0..15u32 {
            for k in 0..=i {
                let now = NOON + u64::from(k) * 60;
                stats.record_post_at(ip(i), &name(k), now);
                if k % 2 == 0 {
                    stats.record_push_at(ip(i), &name(i), now);
                }
            }
            stats.connect_guard_at(ip(i), NOON + 900);
        }
        stats.snapshot_at(NOON + 900)
    };
    let a = snapshot(&|i| IpAddr::V4(i), &|k| format!("chan-{k}"));
    let b = snapshot(&|i| IpAddr::V6(u128::from(1000 - i) << 64), &|k| {
        format!("{}", 99 - k)
    });
    assert_eq!(a, b);
}

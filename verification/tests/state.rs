use serde_json::Value;
use sidepulse_bridge::addr::IpAddr;
use sidepulse_bridge::clock::{shown_secs, Clock, ClockError, Moment};
use sidepulse_bridge::ratelimit::{Limits, RateLimiter};
use sidepulse_bridge::state::{AppState, PostStep};
use sidepulse_bridge::stats::Stats;
use sidepulse_bridge::web::{
    acme_challenge, admin_401, push_reply, rate_limited, redirect_https, Status,
};

const SEC: u128 = 1_000_000_000;
const START: u64 = 20_000 * 86_400;
const IP: IpAddr = IpAddr::V4(1);

fn bridge(push_enabled: bool, password: Option<&str>) -> AppState {
    let limits = Limits {
        per_sec: 2,
        per_min: 100,
        per_day: 100,
    };
    AppState::new(
        RateLimiter::new(limits),
        Stats::new_at(START),
        push_enabled,
        password.map(str::to_string),
        300,
    )
}

fn at(secs: u64) -> Moment {
    Moment {
        secs: START + secs,
        nanos: secs as u128 * SEC,
    }
}

fn reply(step: PostStep) -> Result<&'static str, (Status, String)> {
    match step {
        PostStep::Reply(r) => r,
        PostStep::Push { .. } => panic!("a push is to be sent"),
    }
}

/// `Basic` credentials in base64, made by hand.
const ADMIN_SECRET: &str = "Basic YWRtaW46c2VjcmV0";
const ANYONE_SECRET: &str = "Basic OnNlY3JldA==";
const ADMIN_WRONG: &str = "Basic YWRtaW46d3Jvbmc=";

#[test]
fn queued_messages_reach_the_next_listener() {
    let mut state = bridge(false, None);
    for n in 1..=6 {
        let step = state.post_message("chan", IP, format!("m{n}"), at(n));
        assert_eq!(reply(step), Ok("OK QUEUED"));
    }
    let listening = state.listen("chan", IP, at(7)).ok().unwrap();
    assert_eq!(listening.backlog, vec!["m2", "m3", "m4", "m5", "m6"]);

    let mut live = listening.live;
    let step = state.post_message("chan", IP, "live".to_string(), at(8));
    assert_eq!(reply(step), Ok("OK"));
    assert_eq!(live.try_recv().unwrap(), "live");
    assert!(live.try_recv().is_err());

    let again = state.listen("chan", IP, at(9)).ok().unwrap();
    assert!(again.backlog.is_empty());
    state.disconnect(listening.guard);
    state.disconnect(again.guard);
}

#[test]
fn messages_expire_after_their_time_to_live() {
    let mut state = bridge(false, None);
    reply(state.post_message("chan", IP, "old".to_string(), at(0))).unwrap();
    reply(state.post_message("chan", IP, "young".to_string(), at(1))).unwrap();
    let listening = state.listen("chan", IP, at(300)).ok().unwrap();
    assert_eq!(listening.backlog, vec!["young"]);
}

#[test]
fn channels_do_not_mix() {
    let mut state = bridge(false, None);
    reply(state.post_message("a", IP, "to a".to_string(), at(0))).unwrap();
    reply(state.post_message("b", IP, "to b".to_string(), at(0))).unwrap();
    assert_eq!(
        state.listen("b", IP, at(1)).ok().unwrap().backlog,
        vec!["to b"]
    );
    assert_eq!(
        state.listen("a", IP, at(1)).ok().unwrap().backlog,
        vec!["to a"]
    );
}

#[test]
fn ids_are_limited_in_bytes() {
    let mut state = bridge(true, None);
    let longest = "x".repeat(256);
    let long = "x".repeat(257);
    let wide = "é".repeat(129);
    assert_eq!(
        reply(state.post_message(&longest, IP, "m".to_string(), at(0))),
        Ok("OK QUEUED")
    );
    for id in [long.as_str(), wide.as_str()] {
        assert_eq!(
            reply(state.post_message(id, IP, "m".to_string(), at(0))),
            Err((Status::UriTooLong, "ID TOO LONG".to_string()))
        );
        assert_eq!(state.listen(id, IP, at(0)).err(), Some(Status::UriTooLong));
        assert_eq!(state.get_queued(id, at(0)).err(), Some(Status::UriTooLong));
    }
    let long_push = format!("apns_{}", "x".repeat(252));
    assert_eq!(
        state.get_queued(&long_push, at(0)).err(),
        Some(Status::UriTooLong)
    );
}

#[test]
fn pushes_are_kept_for_recovery() {
    let mut state = bridge(true, None);
    match state.post_message("apns_tok", IP, "plain".to_string(), at(0)) {
        PostStep::Push { token, body } => {
            assert_eq!(token, "tok");
            assert_eq!(body, "plain");
        }
        PostStep::Reply(_) => panic!("no push"),
    }
    state.post_message("apns_tok", IP, r#"{"leds":"X"}"#.to_string(), at(1));
    let values = state.get_queued("apns_tok", at(2)).unwrap();
    assert_eq!(values.len(), 2);
    assert_eq!(values[0], Value::from("plain"));
    assert_eq!(values[1]["leds"], "X");
    assert!(state.get_queued("apns_tok", at(3)).unwrap().is_empty());
}

#[test]
fn pushes_without_credentials_are_refused_but_kept() {
    let mut state = bridge(false, None);
    assert_eq!(
        reply(state.post_message("apns_tok", IP, "m".to_string(), at(0))),
        Err((
            Status::ServiceUnavailable,
            "APNS NOT CONFIGURED".to_string()
        ))
    );
    assert_eq!(
        state.get_queued("apns_tok", at(1)).unwrap(),
        vec![Value::from("m")]
    );
}

#[test]
fn only_push_queues_can_be_fetched() {
    let mut state = bridge(true, None);
    reply(state.post_message("chan", IP, "m".to_string(), at(0))).unwrap();
    assert_eq!(
        state.get_queued("chan", at(0)).err(),
        Some(Status::NotFound)
    );
    assert_eq!(
        state.get_queued("apns", at(0)).err(),
        Some(Status::NotFound)
    );
    assert!(state.get_queued("apns_unknown", at(0)).unwrap().is_empty());
    // A refused fetch drains nothing.
    assert_eq!(
        state.listen("chan", IP, at(1)).ok().unwrap().backlog,
        vec!["m"]
    );
}

#[test]
fn requests_over_the_limit_are_refused() {
    let mut state = bridge(false, None);
    assert!(state.rate_limit(IP, at(0)).is_ok());
    assert!(state.rate_limit(IP, at(0)).is_ok());
    let refusal = state.rate_limit(IP, at(0)).err().unwrap();
    assert_eq!(refusal.status, Status::TooManyRequests);
    assert_eq!(refusal.status.code(), 429);
    assert_eq!(refusal.body, "RATE LIMITED");
    assert!(refusal.challenge.is_none());
    assert!(state.rate_limit(IpAddr::V4(2), at(0)).is_ok());
    assert!(state.rate_limit(IP, at(1)).is_ok());
}

#[test]
fn admin_pages_need_the_password() {
    let mut state = bridge(false, Some("secret"));
    assert!(state.admin_authorized(Some(ADMIN_SECRET)));
    assert!(state.admin_authorized(Some(ANYONE_SECRET)));
    assert!(!state.admin_authorized(Some(ADMIN_WRONG)));
    assert!(!state.admin_authorized(None));
    assert!(state.admin_page(IP, Some(ADMIN_SECRET), at(0)).is_ok());
    let refusal = state.admin_page(IP, Some(ADMIN_WRONG), at(1)).err().unwrap();
    assert_eq!(refusal.status.code(), 401);
    assert_eq!(
        refusal.challenge,
        Some("Basic realm=\"sidepulse-admin\"")
    );
    assert_eq!(refusal.body, "UNAUTHORIZED");
    // The limit goes before the password.
    assert!(state.admin_page(IP, None, at(1)).is_err());
    let refusal = state.admin_page(IP, Some(ADMIN_SECRET), at(1)).err().unwrap();
    assert_eq!(refusal.status, Status::TooManyRequests);
}

#[test]
fn admin_pages_are_closed_without_a_password() {
    let mut state = bridge(false, None);
    assert!(!state.admin_authorized(Some(ADMIN_SECRET)));
    assert!(!state.admin_authorized(Some("Basic Og==")));
    assert!(state.admin_page(IP, Some("Basic Og=="), at(0)).is_err());
}

#[test]
fn admin_stats_show_the_counters() {
    let mut state = bridge(true, Some("secret"));
    reply(state.post_message("chan", IP, "m".to_string(), at(0))).unwrap();
    state.post_message("apns_t", IP, "m".to_string(), at(0));
    let listening = state.listen("chan", IP, at(1)).ok().unwrap();
    let s = state.admin_stats(IP, Some(ADMIN_SECRET), at(1)).ok().unwrap();
    assert_eq!(
        (s.totals.posts, s.totals.pushes, s.totals.connects),
        (1, 1, 1)
    );
    assert_eq!(s.sse_active, 1);
    assert_eq!(s.unique_channels, 1);
    assert_eq!(s.unique_push_tokens, 1);
    state.disconnect(listening.guard);
    let s = state.admin_stats(IP, Some(ADMIN_SECRET), at(2)).ok().unwrap();
    assert_eq!(s.sse_active, 0);
    assert_eq!(
        state
            .admin_stats(IP, Some(ADMIN_WRONG), at(3))
            .err()
            .unwrap()
            .status,
        Status::Unauthorized
    );
}

#[test]
fn sweeping_spares_what_is_in_use() {
    let mut state = bridge(false, None);
    reply(state.post_message("chan", IP, "m".to_string(), at(0))).unwrap();
    let mut live = state.listen("live", IP, at(0)).ok().unwrap().live;
    state.sweep(at(299));
    assert_eq!(
        state.listen("chan", IP, at(299)).ok().unwrap().backlog,
        vec!["m"]
    );
    state.sweep(at(10_000));
    assert_eq!(
        reply(state.post_message("live", IP, "m".to_string(), at(10_000))),
        Ok("OK")
    );
    assert_eq!(live.try_recv().unwrap(), "m");
}

#[test]
fn clocks_run() {
    let mut state = bridge(false, None);
    let a = state.now().unwrap();
    let b = state.now().unwrap();
    assert!(a.secs > 1_700_000_000);
    assert!(a.secs <= b.secs && a.nanos <= b.nanos);
    assert!(state.now_by(Err(ClockError)).is_err());
    let c = state.now_by(Ok(5)).unwrap();
    assert_eq!(c.secs, 5);
    assert!(b.nanos <= c.nanos);
}

#[test]
fn monotonic_clock_does_not_go_back() {
    let mut clock = Clock::start();
    let far = 1u128 << 100;
    assert_eq!(clock.advance(far), far);
    assert_eq!(clock.advance(7), far);
    assert_eq!(clock.nanos(), far);
    assert_eq!(clock.advance(far + 1), far + 1);
    let mut clock = Clock::start();
    let first = clock.nanos();
    assert!(first < far && clock.nanos() >= first);
    assert_eq!(shown_secs(Some(9)), Ok(9));
    assert_eq!(shown_secs(None), Err(ClockError));
}

#[test]
fn replies_to_pushes() {
    assert_eq!(push_reply(Ok(())), Ok("OK"));
    assert_eq!(
        push_reply(Err("apns status 410: None".to_string())),
        Err((
            Status::BadGateway,
            "APNS ERROR: apns status 410: None".to_string()
        ))
    );
    assert_eq!(rate_limited().status.code(), 429);
    assert_eq!(admin_401().status.code(), 401);
    assert_eq!(Status::NotFound.code(), 404);
    assert_eq!(Status::UriTooLong.code(), 414);
    assert_eq!(Status::BadGateway.code(), 502);
    assert_eq!(Status::ServiceUnavailable.code(), 503);
}

#[test]
fn challenge_files() {
    assert_eq!(
        acme_challenge("/var/acme", "aZ09-_").unwrap(),
        "/var/acme/.well-known/acme-challenge/aZ09-_"
    );
    for token in ["../secret", "a/b", "a.b", "a b", "é", "a%2f"] {
        assert_eq!(acme_challenge("/w", token), Err(Status::NotFound));
    }
    assert_eq!(
        acme_challenge("/w", "").unwrap(),
        "/w/.well-known/acme-challenge/"
    );
}

#[test]
fn redirects_go_to_the_canonical_domain() {
    assert_eq!(
        redirect_https(None, Some("/api/leds/x?y=1")),
        "https://bridge.sidepulse.io/api/leds/x?y=1"
    );
    assert_eq!(
        redirect_https(Some("example.org".to_string()), None),
        "https://example.org/"
    );
}

#[test]
fn every_listener_gets_what_is_posted_after_it_joined() {
    let mut state = bridge(false, None);
    let mut first = state.listen("chan", IP, at(0)).ok().unwrap().live;
    reply(state.post_message("chan", IP, "one".to_string(), at(1))).unwrap();
    let second = state.listen("chan", IP, at(2)).ok().unwrap();
    assert!(second.backlog.is_empty());
    let mut second = second.live;
    reply(state.post_message("chan", IP, "two".to_string(), at(3))).unwrap();
    assert_eq!(first.try_recv().unwrap(), "one");
    assert_eq!(first.try_recv().unwrap(), "two");
    assert_eq!(second.try_recv().unwrap(), "two");
    assert!(second.try_recv().is_err());
}

#[test]
fn a_day_of_activity_adds_up() {
    let mut state = bridge(true, Some("secret"));
    let mut guards = Vec::new();
    for n in 0..30u64 {
        let ip = IpAddr::V4((n % 3) as u32);
        state.post_message(&format!("chan-{}", n % 5), ip, "m".to_string(), at(n * 60));
        if n % 2 == 0 {
            state.post_message("apns_tok", ip, "m".to_string(), at(n * 60));
        }
        if n % 3 == 0 {
            guards.push(state.listen("other", ip, at(n * 60)).ok().unwrap().guard);
        }
    }
    for guard in guards.drain(..4) {
        state.disconnect(guard);
    }
    let s = state
        .admin_stats(IpAddr::V4(9), Some(ADMIN_SECRET), at(30 * 60))
        .ok()
        .unwrap();
    assert_eq!(
        (s.totals.posts, s.totals.pushes, s.totals.connects),
        (30, 15, 10)
    );
    assert_eq!(s.sse_active, 6);
    assert_eq!(
        (s.unique_ips, s.unique_channels, s.unique_push_tokens),
        (3, 5, 1)
    );
    assert_eq!(s.top_channels, vec![6, 6, 6, 6, 6]);
    assert_eq!(s.top_tokens, vec![15]);
    assert_eq!(s.posts.iter().sum::<u32>(), 30);
    assert_eq!(s.posts[1439], 0);
    assert_eq!(s.posts[1438], 1);
    assert_eq!(s.pushes[1438], 0);
    assert_eq!(s.pushes[1437], 1);
}

#[test]
fn early_clocks_still_refuse_admin_requests() {
    let mut state = bridge(false, Some("secret"));
    let early = Moment { secs: 5, nanos: 0 };
    let refusal = state.admin_stats(IP, None, early).err().unwrap();
    assert_eq!(refusal.status, Status::Unauthorized);
    assert!(state.admin_stats(IP, Some(ADMIN_WRONG), early).is_err());
    let refusal = state.admin_stats(IP, Some(ADMIN_SECRET), early).err().unwrap();
    assert_eq!(refusal.status, Status::TooManyRequests);
}

#[test]
fn a_post_around_a_connect_is_handed_over_once() {
    let mut state = bridge(false, None);
    let step = state.post_message("before", IP, "m".to_string(), at(1));
    assert_eq!(reply(step), Ok("OK QUEUED"));
    let mut first = state.listen("before", IP, at(2)).ok().unwrap();
    assert_eq!(first.backlog, vec!["m"]);
    assert!(first.live.try_recv().is_err());

    let mut second = state.listen("after", IP, at(1)).ok().unwrap();
    assert_eq!(
        reply(state.post_message("after", IP, "m".to_string(), at(2))),
        Ok("OK")
    );
    assert!(second.backlog.is_empty());
    assert_eq!(second.live.try_recv().unwrap(), "m");
    assert!(second.live.try_recv().is_err());
    drop(second.live);
    assert_eq!(
        reply(state.post_message("after", IP, "n".to_string(), at(3))),
        Ok("OK QUEUED")
    );
    assert_eq!(
        state.listen("after", IP, at(4)).ok().unwrap().backlog,
        vec!["n"]
    );
}

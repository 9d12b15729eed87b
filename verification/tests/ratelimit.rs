use ephpm_middleware_modules::http::{Action, Request, Response, Step};
use ephpm_middleware_modules::json::Json;
use ephpm_middleware_modules::ratelimit::{RateLimit, WINDOW_SECS};
use std::cell::RefCell;
use std::collections::HashMap;
use std::time::{SystemTime, UNIX_EPOCH};

fn config(text: &str) -> Json {
    Json::parse(text.as_bytes()).expect("valid JSON")
}

fn request(
    method: &str,
    path: &str,
    query: &str,
    ip: &str,
    site: &str,
    headers: &[(String, String)],
) -> Request {
    Request {
        method: method.to_owned(),
        path: path.to_owned(),
        query: query.to_owned(),
        remote_ip: ip.to_owned(),
        site: site.to_owned(),
        headers: headers.to_vec(),
    }
}

/// Counters in memory.
struct Store {
    counters: RefCell<HashMap<String, i64>>,
}

impl Store {
    fn new() -> Store {
        Store { counters: RefCell::new(HashMap::new()) }
    }

    fn incr(&self, key: &str, by: i64) -> i64 {
        let mut counters = self.counters.borrow_mut();
        let count = counters.entry(key.to_owned()).or_insert(0);
        *count += by;
        *count
    }
}

fn now() -> u64 {
    SystemTime::now().duration_since(UNIX_EPOCH).expect("clock").as_secs()
}

fn invoke(
    store: &Store,
    mw: &RateLimit,
    vhost: &str,
    ip: &str,
    headers: &[(String, String)],
) -> Response {
    let at = now();
    match mw.invoke(&request("GET", "/api/x", "", ip, vhost, headers), at) {
        Step::IncrTtl { key, by, ttl_secs } => {
            assert_eq!((by, ttl_secs), (1, 30));
            mw.finish(at, Some(store.incr(&key, by)))
        }
        other => panic!("unexpected step {other:?}"),
    }
}

#[test]
fn init_validates_config() {
    assert!(RateLimit::init(&config("null")).is_err());
    assert!(RateLimit::init(&config(r#"{ "per_ip_rps": 0 }"#)).is_err());
    assert!(RateLimit::init(&config(r#"{ "per_ip_rps": "fast" }"#)).is_err());
    assert!(
        RateLimit::init(&config(r#"{ "per_ip_rps": 5, "key_headers": "X-Api-Key" }"#))
            .is_err()
    );
    let mw = RateLimit::init(&config(r#"{ "per_ip_rps": 5 }"#)).expect("init");
    // burst defaults to per_ip_rps: 5*10 + 5.
    assert_eq!(mw.allowance(), 55);
}

#[test]
fn first_request_is_always_allowed() {
    let store = Store::new();
    let mw = RateLimit::init(&config(r#"{ "per_ip_rps": 1 }"#)).expect("init");
    let resp = invoke(&store, &mw, "vhost-first", "198.51.100.1", &[]);
    assert_eq!(resp.action, Action::Continue);
}

#[test]
fn over_limit_gets_429_with_retry_after() {
    let store = Store::new();
    let mw =
        RateLimit::init(&config(r#"{ "per_ip_rps": 1, "burst": 0 }"#)).expect("init");
    // Allowance is 10/window. Even if a window boundary lands mid-loop
    // (resetting the counter once), 3x the allowance must trip the limit.
    let mut limited = None;
    for _ in 0..30 {
        let resp = invoke(&store, &mw, "vhost-429", "198.51.100.2", &[]);
        if resp.action == Action::Respond {
            limited = Some(resp);
            break;
        }
    }
    let resp = limited.expect("rate limit never tripped within 3x the allowance");
    assert_eq!(resp.status, 429);
    assert_eq!(resp.body.as_slice(), b"rate limit exceeded");
    let retry: u64 = resp
        .headers
        .iter()
        .find(|(n, _)| n.eq_ignore_ascii_case("Retry-After"))
        .map(|(_, v)| v.parse().expect("numeric Retry-After"))
        .expect("Retry-After present");
    assert!((1..=WINDOW_SECS).contains(&retry), "retry_after = {retry}");
}

#[test]
fn key_header_separates_clients() {
    let store = Store::new();
    let mw = RateLimit::init(&config(r#"{ "per_ip_rps": 1, "burst": 0, "key_headers": ["X-Api-Key"] }"#))
    .expect("init");
    let key_a = [("X-Api-Key".to_owned(), "alpha".to_owned())];
    let key_b = [("X-Api-Key".to_owned(), "beta".to_owned())];
    // Exhaust client alpha (same IP for everyone — the header is the key).
    let mut tripped = false;
    for _ in 0..30 {
        if invoke(&store, &mw, "vhost-keys", "198.51.100.3", &key_a).action == Action::Respond {
            tripped = true;
            break;
        }
    }
    assert!(tripped, "alpha never rate-limited");
    // Client beta's first request in any window is always allowed.
    let resp = invoke(&store, &mw, "vhost-keys", "198.51.100.3", &key_b);
    assert_eq!(resp.action, Action::Continue);
}

#[test]
fn fail_open_kv_unavailable_fails_open() {
    let mw = RateLimit::init(&config(r#"{ "per_ip_rps": 1, "burst": 0 }"#)).expect("init");
    let req = request("GET", "/api/x", "", "198.51.100.9", "vhost-open", &[]);
    // Way past the allowance: every single one must still continue.
    for _ in 0..50 {
        assert!(matches!(mw.invoke(&req, now()), Step::IncrTtl { .. }));
        assert_eq!(mw.finish(now(), None).action, Action::Continue);
    }
}

#[test]
fn the_allowance_is_capped() {
    let mw = RateLimit::init(&config(
        r#"{ "per_ip_rps": 18446744073709551615, "burst": 18446744073709551615 }"#,
    ))
    .expect("init");
    assert_eq!(mw.allowance(), i64::MAX);
    let mw = RateLimit::init(&config(r#"{ "per_ip_rps": 922337203685477580, "burst": 7 }"#))
        .expect("init");
    assert_eq!(mw.allowance(), i64::MAX);
    let mw = RateLimit::init(&config(r#"{ "per_ip_rps": 922337203685477580, "burst": 6 }"#))
        .expect("init");
    assert_eq!(mw.allowance(), i64::MAX - 1);
}

#[test]
fn the_counter_is_named_after_site_client_and_window() {
    let mw = RateLimit::init(&config(r#"{ "per_ip_rps": 1, "key_headers": ["X-A", "X-B"] }"#))
        .expect("init");
    let headers = [("x-b".to_owned(), "bee".to_owned())];
    let req = request("GET", "/", "", "::1", "blog", &headers);
    assert_eq!(mw.client_key(&req), "bee");
    match mw.invoke(&req, 1_234_567_899) {
        Step::IncrTtl { key, by, ttl_secs } => {
            assert_eq!(key, "mw:rl:blog:bee:123456789");
            assert_eq!((by, ttl_secs), (1, 30));
        }
        other => panic!("unexpected step {other:?}"),
    }
    // Without such a header the address counts; without a site the name is empty.
    match mw.invoke(&request("GET", "/", "", "::1", "", &[]), 9) {
        Step::IncrTtl { key, .. } => assert_eq!(key, "mw:rl::::1:0"),
        other => panic!("unexpected step {other:?}"),
    }
}

#[test]
fn the_limit_is_exact_and_the_wait_ends_with_the_window() {
    let mw = RateLimit::init(&config(r#"{ "per_ip_rps": 2, "burst": 3 }"#)).expect("init");
    assert_eq!(mw.finish(100, Some(23)).action, Action::Continue);
    for (now, wait) in [(100, "10"), (101, "9"), (109, "1")] {
        let resp = mw.finish(now, Some(24));
        assert_eq!(resp.status, 429);
        assert_eq!(resp.headers, vec![("Retry-After".to_owned(), wait.to_owned())]);
    }
}

#[test]
fn ratelimit_configuration_is_refused_with_a_reason() {
    for (text, message) in [
        ("{}", "`per_ip_rps` is required (requests/second per client, > 0)"),
        (r#"{ "per_ip_rps": null }"#, "`per_ip_rps` must be a positive integer"),
        (r#"{ "per_ip_rps": -1 }"#, "`per_ip_rps` must be a positive integer"),
        (r#"{ "per_ip_rps": 0 }"#, "`per_ip_rps` must be > 0"),
        (r#"{ "per_ip_rps": 1, "burst": 1.5 }"#, "`burst` must be a non-negative integer"),
        (
            r#"{ "per_ip_rps": 1, "key_headers": "X" }"#,
            "`key_headers` must be an array of header names",
        ),
        (
            r#"{ "per_ip_rps": 1, "key_headers": [1] }"#,
            "`key_headers` entries must be strings, got 1",
        ),
    ] {
        assert_eq!(RateLimit::init(&config(text)).err().as_deref(), Some(message), "{text}");
    }
}

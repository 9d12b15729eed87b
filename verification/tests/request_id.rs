use ephpm_middleware_modules::http::{Action, Reply, Request, Response, ResponseView};
use ephpm_middleware_modules::json::Json;
use ephpm_middleware_modules::request_id::{
    ensure_seed, generate_id, is_safe_id, next_u128, splitmix64, RequestId,
};
use std::cell::Cell;

fn config(text: &str) -> Json {
    Json::parse(text.as_bytes()).expect("valid JSON")
}

fn request(
    method: &str,
    path: &str,
    query: &str,
    ip: &str,
    site: &str,
    headers: &[(String, String)],
) -> Request {
    Request {
        method: method.to_owned(),
        path: path.to_owned(),
        query: query.to_owned(),
        remote_ip: ip.to_owned(),
        site: site.to_owned(),
        headers: headers.to_vec(),
    }
}

fn hdr(name: &str, value: &str) -> (String, String) {
    (name.to_owned(), value.to_owned())
}

fn get<'a>(headers: &'a [(String, String)], name: &str) -> Option<&'a str> {
    headers.iter().find(|(n, _)| n.eq_ignore_ascii_case(name)).map(|(_, v)| v.as_str())
}

/// The generator of these tests.
struct Words {
    state: Cell<u64>,
}

impl Words {
    fn draw(&self) -> (u64, u64) {
        let mut state = self.state.get();
        let words = next_u128(&mut state, 0x0123_4567_89AB_CDEF, 1);
        self.state.set(state);
        words
    }
}

struct Module {
    policy: RequestId,
    words: Words,
}

fn init(config: Json) -> Module {
    Module {
        policy: RequestId::init(&config).expect("init"),
        words: Words { state: Cell::new(0) },
    }
}

fn invoke(mw: &Module, headers: &[(String, String)]) -> Response {
    let (hi, lo) = mw.words.draw();
    let req = request("GET", "/index.php", "", "203.0.113.9", "example.test", headers);
    mw.policy.invoke(&req, hi, lo)
}

/// Drives the response phase; returns the resulting `(status, headers, body)`.
fn invoke_response(
    mw: &Module,
    req_headers: &[(String, String)],
    resp_status: u16,
    resp_headers: Vec<(String, String)>,
    resp_body: &[u8],
) -> (u16, Vec<(String, String)>, Vec<u8>) {
    let (hi, lo) = mw.words.draw();
    let req = request("GET", "/", "", "203.0.113.9", "example.test", req_headers);
    let mut view = ResponseView::new(Reply {
        status: resp_status,
        headers: resp_headers,
        body: resp_body.to_vec(),
    });
    mw.policy.invoke_response(&req, &mut view, hi, lo);
    let reply = view.apply();
    (reply.status, reply.headers, reply.body)
}

fn looks_like_uuid(v: &str) -> bool {
    v.len() == 36 && v.as_bytes()[14] == b'4' && v.chars().filter(|c| *c == '-').count() == 4
}

// ── request phase ─────────────────────────────────────────────────────

#[test]
fn generates_and_injects_when_absent() {
    let mw = init(config("null"));
    let resp = invoke(&mw, &[]);
    assert_eq!(resp.action, Action::Rewrite);
    // Request header override (PHP-visible).
    let req_id = get(&resp.headers, "X-Request-Id").expect("request header");
    assert!(looks_like_uuid(req_id), "{req_id}");
    // Response echo — same value.
    let resp_id = get(&resp.response_headers, "X-Request-Id").expect("response header");
    assert_eq!(req_id, resp_id, "PHP and the client must see the same id");
}

#[test]
fn ignores_inbound_when_not_trusted() {
    let mw = init(config("null"));
    let resp = invoke(&mw, &[hdr("X-Request-Id", "client-supplied-123")]);
    let id = get(&resp.headers, "X-Request-Id").unwrap();
    assert_ne!(id, "client-supplied-123");
    assert!(looks_like_uuid(id), "{id}");
}

#[test]
fn honors_trusted_inbound() {
    let mw = init(config(r#"{ "trust_inbound": true }"#));
    let resp = invoke(&mw, &[hdr("X-Request-Id", "abc-123-DEF")]);
    assert_eq!(get(&resp.headers, "X-Request-Id"), Some("abc-123-DEF"));
    assert_eq!(get(&resp.response_headers, "X-Request-Id"), Some("abc-123-DEF"));
}

#[test]
fn trusted_but_unsafe_inbound_is_regenerated() {
    let mw = init(config(r#"{ "trust_inbound": true }"#));
    // CR/LF injection attempt — must not be reflected.
    let resp = invoke(&mw, &[hdr("X-Request-Id", "bad\r\nInjected: 1")]);
    let id = get(&resp.headers, "X-Request-Id").unwrap();
    assert!(looks_like_uuid(id), "{id}");
}

#[test]
fn custom_header_name() {
    let mw = init(config(r#"{ "header": "X-Correlation-Id", "trust_inbound": true }"#));
    let resp = invoke(&mw, &[hdr("X-Correlation-Id", "corr-1")]);
    assert_eq!(get(&resp.headers, "X-Correlation-Id"), Some("corr-1"));
}

#[test]
fn generated_ids_are_unique() {
    let mw = init(config("null"));
    let a = get(&invoke(&mw, &[]).headers, "X-Request-Id").unwrap().to_owned();
    let b = get(&invoke(&mw, &[]).headers, "X-Request-Id").unwrap().to_owned();
    assert_ne!(a, b);
}

// ── response phase ────────────────────────────────────────────────────

#[test]
fn response_phase_adds_header_when_absent() {
    // Static-file path: no request phase ran, response has no id yet.
    let mw = init(config("null"));
    let (_status, headers, _body) = invoke_response(&mw, &[], 200, vec![], b"body");
    let id = get(&headers, "X-Request-Id").expect("id added");
    assert!(looks_like_uuid(id), "{id}");
}

#[test]
fn response_phase_is_idempotent_when_present() {
    // PHP path: the request phase already echoed the id — do not overwrite.
    let mw = init(config("null"));
    let (_status, headers, _body) =
        invoke_response(&mw, &[], 200, vec![hdr("X-Request-Id", "existing-id-42")], b"body");
    assert_eq!(get(&headers, "X-Request-Id"), Some("existing-id-42"));
    // Exactly one occurrence — no duplicate.
    assert_eq!(
        headers.iter().filter(|(n, _)| n.eq_ignore_ascii_case("X-Request-Id")).count(),
        1
    );
}

#[test]
fn response_phase_honors_trusted_inbound_on_static_path() {
    let mw = init(config(r#"{ "trust_inbound": true }"#));
    let (_status, headers, _body) =
        invoke_response(&mw, &[hdr("X-Request-Id", "inbound-77")], 200, vec![], b"body");
    assert_eq!(get(&headers, "X-Request-Id"), Some("inbound-77"));
}

// ── config validation ─────────────────────────────────────────────────

#[test]
fn request_id_bad_config_fails_init() {
    assert!(RequestId::init(&config(r#"{ "header": "" }"#)).is_err());
    assert!(RequestId::init(&config(r#"{ "header": 5 }"#)).is_err());
    assert!(RequestId::init(&config(r#"{ "trust_inbound": "yes" }"#)).is_err());
}

// ── words and ids ─────────────────────────────────────────────────────

#[test]
fn the_generator_is_splitmix64() {
    let mut state = 0;
    assert_eq!(splitmix64(&mut state), 0xE220_A839_7B1D_CDAF);
    assert_eq!(splitmix64(&mut state), 0x6E78_9E6A_A1B9_65F4);
    assert_eq!(splitmix64(&mut state), 0x06C4_5D18_8009_454F);
    assert_eq!(state, 0x9E37_79B9_7F4A_7C15u64.wrapping_mul(3));
}

#[test]
fn a_seed_is_made_once_and_is_never_zero() {
    assert_eq!(ensure_seed(7, 1, 2), 7);
    assert_eq!(ensure_seed(0, 1, 2), 1 ^ 2u64.rotate_left(17) ^ 0xA5A5_5A5A_1234_ABCD);
    assert_eq!(ensure_seed(0, 0xA5A5_5A5A_1234_ABCD, 0), 0xDEAD_BEEF_CAFE_F00D);
    let addr = 0xFFFF_0000_1234_5678;
    assert_eq!(ensure_seed(0, 5, addr), 5 ^ addr.rotate_left(17) ^ 0xA5A5_5A5A_1234_ABCD);
}

#[test]
fn a_thread_starts_from_the_seed_and_its_number() {
    let seed: u64 = 0x1234;
    let thread: u64 = 3;
    let mut expected =
        seed.wrapping_mul(0x2545_F491_4F6C_DD1D).wrapping_add(thread.rotate_left(32));
    let hi = splitmix64(&mut expected);
    let lo = splitmix64(&mut expected);
    let mut state = 0;
    assert_eq!(next_u128(&mut state, seed, thread), (hi, lo));
    assert_eq!(state, expected);
    // A state that is not zero is used as it is.
    let mut state = 9;
    let mut same = 9;
    assert_eq!(next_u128(&mut state, 0, 0).0, splitmix64(&mut same));
    // Where seed and number make zero, the state is one.
    let mut state = 0;
    let mut one = 1;
    assert_eq!(next_u128(&mut state, 0, 0).0, splitmix64(&mut one));
}

#[test]
fn threads_draw_different_words() {
    for seed in [1, 7, 0xDEAD_BEEF_CAFE_F00D, u64::MAX] {
        let mut words = std::collections::HashSet::new();
        for thread in 1..=1000 {
            let mut state = 0;
            assert!(words.insert(next_u128(&mut state, seed, thread).0), "{seed} {thread}");
        }
    }
}

#[test]
fn ids_are_uuids_of_version_four() {
    assert_eq!(generate_id(0, 0), "00000000-0000-4000-8000-000000000000");
    assert_eq!(generate_id(u64::MAX, u64::MAX), "ffffffff-ffff-4fff-bfff-ffffffffffff");
    assert_eq!(
        generate_id(0x0123_4567_89AB_CDEF, 0xFEDC_BA98_7654_3210),
        "01234567-89ab-4def-bedc-ba9876543210"
    );
}

#[test]
fn safe_ids_are_short_and_printable() {
    assert!(is_safe_id("a"));
    assert!(is_safe_id("!~"));
    assert!(is_safe_id(&"x".repeat(200)));
    for bad in ["", " ", "a b", "a\n", "\u{7f}", "ä", "tab\t"] {
        assert!(!is_safe_id(bad), "{bad:?}");
    }
    assert!(!is_safe_id(&"x".repeat(201)));
}

#[test]
fn request_id_configuration_is_refused_with_a_reason() {
    for (text, message) in [
        (r#"{ "header": 5 }"#, "`header` must be a string, got 5"),
        (r#"{ "header": "" }"#, "`header` must not be empty"),
        (r#"{ "trust_inbound": "yes" }"#, "`trust_inbound` must be a boolean, got \"yes\""),
    ] {
        assert_eq!(RequestId::init(&config(text)).err().as_deref(), Some(message), "{text}");
    }
}

#[test]
fn a_second_response_phase_changes_nothing() {
    let mw = init(config("null"));
    let (status, headers, body) = invoke_response(&mw, &[], 200, vec![hdr("A", "1")], b"body");
    let again = invoke_response(&mw, &[], status, headers.clone(), &body);
    assert_eq!(again, (status, headers, body));
}

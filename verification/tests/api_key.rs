use ephpm_middleware_modules::credential::ct_eq;
use ephpm_middleware_modules::http::{Action, Request, Response, Step};
use ephpm_middleware_modules::json::Json;
use ephpm_middleware_modules::api_key::ApiKey;
use std::collections::HashMap;

fn config(text: &str) -> Json {
    Json::parse(text.as_bytes()).expect("valid JSON")
}

fn request(
    method: &str,
    path: &str,
    query: &str,
    ip: &str,
    site: &str,
    headers: &[(String, String)],
) -> Request {
    Request {
        method: method.to_owned(),
        path: path.to_owned(),
        query: query.to_owned(),
        remote_ip: ip.to_owned(),
        site: site.to_owned(),
        headers: headers.to_vec(),
    }
}

type Store = HashMap<String, Vec<u8>>;

fn api_key(config: Json) -> ApiKey {
    ApiKey::init(&config).expect("init")
}

fn invoke_on(
    store: &Store,
    mw: &ApiKey,
    site: &str,
    query: &str,
    headers: &[(String, String)],
) -> Response {
    match mw.invoke(&request("GET", "/api/x", query, "203.0.113.9", site, headers)) {
        Step::Done(resp) => resp,
        Step::Get(key) => mw.finish(store.get(&key).cloned()),
        other => panic!("unexpected step {other:?}"),
    }
}

fn invoke_q(store: &Store, mw: &ApiKey, query: &str, headers: &[(String, String)]) -> Response {
    invoke_on(store, mw, "example.test", query, headers)
}

fn invoke(store: &Store, mw: &ApiKey, headers: &[(String, String)]) -> Response {
    invoke_q(store, mw, "", headers)
}

fn hdr(name: &str, value: &str) -> Vec<(String, String)> {
    vec![(name.to_owned(), value.to_owned())]
}

fn setup_kv_with(entries: &[(&str, &str)]) -> Store {
    entries.iter().map(|(k, v)| ((*k).to_owned(), v.as_bytes().to_vec())).collect()
}

fn consumer_header(resp: &Response) -> Option<String> {
    resp.headers
        .iter()
        .find(|(n, _)| n.eq_ignore_ascii_case("X-Consumer-Id"))
        .map(|(_, v)| v.clone())
}

fn assert_401(resp: &Response, body: &str) {
    assert_eq!(resp.action, Action::Respond);
    assert_eq!(resp.status, 401);
    assert_eq!(resp.body.as_slice(), body.as_bytes());
    // Never leak the key; always hint via WWW-Authenticate.
    assert!(
        resp.headers.iter().any(|(n, _)| n.eq_ignore_ascii_case("WWW-Authenticate")),
        "401 must carry a WWW-Authenticate hint",
    );
}

#[test]
fn api_key_ct_eq_is_correct() {
    assert!(ct_eq(b"correct-key", b"correct-key"));
    assert!(!ct_eq(b"correct-key", b"correct-keZ"));
    assert!(!ct_eq(b"correct-key", b"correct-ke")); // length mismatch
    assert!(ct_eq(b"", b""));
    assert!(!ct_eq(b"a", b""));
}

#[test]
fn api_key_init_requires_a_store() {
    // No keys and no KV template → misconfiguration.
    assert!(ApiKey::init(&config(r#"{}"#)).is_err());
    assert!(ApiKey::init(&config(r#"{ "header": "X-Api-Key" }"#)).is_err());
    // `keys` must be an object; entries must be string consumer-ids.
    assert!(ApiKey::init(&config(r#"{ "keys": "nope" }"#)).is_err());
    assert!(ApiKey::init(&config(r#"{ "keys": { "k": 42 } }"#)).is_err());
    // `kv_key_template` must contain the placeholder.
    assert!(ApiKey::init(&config(r#"{ "kv_key_template": "apikey:" }"#)).is_err());
    // Valid minimal configs.
    assert!(ApiKey::init(&config(r#"{ "keys": { "k": "c" } }"#)).is_ok());
    assert!(ApiKey::init(&config(r#"{ "kv_key_template": "apikey:<key>" }"#)).is_ok());
}

#[test]
fn api_key_valid_static_key_rewrites_with_consumer() {
    let mw = api_key(config(r#"{ "keys": { "secret-abc": "consumer-7" } }"#));
    let resp = invoke(&Store::new(), &mw, &hdr("X-Api-Key", "secret-abc"));
    assert_eq!(resp.action, Action::Rewrite);
    assert_eq!(consumer_header(&resp).as_deref(), Some("consumer-7"));
}

#[test]
fn api_key_invalid_static_key_is_401() {
    let mw = api_key(config(r#"{ "keys": { "secret-abc": "consumer-7" } }"#));
    assert_401(&invoke(&Store::new(), &mw, &hdr("X-Api-Key", "wrong")), "invalid api key");
}

#[test]
fn api_key_missing_key_is_401() {
    let mw = api_key(config(r#"{ "keys": { "secret-abc": "consumer-7" } }"#));
    assert_401(&invoke(&Store::new(), &mw, &[]), "missing api key");
    // Present-but-empty header also counts as missing.
    assert_401(&invoke(&Store::new(), &mw, &hdr("X-Api-Key", "   ")), "missing api key");
}

#[test]
fn api_key_custom_header_and_consumer_header() {
    let mw = api_key(config(r#"{ "header": "X-Key", "consumer_header": "X-Who", "keys": { "k1": "alice" } }"#));
    let resp = invoke(&Store::new(), &mw, &hdr("X-Key", "k1"));
    assert_eq!(resp.action, Action::Rewrite);
    let who = resp
        .headers
        .iter()
        .find(|(n, _)| n.eq_ignore_ascii_case("X-Who"))
        .map(|(_, v)| v.as_str());
    assert_eq!(who, Some("alice"));
}

#[test]
fn api_key_query_param_disabled_by_default() {
    let mw = api_key(config(r#"{ "keys": { "qk": "qc" } }"#));
    // Key only in the query string, but query_param is off → 401 missing.
    assert_401(&invoke_q(&Store::new(), &mw, "api_key=qk", &[]), "missing api key");
}

#[test]
fn api_key_query_param_when_enabled() {
    let mw = api_key(config(r#"{ "query_param": "api_key", "keys": { "qk": "qc" } }"#));
    let resp = invoke_q(&Store::new(), &mw, "foo=1&api_key=qk&bar=2", &[]);
    assert_eq!(resp.action, Action::Rewrite);
    assert_eq!(consumer_header(&resp).as_deref(), Some("qc"));
    // Header still takes precedence over the query param.
    let resp = invoke_q(&Store::new(), &mw, "api_key=wrong", &hdr("X-Api-Key", "qk"));
    assert_eq!(resp.action, Action::Rewrite);
    assert_eq!(consumer_header(&resp).as_deref(), Some("qc"));
    // URL-encoded value round-trips.
    let mw2 = api_key(config(r#"{ "query_param": "api_key", "keys": { "a b": "spaced" } }"#));
    let resp = invoke_q(&Store::new(), &mw2, "api_key=a%20b", &[]);
    assert_eq!(consumer_header(&resp).as_deref(), Some("spaced"));
}

#[test]
fn api_key_kv_backed_valid_and_invalid() {
    let store = setup_kv_with(&[("apikey:live-key", "kv-consumer-1")]);
    let mw = api_key(config(r#"{ "kv_key_template": "apikey:<key>" }"#));
    // Valid: value in the store is the consumer id.
    let resp = invoke(&store, &mw, &hdr("X-Api-Key", "live-key"));
    assert_eq!(resp.action, Action::Rewrite);
    assert_eq!(consumer_header(&resp).as_deref(), Some("kv-consumer-1"));
    // Absent key → 401 invalid.
    assert_401(&invoke(&store, &mw, &hdr("X-Api-Key", "no-such-key")), "invalid api key");
}

#[test]
fn api_key_static_map_takes_precedence_then_kv() {
    let store = setup_kv_with(&[("apikey:kv-only", "from-kv")]);
    let mw = api_key(config(r#"{ "keys": { "static-only": "from-static" }, "kv_key_template": "apikey:<key>" }"#));
    // Static hit.
    assert_eq!(
        consumer_header(&invoke(&store, &mw, &hdr("X-Api-Key", "static-only"))).as_deref(),
        Some("from-static"),
    );
    // Falls through to KV.
    assert_eq!(
        consumer_header(&invoke(&store, &mw, &hdr("X-Api-Key", "kv-only"))).as_deref(),
        Some("from-kv"),
    );
}

#[test]
fn api_key_configuration_is_refused_with_a_reason() {
    for (text, message) in [
        ("{}", "at least one of `keys` or `kv_key_template` must be configured"),
        (r#"{ "header": 1 }"#, "`header` must be a string, got 1"),
        (r#"{ "query_param": 1 }"#, "`query_param` must be a string, got 1"),
        (r#"{ "consumer_header": 1 }"#, "`consumer_header` must be a string, got 1"),
        (r#"{ "keys": "nope" }"#, "`keys` must be an object of key -> consumer-id"),
        (r#"{ "keys": { "": "c" } }"#, "`keys` entries must have a non-empty key"),
        (r#"{ "keys": { "k": 42 } }"#, "`keys[\"k\"]` must be a string consumer-id"),
        (r#"{ "kv_key_template": 1 }"#, "`kv_key_template` must be a string, got 1"),
        (
            r#"{ "kv_key_template": "apikey:" }"#,
            "`kv_key_template` must contain the `<key>` placeholder",
        ),
        (
            r#"{ "keys": {} }"#,
            "at least one of `keys` or `kv_key_template` must be configured",
        ),
    ] {
        assert_eq!(ApiKey::init(&config(text)).err().as_deref(), Some(message), "{text}");
    }
}

#[test]
fn api_key_stored_consumers_are_texts() {
    let mw = api_key(config(r#"{ "kv_key_template": "apikey:<key>", "header": "X-K" }"#));
    let resp = mw.finish(Some("konsument-ä".as_bytes().to_vec()));
    assert_eq!(consumer_header(&resp).as_deref(), Some("konsument-ä"));
    assert_401(&mw.finish(Some(Vec::new())), "invalid api key");
    assert_401(&mw.finish(Some(vec![0xFF])), "invalid api key");
    let resp = mw.finish(None);
    assert_401(&resp, "invalid api key");
    assert_eq!(
        resp.headers,
        vec![("WWW-Authenticate".to_owned(), "ApiKey header=\"X-K\"".to_owned())]
    );
}

#[test]
fn api_key_template_takes_the_key_literally() {
    let mw = api_key(config(r#"{ "kv_key_template": "a:<key>:<key>" }"#));
    let headers = hdr("X-Api-Key", " <key><site> ");
    match mw.invoke(&request("GET", "/", "", "", "s", &headers)) {
        Step::Get(key) => assert_eq!(key, "a:<key><site>:<key><site>"),
        other => panic!("unexpected step {other:?}"),
    }
    assert_eq!(mw.match_static(b"x"), None);
}

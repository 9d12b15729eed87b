use ephpm_middleware_modules::credential::ct_eq;
use ephpm_middleware_modules::http::{Action, Request, Response, Step};
use ephpm_middleware_modules::json::Json;
use ephpm_middleware_modules::site_api_key::{ApiKey, KvLookup};
use std::collections::HashMap;

fn config(text: &str) -> Json {
    Json::parse(text.as_bytes()).expect("valid JSON")
}

fn request(
    method: &str,
    path: &str,
    query: &str,
    ip: &str,
    site: &str,
    headers: &[(String, String)],
) -> Request {
    Request {
        method: method.to_owned(),
        path: path.to_owned(),
        query: query.to_owned(),
        remote_ip: ip.to_owned(),
        site: site.to_owned(),
        headers: headers.to_vec(),
    }
}

type Store = HashMap<String, Vec<u8>>;

fn api_key(config: Json) -> ApiKey {
    ApiKey::init(&config).expect("init")
}

fn invoke_on(
    store: &Store,
    mw: &ApiKey,
    site: &str,
    query: &str,
    headers: &[(String, String)],
) -> Response {
    match mw.invoke(&request("GET", "/api/x", query, "203.0.113.9", site, headers)) {
        Step::Done(resp) => resp,
        Step::GetGlobal(key) => mw.finish(store.get(&key).cloned()),
        other => panic!("unexpected step {other:?}"),
    }
}

fn invoke_q(store: &Store, mw: &ApiKey, query: &str, headers: &[(String, String)]) -> Response {
    invoke_on(store, mw, "example", query, headers)
}

fn invoke(store: &Store, mw: &ApiKey, headers: &[(String, String)]) -> Response {
    invoke_q(store, mw, "", headers)
}

fn hdr(name: &str, value: &str) -> Vec<(String, String)> {
    vec![(name.to_owned(), value.to_owned())]
}

fn setup_kv_with(entries: &[(&str, &str)]) -> Store {
    entries.iter().map(|(k, v)| ((*k).to_owned(), v.as_bytes().to_vec())).collect()
}

fn consumer_header(resp: &Response) -> Option<String> {
    resp.headers
        .iter()
        .find(|(n, _)| n.eq_ignore_ascii_case("X-Consumer-Id"))
        .map(|(_, v)| v.clone())
}

fn assert_401(resp: &Response, body: &str) {
    assert_eq!(resp.action, Action::Respond);
    assert_eq!(resp.status, 401);
    assert_eq!(resp.body.as_slice(), body.as_bytes());
    // Never leak the key; always hint via WWW-Authenticate.
    assert!(
        resp.headers.iter().any(|(n, _)| n.eq_ignore_ascii_case("WWW-Authenticate")),
        "401 must carry a WWW-Authenticate hint",
    );
}

#[test]
fn ct_eq_is_correct() {
    assert!(ct_eq(b"correct-key", b"correct-key"));
    assert!(!ct_eq(b"correct-key", b"correct-keZ"));
    assert!(!ct_eq(b"correct-key", b"correct-ke")); // length mismatch
    assert!(ct_eq(b"", b""));
    assert!(!ct_eq(b"a", b""));
}

#[test]
fn lib_init_requires_a_store() {
    // No keys and no KV template → misconfiguration.
    assert!(ApiKey::init(&config(r#"{}"#)).is_err());
    assert!(ApiKey::init(&config(r#"{ "header": "X-Api-Key" }"#)).is_err());
    // `keys` must be an object; entries must be string consumer-ids.
    assert!(ApiKey::init(&config(r#"{ "keys": "nope" }"#)).is_err());
    assert!(ApiKey::init(&config(r#"{ "keys": { "k": 42 } }"#)).is_err());
    // `kv_key_template` must contain the placeholder.
    assert!(ApiKey::init(&config(r#"{ "kv_key_template": "apikey:" }"#)).is_err());
    // Valid minimal configs.
    assert!(ApiKey::init(&config(r#"{ "keys": { "k": "c" } }"#)).is_ok());
    assert!(ApiKey::init(&config(r#"{ "kv_key_template": "apikey:<key>" }"#)).is_ok());
}

#[test]
fn lib_valid_static_key_rewrites_with_consumer() {
    let mw = api_key(config(r#"{ "keys": { "secret-abc": "consumer-7" } }"#));
    let resp = invoke(&Store::new(), &mw, &hdr("X-Api-Key", "secret-abc"));
    assert_eq!(resp.action, Action::Rewrite);
    assert_eq!(consumer_header(&resp).as_deref(), Some("consumer-7"));
}

#[test]
fn lib_invalid_static_key_is_401() {
    let mw = api_key(config(r#"{ "keys": { "secret-abc": "consumer-7" } }"#));
    assert_401(&invoke(&Store::new(), &mw, &hdr("X-Api-Key", "wrong")), "invalid api key");
}

#[test]
fn lib_missing_key_is_401() {
    let mw = api_key(config(r#"{ "keys": { "secret-abc": "consumer-7" } }"#));
    assert_401(&invoke(&Store::new(), &mw, &[]), "missing api key");
    // Present-but-empty header also counts as missing.
    assert_401(&invoke(&Store::new(), &mw, &hdr("X-Api-Key", "   ")), "missing api key");
}

#[test]
fn lib_custom_header_and_consumer_header() {
    let mw = api_key(config(r#"{ "header": "X-Key", "consumer_header": "X-Who", "keys": { "k1": "alice" } }"#));
    let resp = invoke(&Store::new(), &mw, &hdr("X-Key", "k1"));
    assert_eq!(resp.action, Action::Rewrite);
    let who = resp
        .headers
        .iter()
        .find(|(n, _)| n.eq_ignore_ascii_case("X-Who"))
        .map(|(_, v)| v.as_str());
    assert_eq!(who, Some("alice"));
}

#[test]
fn lib_query_param_disabled_by_default() {
    let mw = api_key(config(r#"{ "keys": { "qk": "qc" } }"#));
    // Key only in the query string, but query_param is off → 401 missing.
    assert_401(&invoke_q(&Store::new(), &mw, "api_key=qk", &[]), "missing api key");
}

#[test]
fn lib_query_param_when_enabled() {
    let mw = api_key(config(r#"{ "query_param": "api_key", "keys": { "qk": "qc" } }"#));
    let resp = invoke_q(&Store::new(), &mw, "foo=1&api_key=qk&bar=2", &[]);
    assert_eq!(resp.action, Action::Rewrite);
    assert_eq!(consumer_header(&resp).as_deref(), Some("qc"));
    // Header still takes precedence over the query param.
    let resp = invoke_q(&Store::new(), &mw, "api_key=wrong", &hdr("X-Api-Key", "qk"));
    assert_eq!(resp.action, Action::Rewrite);
    assert_eq!(consumer_header(&resp).as_deref(), Some("qc"));
    // URL-encoded value round-trips.
    let mw2 = api_key(config(r#"{ "query_param": "api_key", "keys": { "a b": "spaced" } }"#));
    let resp = invoke_q(&Store::new(), &mw2, "api_key=a%20b", &[]);
    assert_eq!(consumer_header(&resp).as_deref(), Some("spaced"));
}

#[test]
fn lib_kv_backed_valid_and_invalid() {
    let store = setup_kv_with(&[("apikey:live-key", "kv-consumer-1")]);
    let mw = api_key(config(r#"{ "kv_key_template": "apikey:<key>" }"#));
    // Valid: value in the store is the consumer id.
    let resp = invoke(&store, &mw, &hdr("X-Api-Key", "live-key"));
    assert_eq!(resp.action, Action::Rewrite);
    assert_eq!(consumer_header(&resp).as_deref(), Some("kv-consumer-1"));
    // Absent key → 401 invalid.
    assert_401(&invoke(&store, &mw, &hdr("X-Api-Key", "no-such-key")), "invalid api key");
}

#[test]
fn lib_static_map_takes_precedence_then_kv() {
    let store = setup_kv_with(&[("apikey:kv-only", "from-kv")]);
    let mw = api_key(config(r#"{ "keys": { "static-only": "from-static" }, "kv_key_template": "apikey:<key>" }"#));
    // Static hit.
    assert_eq!(
        consumer_header(&invoke(&store, &mw, &hdr("X-Api-Key", "static-only"))).as_deref(),
        Some("from-static"),
    );
    // Falls through to KV.
    assert_eq!(
        consumer_header(&invoke(&store, &mw, &hdr("X-Api-Key", "kv-only"))).as_deref(),
        Some("from-kv"),
    );
}

/// A `<site>`-scoped template gives each tenant its own
/// key map, keyed by the CANONICAL site key — so the same presented key is
/// a different credential on a different vhost, and neither tenant can
/// spend the other's.
#[test]
fn a_site_scoped_template_keys_the_map_per_tenant() {
    let store = setup_kv_with(&[
        ("apikey:blog:shared-secret", "blog-consumer"),
        ("apikey:shop:shared-secret", "shop-consumer"),
        ("apikey:blog:blog-only", "blog-consumer"),
    ]);
    let mw = api_key(config(r#"{ "kv_key_template": "apikey:<site>:<key>" }"#));

    let key = hdr("X-Api-Key", "shared-secret");
    assert_eq!(
        consumer_header(&invoke_on(&store, &mw, "blog", "", &key)).as_deref(),
        Some("blog-consumer"),
    );
    assert_eq!(
        consumer_header(&invoke_on(&store, &mw, "shop", "", &key)).as_deref(),
        Some("shop-consumer"),
    );

    // A key that only exists in `blog`'s map is not a credential on `shop`.
    let blog_only = hdr("X-Api-Key", "blog-only");
    assert_eq!(
        consumer_header(&invoke_on(&store, &mw, "blog", "", &blog_only)).as_deref(),
        Some("blog-consumer"),
    );
    assert_401(&invoke_on(&store, &mw, "shop", "", &blog_only), "invalid api key");
}

/// The fail-closed half: a request that matched no virtual
/// host has no tenant identity (`vhost_id()` is `None`), and a site-scoped
/// gate must deny rather than invent one from the `Host` header.
#[test]
fn a_site_scoped_template_fails_closed_on_an_unmatched_host() {
    let store = setup_kv_with(&[
        ("apikey:blog:closed-secret", "blog-consumer"),
        ("apikey::closed-secret", "nope"),
    ]);
    let mw = api_key(config(r#"{ "kv_key_template": "apikey:<site>:<key>" }"#));

    // Sanity: the credential itself is good on the vhost that owns it.
    assert_eq!(
        consumer_header(&invoke_on(&store, &mw, "blog", "", &hdr("X-Api-Key", "closed-secret")))
            .as_deref(),
        Some("blog-consumer"),
    );
    // Empty site key == no vhost matched == `vhost_id() == None`. Denied,
    // and denied as "unknown host" — the store was never asked.
    // Note `apikey::closed-secret` IS seeded: an empty site component is
    // not a bucket this can fall into, it is a refusal to look at all.
    assert_401(&invoke_on(&store, &mw, "", "", &hdr("X-Api-Key", "closed-secret")), "unknown host");
}

/// A template with no `<site>` stays node-wide, and is unaffected by which
/// vhost is serving.
#[test]
fn a_template_without_site_is_node_wide() {
    let store = setup_kv_with(&[("apikey:node-wide-key", "node-wide-consumer")]);
    let mw = api_key(config(r#"{ "kv_key_template": "apikey:<key>" }"#));
    for site in ["blog", "shop", ""] {
        assert_eq!(
            consumer_header(&invoke_on(&store, &mw, site, "", &hdr("X-Api-Key", "node-wide-key")))
                .as_deref(),
            Some("node-wide-consumer"),
            "site {site:?} should reach the node-wide key map",
        );
    }
}

#[test]
fn site_api_key_configuration_is_refused_with_a_reason() {
    for (text, message) in [
        ("{}", "at least one of `keys` or `kv_key_template` must be configured"),
        (r#"{ "header": 1 }"#, "`header` must be a string, got 1"),
        (r#"{ "query_param": 1 }"#, "`query_param` must be a string, got 1"),
        (r#"{ "consumer_header": 1 }"#, "`consumer_header` must be a string, got 1"),
        (r#"{ "keys": "nope" }"#, "`keys` must be an object of key -> consumer-id"),
        (r#"{ "keys": { "": "c" } }"#, "`keys` entries must have a non-empty key"),
        (r#"{ "keys": { "k": 42 } }"#, "`keys[\"k\"]` must be a string consumer-id"),
        (r#"{ "kv_key_template": 1 }"#, "`kv_key_template` must be a string, got 1"),
        (
            r#"{ "kv_key_template": "apikey:" }"#,
            "`kv_key_template` must contain the `<key>` placeholder",
        ),
        (
            r#"{ "keys": {} }"#,
            "at least one of `keys` or `kv_key_template` must be configured",
        ),
    ] {
        assert_eq!(ApiKey::init(&config(text)).err().as_deref(), Some(message), "{text}");
    }
}

#[test]
fn site_api_key_stored_consumers_are_texts() {
    let mw = api_key(config(r#"{ "kv_key_template": "apikey:<key>", "header": "X-K" }"#));
    let resp = mw.finish(Some("konsument-ä".as_bytes().to_vec()));
    assert_eq!(consumer_header(&resp).as_deref(), Some("konsument-ä"));
    assert_401(&mw.finish(Some(Vec::new())), "invalid api key");
    assert_401(&mw.finish(Some(vec![0xFF])), "invalid api key");
    let resp = mw.finish(None);
    assert_401(&resp, "invalid api key");
    assert_eq!(
        resp.headers,
        vec![("WWW-Authenticate".to_owned(), "ApiKey header=\"X-K\"".to_owned())]
    );
}

#[test]
fn site_api_key_template_takes_the_key_literally() {
    let mw = api_key(config(r#"{ "kv_key_template": "a:<key>:<key>" }"#));
    let headers = hdr("X-Api-Key", " <key><site> ");
    match mw.invoke(&request("GET", "/", "", "", "s", &headers)) {
        Step::GetGlobal(key) => assert_eq!(key, "a:<key><site>:<key><site>"),
        other => panic!("unexpected step {other:?}"),
    }
    assert_eq!(mw.match_static(b"x"), None);
}

#[test]
fn a_key_may_stand_before_the_site() {
    let mw = api_key(config(r#"{ "kv_key_template": "apikey:<key>:<site>" }"#));
    let at = |site: &str, key: &str| {
        match mw.match_kv(&request("GET", "/", "", "", site, &[]), key) {
            KvLookup::Read(at) => at,
            other => panic!("unexpected lookup {other:?}"),
        }
    };
    assert_eq!(at("blog", "k"), "apikey:k:blog");
    assert_eq!(at("blog", "<site><key>"), "apikey:<site><key>:blog");
    // One tenant's key and site never make up another's lookup.
    assert_ne!(at("blog", "k:shop"), at("shop", "k:blog"));
    assert_ne!(at("blog", "k:blog"), at("blog", "k"));
}

#[test]
fn nothing_in_a_key_is_taken_for_the_site() {
    let mw = api_key(config(r#"{ "kv_key_template": "apikey:<site>:<key>" }"#));
    let req = request("GET", "/", "", "", "blog", &[]);
    match mw.check(&req, Some("<site>:x".to_owned())) {
        Step::GetGlobal(key) => assert_eq!(key, "apikey:blog:<site>:x"),
        other => panic!("unexpected step {other:?}"),
    }
    assert!(matches!(mw.match_kv(&req, "k"), KvLookup::Read(key) if key == "apikey:blog:k"));
    let lost = request("GET", "/", "", "", "", &hdr("Host", "blog"));
    assert!(matches!(mw.match_kv(&lost, "k"), KvLookup::NoTenant));
    let fixed = api_key(config(r#"{ "keys": { "k": "c" } }"#));
    assert!(matches!(fixed.match_kv(&req, "k"), KvLookup::Miss));
    // A static key needs no tenant.
    assert!(matches!(fixed.check(&lost, Some("k".to_owned())), Step::Done(_)));
}

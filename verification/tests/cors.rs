use ephpm_middleware_modules::cors::Cors;
use ephpm_middleware_modules::http::{Action, Request, Response};
use ephpm_middleware_modules::json::Json;

fn config(text: &str) -> Json {
    Json::parse(text.as_bytes()).expect("valid JSON")
}

fn request(
    method: &str,
    path: &str,
    query: &str,
    ip: &str,
    site: &str,
    headers: &[(String, String)],
) -> Request {
    Request {
        method: method.to_owned(),
        path: path.to_owned(),
        query: query.to_owned(),
        remote_ip: ip.to_owned(),
        site: site.to_owned(),
        headers: headers.to_vec(),
    }
}

fn hdr(name: &str, value: &str) -> (String, String) {
    (name.to_owned(), value.to_owned())
}

fn find<'a>(headers: &'a [(String, String)], name: &str) -> Option<&'a str> {
    headers.iter().find(|(n, _)| n.eq_ignore_ascii_case(name)).map(|(_, v)| v.as_str())
}

fn cors(config: Json) -> Cors {
    Cors::init(&config).expect("init")
}

fn invoke(mw: &Cors, method: &str, headers: &[(String, String)]) -> Response {
    mw.invoke(&request(method, "/api/x", "", "203.0.113.9", "example.test", headers))
}

#[test]
fn init_requires_allow_origins() {
    assert!(Cors::init(&config("null")).is_err());
    assert!(Cors::init(&config(r#"{ "allow_origins": [] }"#)).is_err());
    assert!(Cors::init(&config(r#"{ "allow_origins": "https://a" }"#)).is_err());
}

#[test]
fn no_origin_header_passes_through() {
    let mw = cors(config(r#"{ "allow_origins": ["*"] }"#));
    let resp = invoke(&mw, "GET", &[]);
    assert_eq!(resp.action, Action::Continue);
    assert!(resp.response_headers.is_empty());
}

#[test]
fn disallowed_origin_gets_no_cors_headers() {
    let mw = cors(config(r#"{ "allow_origins": ["https://good.test"] }"#));
    let resp = invoke(&mw, "GET", &[hdr("Origin", "https://evil.test")]);
    assert_eq!(resp.action, Action::Continue);
    assert!(resp.response_headers.is_empty());
}

#[test]
fn allowed_origin_is_echoed_on_actual_request() {
    let mw = cors(config(r#"{ "allow_origins": ["https://good.test"] }"#));
    let resp = invoke(&mw, "GET", &[hdr("Origin", "https://good.test")]);
    assert_eq!(resp.action, Action::Continue);
    let rh = &resp.response_headers;
    assert_eq!(find(rh, "Access-Control-Allow-Origin"), Some("https://good.test"));
    assert_eq!(find(rh, "Vary"), Some("Origin"));
    assert_eq!(find(rh, "Access-Control-Allow-Credentials"), None);
}

#[test]
fn wildcard_origin_without_credentials_is_star() {
    let mw = cors(config(r#"{ "allow_origins": ["*"] }"#));
    let resp = invoke(&mw, "GET", &[hdr("Origin", "https://any.test")]);
    assert_eq!(find(&resp.response_headers, "Access-Control-Allow-Origin"), Some("*"));
}

#[test]
fn wildcard_with_credentials_echoes_the_origin() {
    let mw = cors(config(r#"{ "allow_origins": ["*"], "allow_credentials": true }"#));
    let resp = invoke(&mw, "GET", &[hdr("Origin", "https://any.test")]);
    let rh = &resp.response_headers;
    assert_eq!(find(rh, "Access-Control-Allow-Origin"), Some("https://any.test"));
    assert_eq!(find(rh, "Access-Control-Allow-Credentials"), Some("true"));
}

#[test]
fn preflight_responds_204_with_policy_headers() {
    let mw = cors(config(r#"{ "allow_origins": ["https://good.test"], "max_age": 600 }"#));
    let resp = invoke(
        &mw,
        "OPTIONS",
        &[hdr("Origin", "https://good.test"), hdr("Access-Control-Request-Method", "PUT")],
    );
    assert_eq!(resp.action, Action::Respond);
    assert_eq!(resp.status, 204);
    let h = &resp.headers;
    assert_eq!(find(h, "Access-Control-Allow-Origin"), Some("https://good.test"));
    assert_eq!(find(h, "Access-Control-Allow-Methods"), Some("GET, POST, PUT, PATCH, DELETE, OPTIONS"));
    assert_eq!(find(h, "Access-Control-Allow-Headers"), Some("Content-Type, Authorization"));
    assert_eq!(find(h, "Access-Control-Max-Age"), Some("600"));
    assert_eq!(find(h, "Vary"), Some("Origin"));
}

#[test]
fn options_without_request_method_is_not_a_preflight() {
    let mw = cors(config(r#"{ "allow_origins": ["*"] }"#));
    let resp = invoke(&mw, "OPTIONS", &[hdr("Origin", "https://any.test")]);
    assert_eq!(resp.action, Action::Continue);
}

#[test]
fn preflight_with_credentials_names_the_origin() {
    let mw = cors(config(r#"{ "allow_origins": ["*"], "allow_credentials": true }"#));
    let resp = invoke(
        &mw,
        "options",
        &[hdr("Origin", "https://any.test"), hdr("access-control-request-method", "PUT")],
    );
    assert_eq!(resp.status, 204);
    assert_eq!(find(&resp.headers, "Access-Control-Allow-Origin"), Some("https://any.test"));
    assert_eq!(find(&resp.headers, "Access-Control-Allow-Credentials"), Some("true"));
    assert_eq!(find(&resp.headers, "Access-Control-Max-Age"), Some("86400"));
    assert_eq!(mw.allow_origin_value("https://x"), "https://x");
}

#[test]
fn a_preflight_from_another_origin_is_served() {
    let mw = cors(config(r#"{ "allow_origins": ["https://good.test"] }"#));
    let resp = invoke(
        &mw,
        "OPTIONS",
        &[hdr("Origin", "https://good.test.evil"), hdr("Access-Control-Request-Method", "PUT")],
    );
    assert_eq!(resp.action, Action::Continue);
    assert!(resp.response_headers.is_empty());
}

#[test]
fn cors_configuration_is_refused_with_a_reason() {
    for (text, message) in [
        ("{}", "`allow_origins` is required (array of origins; \"*\" allows all)"),
        (r#"{ "allow_origins": null }"#, "`allow_origins` must be an array, got null"),
        (r#"{ "allow_origins": ["a", 1] }"#, "`allow_origins` entries must be strings, got 1"),
        (r#"{ "allow_origins": [] }"#, "`allow_origins` must not be empty"),
        (
            r#"{ "allow_origins": ["a"], "allow_credentials": "no" }"#,
            "`allow_credentials` must be a boolean, got \"no\"",
        ),
        (
            r#"{ "allow_origins": ["a"], "max_age": -5 }"#,
            "`max_age` must be a non-negative integer, got -5",
        ),
        (
            r#"{ "allow_origins": ["a"], "allow_methods": 1 }"#,
            "`allow_methods` must be a string, got 1",
        ),
        (
            r#"{ "allow_origins": ["a"], "allow_headers": 1 }"#,
            "`allow_headers` must be a string, got 1",
        ),
    ] {
        assert_eq!(Cors::init(&config(text)).err().as_deref(), Some(message), "{text}");
    }
}

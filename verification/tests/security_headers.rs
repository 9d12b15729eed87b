use ephpm_middleware_modules::http::{Action, Request, Response};
use ephpm_middleware_modules::json::Json;
use ephpm_middleware_modules::security_headers::SecurityHeaders;

fn config(text: &str) -> Json {
    Json::parse(text.as_bytes()).expect("valid JSON")
}

fn request(
    method: &str,
    path: &str,
    query: &str,
    ip: &str,
    site: &str,
    headers: &[(String, String)],
) -> Request {
    Request {
        method: method.to_owned(),
        path: path.to_owned(),
        query: query.to_owned(),
        remote_ip: ip.to_owned(),
        site: site.to_owned(),
        headers: headers.to_vec(),
    }
}

fn invoke_with(config: Json) -> Response {
    let mw = SecurityHeaders::init(&config).expect("init");
    mw.invoke(&request("GET", "/index.php", "", "203.0.113.9", "example.test", &[]))
}

fn header_value<'a>(resp: &'a Response, name: &str) -> Option<&'a str> {
    resp.response_headers
        .iter()
        .find(|(n, _)| n.eq_ignore_ascii_case(name))
        .map(|(_, v)| v.as_str())
}

#[test]
fn defaults_emit_four_headers_and_continue() {
    let resp = invoke_with(config("null"));
    assert_eq!(resp.action, Action::Continue);
    assert_eq!(
        header_value(&resp, "Strict-Transport-Security"),
        Some("max-age=63072000; includeSubDomains")
    );
    assert_eq!(header_value(&resp, "X-Frame-Options"), Some("DENY"));
    assert_eq!(header_value(&resp, "X-Content-Type-Options"), Some("nosniff"));
    assert_eq!(header_value(&resp, "Referrer-Policy"), Some("strict-origin-when-cross-origin"));
    assert_eq!(header_value(&resp, "Content-Security-Policy"), None);
    assert_eq!(resp.response_headers.len(), 4);
}

#[test]
fn csp_is_emitted_when_configured() {
    let resp = invoke_with(config(r#"{ "csp": "default-src 'self'" }"#));
    assert_eq!(header_value(&resp, "Content-Security-Policy"), Some("default-src 'self'"));
}

#[test]
fn knobs_disable_individual_headers() {
    let resp = invoke_with(config(r#"{ "hsts": false, "frame_options": "", "content_type_options": false, "referrer_policy": "" }"#));
    assert_eq!(resp.action, Action::Continue);
    assert!(resp.response_headers.is_empty(), "{:?}", resp.response_headers);
}

#[test]
fn frame_options_value_is_respected() {
    let resp = invoke_with(config(r#"{ "frame_options": "SAMEORIGIN" }"#));
    assert_eq!(header_value(&resp, "X-Frame-Options"), Some("SAMEORIGIN"));
}

#[test]
fn wrong_typed_config_fails_init() {
    assert!(SecurityHeaders::init(&config(r#"{ "hsts": "yes" }"#)).is_err());
    assert!(SecurityHeaders::init(&config(r#"{ "csp": 42 }"#)).is_err());
}

#[test]
fn security_headers_configuration_is_refused_with_a_reason() {
    for (text, message) in [
        (r#"{ "hsts": 1 }"#, "`hsts` must be a boolean, got 1"),
        (r#"{ "csp": 42 }"#, "`csp` must be a string, got 42"),
        (r#"{ "frame_options": 1 }"#, "`frame_options` must be a string, got 1"),
        (r#"{ "content_type_options": 1 }"#, "`content_type_options` must be a boolean, got 1"),
        (r#"{ "referrer_policy": 1 }"#, "`referrer_policy` must be a string, got 1"),
    ] {
        assert_eq!(SecurityHeaders::init(&config(text)).err().as_deref(), Some(message), "{text}");
    }
}

#[test]
fn an_empty_policy_text_disables_its_header() {
    let resp = invoke_with(config(r#"{ "csp": "", "referrer_policy": "no-referrer" }"#));
    assert_eq!(header_value(&resp, "Content-Security-Policy"), None);
    assert_eq!(header_value(&resp, "Referrer-Policy"), Some("no-referrer"));
    assert!(resp.headers.is_empty());
}

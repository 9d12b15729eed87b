use ephpm_middleware_modules::header_transform::HeaderTransform;
use ephpm_middleware_modules::http::{Action, Reply, Request, Response, ResponseView};
use ephpm_middleware_modules::json::Json;

fn config(text: &str) -> Json {
    Json::parse(text.as_bytes()).expect("valid JSON")
}

fn request(
    method: &str,
    path: &str,
    query: &str,
    ip: &str,
    site: &str,
    headers: &[(String, String)],
) -> Request {
    Request {
        method: method.to_owned(),
        path: path.to_owned(),
        query: query.to_owned(),
        remote_ip: ip.to_owned(),
        site: site.to_owned(),
        headers: headers.to_vec(),
    }
}

fn hdr(name: &str, value: &str) -> (String, String) {
    (name.to_owned(), value.to_owned())
}

fn get<'a>(headers: &'a [(String, String)], name: &str) -> Option<&'a str> {
    headers.iter().find(|(n, _)| n.eq_ignore_ascii_case(name)).map(|(_, v)| v.as_str())
}

fn init(config: Json) -> HeaderTransform {
    HeaderTransform::init(&config).expect("init")
}

fn invoke(mw: &HeaderTransform) -> Response {
    mw.invoke(&request("GET", "/index.php", "", "203.0.113.9", "example.test", &[]))
}

fn invoke_response(
    mw: &HeaderTransform,
    resp_headers: Vec<(String, String)>,
) -> Vec<(String, String)> {
    let req = request("GET", "/", "", "203.0.113.9", "example.test", &[]);
    let mut view =
        ResponseView::new(Reply { status: 200, headers: resp_headers, body: b"body".to_vec() });
    mw.invoke_response(&req, &mut view);
    view.apply().headers
}

// ── request phase ─────────────────────────────────────────────────────

#[test]
fn request_set_injects_headers() {
    let mw = init(config(r#"{ "request": { "set": { "X-Env": "prod", "X-Tenant": "acme" } } }"#));
    let resp = invoke(&mw);
    assert_eq!(resp.action, Action::Rewrite);
    assert_eq!(get(&resp.headers, "X-Env"), Some("prod"));
    assert_eq!(get(&resp.headers, "X-Tenant"), Some("acme"));
}

#[test]
fn no_request_config_continues() {
    let mw = init(config(r#"{ "response": { "set": { "X-A": "b" } } }"#));
    assert_eq!(invoke(&mw).action, Action::Continue);
}

// ── response phase ────────────────────────────────────────────────────

#[test]
fn response_set_replaces_or_adds() {
    let mw = init(config(r#"{ "response": { "set": { "X-Served-By": "ephpm", "Content-Type": "text/plain" } } }"#));
    let out = invoke_response(&mw, vec![hdr("Content-Type", "text/html")]);
    assert_eq!(get(&out, "X-Served-By"), Some("ephpm"));
    // Replace, not duplicate.
    assert_eq!(get(&out, "Content-Type"), Some("text/plain"));
    assert_eq!(out.iter().filter(|(n, _)| n.eq_ignore_ascii_case("Content-Type")).count(), 1);
}

#[test]
fn response_remove_deletes() {
    let mw = init(config(r#"{ "response": { "remove": ["Server", "X-Powered-By"] } }"#));
    let out = invoke_response(
        &mw,
        vec![hdr("Server", "nginx"), hdr("X-Powered-By", "PHP/8.5"), hdr("X-Keep", "1")],
    );
    assert_eq!(get(&out, "Server"), None);
    assert_eq!(get(&out, "X-Powered-By"), None);
    assert_eq!(get(&out, "X-Keep"), Some("1"));
}

#[test]
fn remove_then_set_same_header_nets_set() {
    let mw = init(config(r#"{ "response": { "set": { "Server": "ephpm" }, "remove": ["Server"] } }"#));
    let out = invoke_response(&mw, vec![hdr("Server", "nginx")]);
    assert_eq!(get(&out, "Server"), Some("ephpm"));
    assert_eq!(out.iter().filter(|(n, _)| n.eq_ignore_ascii_case("Server")).count(), 1);
}

// ── config validation ─────────────────────────────────────────────────

#[test]
fn request_remove_is_rejected() {
    assert!(
        HeaderTransform::init(&config(r#"{ "request": { "remove": ["X-Foo"] } }"#))
        .is_err()
    );
}

#[test]
fn bad_config_fails_init() {
    assert!(
        HeaderTransform::init(&config(r#"{ "request": { "set": { "X": 1 } } }"#))
            .is_err()
    );
    assert!(
        HeaderTransform::init(&config(r#"{ "response": { "remove": [42] } }"#)).is_err()
    );
    assert!(HeaderTransform::init(&config(r#"{ "request": "nope" }"#)).is_err());
    assert!(HeaderTransform::init(&config(r#"{ "response": { "set": [] } }"#)).is_err());
}

#[test]
fn empty_config_is_a_noop() {
    let mw = init(config("null"));
    assert_eq!(invoke(&mw).action, Action::Continue);
    let out = invoke_response(&mw, vec![hdr("X-A", "b")]);
    assert_eq!(get(&out, "X-A"), Some("b"));
}

#[test]
fn header_transform_configuration_is_refused_with_a_reason() {
    for (text, message) in [
        (r#"{ "request": 1 }"#, "`request` must be an object, got 1"),
        (r#"{ "response": [] }"#, "`response` must be an object, got []"),
        (
            r#"{ "request": { "remove": [] } }"#,
            "`request.remove` is not supported: the v1 ABI request phase can only set/override request headers, not delete them",
        ),
        (
            r#"{ "request": { "set": { "": "x" } } }"#,
            "`request.set` has an empty header name",
        ),
        (
            r#"{ "request": { "set": { "X": 1 } } }"#,
            "`request.set` values must be strings, got 1 for `X`",
        ),
        (r#"{ "response": { "set": [] } }"#, "`response.set` must be an object, got []"),
        (
            r#"{ "response": { "remove": [42] } }"#,
            "`response.remove` entries must be strings, got 42",
        ),
        (
            r#"{ "response": { "remove": [""] } }"#,
            "`response.remove` has an empty header name",
        ),
        (r#"{ "response": { "remove": {} } }"#, "`response.remove` must be an array, got {}"),
    ] {
        assert_eq!(HeaderTransform::init(&config(text)).err().as_deref(), Some(message), "{text}");
    }
    // A null is as good as nothing.
    assert!(HeaderTransform::init(&config(r#"{ "request": { "remove": null } }"#)).is_ok());
}

#[test]
fn other_headers_stay_and_names_match_in_any_case() {
    let mw = init(config(
        r#"{ "response": { "set": { "x-a": "new" }, "remove": ["SERVER", "x-gone"] } }"#,
    ));
    let out = invoke_response(
        &mw,
        vec![hdr("Server", "s"), hdr("X-A", "1"), hdr("X-A", "2"), hdr("X-Keep", "k")],
    );
    assert_eq!(out, vec![hdr("X-Keep", "k"), hdr("x-a", "new")]);
}

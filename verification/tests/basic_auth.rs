use base64ct::{Base64, Encoding};
use ephpm_middleware_modules::basic_auth::BasicAuth;
use ephpm_middleware_modules::credential::ct_eq;
use ephpm_middleware_modules::http::{Action, Request, Response};
use ephpm_middleware_modules::json::Json;

fn config(text: &str) -> Json {
    Json::parse(text.as_bytes()).expect("valid JSON")
}

fn request(
    method: &str,
    path: &str,
    query: &str,
    ip: &str,
    site: &str,
    headers: &[(String, String)],
) -> Request {
    Request {
        method: method.to_owned(),
        path: path.to_owned(),
        query: query.to_owned(),
        remote_ip: ip.to_owned(),
        site: site.to_owned(),
        headers: headers.to_vec(),
    }
}

fn basic_auth(config: Json) -> BasicAuth {
    BasicAuth::init(&config).expect("init")
}

/// A ready-to-send `Authorization: Basic` header for `user:pass`.
fn basic(user: &str, pass: &str) -> Vec<(String, String)> {
    let token = Base64::encode_string(format!("{user}:{pass}").as_bytes());
    vec![("Authorization".to_owned(), format!("Basic {token}"))]
}

fn invoke_path(mw: &BasicAuth, path: &str, headers: &[(String, String)]) -> Response {
    mw.invoke(&request("GET", path, "", "203.0.113.9", "preview.example", headers))
}

fn invoke(mw: &BasicAuth, headers: &[(String, String)]) -> Response {
    invoke_path(mw, "/index.php", headers)
}

fn assert_challenge(resp: &Response) {
    assert_eq!(resp.action, Action::Respond, "unauthenticated must short-circuit");
    assert_eq!(resp.status, 401);
    let challenge = resp
        .headers
        .iter()
        .find(|(n, _)| n.eq_ignore_ascii_case("WWW-Authenticate"))
        .map(|(_, v)| v.as_str());
    assert!(challenge.is_some_and(|c| c.starts_with("Basic realm=")), "401 must challenge");
}

fn forwarded_user(resp: &Response, header: &str) -> Option<String> {
    resp.headers
        .iter()
        .find(|(n, _)| n.eq_ignore_ascii_case(header))
        .map(|(_, v)| v.clone())
}

// ── config ────────────────────────────────────────────────────────────

#[test]
fn init_requires_a_non_empty_users_table() {
    assert!(BasicAuth::init(&config(r#"{}"#)).is_err());
    assert!(BasicAuth::init(&config(r#"{ "users": {} }"#)).is_err());
    assert!(BasicAuth::init(&config(r#"{ "users": "nope" }"#)).is_err());
    // A password must be a string; a username may not contain `:`.
    assert!(BasicAuth::init(&config(r#"{ "users": { "a": 1 } }"#)).is_err());
    assert!(BasicAuth::init(&config(r#"{ "users": { "a:b": "x" } }"#)).is_err());
    assert!(BasicAuth::init(&config(r#"{ "users": { "a": "secret" } }"#)).is_ok());
}

#[test]
fn init_rejects_a_dangerous_realm() {
    // A `"` or `\` would break out of the quoted WWW-Authenticate value.
    for bad in ["a\"b", "a\\b", "a\nb"] {
        let realm = serde_json::Value::from(bad);
        let cfg = config(&format!(r#"{{ "users": {{ "u": "p" }}, "realm": {realm} }}"#));
        assert!(BasicAuth::init(&cfg).is_err(), "{bad:?} must be rejected");
    }
    let cfg = config(r#"{ "users": { "u": "p" }, "realm": "Preview PR-42" }"#);
    assert_eq!(BasicAuth::init(&cfg).expect("init").realm, "Preview PR-42");
}

#[test]
fn realm_defaults_and_appears_in_the_challenge() {
    let mw = basic_auth(config(r#"{ "users": { "u": "p" } }"#));
    assert_eq!(mw.realm, "Restricted");
    let challenge = mw
        .challenge()
        .headers
        .iter()
        .find(|(n, _)| n == "WWW-Authenticate")
        .map(|(_, v)| v.clone())
        .expect("challenge header");
    assert_eq!(challenge, "Basic realm=\"Restricted\", charset=\"UTF-8\"");
}

// ── the happy path ────────────────────────────────────────────────────

#[test]
fn valid_credentials_continue_to_php() {
    let mw = basic_auth(config(r#"{ "users": { "alice": "s3cret" } }"#));
    assert_eq!(invoke(&mw, &basic("alice", "s3cret")).action, Action::Continue);
}

#[test]
fn valid_credentials_forward_the_username_when_configured() {
    let mw = basic_auth(config(r#"{ "users": { "alice": "s3cret" }, "forward_user_header": "X-Auth-User" }"#));
    let resp = invoke(&mw, &basic("alice", "s3cret"));
    assert_eq!(resp.action, Action::Rewrite);
    assert_eq!(forwarded_user(&resp, "X-Auth-User").as_deref(), Some("alice"));
}

#[test]
fn one_of_several_configured_users_authenticates() {
    let mw = basic_auth(config(r#"{ "users": { "alice": "a-pass", "bob": "b-pass" } }"#));
    assert_eq!(invoke(&mw, &basic("bob", "b-pass")).action, Action::Continue);
}

// ── the rejection paths ───────────────────────────────────────────────

#[test]
fn missing_authorization_is_challenged() {
    assert_challenge(&invoke(&basic_auth(config(r#"{ "users": { "u": "p" } }"#)), &[]));
}

#[test]
fn wrong_password_and_unknown_user_are_challenged() {
    let mw = basic_auth(config(r#"{ "users": { "alice": "s3cret" } }"#));
    assert_challenge(&invoke(&mw, &basic("alice", "wrong")));
    assert_challenge(&invoke(&mw, &basic("mallory", "s3cret")));
    // A right password under the wrong username must not authenticate.
    assert_challenge(&invoke(&mw, &basic("bob", "s3cret")));
}

#[test]
fn a_non_basic_or_malformed_authorization_is_challenged() {
    let mw = basic_auth(config(r#"{ "users": { "u": "p" } }"#));
    for header in [
        ("Authorization", "Bearer sometoken"),    // wrong scheme
        ("Authorization", "Basic"),               // no credential
        ("Authorization", "Basic !!!not-base64"), // undecodable
        ("Authorization", ""),                    // empty
    ] {
        let h = vec![(header.0.to_owned(), header.1.to_owned())];
        assert_challenge(&invoke(&mw, &h));
    }
}

#[test]
fn the_scheme_token_is_case_insensitive() {
    // RFC 7235: `basic`, `BASIC`, `Basic` are the same scheme.
    let mw = basic_auth(config(r#"{ "users": { "u": "p" } }"#));
    let token = Base64::encode_string(b"u:p");
    for scheme in ["basic", "BASIC", "BaSiC"] {
        let h = vec![("Authorization".to_owned(), format!("{scheme} {token}"))];
        assert_eq!(invoke(&mw, &h).action, Action::Continue, "scheme {scheme}");
    }
}

// ── the guard covers static assets, not only scripts ───────────────────

#[test]
fn a_static_asset_is_challenged_before_it_is_read() {
    // The request phase runs on the static-file path too, before the file
    // is opened. An unauthenticated request for a static asset must get the
    // 401 challenge — the module is blind to whether the target is a script
    // or a static byte, so the bytes on disk are never served.
    let mw = basic_auth(config(r#"{ "users": { "u": "p" } }"#));
    for asset in ["/assets/app.js", "/css/site.css", "/uploads/private.pdf", "/favicon.ico"] {
        assert_challenge(&invoke_path(&mw, asset, &[]));
        // ...and a valid credential lets the same asset through.
        assert_eq!(
            invoke_path(&mw, asset, &basic("u", "p")).action,
            Action::Continue,
            "{asset}: an authenticated request continues to the static file",
        );
    }
}

#[test]
fn lib_ct_eq_is_correct() {
    assert!(ct_eq(b"user:pass", b"user:pass"));
    assert!(!ct_eq(b"user:pass", b"user:pasZ"));
    assert!(!ct_eq(b"user:pass", b"user:pas")); // length mismatch
    assert!(ct_eq(b"", b""));
}

#[test]
fn the_right_credential_belongs_to_one_user() {
    let mw = basic_auth(config(r#"{ "users": { "a": "b:c", "a2": "c" } }"#));
    assert_eq!(mw.authenticate(b"a:b:c"), Some("a"));
    assert_eq!(mw.authenticate(b"a2:c"), Some("a2"));
    assert_eq!(mw.authenticate(b"a:b"), None);
    assert_eq!(mw.authenticate(b""), None);
    assert_eq!(mw.respond(Some(b"a2:c".to_vec())).action, Action::Continue);
    assert_challenge(&mw.respond(None));
}

#[test]
fn a_credential_is_decoded_before_it_is_compared() {
    let headers = vec![("authorization".to_owned(), "Basic  dTpw ".to_owned())];
    let req = request("GET", "/", "", "", "", &headers);
    assert_eq!(BasicAuth::presented(&req), Some(b"u:p".to_vec()));
    // The plain credential is none.
    let headers = vec![("Authorization".to_owned(), "Basic u:p".to_owned())];
    assert_eq!(BasicAuth::presented(&request("GET", "/", "", "", "", &headers)), None);
    // Padding is part of the notation.
    let headers = vec![("Authorization".to_owned(), "Basic dTpwcA".to_owned())];
    assert_eq!(BasicAuth::presented(&request("GET", "/", "", "", "", &headers)), None);
    let headers = vec![("Authorization".to_owned(), "Basic dTpwcA==".to_owned())];
    assert_eq!(
        BasicAuth::presented(&request("GET", "/", "", "", "", &headers)),
        Some(b"u:pp".to_vec())
    );
}

#[test]
fn a_realm_holds_no_control_character() {
    for code in 0..0x250u32 {
        let c = char::from_u32(code).expect("a character");
        let realm = format!("a\\u{code:04x}b");
        let text = format!(r#"{{ "users": {{ "u": "p" }}, "realm": "{realm}" }}"#);
        let refused = c == '"' || c == '\\' || c.is_control();
        assert_eq!(BasicAuth::init(&config(&text)).is_err(), refused, "{code:x}");
    }
}

#[test]
fn basic_auth_configuration_is_refused_with_a_reason() {
    let users = "`users` is required and must be an object of username -> password";
    for (text, message) in [
        ("{}", users),
        (r#"{ "users": null }"#, users),
        (r#"{ "users": [] }"#, users),
        (r#"{ "users": {} }"#, "`users` must have at least one entry"),
        (
            r#"{ "users": { "": "x" } }"#,
            "username \"\" is invalid (empty, or contains `:` — the Basic credential separator)",
        ),
        (
            r#"{ "users": { "a:\t": "x" } }"#,
            "username \"a:\\t\" is invalid (empty, or contains `:` — the Basic credential separator)",
        ),
        (r#"{ "users": { "a": 1 } }"#, "`users[\"a\"]` must be a string password"),
        (
            r#"{ "users": { "a": "x" }, "realm": "" }"#,
            "`realm` must be a non-empty string, got \"\"",
        ),
        (
            r#"{ "users": { "a": "x" }, "realm": 1 }"#,
            "`realm` must be a non-empty string, got 1",
        ),
        (
            r#"{ "users": { "a": "x" }, "realm": "\u007f" }"#,
            "`realm` must not contain `\"`, `\\`, or control characters",
        ),
        (
            r#"{ "users": { "a": "x" }, "forward_user_header": "" }"#,
            "`forward_user_header` must be a non-empty string, got \"\"",
        ),
    ] {
        assert_eq!(BasicAuth::init(&config(text)).err().as_deref(), Some(message), "{text}");
    }
    assert_eq!(BasicAuth::describe(), "basic-auth (HTTP Basic whole-site gate)");
}

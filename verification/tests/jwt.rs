use base64ct::{Base64UrlUnpadded, Encoding};
use ephpm_middleware_modules::http::{Action, Request, Response};
use ephpm_middleware_modules::json::Json;
use ephpm_middleware_modules::jwt::{strip_bearer, Jwt};
use hmac::{Hmac, Mac};
use sha2::Sha256;
use std::time::{SystemTime, UNIX_EPOCH};

fn config(text: &str) -> Json {
    Json::parse(text.as_bytes()).expect("valid JSON")
}

fn request(
    method: &str,
    path: &str,
    query: &str,
    ip: &str,
    site: &str,
    headers: &[(String, String)],
) -> Request {
    Request {
        method: method.to_owned(),
        path: path.to_owned(),
        query: query.to_owned(),
        remote_ip: ip.to_owned(),
        site: site.to_owned(),
        headers: headers.to_vec(),
    }
}

const SECRET: &str = "test-secret-please-rotate";

/// Forges a token with the HMAC code itself, apart from the parsing under test.
fn sign(secret: &str, header_json: &str, claims_json: &str) -> String {
    let h = Base64UrlUnpadded::encode_string(header_json.as_bytes());
    let p = Base64UrlUnpadded::encode_string(claims_json.as_bytes());
    let mut mac = Hmac::<Sha256>::new_from_slice(secret.as_bytes()).expect("hmac key");
    mac.update(format!("{h}.{p}").as_bytes());
    let sig = Base64UrlUnpadded::encode_string(&mac.finalize().into_bytes());
    format!("{h}.{p}.{sig}")
}

fn token(secret: &str, claims_json: &str) -> String {
    sign(secret, r#"{"alg":"HS256","typ":"JWT"}"#, claims_json)
}

fn now() -> u64 {
    SystemTime::now().duration_since(UNIX_EPOCH).expect("clock").as_secs()
}

fn future_exp() -> u64 {
    now() + 3600
}

fn jwt(config: Json) -> Jwt {
    Jwt::init(&config).expect("init")
}

fn invoke(mw: &Jwt, headers: &[(String, String)]) -> Response {
    mw.invoke(&request("GET", "/api/x", "", "203.0.113.9", "example.test", headers), now())
}

fn bearer(token: &str) -> Vec<(String, String)> {
    vec![("Authorization".to_owned(), format!("Bearer {token}"))]
}

fn assert_401(resp: &Response, body: &str) {
    assert_eq!(resp.action, Action::Respond);
    assert_eq!(resp.status, 401);
    assert_eq!(resp.body.as_slice(), body.as_bytes());
}

#[test]
fn init_requires_secret() {
    assert!(Jwt::init(&config("null")).is_err());
    assert!(Jwt::init(&config(r#"{ "secret": "" }"#)).is_err());
    assert!(Jwt::init(&config(r#"{ "secret": 42 }"#)).is_err());
}

#[test]
fn valid_token_continues() {
    let mw = jwt(config(&format!(r#"{{ "secret": "{SECRET}" }}"#)));
    let t = token(SECRET, &format!(r#"{{"sub":"u1","exp":{}}}"#, future_exp()));
    let resp = invoke(&mw, &bearer(&t));
    assert_eq!(resp.action, Action::Continue);
}

#[test]
fn float_exp_and_nbf_are_accepted() {
    // RFC 7519 NumericDate allows non-integer values. A JSON float exp
    // (and nbf) in the future must not be spuriously rejected.
    let mw = jwt(config(&format!(r#"{{ "secret": "{SECRET}" }}"#)));
    let exp = future_exp();
    let claims = format!(r#"{{"sub":"u1","exp":{exp}.75,"nbf":{}.5}}"#, exp - 3700);
    let resp = invoke(&mw, &bearer(&token(SECRET, &claims)));
    assert_eq!(resp.action, Action::Continue, "float exp/nbf must be honoured");

    // An expired float exp is still rejected (floor keeps enforcement).
    let expired = token(SECRET, r#"{"sub":"u1","exp":1000.9}"#);
    assert_401(&invoke(&mw, &bearer(&expired)), "invalid token");
}

#[test]
fn valid_token_with_claims_header_rewrites() {
    let mw = jwt(config(&format!(r#"{{ "secret": "{SECRET}", "claims_header": "X-Jwt-Claims" }}"#)));
    let claims = format!(r#"{{"sub":"u1","exp":{}}}"#, future_exp());
    let resp = invoke(&mw, &bearer(&token(SECRET, &claims)));
    assert_eq!(resp.action, Action::Rewrite);
    let forwarded =
        resp.headers.iter().find(|(n, _)| n == "X-Jwt-Claims").map(|(_, v)| v.as_str());
    assert_eq!(forwarded, Some(claims.as_str()));
}

#[test]
fn missing_header_is_401() {
    let mw = jwt(config(&format!(r#"{{ "secret": "{SECRET}" }}"#)));
    assert_401(&invoke(&mw, &[]), "missing bearer token");
    assert_401(&invoke(&mw, &bearer("")), "missing bearer token");
}

#[test]
fn bad_signature_is_401() {
    let mw = jwt(config(&format!(r#"{{ "secret": "{SECRET}" }}"#)));
    let t = token("wrong-secret", &format!(r#"{{"exp":{}}}"#, future_exp()));
    assert_401(&invoke(&mw, &bearer(&t)), "invalid token");
}

#[test]
fn malformed_token_is_401() {
    let mw = jwt(config(&format!(r#"{{ "secret": "{SECRET}" }}"#)));
    assert_401(&invoke(&mw, &bearer("not-a-jwt")), "invalid token");
    assert_401(&invoke(&mw, &bearer("a.b.c.d")), "invalid token");
}

#[test]
fn expired_or_missing_exp_is_401() {
    let mw = jwt(config(&format!(r#"{{ "secret": "{SECRET}" }}"#)));
    assert_401(&invoke(&mw, &bearer(&token(SECRET, r#"{"exp":1000}"#))), "invalid token");
    assert_401(&invoke(&mw, &bearer(&token(SECRET, r#"{"sub":"u1"}"#))), "invalid token");
}

#[test]
fn nbf_is_honoured() {
    let mw = jwt(config(&format!(r#"{{ "secret": "{SECRET}" }}"#)));
    let exp = future_exp(); // now + 3600
    // nbf in the past: valid.
    let past = token(SECRET, &format!(r#"{{"exp":{exp},"nbf":{}}}"#, exp - 3700));
    assert_eq!(invoke(&mw, &bearer(&past)).action, Action::Continue);
    // nbf still in the future: rejected.
    let future = token(SECRET, &format!(r#"{{"exp":{exp},"nbf":{exp}}}"#));
    assert_401(&invoke(&mw, &bearer(&future)), "invalid token");
}

#[test]
fn wrong_issuer_is_401() {
    let mw = jwt(config(&format!(r#"{{ "secret": "{SECRET}", "issuer": "auth.example" }}"#)));
    let exp = future_exp();
    let good = token(SECRET, &format!(r#"{{"exp":{exp},"iss":"auth.example"}}"#));
    assert_eq!(invoke(&mw, &bearer(&good)).action, Action::Continue);
    let bad = token(SECRET, &format!(r#"{{"exp":{exp},"iss":"evil.example"}}"#));
    assert_401(&invoke(&mw, &bearer(&bad)), "invalid token");
    let none = token(SECRET, &format!(r#"{{"exp":{exp}}}"#));
    assert_401(&invoke(&mw, &bearer(&none)), "invalid token");
}

#[test]
fn audience_string_or_array_is_enforced() {
    let mw = jwt(config(&format!(r#"{{ "secret": "{SECRET}", "audience": "api" }}"#)));
    let exp = future_exp();
    let s = token(SECRET, &format!(r#"{{"exp":{exp},"aud":"api"}}"#));
    assert_eq!(invoke(&mw, &bearer(&s)).action, Action::Continue);
    let arr = token(SECRET, &format!(r#"{{"exp":{exp},"aud":["web","api"]}}"#));
    assert_eq!(invoke(&mw, &bearer(&arr)).action, Action::Continue);
    let bad = token(SECRET, &format!(r#"{{"exp":{exp},"aud":"web"}}"#));
    assert_401(&invoke(&mw, &bearer(&bad)), "invalid token");
}

#[test]
fn alg_none_is_rejected_even_with_valid_hmac() {
    let mw = jwt(config(&format!(r#"{{ "secret": "{SECRET}" }}"#)));
    let t = sign(SECRET, r#"{"alg":"none"}"#, &format!(r#"{{"exp":{}}}"#, future_exp()));
    assert_401(&invoke(&mw, &bearer(&t)), "invalid token");
}

#[test]
fn custom_header_without_bearer_prefix_works() {
    let mw = jwt(config(&format!(r#"{{ "secret": "{SECRET}", "header": "X-Auth-Token" }}"#)));
    let t = token(SECRET, &format!(r#"{{"exp":{}}}"#, future_exp()));
    let resp = invoke(&mw, &[("X-Auth-Token".to_owned(), t)]);
    assert_eq!(resp.action, Action::Continue);
}

#[test]
fn the_bearer_prefix_is_optional() {
    assert_eq!(strip_bearer("Bearer abc"), "abc");
    assert_eq!(strip_bearer("  bEaReR    abc  "), "abc");
    assert_eq!(strip_bearer("Bearer"), "");
    assert_eq!(strip_bearer("Bearerabc"), "Bearerabc");
    assert_eq!(strip_bearer("Bearer\tabc"), "Bearer\tabc");
    assert_eq!(strip_bearer("abc"), "abc");
    assert_eq!(strip_bearer("ééé x"), "ééé x");
    assert_eq!(strip_bearer(""), "");
}

#[test]
fn a_token_is_valid_from_nbf_until_exp() {
    let mw = jwt(config(&format!(r#"{{ "secret": "{SECRET}" }}"#)));
    let claims = r#"{"exp":2000,"nbf":1000.5}"#;
    let t = token(SECRET, claims);
    assert_eq!(mw.verify(&t, 999), None);
    assert_eq!(mw.verify(&t, 1000).as_deref(), Some(claims));
    assert_eq!(mw.verify(&t, 1999).as_deref(), Some(claims));
    assert_eq!(mw.verify(&t, 2000), None);
    assert_eq!(mw.verify(&t, u64::MAX), None);
}

#[test]
fn a_change_in_any_part_breaks_the_token() {
    let mw = jwt(config(&format!(r#"{{ "secret": "{SECRET}" }}"#)));
    let t = token(SECRET, r#"{"exp":2000}"#);
    let other = token(SECRET, r#"{"exp":3000}"#);
    let a: Vec<&str> = t.split('.').collect();
    let b: Vec<&str> = other.split('.').collect();
    assert!(mw.verify(&t, 0).is_some());
    assert_eq!(mw.verify(&format!("{}.{}.{}", a[0], b[1], a[2]), 0), None);
    assert_eq!(mw.verify(&format!("{}.{}.{}", a[0], a[1], b[2]), 0), None);
    assert_eq!(mw.verify(&format!("{}.{}.", a[0], a[1]), 0), None);
    assert_eq!(mw.verify(&format!("{}.{}", a[0], a[1]), 0), None);
    assert_eq!(mw.verify(&format!("{t}="), 0), None);
}

#[test]
fn claims_decide_once_the_signature_holds() {
    let mw = jwt(config(r#"{ "secret": "s", "issuer": "me", "audience": "api" }"#));
    let hs = config(r#"{ "alg": "HS256" }"#);
    let good = config(r#"{ "exp": 10, "iss": "me", "aud": ["x", "api"] }"#);
    assert!(mw.accept(&hs, &good, 9));
    assert!(!mw.accept(&hs, &good, 10));
    for header in [r#"{ "alg": "hs256" }"#, r#"{ "alg": 5 }"#, "{}", "[]"] {
        assert!(!mw.accept(&config(header), &good, 9), "{header}");
    }
    for claims in [
        r#"{ "exp": "10", "iss": "me", "aud": "api" }"#,
        r#"{ "iss": "me", "aud": "api" }"#,
        r#"{ "exp": -1, "iss": "me", "aud": "api" }"#,
        r#"{ "exp": 10, "nbf": null, "iss": "me", "aud": "api" }"#,
        r#"{ "exp": 10, "nbf": 10, "iss": "me", "aud": "api" }"#,
        r#"{ "exp": 10, "iss": ["me"], "aud": "api" }"#,
        r#"{ "exp": 10, "iss": "me", "aud": ["apis"] }"#,
        r#"{ "exp": 10, "iss": "me", "aud": { "api": 1 } }"#,
        r#"{ "exp": 10, "iss": "me" }"#,
    ] {
        assert!(!mw.accept(&hs, &config(claims), 9), "{claims}");
    }
    assert_eq!(mw.respond(Some("{}".to_owned())).action, Action::Continue);
    assert_401(&mw.respond(None), "invalid token");
}

#[test]
fn jwt_configuration_is_refused_with_a_reason() {
    for (text, message) in [
        ("{}", "`secret` is required (HS256 shared secret)"),
        (r#"{ "secret": null }"#, "`secret` must be a string"),
        (r#"{ "secret": "" }"#, "`secret` must not be empty"),
        (r#"{ "secret": "s", "issuer": 1 }"#, "`issuer` must be a string, got 1"),
        (r#"{ "secret": "s", "audience": 1 }"#, "`audience` must be a string, got 1"),
        (r#"{ "secret": "s", "header": 1 }"#, "`header` must be a string, got 1"),
        (r#"{ "secret": "s", "claims_header": 1 }"#, "`claims_header` must be a string, got 1"),
    ] {
        assert_eq!(Jwt::init(&config(text)).err().as_deref(), Some(message), "{text}");
    }
    // Empty texts count as unset.
    let mw = jwt(config(r#"{ "secret": "s", "issuer": "", "header": "" }"#));
    assert_eq!(mw.issuer, None);
    assert_eq!(mw.header, "Authorization");
}

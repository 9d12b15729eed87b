use ephpm_middleware_modules::http::{Action, Request, Response};
use ephpm_middleware_modules::json::Json;
use ephpm_middleware_modules::redirect::{
    has_www_prefix, last_segment_has_dot, split_host, strip_www_prefix, Redirect,
};

fn config(text: &str) -> Json {
    Json::parse(text.as_bytes()).expect("valid JSON")
}

fn request(
    method: &str,
    path: &str,
    query: &str,
    ip: &str,
    site: &str,
    headers: &[(String, String)],
) -> Request {
    Request {
        method: method.to_owned(),
        path: path.to_owned(),
        query: query.to_owned(),
        remote_ip: ip.to_owned(),
        site: site.to_owned(),
        headers: headers.to_vec(),
    }
}

fn hdr(name: &str, value: &str) -> (String, String) {
    (name.to_owned(), value.to_owned())
}

fn redirect(config: Json) -> Redirect {
    Redirect::init(&config).expect("init")
}

fn invoke(
    mw: &Redirect,
    method: &str,
    path: &str,
    query: &str,
    headers: &[(String, String)],
) -> Response {
    mw.invoke(&request(method, path, query, "203.0.113.9", "example.test", headers))
}

fn location(resp: &Response) -> Option<&str> {
    resp.headers
        .iter()
        .find(|(n, _)| n.eq_ignore_ascii_case("Location"))
        .map(|(_, v)| v.as_str())
}

// ── force_https ────────────────────────────────────────────────────────

#[test]
fn force_https_redirects_http_to_https() {
    let mw = redirect(config(r#"{ "force_https": true }"#));
    let resp = invoke(&mw, "GET", "/page", "", &[hdr("Host", "example.com")]);
    assert_eq!(resp.action, Action::Respond);
    assert_eq!(resp.status, 308);
    assert_eq!(location(&resp), Some("https://example.com/page"));
}

#[test]
fn force_https_is_a_noop_when_already_https() {
    let mw = redirect(config(r#"{ "force_https": true }"#));
    let resp = invoke(
        &mw,
        "GET",
        "/page",
        "",
        &[hdr("Host", "example.com"), hdr("X-Forwarded-Proto", "https")],
    );
    assert_eq!(resp.action, Action::Continue);
}

#[test]
fn scheme_read_from_first_forwarded_proto_value() {
    let mw = redirect(config(r#"{ "force_https": true }"#));
    // A list "https, http" means the edge saw https — no redirect.
    let resp = invoke(
        &mw,
        "GET",
        "/",
        "",
        &[hdr("Host", "example.com"), hdr("X-Forwarded-Proto", "https, http")],
    );
    assert_eq!(resp.action, Action::Continue);
}

#[test]
fn custom_forwarded_proto_header_is_honored() {
    let mw = redirect(config(r#"{ "force_https": true, "forwarded_proto_header": "X-Scheme" }"#));
    let resp =
        invoke(&mw, "GET", "/", "", &[hdr("Host", "example.com"), hdr("X-Scheme", "https")]);
    assert_eq!(resp.action, Action::Continue);
}

// ── canonical host ─────────────────────────────────────────────────────

#[test]
fn www_to_apex() {
    let mw = redirect(config(r#"{ "canonical_host": "apex" }"#));
    let resp = invoke(&mw, "GET", "/p", "", &[hdr("Host", "www.example.com")]);
    assert_eq!(resp.action, Action::Respond);
    assert_eq!(location(&resp), Some("http://example.com/p"));
}

#[test]
fn apex_already_canonical_continues() {
    let mw = redirect(config(r#"{ "canonical_host": "apex" }"#));
    let resp = invoke(&mw, "GET", "/p", "", &[hdr("Host", "example.com")]);
    assert_eq!(resp.action, Action::Continue);
}

#[test]
fn apex_to_www_other_direction() {
    let mw = redirect(config(r#"{ "canonical_host": "www" }"#));
    let resp = invoke(&mw, "GET", "/p", "", &[hdr("Host", "example.com")]);
    assert_eq!(resp.action, Action::Respond);
    assert_eq!(location(&resp), Some("http://www.example.com/p"));
}

#[test]
fn www_already_canonical_continues() {
    let mw = redirect(config(r#"{ "canonical_host": "www" }"#));
    let resp = invoke(&mw, "GET", "/p", "", &[hdr("Host", "www.example.com")]);
    assert_eq!(resp.action, Action::Continue);
}

#[test]
fn host_map_exact_match_wins() {
    let mw = redirect(config(r#"{ "host_map": { "old.example.com": "new.example.com" } }"#));
    let resp = invoke(&mw, "GET", "/p", "", &[hdr("Host", "Old.Example.com")]);
    assert_eq!(location(&resp), Some("http://new.example.com/p"));
}

#[test]
fn host_case_only_difference_does_not_redirect() {
    // No policy → an uppercase Host is not forced to lowercase (no loop-y
    // cosmetic redirect).
    let mw = redirect(config(r#"{ "force_https": false }"#));
    let resp = invoke(&mw, "GET", "/p", "", &[hdr("Host", "Example.COM")]);
    assert_eq!(resp.action, Action::Continue);
}

// ── trailing slash ─────────────────────────────────────────────────────

#[test]
fn trailing_slash_add() {
    let mw = redirect(config(r#"{ "trailing_slash": "add" }"#));
    let resp = invoke(&mw, "GET", "/blog", "", &[hdr("Host", "example.com")]);
    assert_eq!(location(&resp), Some("http://example.com/blog/"));
}

#[test]
fn trailing_slash_add_skips_file_like_and_root() {
    let mw = redirect(config(r#"{ "trailing_slash": "add" }"#));
    assert_eq!(
        invoke(&mw, "GET", "/style.css", "", &[hdr("Host", "example.com")]).action,
        Action::Continue
    );
    assert_eq!(
        invoke(&mw, "GET", "/", "", &[hdr("Host", "example.com")]).action,
        Action::Continue
    );
}

#[test]
fn trailing_slash_strip() {
    let mw = redirect(config(r#"{ "trailing_slash": "strip" }"#));
    let resp = invoke(&mw, "GET", "/blog/", "", &[hdr("Host", "example.com")]);
    assert_eq!(location(&resp), Some("http://example.com/blog"));
}

#[test]
fn trailing_slash_strip_keeps_root() {
    let mw = redirect(config(r#"{ "trailing_slash": "strip" }"#));
    let resp = invoke(&mw, "GET", "/", "", &[hdr("Host", "example.com")]);
    assert_eq!(resp.action, Action::Continue);
}

// ── query preservation, status, combined rules ─────────────────────────

#[test]
fn query_string_is_preserved() {
    let mw = redirect(config(r#"{ "force_https": true }"#));
    let resp = invoke(&mw, "GET", "/s", "q=1&x=2", &[hdr("Host", "example.com")]);
    assert_eq!(location(&resp), Some("https://example.com/s?q=1&x=2"));
}

#[test]
fn status_301_selection() {
    let mw = redirect(config(r#"{ "force_https": true, "status": 301 }"#));
    let resp = invoke(&mw, "GET", "/", "", &[hdr("Host", "example.com")]);
    assert_eq!(resp.status, 301);
}

#[test]
fn default_status_is_308() {
    let mw = redirect(config(r#"{ "force_https": true }"#));
    let resp = invoke(&mw, "GET", "/", "", &[hdr("Host", "example.com")]);
    assert_eq!(resp.status, 308);
}

#[test]
fn all_rules_collapse_into_one_redirect() {
    let mw = redirect(config(r#"{ "force_https": true, "canonical_host": "apex", "trailing_slash": "add" }"#));
    let resp = invoke(&mw, "GET", "/blog", "page=2", &[hdr("Host", "www.example.com")]);
    assert_eq!(resp.action, Action::Respond);
    assert_eq!(location(&resp), Some("https://example.com/blog/?page=2"));
}

#[test]
fn port_is_preserved() {
    let mw = redirect(config(r#"{ "canonical_host": "apex" }"#));
    let resp = invoke(&mw, "GET", "/p", "", &[hdr("Host", "www.example.com:8080")]);
    assert_eq!(location(&resp), Some("http://example.com:8080/p"));
}

#[test]
fn already_canonical_no_config_continues() {
    let mw = redirect(config("null"));
    let resp = invoke(&mw, "GET", "/p", "a=1", &[hdr("Host", "example.com")]);
    assert_eq!(resp.action, Action::Continue);
}

#[test]
fn missing_host_header_passes_through() {
    let mw = redirect(config(r#"{ "force_https": true }"#));
    let resp = invoke(&mw, "GET", "/p", "", &[]);
    assert_eq!(resp.action, Action::Continue);
}

// ── config validation ──────────────────────────────────────────────────

#[test]
fn lib_bad_config_fails_init() {
    assert!(Redirect::init(&config(r#"{ "status": 302 }"#)).is_err());
    assert!(Redirect::init(&config(r#"{ "canonical_host": "root" }"#)).is_err());
    assert!(Redirect::init(&config(r#"{ "trailing_slash": "keep" }"#)).is_err());
    assert!(Redirect::init(&config(r#"{ "force_https": "yes" }"#)).is_err());
    assert!(Redirect::init(&config(r#"{ "host_map": { "a": 1 } }"#)).is_err());
    assert!(Redirect::init(&config(r#"{ "forwarded_proto_header": "" }"#)).is_err());
}

// ── hosts and paths ────────────────────────────────────────────────────

#[test]
fn hosts_are_split_from_ports() {
    assert_eq!(split_host("example.com"), ("example.com", None));
    assert_eq!(split_host("example.com:8080"), ("example.com", Some("8080")));
    assert_eq!(split_host("example.com:"), ("example.com:", None));
    assert_eq!(split_host("example.com:80a"), ("example.com:80a", None));
    assert_eq!(split_host("a:b:80"), ("a:b", Some("80")));
    assert_eq!(split_host("[::1]"), ("[::1]", None));
    assert_eq!(split_host("[::1]:8080"), ("[::1]", Some("8080")));
    assert_eq!(split_host("[::1]:"), ("[::1]", None));
    assert_eq!(split_host("[::1]x"), ("[::1]", None));
    assert_eq!(split_host("[::1"), ("[::1", None));
    assert_eq!(split_host(":80"), ("", Some("80")));
    assert_eq!(split_host(""), ("", None));
}

#[test]
fn the_www_label_is_read_in_any_case() {
    assert!(has_www_prefix("www.example.com"));
    assert!(has_www_prefix("WwW.x"));
    assert!(!has_www_prefix("www."));
    assert!(!has_www_prefix("wwwx.example.com"));
    assert!(!has_www_prefix("example.com"));
    assert_eq!(strip_www_prefix("WWW.Example.com"), Some("Example.com"));
    assert_eq!(strip_www_prefix("example.com"), None);
}

#[test]
fn a_host_beyond_ascii_is_read_by_characters() {
    for host in ["wwwé.test", "exaä.com", "ää.com", "€€", "a😀", "www😀"] {
        assert!(!has_www_prefix(host), "{host}");
        assert_eq!(strip_www_prefix(host), None, "{host}");
    }
    assert_eq!(strip_www_prefix("www.é"), Some("é"));
    let www = redirect(config(r#"{ "canonical_host": "www" }"#));
    let resp = invoke(&www, "GET", "/", "", &[hdr("Host", "wwwé.test")]);
    assert_eq!(location(&resp), Some("http://www.wwwé.test/"));
    let apex = redirect(config(r#"{ "canonical_host": "apex" }"#));
    let resp = invoke(&apex, "GET", "/", "", &[hdr("Host", "wwwé.test")]);
    assert_eq!(resp.action, Action::Continue);
}

#[test]
fn only_digits_behind_a_bracket_are_a_port() {
    assert_eq!(split_host("[::1]:abc"), ("[::1]", None));
    assert_eq!(split_host("[::1]:80a"), ("[::1]", None));
    let mw = redirect(config(r#"{ "force_https": true }"#));
    let resp = invoke(&mw, "GET", "/", "", &[hdr("Host", "[::1]:abc")]);
    assert_eq!(location(&resp), Some("https://[::1]/"));
}

#[test]
fn paths_are_made_canonical_once() {
    let strip = redirect(config(r#"{ "trailing_slash": "strip" }"#));
    assert_eq!(strip.canonical_path("///"), "/");
    assert_eq!(strip.canonical_path("/a//"), "/a");
    assert_eq!(strip.canonical_path(""), "");
    let add = redirect(config(r#"{ "trailing_slash": "ADD" }"#));
    assert_eq!(add.canonical_path("/a.b/c"), "/a.b/c/");
    assert_eq!(add.canonical_path("/a/b.c"), "/a/b.c");
    assert!(last_segment_has_dot("/a/.well-known"));
    assert!(!last_segment_has_dot("/a.b/"));
    for path in ["/", "//", "/a", "/a/", "/a//", "/x.y", "/x.y/"] {
        for mw in [&strip, &add] {
            let once = mw.canonical_path(path);
            assert_eq!(mw.canonical_path(&once), once, "{path}");
        }
    }
}

// ── one redirect is enough ─────────────────────────────────────────────

/// Follows the redirect of a request to `host` and `path`, if there is one.
fn follow(mw: &Redirect, host: &str, path: &str) -> Option<(String, String)> {
    let resp = invoke(mw, "GET", path, "", &[hdr("Host", host)]);
    let target = location(&resp)?.strip_prefix("http://").expect("scheme").to_owned();
    let slash = target.find('/').expect("a path");
    Some((target[..slash].to_owned(), target[slash..].to_owned()))
}

#[test]
fn a_followed_redirect_is_served() {
    for (policy, host, path) in [
        (r#"{ "canonical_host": "apex", "trailing_slash": "add" }"#, "www.example.com:81", "/a"),
        (r#"{ "canonical_host": "www", "trailing_slash": "strip" }"#, "example.com", "/a/"),
        (r#"{ "canonical_host": "www" }"#, "[::1]:8080", "/"),
        (r#"{ "host_map": { "a.test": "b.test" } }"#, "A.test", "/"),
    ] {
        let mw = redirect(config(policy));
        let (host, path) = follow(&mw, host, path).expect("a redirect");
        assert_eq!(follow(&mw, &host, &path), None, "{policy}");
    }
}

#[test]
fn hosts_that_do_not_settle_are_redirected_again() {
    let apex = redirect(config(r#"{ "canonical_host": "apex" }"#));
    let (host, path) = follow(&apex, "www.www.example.com", "/").expect("a redirect");
    assert_eq!(host, "www.example.com");
    assert_eq!(follow(&apex, &host, &path), Some(("example.com".to_owned(), "/".to_owned())));
    let chain = redirect(config(r#"{ "host_map": { "a": "b", "b": "c" } }"#));
    let (host, path) = follow(&chain, "a", "/").expect("a redirect");
    assert_eq!(follow(&chain, &host, &path), Some(("c".to_owned(), "/".to_owned())));
}

#[test]
fn an_empty_path_is_the_root() {
    let mw = redirect(config(r#"{ "force_https": true, "trailing_slash": "add" }"#));
    let resp = invoke(&mw, "GET", "", "", &[hdr("Host", "example.com")]);
    assert_eq!(location(&resp), Some("https://example.com/"));
    assert_eq!(invoke(&mw, "GET", "", "", &[hdr("Host", "")]).action, Action::Continue);
}

#[test]
fn redirect_configuration_is_refused_with_a_reason() {
    for (text, message) in [
        (
            r#"{ "canonical_host": "Root" }"#,
            "`canonical_host` must be \"www\" or \"apex\", got \"root\"",
        ),
        (r#"{ "canonical_host": 1 }"#, "`canonical_host` must be a string, got 1"),
        (
            r#"{ "host_map": { "a": 1 } }"#,
            "`host_map` values must be strings, got 1 for key `a`",
        ),
        (r#"{ "host_map": { "a": "" } }"#, "`host_map` value for key `a` must not be empty"),
        (r#"{ "host_map": [] }"#, "`host_map` must be an object, got []"),
        (
            r#"{ "trailing_slash": "keep" }"#,
            "`trailing_slash` must be \"add\" or \"strip\", got \"keep\"",
        ),
        (r#"{ "trailing_slash": true }"#, "`trailing_slash` must be a string, got true"),
        (r#"{ "status": "301" }"#, "`status` must be 301 or 308, got \"301\""),
        (r#"{ "status": 302 }"#, "`status` must be 301 or 308, got 302"),
        (
            r#"{ "forwarded_proto_header": "" }"#,
            "`forwarded_proto_header` must not be empty",
        ),
        (
            r#"{ "forwarded_proto_header": 5 }"#,
            "`forwarded_proto_header` must be a string, got 5",
        ),
        (r#"{ "force_https": "yes" }"#, "`force_https` must be a boolean, got \"yes\""),
        // The first refused setting is named.
        (
            r#"{ "force_https": 1, "status": 5, "canonical_host": [] }"#,
            "`canonical_host` must be a string, got []",
        ),
    ] {
        assert_eq!(Redirect::init(&config(text)).err().as_deref(), Some(message), "{text}");
    }
}

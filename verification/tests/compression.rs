use ephpm_middleware_modules::compression::{
    accepts, brotli, gzip, is_compressible, status_forbids_compression, Compress, Encoding,
};
use ephpm_middleware_modules::http::{Action, Reply, Request, ResponseView};
use ephpm_middleware_modules::json::Json;
use std::io::Read;

fn config(text: &str) -> Json {
    Json::parse(text.as_bytes()).expect("valid JSON")
}

fn request(
    method: &str,
    path: &str,
    query: &str,
    ip: &str,
    site: &str,
    headers: &[(String, String)],
) -> Request {
    Request {
        method: method.to_owned(),
        path: path.to_owned(),
        query: query.to_owned(),
        remote_ip: ip.to_owned(),
        site: site.to_owned(),
        headers: headers.to_vec(),
    }
}

fn hdr(name: &str, value: &str) -> (String, String) {
    (name.to_owned(), value.to_owned())
}

fn get<'a>(headers: &'a [(String, String)], name: &str) -> Option<&'a str> {
    headers.iter().find(|(n, _)| n.eq_ignore_ascii_case(name)).map(|(_, v)| v.as_str())
}

fn init(config: Json) -> Compress {
    Compress::init(&config).expect("init")
}

/// Drives the response phase; returns `(headers, body)` after applying edits.
fn run(
    mw: &Compress,
    accept_encoding: &str,
    status: u16,
    resp_headers: Vec<(String, String)>,
    body: &[u8],
) -> (Vec<(String, String)>, Vec<u8>) {
    let req_headers: Vec<(String, String)> = if accept_encoding.is_empty() {
        vec![]
    } else {
        vec![hdr("Accept-Encoding", accept_encoding)]
    };
    let req = request("GET", "/", "", "203.0.113.9", "example.test", &req_headers);
    let mut view = ResponseView::new(Reply { status, headers: resp_headers, body: body.to_vec() });
    mw.invoke_response(&req, &mut view);
    let reply = view.apply();
    (reply.headers, reply.body)
}

fn html_body() -> Vec<u8> {
    // Highly compressible, comfortably over the 1 KiB floor.
    "<html><body>".bytes().chain(std::iter::repeat_n(b'a', 4096)).collect()
}

fn gunzip(data: &[u8]) -> Vec<u8> {
    let mut d = flate2::read::GzDecoder::new(data);
    let mut out = Vec::new();
    d.read_to_end(&mut out).expect("gunzip");
    out
}

// ── request phase is a no-op ──────────────────────────────────────────

#[test]
fn request_phase_continues() {
    let mw = init(config("null"));
    let req = request("GET", "/", "", "203.0.113.9", "example.test", &[]);
    assert_eq!(mw.invoke(&req).action, Action::Continue);
}

// ── happy paths ───────────────────────────────────────────────────────

#[test]
fn gzip_when_only_gzip_accepted() {
    let mw = init(config("null"));
    let body = html_body();
    let (headers, out) = run(&mw, "gzip", 200, vec![hdr("Content-Type", "text/html")], &body);
    assert_eq!(get(&headers, "Content-Encoding"), Some("gzip"));
    assert_eq!(get(&headers, "Vary"), Some("Accept-Encoding"));
    assert!(out.len() < body.len());
    assert_eq!(gunzip(&out), body, "gzip stream must round-trip");
}

#[test]
fn brotli_preferred_over_gzip() {
    let mw = init(config("null"));
    let body = html_body();
    let (headers, out) =
        run(&mw, "gzip, br", 200, vec![hdr("Content-Type", "text/html")], &body);
    assert_eq!(get(&headers, "Content-Encoding"), Some("br"));
    assert!(out.len() < body.len());
}

#[test]
fn gzip_used_when_brotli_disabled() {
    let mw = init(config(r#"{ "brotli": false }"#));
    let body = html_body();
    let (headers, _out) =
        run(&mw, "gzip, br", 200, vec![hdr("Content-Type", "text/html")], &body);
    assert_eq!(get(&headers, "Content-Encoding"), Some("gzip"));
}

// ── skip conditions ───────────────────────────────────────────────────

#[test]
fn skips_when_already_encoded() {
    // This is the core-compression-already-ran case: do NOT double-encode.
    let mw = init(config("null"));
    let body = html_body();
    let (headers, out) = run(
        &mw,
        "br",
        200,
        vec![hdr("Content-Type", "text/html"), hdr("Content-Encoding", "br")],
        &body,
    );
    assert_eq!(get(&headers, "Content-Encoding"), Some("br"));
    assert_eq!(out, body, "body must be left untouched");
}

#[test]
fn skips_uncompressible_content_type() {
    let mw = init(config("null"));
    let body = html_body();
    let (headers, out) = run(&mw, "br", 200, vec![hdr("Content-Type", "image/png")], &body);
    assert_eq!(get(&headers, "Content-Encoding"), None);
    assert_eq!(out, body);
}

#[test]
fn skips_small_body() {
    let mw = init(config("null"));
    let body = b"<html>tiny</html>".to_vec();
    let (headers, out) = run(&mw, "br", 200, vec![hdr("Content-Type", "text/html")], &body);
    assert_eq!(get(&headers, "Content-Encoding"), None);
    assert_eq!(out, body);
}

#[test]
fn skips_when_client_accepts_nothing() {
    let mw = init(config("null"));
    let body = html_body();
    let (headers, _out) =
        run(&mw, "identity", 200, vec![hdr("Content-Type", "text/html")], &body);
    assert_eq!(get(&headers, "Content-Encoding"), None);
}

#[test]
fn skips_q0_encoding() {
    let mw = init(config(r#"{ "brotli": false }"#));
    let body = html_body();
    let (headers, _out) =
        run(&mw, "gzip;q=0", 200, vec![hdr("Content-Type", "text/html")], &body);
    assert_eq!(get(&headers, "Content-Encoding"), None);
}

#[test]
fn skips_no_transform() {
    let mw = init(config("null"));
    let body = html_body();
    let (headers, _out) = run(
        &mw,
        "br",
        200,
        vec![hdr("Content-Type", "text/html"), hdr("Cache-Control", "private, no-transform")],
        &body,
    );
    assert_eq!(get(&headers, "Content-Encoding"), None);
}

#[test]
fn skips_304() {
    let mw = init(config("null"));
    let (headers, _out) =
        run(&mw, "br", 304, vec![hdr("Content-Type", "text/html")], &html_body());
    assert_eq!(get(&headers, "Content-Encoding"), None);
}

#[test]
fn skips_content_range() {
    let mw = init(config("null"));
    let body = html_body();
    let (headers, _out) = run(
        &mw,
        "br",
        206,
        vec![hdr("Content-Type", "text/html"), hdr("Content-Range", "bytes 0-99/200")],
        &body,
    );
    assert_eq!(get(&headers, "Content-Encoding"), None);
}

// ── Vary preservation ─────────────────────────────────────────────────

#[test]
fn vary_is_appended_not_clobbered() {
    let mw = init(config("null"));
    let body = html_body();
    let (headers, _out) = run(
        &mw,
        "gzip",
        200,
        vec![hdr("Content-Type", "text/html"), hdr("Vary", "Cookie")],
        &body,
    );
    assert_eq!(get(&headers, "Vary"), Some("Cookie, Accept-Encoding"));
}

#[test]
fn vary_not_duplicated() {
    let mw = init(config("null"));
    let body = html_body();
    let (headers, _out) = run(
        &mw,
        "gzip",
        200,
        vec![hdr("Content-Type", "text/html"), hdr("Vary", "Accept-Encoding")],
        &body,
    );
    assert_eq!(get(&headers, "Vary"), Some("Accept-Encoding"));
}

// ── config validation ─────────────────────────────────────────────────

#[test]
fn compression_bad_config_fails_init() {
    assert!(Compress::init(&config(r#"{ "level": 0 }"#)).is_err());
    assert!(Compress::init(&config(r#"{ "level": 10 }"#)).is_err());
    assert!(Compress::init(&config(r#"{ "brotli": false, "gzip": false }"#)).is_err());
    assert!(Compress::init(&config(r#"{ "types": "text/" }"#)).is_err());
    assert!(Compress::init(&config(r#"{ "min_size": -1 }"#)).is_err());
}

#[test]
fn custom_types_are_honored() {
    let mw = init(config(r#"{ "types": ["application/octet-stream"] }"#));
    let body: Vec<u8> = std::iter::repeat_n(b'a', 4096).collect();
    let (headers, _out) =
        run(&mw, "gzip", 200, vec![hdr("Content-Type", "application/octet-stream")], &body);
    assert_eq!(get(&headers, "Content-Encoding"), Some("gzip"));
}

// ── negotiation ───────────────────────────────────────────────────────

#[test]
fn offers_are_weighed() {
    assert!(accepts("gzip", "gzip"));
    assert!(accepts(" GZip ; q=0.5 , br", "gzip"));
    assert!(!accepts("gzip;q=0", "gzip"));
    assert!(!accepts("gzip;q=0.0000", "gzip"));
    assert!(accepts("gzip;q=0.001", "gzip"));
    assert!(!accepts("gzip;q=x", "gzip"));
    assert!(!accepts("gzip; q= -1", "gzip"));
    assert!(accepts("gzip;level=9", "gzip"));
    assert!(accepts("gzip;q=0;q=1", "gzip"));
    assert!(accepts("*", "gzip"));
    assert!(!accepts("*;q=0", "gzip"));
    assert!(!accepts("*, gzip;q=0", "gzip"));
    assert!(accepts("gzip, *;q=0", "gzip"));
    assert!(accepts("gzip;q=0, gzip", "gzip"));
    assert!(!accepts("", "gzip"));
    assert!(!accepts("gzipp", "gzip"));
    // The parameter's name is taken as it stands.
    assert!(accepts("gzip;Q=0", "gzip"));
}

#[test]
fn statuses_without_a_whole_body_are_left_alone() {
    for status in [100, 199, 204, 206, 304] {
        assert!(status_forbids_compression(status), "{status}");
    }
    for status in [200, 203, 205, 301, 404, 500] {
        assert!(!status_forbids_compression(status), "{status}");
    }
}

#[test]
fn content_types_match_in_any_case() {
    let types = vec!["json".to_owned()];
    assert!(is_compressible("application/JSON; charset=utf-8", &types));
    assert!(!is_compressible("text/html", &types));
    assert!(!is_compressible("text/html", &[]));
}

// ── what the client gets ──────────────────────────────────────────────

#[test]
fn both_encodings_are_read_back() {
    let body = html_body();
    for level in [0, 1, 5, 9, 11, 99] {
        let stream = gzip(&body, level).expect("a stream");
        assert_ne!(stream, body);
        assert_eq!(gunzip(&stream), body);
        assert_eq!(Encoding::Gzip.decode(&stream), Some(body.clone()));
        let stream = brotli(&body, level).expect("a stream");
        assert_ne!(stream, body);
        assert_eq!(Encoding::Brotli.decode(&stream), Some(body.clone()));
    }
    // The level makes a difference, up to the clamp.
    let mixed: Vec<u8> = (0..20_000u32).flat_map(|i| (i % 97 * i).to_le_bytes()).collect();
    assert_ne!(gzip(&mixed, 1), gzip(&mixed, 9));
    assert_eq!(gzip(&mixed, 0), gzip(&mixed, 1));
    assert_eq!(gzip(&mixed, 40), gzip(&mixed, 9));
    assert_ne!(brotli(&mixed, 1), brotli(&mixed, 9));
    assert_eq!(brotli(&mixed, 11), brotli(&mixed, 40));
    assert_eq!(Encoding::Gzip.decode(b"no stream"), None);
    assert_eq!(Encoding::Brotli.decode(b"\xff\xff\xff\xff"), None);
    assert_eq!(Encoding::Brotli.token(), "br");
}

#[test]
fn a_brotli_body_is_read_back() {
    let mw = init(config("null"));
    let body = html_body();
    let (headers, out) = run(&mw, "br", 200, vec![hdr("Content-Type", "text/html")], &body);
    assert_eq!(get(&headers, "Content-Encoding"), Some("br"));
    assert_eq!(Encoding::Brotli.decode(&out), Some(body));
}

#[test]
fn a_compressed_reply_is_not_compressed_again() {
    let mw = init(config(r#"{ "min_size": 0 }"#));
    let body = html_body();
    let (headers, out) = run(&mw, "gzip", 200, vec![hdr("Content-Type", "text/html")], &body);
    let again = run(&mw, "br, gzip", 200, headers.clone(), &out);
    assert_eq!(again, (headers, out));
}

#[test]
fn a_body_that_does_not_get_smaller_stays() {
    let mw = init(config(r#"{ "min_size": 0 }"#));
    for body in [b"".to_vec(), b"x".to_vec()] {
        let before = vec![hdr("Content-Type", "text/html")];
        assert_eq!(run(&mw, "gzip", 200, before.clone(), &body), (before, body));
    }
    let mut view =
        ResponseView::new(Reply { status: 200, headers: vec![], body: b"abc".to_vec() });
    Compress::finish(&mut view, Encoding::Gzip, Some(b"abc".to_vec()));
    Compress::finish(&mut view, Encoding::Gzip, None);
    assert!(view.set.is_empty() && view.body.is_none());
    Compress::finish(&mut view, Encoding::Gzip, Some(b"ab".to_vec()));
    assert_eq!(view.set, vec![hdr("Content-Encoding", "gzip"), hdr("Vary", "Accept-Encoding")]);
    assert_eq!(view.body, Some(b"ab".to_vec()));
}

#[test]
fn vary_keeps_its_tokens() {
    for (before, after) in [
        (" Cookie , Origin ", "Cookie , Origin, Accept-Encoding"),
        ("Cookie, ACCEPT-encoding ", "Cookie, ACCEPT-encoding "),
        (" * ", " * "),
        ("", ", Accept-Encoding"),
    ] {
        let headers = vec![hdr("Vary", before)];
        let mut view = ResponseView::new(Reply { status: 200, headers, body: vec![] });
        Compress::apply_vary(&mut view);
        assert_eq!(get(&view.apply().headers, "Vary"), Some(after));
    }
}

#[test]
fn any_content_encoding_is_left_alone() {
    let mw = init(config("null"));
    let body = vec![b'a'; 4096];
    for value in ["", " ", "identity", "gzip"] {
        let before = vec![hdr("Content-Type", "text/html"), hdr("Content-Encoding", value)];
        assert_eq!(run(&mw, "gzip", 200, before.clone(), &body), (before, body.clone()));
    }
}

#[test]
fn a_second_pass_changes_nothing() {
    let mw = init(config(r#"{ "min_size": 0 }"#));
    let noise: Vec<u8> =
        (0..200u32).map(|i| (i.wrapping_mul(2_654_435_761) >> 24) as u8).collect();
    for body in [html_body(), noise, b"x".to_vec(), Vec::new()] {
        for accept in ["gzip", "br", "", "br;q=0, gzip"] {
            for status in [200, 204] {
                let before = vec![hdr("Content-Type", "text/html"), hdr("Vary", "Cookie")];
                let (headers, once) = run(&mw, accept, status, before, &body);
                let again = run(&mw, accept, status, headers.clone(), &once);
                assert_eq!(again, (headers, once), "{accept} {status}");
            }
        }
    }
}

#[test]
fn compression_configuration_is_refused_with_a_reason() {
    for (text, message) in [
        (r#"{ "level": "x" }"#, "`level` must be a non-negative integer, got \"x\""),
        (r#"{ "level": 10 }"#, "`level` must be between 1 and 9, got 10"),
        (r#"{ "min_size": -1 }"#, "`min_size` must be a non-negative integer, got -1"),
        (r#"{ "types": "text/" }"#, "`types` must be an array, got \"text/\""),
        (r#"{ "types": [1] }"#, "`types` entries must be strings, got 1"),
        (r#"{ "brotli": 1 }"#, "`brotli` must be a boolean, got 1"),
        (r#"{ "gzip": 1 }"#, "`gzip` must be a boolean, got 1"),
        (
            r#"{ "brotli": false, "gzip": false }"#,
            "at least one of `brotli` / `gzip` must be enabled",
        ),
    ] {
        assert_eq!(Compress::init(&config(text)).err().as_deref(), Some(message), "{text}");
    }
    let mw = init(config(r#"{ "types": ["", "Text/X"] }"#));
    assert_eq!(mw.types, ["text/x"]);
    assert_eq!(init(config("null")).types, ["text/", "javascript", "json", "xml", "svg"]);
}

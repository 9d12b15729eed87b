use ephpm_middleware_modules::http::{Action, Request, Response};
use ephpm_middleware_modules::ip_allowlist::IpAllowlist;
use ephpm_middleware_modules::json::Json;

fn config(text: &str) -> Json {
    Json::parse(text.as_bytes()).expect("valid JSON")
}

fn request(
    method: &str,
    path: &str,
    query: &str,
    ip: &str,
    site: &str,
    headers: &[(String, String)],
) -> Request {
    Request {
        method: method.to_owned(),
        path: path.to_owned(),
        query: query.to_owned(),
        remote_ip: ip.to_owned(),
        site: site.to_owned(),
        headers: headers.to_vec(),
    }
}

fn build(config: Json) -> IpAllowlist {
    IpAllowlist::init(&config).expect("init")
}

fn invoke(mw: &IpAllowlist, ip: &str) -> Response {
    mw.invoke(&request("GET", "/index.php", "", ip, "example.test", &[]))
}

#[test]
fn ipv4_allow_and_default_deny() {
    let mw = build(config(r#"{ "allow": ["10.0.0.0/8"] }"#));
    // In-range → continue.
    assert_eq!(invoke(&mw, "10.1.2.3").action, Action::Continue);
    // Out-of-range → default deny → 403.
    let resp = invoke(&mw, "192.168.1.1");
    assert_eq!(resp.action, Action::Respond);
    assert_eq!(resp.status, 403);
    assert_eq!(resp.body.as_slice(), b"Forbidden: your IP address is not permitted.");
}

#[test]
fn ipv6_allow_matches() {
    let mw = build(config(r#"{ "allow": ["2001:db8::/32"] }"#));
    assert_eq!(invoke(&mw, "2001:db8::dead:beef").action, Action::Continue);
    assert_eq!(invoke(&mw, "2001:dead::1").action, Action::Respond);
}

#[test]
fn cidr_boundary_is_respected() {
    // /24 covers .0–.255 only.
    let mw = build(config(r#"{ "allow": ["203.0.113.0/24"], "default": "deny" }"#));
    assert_eq!(invoke(&mw, "203.0.113.255").action, Action::Continue);
    assert_eq!(invoke(&mw, "203.0.114.0").action, Action::Respond);
    // A /32 host route: exact match only.
    let host = mw2_host();
    assert_eq!(invoke(&host, "198.51.100.7").action, Action::Continue);
    assert_eq!(invoke(&host, "198.51.100.8").action, Action::Respond);
}

fn mw2_host() -> IpAllowlist {
    build(config(r#"{ "allow": ["198.51.100.7/32"] }"#))
}

#[test]
fn deny_takes_precedence_over_allow() {
    // Same address is in both lists — deny must win.
    let mw = build(config(r#"{ "allow": ["10.0.0.0/8"], "deny": ["10.6.6.6/32"], "default": "allow" }"#));
    assert_eq!(invoke(&mw, "10.6.6.6").action, Action::Respond);
    // A different in-allow address still continues.
    assert_eq!(invoke(&mw, "10.6.6.7").action, Action::Continue);
    // A broader deny range wins over a narrower allow.
    let broad = build(config(r#"{ "allow": ["192.168.1.0/24"], "deny": ["192.168.0.0/16"] }"#));
    assert_eq!(invoke(&broad, "192.168.1.50").action, Action::Respond);
}

#[test]
fn default_allow_lets_unmatched_through() {
    let mw = build(config(r#"{ "deny": ["10.0.0.0/8"], "default": "allow" }"#));
    // Not denied, not in any allow list → default allow.
    assert_eq!(invoke(&mw, "8.8.8.8").action, Action::Continue);
    // Still denied when in the deny list.
    assert_eq!(invoke(&mw, "10.0.0.1").action, Action::Respond);
}

#[test]
fn default_deny_is_the_default_when_unset() {
    // No allow, no deny, no default: everything is denied (fail-closed).
    let mw = build(config(r#"{}"#));
    assert_eq!(invoke(&mw, "8.8.8.8").action, Action::Respond);
    assert_eq!(invoke(&mw, "10.0.0.1").action, Action::Respond);
}

#[test]
fn unparseable_client_ip_is_denied_by_default() {
    let mw = build(config(r#"{ "allow": ["0.0.0.0/0"] }"#));
    // A valid any-v4 address is allowed…
    assert_eq!(invoke(&mw, "1.2.3.4").action, Action::Continue);
    // …but a garbage/empty IP cannot match allow → fail closed.
    assert_eq!(invoke(&mw, "not-an-ip").action, Action::Respond);
    assert_eq!(invoke(&mw, "").action, Action::Respond);
}

#[test]
fn unparseable_client_ip_follows_default_allow() {
    // With default=allow, an unparseable IP that hits no deny rule passes.
    let mw = build(config(r#"{ "deny": ["10.0.0.0/8"], "default": "allow" }"#));
    assert_eq!(invoke(&mw, "not-an-ip").action, Action::Continue);
}

#[test]
fn malformed_config_fails_init_closed() {
    // Bad CIDR string.
    assert!(IpAllowlist::init(&config(r#"{ "allow": ["10.0.0.0/999"] }"#)).is_err());
    assert!(IpAllowlist::init(&config(r#"{ "deny": ["nonsense"] }"#)).is_err());
    // Wrong types.
    assert!(IpAllowlist::init(&config(r#"{ "allow": "10.0.0.0/8" }"#)).is_err());
    assert!(IpAllowlist::init(&config(r#"{ "allow": [42] }"#)).is_err());
    // Unknown default policy.
    assert!(IpAllowlist::init(&config(r#"{ "default": "maybe" }"#)).is_err());
    assert!(IpAllowlist::init(&config(r#"{ "default": true }"#)).is_err());
}

#[test]
fn out_of_policy_ip_is_denied_403() {
    let mw = build(config(r#"{ "allow": ["10.0.0.0/8"] }"#));
    // An in-range client passes.
    assert_eq!(invoke(&mw, "10.1.2.3").action, Action::Continue);
    // An out-of-range client is refused: action, status and body.
    let resp = invoke(&mw, "203.0.113.9");
    assert_eq!(resp.action, Action::Respond);
    assert_eq!(resp.status, 403);
    assert!(!resp.body.is_empty());
}

#[test]
fn explicit_deny_beats_allow() {
    // Same address in both lists with default=allow: deny must still win (403).
    let mw = build(config(
        r#"{ "allow": ["10.0.0.0/8"], "deny": ["10.6.6.6/32"], "default": "allow" }"#,
    ));
    assert_eq!(invoke(&mw, "10.6.6.6").action, Action::Respond);
    assert_eq!(invoke(&mw, "10.6.6.7").action, Action::Continue);
}

#[test]
fn a_bare_address_is_a_network_of_its_own() {
    let mw = build(config(r#"{ "allow": ["198.51.100.7", "2001:db8::7"] }"#));
    assert_eq!(invoke(&mw, "198.51.100.7").action, Action::Continue);
    assert_eq!(invoke(&mw, "198.51.100.6").action, Action::Respond);
    assert_eq!(invoke(&mw, "2001:db8::7").action, Action::Continue);
    assert_eq!(invoke(&mw, "2001:db8::6").action, Action::Respond);
}

#[test]
fn prefixes_end_inside_octets() {
    let mw = build(config(r#"{ "allow": ["10.1.2.128/25", "2001:db8:8000::/33"] }"#));
    assert_eq!(invoke(&mw, "10.1.2.128").action, Action::Continue);
    assert_eq!(invoke(&mw, "10.1.2.255").action, Action::Continue);
    assert_eq!(invoke(&mw, "10.1.2.127").action, Action::Respond);
    assert_eq!(invoke(&mw, "2001:db8:ffff::1").action, Action::Continue);
    assert_eq!(invoke(&mw, "2001:db8:7fff::1").action, Action::Respond);
}

#[test]
fn families_do_not_mix() {
    let mw = build(config(r#"{ "allow": ["0.0.0.0/0"] }"#));
    assert_eq!(invoke(&mw, "::1").action, Action::Respond);
    assert_eq!(invoke(&mw, "::ffff:1.2.3.4").action, Action::Respond);
    let mw = build(config(r#"{ "allow": ["::/0"] }"#));
    assert_eq!(invoke(&mw, "::1").action, Action::Continue);
    assert_eq!(invoke(&mw, "1.2.3.4").action, Action::Respond);
}

#[test]
fn a_network_is_no_address() {
    let mw = build(config(r#"{ "allow": ["10.0.0.0/8"] }"#));
    assert_eq!(invoke(&mw, "10.0.0.1/32").action, Action::Respond);
    assert_eq!(invoke(&mw, " 10.0.0.1").action, Action::Respond);
}

#[test]
fn addresses_and_networks_agree_with_the_network_crate() {
    let nets = ["10.0.0.0/8", "10.64.0.0/10", "10.1.2.3/31", "0.0.0.0/1", "2001:db8::/29"];
    let ips = ["10.0.0.1", "10.127.255.255", "10.1.2.2", "128.0.0.1", "2001:dbf::1", "2001:dc0::1"];
    for text in nets {
        let net: ipnetwork::IpNetwork = text.parse().expect("a network");
        let mw = build(config(&format!(r#"{{ "allow": ["{text}"] }}"#)));
        for ip in ips {
            let inside = net.contains(ip.parse().expect("an address"));
            assert_eq!(invoke(&mw, ip).action == Action::Continue, inside, "{ip} in {text}");
        }
    }
}

#[test]
fn ip_allowlist_configuration_is_refused_with_a_reason() {
    for (text, message) in [
        (
            r#"{ "allow": "10.0.0.0/8" }"#,
            "`allow` must be an array of CIDR strings, got \"10.0.0.0/8\"",
        ),
        (r#"{ "deny": [42] }"#, "`deny` entries must be CIDR strings, got 42"),
        (
            r#"{ "allow": ["10.0.0.0/999"] }"#,
            "`allow` entry \"10.0.0.0/999\" is not a valid CIDR: invalid address: 10.0.0.0/999",
        ),
        (
            r#"{ "deny": ["1.2.3.4", "a\"b"] }"#,
            "`deny` entry \"a\\\"b\" is not a valid CIDR: invalid address: a\"b",
        ),
        (r#"{ "default": "maybe" }"#, "`default` must be \"allow\" or \"deny\", got \"maybe\""),
        (r#"{ "default": true }"#, "`default` must be \"allow\" or \"deny\", got true"),
    ] {
        assert_eq!(IpAllowlist::init(&config(text)).err().as_deref(), Some(message), "{text}");
    }
}

#[test]
fn a_refusal_is_plain_text() {
    let resp = invoke(&build(config("{}")), "8.8.8.8");
    assert_eq!(
        resp.headers,
        vec![("Content-Type".to_owned(), "text/plain; charset=utf-8".to_owned())]
    );
}

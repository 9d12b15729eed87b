//! `redirect`: canonical URLs by a single redirect before the request is served.
//!
//! The module composes scheme, host and trailing-slash rules, computes the
//! canonical URL once, and redirects only where the request is not canonical.
//!
//! | key | default | meaning |
//! |-----|---------|---------|
//! | `force_https` (bool) | `false` | redirect `http` to `https` |
//! | `canonical_host` (string) | unset | `"www"` adds a leading `www.`; `"apex"` (or `"non-www"`) strips it |
//! | `host_map` (object) | unset | source host to canonical host; wins over `canonical_host` |
//! | `trailing_slash` (string) | unset | `"add"` appends a `/` except to file-like paths; `"strip"` removes trailing `/` except the root |
//! | `status` (integer) | `308` | `301` or `308` |
//! | `forwarded_proto_header` (string) | `"X-Forwarded-Proto"` | header that the current scheme is read from |
use vstd::prelude::*;
use vstd::string::*;

use crate::http::{Headers, Request, RequestModel, Response, ResponseModel};
use crate::json::{Json, JsonModel, NodeModel};
use crate::{config, http, text};

verus! {

/// The canonical-host policy.
#[derive(Clone, Copy, Debug, PartialEq, Eq, Structural)]
pub enum HostPolicy {
    /// Force the apex form to `www.`.
    Www,
    /// Strip a leading `www.`.
    Apex,
}

/// The trailing-slash policy.
#[derive(Clone, Copy, Debug, PartialEq, Eq, Structural)]
pub enum SlashPolicy {
    /// Append a trailing `/` (except to the root and to file-like paths).
    Add,
    /// Remove trailing `/` (except the root).
    Strip,
}

/// Redirect policy, built once by [`Redirect::init`].
#[derive(Debug)]
pub struct Redirect {
    pub force_https: bool,
    pub canonical_host: Option<HostPolicy>,
    /// Source host to canonical host; the sources are in lower case.
    pub host_map: Vec<(String, String)>,
    pub trailing_slash: Option<SlashPolicy>,
    pub status: u16,
    pub forwarded_proto_header: String,
}

/// The mathematical reading of [`Redirect`].
pub struct RedirectModel {
    pub force_https: bool,
    pub canonical_host: Option<HostPolicy>,
    pub host_map: Headers,
    pub trailing_slash: Option<SlashPolicy>,
    pub status: u16,
    pub forwarded_proto_header: Seq<char>,
}

impl View for Redirect {
    type V = RedirectModel;

    open spec fn view(&self) -> RedirectModel {
        RedirectModel {
            force_https: self.force_https,
            canonical_host: self.canonical_host,
            host_map: config::text_pairs(self.host_map@),
            trailing_slash: self.trailing_slash,
            status: self.status,
            forwarded_proto_header: self.forwarded_proto_header@,
        }
    }
}

// ---------------------------------------------------------------------------
// Hosts
// ---------------------------------------------------------------------------

/// The host starts with a `www.` label that is not all of it.
pub open spec fn www_prefixed(host: Seq<char>) -> bool {
    host.len() > 4 && text::same_ignoring_case(host.take(4), "www."@)
}

/// True when `host` begins with a `www.` label.
pub fn has_www_prefix(host: &str) -> (r: bool)
    ensures
        r == www_prefixed(host@),
{
    let n: usize = host.unicode_len();
    n > 4 && text::eq_ignore_case(host.substring_char(0, 4), "www.")
}

/// The host without its leading `www.`, or `None` when there is no such prefix.
pub fn strip_www_prefix(host: &str) -> (r: Option<&str>)
    ensures
        match r {
            Some(rest) => www_prefixed(host@) && rest@ == host@.skip(4),
            None => !www_prefixed(host@),
        },
{
    if has_www_prefix(host) {
        let n: usize = host.unicode_len();
        Some(host.substring_char(4, n))
    } else {
        None
    }
}

/// A `Host` value as host and port. A bracketed literal is a host up to its `]`,
/// and only an all-digit tail after the last `:` is a port.
pub open spec fn host_and_port(value: Seq<char>) -> (Seq<char>, Option<Seq<char>>) {
    if value.len() > 0 && value[0] == '[' {
        match value.index_of_first(']') {
            Some(i) => (
                value.take(i + 1),
                if i + 2 < value.len() && value[i + 1] == ':' && text::all_digits(
                    value.skip(i + 2),
                ) {
                    Some(value.skip(i + 2))
                } else {
                    None
                },
            ),
            None => (value, None),
        }
    } else {
        match value.index_of_last(':') {
            Some(i) => if i + 1 < value.len() && text::all_digits(value.skip(i + 1)) {
                (value.take(i), Some(value.skip(i + 1)))
            } else {
                (value, None)
            },
            None => (value, None),
        }
    }
}

/// Splits a `Host` header value into host and port.
pub fn split_host(value: &str) -> (r: (&str, Option<&str>))
    ensures
        r.0@ == host_and_port(value@).0,
        match r.1 {
            Some(port) => host_and_port(value@).1 == Some(port@),
            None => host_and_port(value@).1 is None,
        },
{
    let x: Vec<char> = text::chars_of(value);
    let n: usize = x.len();
    if n > 0 && x[0] == '[' {
        return match text::find_first(&x, ']') {
            Some(i) => {
                let host: &str = value.substring_char(0, i + 1);
                let port: Option<&str> = if n - i > 2 && x[i + 1] == ':' && text::digits_between(
                    &x,
                    i + 2,
                    n,
                ) {
                    Some(value.substring_char(i + 2, n))
                } else {
                    None
                };
                (host, port)
            },
            None => (value, None),
        };
    }
    match text::find_last(&x, ':') {
        Some(i) => if i + 1 < n && text::digits_between(&x, i + 1, n) {
            (value.substring_char(0, i), Some(value.substring_char(i + 1, n)))
        } else {
            (value, None)
        },
        None => (value, None),
    }
}

// ---------------------------------------------------------------------------
// Paths
// ---------------------------------------------------------------------------

/// The text without the slashes at its end.
pub open spec fn without_slashes(s: Seq<char>) -> Seq<char>
    decreases s.len(),
{
    if s.len() > 0 && s.last() == '/' {
        without_slashes(s.drop_last())
    } else {
        s
    }
}

/// The last segment of the path looks like a file.
pub open spec fn file_like(path: Seq<char>) -> bool {
    text::pieces(path, '/').last().contains('.')
}

/// True when the last path segment looks like a file (contains a `.`).
pub fn last_segment_has_dot(path: &str) -> (r: bool)
    ensures
        r == file_like(path@),
{
    let segments: Vec<&str> = text::split(path, '/');
    assert(text::pieces(path@, '/').last() == segments@.map_values(|p: &str| p@).last());
    text::contains_char(segments[segments.len() - 1], '.')
}

// ---------------------------------------------------------------------------
// Canonical parts
// ---------------------------------------------------------------------------

impl RedirectModel {
    /// The canonical form of a host: what the map says, else what the policy
    /// makes of it.
    pub open spec fn host(self, host: Seq<char>) -> Seq<char> {
        match http::header_value(self.host_map, host) {
            Some(target) => target,
            None => match self.canonical_host {
                Some(HostPolicy::Www) => if www_prefixed(host) {
                    host
                } else {
                    "www."@ + host
                },
                Some(HostPolicy::Apex) => if www_prefixed(host) {
                    host.skip(4)
                } else {
                    host
                },
                None => host,
            },
        }
    }

    /// The canonical form of a path.
    pub open spec fn path(self, path: Seq<char>) -> Seq<char> {
        match self.trailing_slash {
            Some(SlashPolicy::Strip) => if path.len() > 1 && path.last() == '/' {
                let kept = without_slashes(path);
                if kept.len() == 0 {
                    "/"@
                } else {
                    kept
                }
            } else {
                path
            },
            Some(SlashPolicy::Add) => if (path.len() > 0 && path.last() == '/') || file_like(path) {
                path
            } else {
                path + "/"@
            },
            None => path,
        }
    }

    /// The scheme that the client used: the first value of the configured
    /// header, `http` where it is anything but `https`.
    pub open spec fn scheme(self, req: RequestModel) -> Seq<char> {
        match req.header(self.forwarded_proto_header) {
            Some(v) => if text::same_ignoring_case(
                text::trimmed(text::pieces(v, ',')[0]),
                "https"@,
            ) {
                "https"@
            } else {
                "http"@
            },
            None => "http"@,
        }
    }

    /// The canonical scheme.
    pub open spec fn canonical_scheme(self, req: RequestModel) -> Seq<char> {
        if self.force_https {
            "https"@
        } else {
            self.scheme(req)
        }
    }

    /// The request's authority, where it names one.
    pub open spec fn authority(self, req: RequestModel) -> Option<Seq<char>> {
        match req.header("Host"@) {
            Some(h) => if h.len() == 0 {
                None
            } else {
                Some(h)
            },
            None => None,
        }
    }

    /// The canonical authority for a `Host` value, with the port kept.
    pub open spec fn canonical_authority(self, authority: Seq<char>) -> Seq<char> {
        let (host, port) = host_and_port(authority);
        match port {
            Some(p) => self.host(host) + ":"@ + p,
            None => self.host(host),
        }
    }

    /// The scheme, host and path of the request are canonical; hosts are
    /// compared up to case.
    pub open spec fn is_canonical(self, req: RequestModel, authority: Seq<char>) -> bool {
        let host = host_and_port(authority).0;
        &&& self.scheme(req) == self.canonical_scheme(req)
        &&& text::same_ignoring_case(host, self.host(host))
        &&& request_path(req) == self.path(request_path(req))
    }

    /// The canonical URL of the request.
    pub open spec fn location(self, req: RequestModel, authority: Seq<char>) -> Seq<char> {
        let base = self.canonical_scheme(req) + "://"@ + self.canonical_authority(authority)
            + self.path(request_path(req));
        if req.query.len() == 0 {
            base
        } else {
            base + "?"@ + req.query
        }
    }

    /// What happens, which is one redirect to the canonical URL, or nothing.
    pub open spec fn verdict(self, req: RequestModel) -> ResponseModel {
        match self.authority(req) {
            Some(authority) => if self.is_canonical(req, authority) {
                ResponseModel::cont()
            } else {
                ResponseModel::respond(self.status, ""@).header(
                    "Location"@,
                    self.location(req, authority),
                )
            },
            None => ResponseModel::cont(),
        }
    }
}

/// The path of the request; an empty one is the root.
pub open spec fn request_path(req: RequestModel) -> Seq<char> {
    if req.path.len() == 0 {
        "/"@
    } else {
        req.path
    }
}

// ---------------------------------------------------------------------------
// Configuration
// ---------------------------------------------------------------------------

/// The `canonical_host` setting.
pub open spec fn host_policy(config: JsonModel) -> Result<Option<HostPolicy>, Seq<char>> {
    match config::text_or(config, "canonical_host"@, None) {
        Ok(None) => Ok(None),
        Ok(Some(s)) => if text::lower(s) == "www"@ {
            Ok(Some(HostPolicy::Www))
        } else if text::lower(s) == "apex"@ || text::lower(s) == "non-www"@ {
            Ok(Some(HostPolicy::Apex))
        } else {
            Err(
                config::must_be(
                    "canonical_host"@,
                    "\"www\" or \"apex\""@,
                    "\""@ + text::lower(s) + "\""@,
                ),
            )
        },
        Err(e) => Err(e),
    }
}

/// One member of the `host_map` setting.
pub open spec fn host_entry() -> spec_fn((Seq<char>, JsonModel)) -> Result<
    (Seq<char>, Seq<char>),
    Seq<char>,
> {
    |m: (Seq<char>, JsonModel)|
        match m.1.as_text() {
            None => Err(
                "`host_map` values must be strings, got "@ + m.1.text + " for key `"@ + m.0 + "`"@,
            ),
            Some(target) => if target.len() == 0 {
                Err("`host_map` value for key `"@ + m.0 + "` must not be empty"@)
            } else {
                Ok((text::lower(m.0), target))
            },
        }
}

/// The `host_map` setting.
pub open spec fn host_targets(config: JsonModel) -> Result<Headers, Seq<char>> {
    match config.setting("host_map"@) {
        None => Ok(Seq::empty()),
        Some(v) => match v.node {
            NodeModel::Object(members) => config::collect(members, host_entry()),
            _ => Err(config::must_be("host_map"@, "an object"@, v.text)),
        },
    }
}

/// The `trailing_slash` setting.
pub open spec fn slash_policy(config: JsonModel) -> Result<Option<SlashPolicy>, Seq<char>> {
    match config::text_or(config, "trailing_slash"@, None) {
        Ok(None) => Ok(None),
        Ok(Some(s)) => if text::lower(s) == "add"@ {
            Ok(Some(SlashPolicy::Add))
        } else if text::lower(s) == "strip"@ {
            Ok(Some(SlashPolicy::Strip))
        } else {
            Err(
                config::must_be(
                    "trailing_slash"@,
                    "\"add\" or \"strip\""@,
                    "\""@ + text::lower(s) + "\""@,
                ),
            )
        },
        Err(e) => Err(e),
    }
}

/// The `status` setting.
pub open spec fn redirect_status(config: JsonModel) -> Result<u16, Seq<char>> {
    match config.setting("status"@) {
        None => Ok(308),
        Some(v) => match v.as_u64() {
            None => Err(config::must_be("status"@, "301 or 308"@, v.text)),
            Some(n) => if n == 301 || n == 308 {
                Ok(n as u16)
            } else {
                Err(config::must_be("status"@, "301 or 308"@, text::decimal(n as nat)))
            },
        },
    }
}

/// The `forwarded_proto_header` setting.
pub open spec fn proto_header(config: JsonModel) -> Result<Seq<char>, Seq<char>> {
    match config::text_or(config, "forwarded_proto_header"@, Some("X-Forwarded-Proto"@)) {
        Ok(Some(name)) => if name.len() == 0 {
            Err("`forwarded_proto_header` must not be empty"@)
        } else {
            Ok(name)
        },
        Ok(None) => Err("`forwarded_proto_header` must not be empty"@),
        Err(e) => Err(e),
    }
}

impl RedirectModel {
    /// The policy that a configuration describes, or the first setting that is
    /// refused.
    pub open spec fn configured(config: JsonModel) -> Result<RedirectModel, Seq<char>> {
        match (
            host_policy(config),
            host_targets(config),
            slash_policy(config),
            redirect_status(config),
            proto_header(config),
            config::bool_or(config, "force_https"@, false),
        ) {
            (Err(e), _, _, _, _, _) => Err(e),
            (_, Err(e), _, _, _, _) => Err(e),
            (_, _, Err(e), _, _, _) => Err(e),
            (_, _, _, Err(e), _, _) => Err(e),
            (_, _, _, _, Err(e), _) => Err(e),
            (_, _, _, _, _, Err(e)) => Err(e),
            (Ok(host), Ok(host_map), Ok(slash), Ok(status), Ok(header), Ok(force_https)) => Ok(
                RedirectModel {
                    force_https,
                    canonical_host: host,
                    host_map,
                    trailing_slash: slash,
                    status,
                    forwarded_proto_header: header,
                },
            ),
        }
    }

    /// What every configured policy keeps: the status is one of the two
    /// permanent redirects, the scheme is read from a named header, and hosts
    /// are looked up in lower case and mapped to something.
    pub open spec fn well_formed(self) -> bool {
        &&& self.status == 301 || self.status == 308
        &&& self.forwarded_proto_header.len() > 0
        &&& forall|i: int|
            0 <= i < self.host_map.len() ==> {
                &&& (#[trigger] self.host_map[i]).1.len() > 0
                &&& text::lower(self.host_map[i].0) == self.host_map[i].0
            }
    }
}

fn read_host_policy(config: &Json) -> (r: Result<Option<HostPolicy>, String>)
    ensures
        match r {
            Ok(p) => host_policy(config@) == Ok::<_, Seq<char>>(p),
            Err(e) => host_policy(config@) == Err::<Option<HostPolicy>, _>(e@),
        },
{
    match config::opt_text(config, "canonical_host") {
        Ok(None) => Ok(None),
        Ok(Some(s)) => {
            let s: String = text::to_lower(s.as_str());
            if text::same(s.as_str(), "www") {
                Ok(Some(HostPolicy::Www))
            } else if text::same(s.as_str(), "apex") || text::same(s.as_str(), "non-www") {
                Ok(Some(HostPolicy::Apex))
            } else {
                let got: String = "\"".to_owned().concat(s.as_str()).concat("\"");
                Err(
                    config::say_must_be(
                        "canonical_host",
                        "\"www\" or \"apex\"",
                        got.as_str(),
                    ),
                )
            }
        },
        Err(e) => Err(e),
    }
}

fn read_host_targets(config: &Json) -> (r: Result<Vec<(String, String)>, String>)
    ensures
        match r {
            Ok(list) => host_targets(config@) == Ok::<_, Seq<char>>(config::text_pairs(list@)),
            Err(e) => host_targets(config@) == Err::<Headers, _>(e@),
        },
{
    let mut out: Vec<(String, String)> = Vec::new();
    assert(config::text_pairs(out@) =~= Seq::empty());
    let v: &Json = match config.setting("host_map") {
        None => return Ok(out),
        Some(v) => v,
    };
    let members: &Vec<(String, Json)> = match v.as_object() {
        Some(members) => members,
        None => return Err(config::say_must_be("host_map", "an object", v.text.as_str())),
    };
    let ghost all = v@.node->Object_0;
    let ghost read = host_entry();
    let mut i: usize = 0;
    while i < members.len()
        invariant
            i <= members.len(),
            all == members@.map_values(|m: (String, Json)| (m.0@, m.1@)),
            read == host_entry(),
            host_targets(config@) == config::collect(all, read),
            config::collect(all.take(i as int), read) == Ok::<_, Seq<char>>(
                config::text_pairs(out@),
            ),
        decreases members.len() - i,
    {
        proof {
            config::lemma_collect_step(all, read, i as int);
        }
        let key: &str = members[i].0.as_str();
        match members[i].1.as_text() {
            None => {
                proof {
                    config::lemma_collect_refusal(all, read, i + 1);
                }
                return Err(
                    "`host_map` values must be strings, got ".to_owned().concat(
                        members[i].1.text.as_str(),
                    ).concat(" for key `").concat(key).concat("`"),
                );
            },
            Some(target) => {
                if target.is_empty() {
                    proof {
                        config::lemma_collect_refusal(all, read, i + 1);
                    }
                    return Err(
                        "`host_map` value for key `".to_owned().concat(key).concat(
                            "` must not be empty",
                        ),
                    );
                }
                let pair: (String, String) = (text::to_lower(key), target.to_owned());
                proof {
                    config::lemma_text_pairs_push(out@, pair);
                }
                out.push(pair);
            },
        }
        i += 1;
    }
    assert(all.take(i as int) =~= all);
    Ok(out)
}

fn read_slash_policy(config: &Json) -> (r: Result<Option<SlashPolicy>, String>)
    ensures
        match r {
            Ok(p) => slash_policy(config@) == Ok::<_, Seq<char>>(p),
            Err(e) => slash_policy(config@) == Err::<Option<SlashPolicy>, _>(e@),
        },
{
    match config::opt_text(config, "trailing_slash") {
        Ok(None) => Ok(None),
        Ok(Some(s)) => {
            let s: String = text::to_lower(s.as_str());
            if text::same(s.as_str(), "add") {
                Ok(Some(SlashPolicy::Add))
            } else if text::same(s.as_str(), "strip") {
                Ok(Some(SlashPolicy::Strip))
            } else {
                let got: String = "\"".to_owned().concat(s.as_str()).concat("\"");
                Err(
                    config::say_must_be(
                        "trailing_slash",
                        "\"add\" or \"strip\"",
                        got.as_str(),
                    ),
                )
            }
        },
        Err(e) => Err(e),
    }
}

fn read_status(config: &Json) -> (r: Result<u16, String>)
    ensures
        match r {
            Ok(n) => redirect_status(config@) == Ok::<_, Seq<char>>(n),
            Err(e) => redirect_status(config@) == Err::<u16, _>(e@),
        },
{
    match config.setting("status") {
        None => Ok(308),
        Some(v) => match v.as_u64() {
            None => Err(config::say_must_be("status", "301 or 308", v.text.as_str())),
            Some(n) => if n == 301 || n == 308 {
                Ok(n as u16)
            } else {
                Err(config::say_must_be("status", "301 or 308", text::number(n).as_str()))
            },
        },
    }
}

fn read_proto_header(config: &Json) -> (r: Result<String, String>)
    ensures
        match r {
            Ok(name) => proto_header(config@) == Ok::<_, Seq<char>>(name@),
            Err(e) => proto_header(config@) == Err::<Seq<char>, _>(e@),
        },
{
    match config::opt_string(config, "forwarded_proto_header", "X-Forwarded-Proto") {
        Ok(name) => if name.as_str().is_empty() {
            Err("`forwarded_proto_header` must not be empty".to_owned())
        } else {
            Ok(name)
        },
        Err(e) => Err(e),
    }
}

proof fn lemma_configured(config: JsonModel)
    requires
        RedirectModel::configured(config) is Ok,
    ensures
        RedirectModel::configured(config)->Ok_0.well_formed(),
{
    let m = RedirectModel::configured(config)->Ok_0;
    if config.setting("host_map"@) is Some {
        let members = config.setting("host_map"@)->0.node->Object_0;
        config::lemma_collect_items(members, host_entry());
        assert forall|i: int| 0 <= i < m.host_map.len() implies {
            &&& (#[trigger] m.host_map[i]).1.len() > 0
            &&& text::lower(m.host_map[i].0) == m.host_map[i].0
        } by {
            assert(host_entry()(members[i]) == Ok::<_, Seq<char>>(m.host_map[i]));
            text::lemma_lower_twice(members[i].0);
        }
    }
}

impl Redirect {
    /// Reads the policy from a module's configuration.
    pub fn init(config: &Json) -> (r: Result<Redirect, String>)
        ensures
            match r {
                Ok(m) => {
                    &&& RedirectModel::configured(config@) == Ok::<_, Seq<char>>(m@)
                    &&& m@.well_formed()
                },
                Err(e) => RedirectModel::configured(config@) == Err::<RedirectModel, _>(e@),
            },
    {
        let canonical_host: Option<HostPolicy> = match read_host_policy(config) {
            Ok(p) => p,
            Err(e) => return Err(e),
        };
        let host_map: Vec<(String, String)> = match read_host_targets(config) {
            Ok(list) => list,
            Err(e) => return Err(e),
        };
        let trailing_slash: Option<SlashPolicy> = match read_slash_policy(config) {
            Ok(p) => p,
            Err(e) => return Err(e),
        };
        let status: u16 = match read_status(config) {
            Ok(n) => n,
            Err(e) => return Err(e),
        };
        let forwarded_proto_header: String = match read_proto_header(config) {
            Ok(name) => name,
            Err(e) => return Err(e),
        };
        let force_https: bool = match config::opt_bool(config, "force_https", false) {
            Ok(b) => b,
            Err(e) => return Err(e),
        };
        proof {
            lemma_configured(config@);
        }
        Ok(
            Redirect {
                force_https,
                canonical_host,
                host_map,
                trailing_slash,
                status,
                forwarded_proto_header,
            },
        )
    }

    /// The canonical host for `host` (case kept when nothing applies).
    pub fn canonical_host(&self, host: &str) -> (r: String)
        ensures
            r@ == self@.host(host@),
    {
        if let Some(target) = http::find_header(&self.host_map, host) {
            return target.to_owned();
        }
        match self.canonical_host {
            Some(HostPolicy::Www) => if has_www_prefix(host) {
                host.to_owned()
            } else {
                "www.".to_owned().concat(host)
            },
            Some(HostPolicy::Apex) => match strip_www_prefix(host) {
                Some(rest) => rest.to_owned(),
                None => host.to_owned(),
            },
            None => host.to_owned(),
        }
    }

    /// The canonical path for `path` under the trailing-slash policy.
    pub fn canonical_path(&self, path: &str) -> (r: String)
        ensures
            r@ == self@.path(path@),
    {
        let x: Vec<char> = text::chars_of(path);
        let n: usize = x.len();
        let slash: bool = n > 0 && x[n - 1] == '/';
        match self.trailing_slash {
            Some(SlashPolicy::Strip) => {
                if n > 1 && slash {
                    let mut end: usize = n;
                    assert(path@.take(n as int) =~= path@);
                    while end > 0 && x[end - 1] == '/'
                        invariant
                            x@ == path@,
                            end <= n,
                            n == x.len(),
                            without_slashes(path@) == without_slashes(path@.take(end as int)),
                        decreases end,
                    {
                        assert(path@.take(end as int).drop_last() =~= path@.take(end - 1));
                        end -= 1;
                    }
                    if end == 0 {
                        "/".to_owned()
                    } else {
                        path.substring_char(0, end).to_owned()
                    }
                } else {
                    path.to_owned()
                }
            },
            Some(SlashPolicy::Add) => {
                if slash || last_segment_has_dot(path) {
                    path.to_owned()
                } else {
                    path.to_owned().concat("/")
                }
            },
            None => path.to_owned(),
        }
    }

    /// The current request scheme, read from the configured header.
    pub fn current_scheme(&self, req: &Request) -> (r: &'static str)
        ensures
            r@ == self@.scheme(req@),
    {
        match req.header(self.forwarded_proto_header.as_str()) {
            Some(v) => {
                let parts: Vec<&str> = text::split(v, ',');
                assert(text::pieces(v@, ',')[0] == parts@.map_values(|p: &str| p@)[0]);
                let first: &str = text::trim(parts[0]);
                if text::eq_ignore_case(first, "https") {
                    "https"
                } else {
                    "http"
                }
            },
            None => "http",
        }
    }

    /// One redirect to the canonical URL, or nothing where the request is
    /// canonical or names no host.
    pub fn invoke(&self, req: &Request) -> (r: Response)
        ensures
            r@ == self@.verdict(req@),
    {
        let authority: &str = match req.header("Host") {
            Some(h) => if h.is_empty() {
                return Response::cont();
            } else {
                h
            },
            None => return Response::cont(),
        };
        let (host, port) = split_host(authority);
        let scheme_now: &'static str = self.current_scheme(req);
        let scheme: &'static str = if self.force_https {
            "https"
        } else {
            scheme_now
        };
        let host_canonical: String = self.canonical_host(host);
        let path_now: &str = if req.path.as_str().is_empty() {
            "/"
        } else {
            req.path.as_str()
        };
        let path: String = self.canonical_path(path_now);
        let canonical: bool = text::same(scheme_now, scheme) && text::eq_ignore_case(
            host,
            host_canonical.as_str(),
        ) && text::same(path_now, path.as_str());
        if canonical {
            return Response::cont();
        }
        let mut target: String = host_canonical;
        if let Some(p) = port {
            target.append(":");
            target.append(p);
        }
        let mut location: String = scheme.to_owned().concat("://").concat(target.as_str()).concat(
            path.as_str(),
        );
        if !req.query.as_str().is_empty() {
            location.append("?");
            location.append(req.query.as_str());
        }
        Response::respond(self.status, "").header("Location", location.as_str())
    }
}

// ---------------------------------------------------------------------------
// One redirect is enough
// ---------------------------------------------------------------------------

impl RedirectModel {
    /// `next` is the request of a client that follows the redirect of `req`,
    /// with the scheme that it then uses reported in the configured header.
    pub open spec fn follows(
        self,
        req: RequestModel,
        authority: Seq<char>,
        next: RequestModel,
    ) -> bool {
        &&& self.authority(next) == Some(self.canonical_authority(authority))
        &&& self.scheme(next) == self.canonical_scheme(req)
        &&& next.path == self.path(request_path(req))
        &&& next.query == req.query
    }

    /// The host of the canonical authority is canonical itself.
    pub open spec fn settles(self, authority: Seq<char>) -> bool {
        let again = host_and_port(self.canonical_authority(authority)).0;
        text::same_ignoring_case(again, self.host(again))
    }
}

/// A canonical path is kept as it is.
pub proof fn law_canonical_path_is_kept(p: RedirectModel, path: Seq<char>)
    ensures
        p.path(p.path(path)) == p.path(path),
{
    reveal_strlit("/");
    match p.trailing_slash {
        Some(SlashPolicy::Strip) => {
            lemma_without_slashes(path);
        },
        Some(SlashPolicy::Add) => {
            assert((path + "/"@).last() == '/');
        },
        None => {},
    }
}

proof fn lemma_without_slashes(s: Seq<char>)
    ensures
        without_slashes(s).len() > 0 ==> without_slashes(s).last() != '/',
    decreases s.len(),
{
    if s.len() > 0 && s.last() == '/' {
        lemma_without_slashes(s.drop_last());
    }
}

/// A client that follows the redirect is served, exactly where the host of the
/// canonical authority is canonical itself.
pub proof fn law_one_redirect_is_enough(
    p: RedirectModel,
    req: RequestModel,
    authority: Seq<char>,
    next: RequestModel,
)
    requires
        p.authority(req) == Some(authority),
        p.follows(req, authority, next),
    ensures
        (p.verdict(next) == ResponseModel::cont()) == p.settles(authority),
{
    reveal_strlit("/");
    law_canonical_path_is_kept(p, request_path(req));
    lemma_without_slashes(request_path(req));
    assert(next.path.len() > 0);
}

/// Without a host map the canonical host is canonical itself: always without a
/// host policy, under `www` for every host that is not empty, under `apex`
/// unless a second `www.` label follows the first.
pub proof fn law_policies_settle(p: RedirectModel, authority: Seq<char>)
    requires
        p.host_map.len() == 0,
        match p.canonical_host {
            Some(HostPolicy::Www) => host_and_port(authority).0.len() > 0,
            Some(HostPolicy::Apex) => !www_prefixed(p.host(host_and_port(authority).0)),
            None => true,
        },
    ensures
        p.settles(authority),
{
    reveal_strlit("www.");
    reveal_strlit(":");
    let (host, port) = host_and_port(authority);
    let canonical = p.host(host);
    let made = p.canonical_authority(authority);
    let again = host_and_port(made).0;
    authority.index_of_first_ensures(']');
    made.index_of_first_ensures(']');
    match p.canonical_host {
        Some(HostPolicy::Www) => {
            assert(www_prefixed(canonical)) by {
                if !www_prefixed(host) {
                    assert(("www."@ + host).take(4) =~= "www."@);
                }
            }
            lemma_www_label(canonical);
            made.index_of_last_ensures(':');
            if again != made {
                let i = made.index_of_last(':')->0;
                assert(i > 4) by {
                    if i == 4 {
                        if port is Some {
                            assert(made[canonical.len() as int] == ':');
                        } else if www_prefixed(host) {
                            lemma_www_label(host);
                        } else {
                            assert(made.skip(4) =~= host);
                            assert(host[0] == made[4]);
                            assert(authority.skip(1) =~= made.skip(5));
                            lemma_last_at(authority, 0);
                        }
                    }
                }
            }
            assert(again.take(4) =~= canonical.take(4));
        },
        Some(HostPolicy::Apex) => {
            if again.len() > 0 && again[0] == '[' {
                if www_prefixed(again) {
                    lemma_www_label(again);
                }
            } else {
                if www_prefixed(host) {
                    lemma_www_label(host);
                }
                authority.index_of_last_ensures(':');
                made.index_of_last_ensures(':');
                if port is Some {
                    let digits = port->0;
                    assert(made.skip(canonical.len() as int + 1) =~= digits);
                    assert forall|j: int| canonical.len() < j < made.len() implies made[j]
                        != ':' by {
                        assert(text::is_digit(digits[j - canonical.len() - 1]));
                    }
                    lemma_last_at(made, canonical.len() as int);
                    assert(again =~= canonical);
                } else if again != made {
                    let i = made.index_of_last(':')->0;
                    let k = if www_prefixed(host) {
                        i + 4
                    } else {
                        i
                    };
                    assert forall|j: int| k < j < authority.len() implies authority[j] != ':' by {
                        assert(authority[j] == made[j - (k - i)]);
                    }
                    assert(authority[k] == made[i]);
                    lemma_last_at(authority, k);
                    assert(authority.skip(k + 1) =~= made.skip(i + 1));
                }
            }
        },
        None => {},
    }
}

/// The characters of a leading `www.` label.
proof fn lemma_www_label(host: Seq<char>)
    requires
        www_prefixed(host),
    ensures
        host[0] != '[',
        forall|j: int| 0 <= j < 4 ==> #[trigger] host[j] != ':',
{
    reveal_strlit("www.");
    assert forall|j: int| 0 <= j < 4 implies #[trigger] host[j] != ':' by {
        assert(text::lower(host.take(4))[j] == text::lower("www."@)[j]);
    }
    assert(text::lower(host.take(4))[0] == text::lower("www."@)[0]);
}

proof fn lemma_last_at(s: Seq<char>, i: int)
    requires
        0 <= i < s.len(),
        s[i] == ':',
        forall|j: int| i < j < s.len() ==> s[j] != ':',
    ensures
        s.index_of_last(':') == Some(i),
{
    s.index_of_last_ensures(':');
}

// ---------------------------------------------------------------------------
// Where a redirect leads
// ---------------------------------------------------------------------------

/// A URL reads as these parts.
pub open spec fn reads_as(
    url: Seq<char>,
    scheme: Seq<char>,
    authority: Seq<char>,
    path: Seq<char>,
    query: Seq<char>,
) -> bool {
    &&& url == scheme + "://"@ + authority + path + (if query.len() == 0 {
        Seq::empty()
    } else {
        "?"@ + query
    })
    &&& !scheme.contains(':')
    &&& !authority.contains('/')
    &&& path.len() > 0
    &&& path[0] == '/'
    &&& !path.contains('?')
}

/// A redirect names the scheme that the client used, `https` in its place where
/// that is forced, then the canonical host with the port that the client used,
/// the canonical path and the query, and nothing else.
pub proof fn law_location_keeps_scheme_port_and_query(
    p: RedirectModel,
    req: RequestModel,
    host: Seq<char>,
    port: Option<Seq<char>>,
)
    requires
        p.verdict(req).action == http::Action::Respond,
        req.header("Host"@) is Some,
        host_and_port(req.header("Host"@)->0) == (host, port),
    ensures
        p.verdict(req).status == p.status,
        p.verdict(req).body.len() == 0,
        p.verdict(req).headers.len() == 1,
        p.verdict(req).headers[0].0 == "Location"@,
        p.verdict(req).headers[0].1 == (if p.force_https {
            "https"@
        } else {
            p.scheme(req)
        }) + "://"@ + p.host(host) + (match port {
            Some(digits) => ":"@ + digits,
            None => Seq::empty(),
        }) + p.path(
            if req.path.len() == 0 {
                "/"@
            } else {
                req.path
            },
        ) + (if req.query.len() == 0 {
            Seq::empty()
        } else {
            "?"@ + req.query
        }),
{
    reveal_strlit("");
    assert(vstd::utf8::encode_utf8(""@).len() == 0);
    let authority = req.header("Host"@)->0;
    let base = p.canonical_scheme(req) + "://"@;
    let location = p.location(req, authority);
    let path = p.path(request_path(req));
    match port {
        Some(digits) => {
            assert(base + p.canonical_authority(authority) =~= base + p.host(host) + (":"@
                + digits));
        },
        None => {
            assert(base + p.canonical_authority(authority) =~= base + p.host(host)
                + Seq::<char>::empty());
        },
    }
    let whole = base + p.canonical_authority(authority) + path;
    if req.query.len() == 0 {
        assert(whole + Seq::<char>::empty() =~= whole);
    } else {
        assert(whole + "?"@ + req.query =~= whole + ("?"@ + req.query));
    }
}

/// The scheme that the client used is `https` exactly where the first value of
/// the configured header says so, in any case.
pub proof fn law_scheme_is_the_first_reported(
    p: RedirectModel,
    req: RequestModel,
    first: Seq<char>,
    others: Seq<char>,
)
    requires
        !first.contains(','),
    ensures
        req.header(p.forwarded_proto_header) is None ==> p.scheme(req) == "http"@,
        req.header(p.forwarded_proto_header) == Some(first) || req.header(p.forwarded_proto_header)
            == Some(first + ","@ + others) ==> p.scheme(req) == (if text::same_ignoring_case(
            text::trimmed(first),
            "https"@,
        ) {
            "https"@
        } else {
            "http"@
        }),
{
    reveal_strlit(",");
    text::lemma_one_piece(first, ',');
    text::lemma_pieces_join(first, ',', others);
    assert(first + ","@ + others =~= first.push(',') + others);
}

/// A request whose `Location`, read as a URL, is sent as the next request follows
/// the redirect: it comes by the same scheme unless `https` is forced, to the
/// canonical host and path, with the same query.
pub proof fn law_location_leads_on(
    p: RedirectModel,
    req: RequestModel,
    authority: Seq<char>,
    next: RequestModel,
)
    requires
        p.authority(req) == Some(authority),
        p.verdict(req).action == http::Action::Respond,
        p.authority(next) is Some,
        reads_as(
            p.verdict(req).headers[0].1,
            p.scheme(next),
            p.authority(next)->0,
            next.path,
            next.query,
        ),
        !p.canonical_authority(authority).contains('/'),
        req.path.len() > 0 ==> req.path[0] == '/',
        !req.path.contains('?'),
    ensures
        p.follows(req, authority, next),
        p.force_https ==> p.scheme(next) == "https"@,
        !p.force_https ==> p.scheme(next) == p.scheme(req),
{
    reveal_strlit("http");
    reveal_strlit("https");
    reveal_strlit("/");
    let url = p.verdict(req).headers[0].1;
    let s = p.canonical_scheme(req);
    let a = p.canonical_authority(authority);
    let path = p.path(request_path(req));
    lemma_canonical_path(p, request_path(req));
    assert(!s.contains(':'));
    assert(url == p.location(req, authority));
    let base = s + "://"@ + a + path;
    if req.query.len() == 0 {
        assert(base + Seq::<char>::empty() =~= base);
    } else {
        assert(base + "?"@ + req.query =~= base + ("?"@ + req.query));
    }
    law_urls_read_in_one_way(
        url,
        (s, a, path, req.query),
        (p.scheme(next), p.authority(next)->0, next.path, next.query),
    );
}

/// A URL reads as its parts in one way only.
pub proof fn law_urls_read_in_one_way(
    url: Seq<char>,
    parts: (Seq<char>, Seq<char>, Seq<char>, Seq<char>),
    other: (Seq<char>, Seq<char>, Seq<char>, Seq<char>),
)
    requires
        reads_as(url, parts.0, parts.1, parts.2, parts.3),
        reads_as(url, other.0, other.1, other.2, other.3),
    ensures
        parts == other,
{
    let (s, a, path, query) = parts;
    let (t, b, next, asked) = other;
    let x = a + path + tail_of(query);
    let y = b + next + tail_of(asked);
    assert(s + "://"@ + a + path + tail_of(query) =~= s + "://"@ + x);
    assert(t + "://"@ + b + next + tail_of(asked) =~= t + "://"@ + y);
    lemma_scheme_cut(s, x, t, y);
    assert(x =~= a.push('/') + (path.skip(1) + tail_of(query)));
    assert(y =~= b.push('/') + (next.skip(1) + tail_of(asked)));
    lemma_cut_once(a, path.skip(1) + tail_of(query), b, next.skip(1) + tail_of(asked), '/');
    lemma_rest_has_none(path);
    lemma_rest_has_none(next);
    lemma_query_cut(path.skip(1), query, next.skip(1), asked);
    assert(path =~= seq!['/'] + path.skip(1));
    assert(next =~= seq!['/'] + next.skip(1));
}

/// What a query adds to a URL.
spec fn tail_of(query: Seq<char>) -> Seq<char> {
    if query.len() == 0 {
        Seq::empty()
    } else {
        "?"@ + query
    }
}

proof fn lemma_rest_has_none(path: Seq<char>)
    requires
        path.len() > 0,
        !path.contains('?'),
    ensures
        !path.skip(1).contains('?'),
{
    assert forall|i: int| 0 <= i < path.skip(1).len() implies path.skip(1)[i] != '?' by {
        assert(path.contains(path[i + 1]));
    }
}

proof fn lemma_scheme_cut(s: Seq<char>, x: Seq<char>, t: Seq<char>, y: Seq<char>)
    requires
        s + "://"@ + x == t + "://"@ + y,
        !s.contains(':'),
        !t.contains(':'),
    ensures
        s == t,
        x == y,
{
    reveal_strlit("://");
    let slashes = seq!['/', '/'];
    assert(s + "://"@ + x =~= s.push(':') + (slashes + x));
    assert(t + "://"@ + y =~= t.push(':') + (slashes + y));
    lemma_cut_once(s, slashes + x, t, slashes + y, ':');
    assert((slashes + x).skip(2) =~= x);
    assert((slashes + y).skip(2) =~= y);
}

proof fn lemma_query_cut(u: Seq<char>, query: Seq<char>, v: Seq<char>, asked: Seq<char>)
    requires
        u + tail_of(query) == v + tail_of(asked),
        !u.contains('?'),
        !v.contains('?'),
    ensures
        u == v,
        query == asked,
{
    reveal_strlit("?");
    let (g, h) = (u + tail_of(query), v + tail_of(asked));
    if query.len() == 0 {
        assert(g =~= u);
        if asked.len() > 0 {
            assert(h[v.len() as int] == '?');
            assert(u.contains(u[v.len() as int]));
        }
        assert(h =~= v);
        assert(query =~= asked);
    } else {
        assert(g[u.len() as int] == '?');
        if asked.len() == 0 {
            assert(h =~= v);
            assert(v.contains(v[u.len() as int]));
        }
        assert(g =~= u.push('?') + query);
        assert(h =~= v.push('?') + asked);
        lemma_cut_once(u, query, v, asked, '?');
    }
}

/// A text is cut at the first of a character in one way only.
proof fn lemma_cut_once(a: Seq<char>, x: Seq<char>, b: Seq<char>, y: Seq<char>, c: char)
    requires
        a.push(c) + x == b.push(c) + y,
        !a.contains(c),
        !b.contains(c),
    ensures
        a == b,
        x == y,
{
    let all = a.push(c) + x;
    assert(all[a.len() as int] == c);
    assert((b.push(c) + y)[b.len() as int] == c);
    if a.len() < b.len() {
        assert((b.push(c) + y)[a.len() as int] == b[a.len() as int]);
        assert(b.contains(b[a.len() as int]));
    } else if b.len() < a.len() {
        assert(all[b.len() as int] == a[b.len() as int]);
        assert(a.contains(a[b.len() as int]));
    }
    assert(a =~= all.take(a.len() as int));
    assert(b =~= (b.push(c) + y).take(a.len() as int));
    assert(x =~= all.skip(a.len() as int + 1));
    assert(y =~= (b.push(c) + y).skip(a.len() as int + 1));
}

proof fn lemma_canonical_path(p: RedirectModel, path: Seq<char>)
    requires
        path.len() > 0,
        path[0] == '/',
        !path.contains('?'),
    ensures
        p.path(path).len() > 0,
        p.path(path)[0] == '/',
        !p.path(path).contains('?'),
{
    reveal_strlit("/");
    lemma_slashes_cut(path);
    let kept = without_slashes(path);
    let n = kept.len() as int;
    assert forall|i: int| 0 <= i < n implies kept[i] != '?' by {
        assert(kept[i] == path[i]);
        assert(path.contains(path[i]));
    }
    let more = path + "/"@;
    assert forall|i: int| 0 <= i < more.len() implies more[i] != '?' by {
        if i < path.len() {
            assert(path.contains(path[i]));
        }
    }
}

proof fn lemma_slashes_cut(s: Seq<char>)
    ensures
        without_slashes(s).len() <= s.len(),
        without_slashes(s) == s.take(without_slashes(s).len() as int),
    decreases s.len(),
{
    if s.len() > 0 && s.last() == '/' {
        let t = s.drop_last();
        lemma_slashes_cut(t);
        let n = without_slashes(t).len() as int;
        assert(t.take(n) =~= s.take(n));
    } else {
        assert(s.take(s.len() as int) =~= s);
    }
}

/// A request is let through exactly where it names no host or is canonical in
/// every respect: by `https` where that is forced, to the canonical host up to
/// case, and by the canonical path.
pub proof fn law_only_other_urls_are_redirected(p: RedirectModel, req: RequestModel)
    ensures
        req.header("Host"@) is None || req.header("Host"@)->0.len() == 0 ==> p.verdict(req)
            == ResponseModel::cont(),
        req.header("Host"@) is Some && req.header("Host"@)->0.len() > 0 ==> ({
            let host = host_and_port(req.header("Host"@)->0).0;
            let path = if req.path.len() == 0 {
                "/"@
            } else {
                req.path
            };
            let canonical = (p.force_https ==> p.scheme(req) == "https"@)
                && text::same_ignoring_case(host, p.host(host)) && p.path(path) == path;
            &&& canonical ==> p.verdict(req) == ResponseModel::cont()
            &&& !canonical ==> p.verdict(req).action == http::Action::Respond
        }),
{
}

/// A mapped host, in any case and at whatever place of the map, becomes its
/// target, whatever the host policy says.
pub proof fn law_mapped_hosts_become_their_targets(p: RedirectModel, host: Seq<char>, i: int)
    requires
        0 <= i < p.host_map.len(),
        text::same_ignoring_case(p.host_map[i].0, host),
        forall|j: int|
            0 <= j < i ==> !text::same_ignoring_case((#[trigger] p.host_map[j]).0, host),
    ensures
        p.host(host) == p.host_map[i].1,
{
    http::law_first_header_is_read(p.host_map, host, i);
}

/// A host that is not mapped gets a leading `www.` under `www` unless it has one,
/// loses it under `apex` where something follows it, and else stays as it is.
pub proof fn law_www_label(
    p: RedirectModel,
    label: Seq<char>,
    rest: Seq<char>,
    host: Seq<char>,
)
    requires
        text::same_ignoring_case(label, "www."@),
        forall|j: int|
            0 <= j < p.host_map.len() ==> !text::same_ignoring_case(
                (#[trigger] p.host_map[j]).0,
                host,
            ),
    ensures
        p.canonical_host is None ==> p.host(host) == host,
        host == label + rest && rest.len() > 0 && p.canonical_host == Some(HostPolicy::Www)
            ==> p.host(host) == host,
        host == label + rest && rest.len() > 0 && p.canonical_host == Some(HostPolicy::Apex)
            ==> p.host(host) == rest,
        (host.len() <= 4 || !text::same_ignoring_case(host.take(4), "www."@)) && p.canonical_host
            == Some(HostPolicy::Www) ==> p.host(host) == "www."@ + host,
        (host.len() <= 4 || !text::same_ignoring_case(host.take(4), "www."@)) && p.canonical_host
            == Some(HostPolicy::Apex) ==> p.host(host) == host,
{
    reveal_strlit("www.");
    http::law_first_header_is_read(p.host_map, host, 0);
    text::law_only_case_may_differ(label, "www."@);
    assert(label.len() == 4);
    if host == label + rest {
        assert(host.take(4) =~= label);
        assert(host.skip(4) =~= rest);
    }
}

/// The port is the row of digits behind the last colon, or behind the bracket of
/// a literal; without one the whole is the host.
pub proof fn law_ports_are_digits(host: Seq<char>, tail: Seq<char>)
    ensures
        (host.len() == 0 || host[0] != '[') && tail.len() > 0 && text::all_digits(tail)
            ==> host_and_port(host + ":"@ + tail) == (host, Some(tail)),
        (host.len() == 0 || host[0] != '[') && !tail.contains(':') && (tail.len() == 0
            || !text::all_digits(tail)) ==> host_and_port(host + ":"@ + tail) == (
            host + ":"@ + tail,
            None::<Seq<char>>,
        ),
        (host.len() == 0 || host[0] != '[') && !host.contains(':') ==> host_and_port(host) == (
            host,
            None::<Seq<char>>,
        ),
        !host.contains(']') ==> ({
            let literal = "["@ + host + "]"@;
            &&& host_and_port(literal) == (literal, None::<Seq<char>>)
            &&& tail.len() > 0 && text::all_digits(tail) ==> host_and_port(literal + ":"@ + tail)
                == (literal, Some(tail))
            &&& !text::all_digits(tail) ==> host_and_port(literal + ":"@ + tail) == (
                literal,
                None::<Seq<char>>,
            )
        }),
{
    reveal_strlit(":");
    reveal_strlit("[");
    reveal_strlit("]");
    let value = host + ":"@ + tail;
    let n = host.len() as int;
    assert(value[n] == ':');
    if !tail.contains(':') || text::all_digits(tail) {
        assert forall|j: int| n < j < value.len() implies value[j] != ':' by {
            assert(value[j] == tail[j - n - 1]);
            assert(tail.contains(tail[j - n - 1]));
            if text::all_digits(tail) {
                assert(text::is_digit(tail[j - n - 1]));
            }
        }
        lemma_last_at(value, n);
        assert(value.take(n) =~= host);
        assert(value.skip(n + 1) =~= tail);
    }
    if n > 0 {
        assert(value[0] == host[0]);
    }
    host.index_of_last_ensures(':');
    if !host.contains(']') {
        lemma_literal(host, tail);
    }
}

proof fn lemma_literal(host: Seq<char>, tail: Seq<char>)
    requires
        !host.contains(']'),
    ensures
        ({
            let literal = "["@ + host + "]"@;
            &&& host_and_port(literal) == (literal, None::<Seq<char>>)
            &&& host_and_port(literal + ":"@ + tail) == (
                literal,
                if tail.len() > 0 && text::all_digits(tail) {
                    Some(tail)
                } else {
                    None
                },
            )
        }),
{
    reveal_strlit(":");
    reveal_strlit("[");
    reveal_strlit("]");
    let literal = "["@ + host + "]"@;
    let value = literal + ":"@ + tail;
    let n = host.len() as int + 1;
    assert(literal[0] == '[' && value[0] == '[');
    assert(literal[n] == ']' && value[n] == ']');
    assert(literal.contains(']') && value.contains(']'));
    literal.index_of_first_ensures(']');
    value.index_of_first_ensures(']');
    assert forall|j: int| 0 <= j < n implies literal[j] != ']' && value[j] != ']' by {
        if j > 0 {
            assert(literal[j] == host[j - 1] && value[j] == host[j - 1]);
            assert(host.contains(host[j - 1]));
        }
    }
    assert(literal.index_of_first(']') == Some(n));
    assert(value.index_of_first(']') == Some(n));
    assert(literal.take(n + 1) =~= literal);
    assert(value.take(n + 1) =~= literal);
    assert(value[n + 1] == ':');
    assert(value.skip(n + 2) =~= tail);
}

/// Stripping takes away every slash at the end of a path but the root; adding puts
/// one there unless there is one or the last segment has a dot; else a path stays
/// as it is.
pub proof fn law_trailing_slashes(
    p: RedirectModel,
    base: Seq<char>,
    slashes: Seq<char>,
    directory: Seq<char>,
    segment: Seq<char>,
)
    requires
        base.len() > 0,
        base.last() != '/',
        forall|i: int| 0 <= i < slashes.len() ==> #[trigger] slashes[i] == '/',
        !segment.contains('/'),
    ensures
        p.trailing_slash is None ==> p.path(base) == base && p.path(base + slashes) == base
            + slashes,
        p.trailing_slash == Some(SlashPolicy::Strip) ==> p.path(base + slashes) == base,
        p.trailing_slash == Some(SlashPolicy::Strip) && slashes.len() > 0 ==> p.path(slashes)
            == "/"@,
        p.trailing_slash == Some(SlashPolicy::Add) && slashes.len() > 0 ==> p.path(base + slashes)
            == base + slashes && p.path(slashes) == slashes,
        p.trailing_slash == Some(SlashPolicy::Add) && segment.contains('.') ==> p.path(
            directory + "/"@ + segment,
        ) == directory + "/"@ + segment,
        p.trailing_slash == Some(SlashPolicy::Add) && segment.len() > 0 && !segment.contains('.')
            ==> p.path(directory + "/"@ + segment) == directory + "/"@ + segment + "/"@,
        p.trailing_slash == Some(SlashPolicy::Add) && !segment.contains('.') && segment.len() > 0
            ==> p.path(segment) == segment + "/"@,
        p.trailing_slash != Some(SlashPolicy::Add) ==> p.path(Seq::empty()) == Seq::<char>::empty(),
        p.trailing_slash == Some(SlashPolicy::Add) ==> p.path(Seq::empty()) == "/"@,
{
    reveal_strlit("/");
    lemma_slashes_go(base, slashes);
    lemma_slashes_go(Seq::empty(), slashes);
    assert(Seq::<char>::empty() + slashes =~= slashes);
    assert(without_slashes(base) == base);
    assert(without_slashes(Seq::<char>::empty()) == Seq::<char>::empty());
    if slashes.len() > 0 {
        assert((base + slashes).last() == slashes.last());
        assert(slashes.last() == slashes[slashes.len() - 1]);
    } else {
        assert(base + slashes =~= base);
    }
    if slashes.len() == 1 {
        assert(slashes =~= "/"@);
    }
    let path = directory + "/"@ + segment;
    assert(path =~= directory.push('/') + segment);
    text::lemma_pieces_join(directory, '/', segment);
    text::lemma_one_piece(segment, '/');
    assert(text::pieces(path, '/').last() == segment);
    text::lemma_one_piece(Seq::empty(), '/');
    assert(Seq::<char>::empty() + "/"@ =~= "/"@);
    if segment.len() > 0 {
        assert(path.last() == segment.last());
        assert(segment.contains(segment.last()));
    }
}

proof fn lemma_slashes_go(base: Seq<char>, slashes: Seq<char>)
    requires
        forall|i: int| 0 <= i < slashes.len() ==> #[trigger] slashes[i] == '/',
    ensures
        without_slashes(base + slashes) == without_slashes(base),
    decreases slashes.len(),
{
    if slashes.len() == 0 {
        assert(base + slashes =~= base);
    } else {
        assert((base + slashes).last() == slashes[slashes.len() - 1]);
        assert((base + slashes).drop_last() =~= base + slashes.drop_last());
        lemma_slashes_go(base, slashes.drop_last());
    }
}

/// Every setting is read from its own key with its default; the map in order and
/// completely, its sources in lower case.
pub proof fn law_settings(config: JsonModel, p: RedirectModel, i: int)
    requires
        RedirectModel::configured(config) == Ok::<_, Seq<char>>(p),
    ensures
        config::bool_or(config, "force_https"@, false) == Ok::<_, Seq<char>>(p.force_https),
        config::text_or(config, "forwarded_proto_header"@, Some("X-Forwarded-Proto"@)) == Ok::<
            _,
            Seq<char>,
        >(Some(p.forwarded_proto_header)),
        p.forwarded_proto_header.len() > 0,
        config.setting("status"@) is None ==> p.status == 308,
        config.setting("status"@) is Some ==> config.setting("status"@)->0.as_u64() == Some(
            p.status as u64,
        ),
        p.status == 301 || p.status == 308,
        config.setting("canonical_host"@) is None ==> p.canonical_host is None,
        config.setting("canonical_host"@) is Some ==> config.setting("canonical_host"@)->0.node is Text
            && ({
            let s = config.setting("canonical_host"@)->0.node->Text_0;
            &&& p.canonical_host == Some(HostPolicy::Www) ==> text::same_ignoring_case(s, "www"@)
            &&& p.canonical_host == Some(HostPolicy::Apex) ==> text::same_ignoring_case(s, "apex"@)
                || text::same_ignoring_case(s, "non-www"@)
            &&& p.canonical_host is Some
        }),
        config.setting("trailing_slash"@) is None ==> p.trailing_slash is None,
        config.setting("trailing_slash"@) is Some ==> config.setting("trailing_slash"@)->0.node is Text
            && ({
            let s = config.setting("trailing_slash"@)->0.node->Text_0;
            &&& p.trailing_slash == Some(SlashPolicy::Add) ==> text::same_ignoring_case(s, "add"@)
            &&& p.trailing_slash == Some(SlashPolicy::Strip) ==> text::same_ignoring_case(
                s,
                "strip"@,
            )
            &&& p.trailing_slash is Some
        }),
        config.setting("host_map"@) is None ==> p.host_map.len() == 0,
        config.setting("host_map"@) is Some ==> config.setting("host_map"@)->0.node is Object && ({
            let members = config.setting("host_map"@)->0.node->Object_0;
            &&& members.len() == p.host_map.len()
            &&& 0 <= i < members.len() ==> p.host_map[i].0 == text::lower(members[i].0)
                && members[i].1.node == NodeModel::Text(p.host_map[i].1) && p.host_map[i].1.len()
                > 0
        }),
{
    reveal_strlit("www");
    reveal_strlit("apex");
    reveal_strlit("non-www");
    reveal_strlit("add");
    reveal_strlit("strip");
    assert(text::lower("www"@) =~= "www"@);
    assert(text::lower("apex"@) =~= "apex"@);
    assert(text::lower("non-www"@) =~= "non-www"@);
    assert(text::lower("add"@) =~= "add"@);
    assert(text::lower("strip"@) =~= "strip"@);
    if config.setting("host_map"@) is Some {
        config::law_lists_are_read_whole(
            config.setting("host_map"@)->0.node->Object_0,
            host_entry(),
            i,
        );
    }
}

/// A configuration is taken exactly where the two policies are one of their words
/// in any case, the map holds texts that are not empty, the status is 301 or 308,
/// and the other settings have their types; of several refused settings the first
/// is named.
pub proof fn law_taken_configurations(config: JsonModel)
    ensures
        ({
            let r = RedirectModel::configured(config);
            let (h, m, t) = (host_policy(config), host_targets(config), slash_policy(config));
            let (s, n) = (redirect_status(config), proto_header(config));
            let f = config::bool_or(config, "force_https"@, false);
            let (host, slash, map, status) = (
                config.setting("canonical_host"@),
                config.setting("trailing_slash"@),
                config.setting("host_map"@),
                config.setting("status"@),
            );
            &&& h is Ok <==> host is None || (host->0.node is Text && ({
                let w = host->0.node->Text_0;
                text::same_ignoring_case(w, "www"@) || text::same_ignoring_case(w, "apex"@)
                    || text::same_ignoring_case(w, "non-www"@)
            }))
            &&& t is Ok <==> slash is None || (slash->0.node is Text && ({
                let w = slash->0.node->Text_0;
                text::same_ignoring_case(w, "add"@) || text::same_ignoring_case(w, "strip"@)
            }))
            &&& m is Ok <==> map is None || (map->0.node is Object && (forall|j: int|
                0 <= j < map->0.node->Object_0.len() ==> (
                #[trigger] map->0.node->Object_0[j]).1.node is Text
                    && map->0.node->Object_0[j].1.node->Text_0.len() > 0))
            &&& s is Ok <==> status is None || status->0.as_u64() == Some(301u64)
                || status->0.as_u64() == Some(308u64)
            &&& n is Ok <==> config.setting("forwarded_proto_header"@) is None || (config.setting(
                "forwarded_proto_header"@,
            )->0.node is Text && config.setting("forwarded_proto_header"@)->0.node->Text_0.len()
                > 0)
            &&& r is Ok <==> h is Ok && m is Ok && t is Ok && s is Ok && n is Ok && f is Ok
            &&& h is Err ==> r->Err_0 == h->Err_0
            &&& h is Ok && m is Err ==> r->Err_0 == m->Err_0
            &&& h is Ok && m is Ok && t is Err ==> r->Err_0 == t->Err_0
            &&& h is Ok && m is Ok && t is Ok && s is Err ==> r->Err_0 == s->Err_0
            &&& h is Ok && m is Ok && t is Ok && s is Ok && n is Err ==> r->Err_0 == n->Err_0
            &&& h is Ok && m is Ok && t is Ok && s is Ok && n is Ok && f is Err ==> r->Err_0
                == f->Err_0
        }),
{
    reveal_strlit("www");
    reveal_strlit("apex");
    reveal_strlit("non-www");
    reveal_strlit("add");
    reveal_strlit("strip");
    reveal_strlit("X-Forwarded-Proto");
    assert(text::lower("www"@) =~= "www"@);
    assert(text::lower("apex"@) =~= "apex"@);
    assert(text::lower("non-www"@) =~= "non-www"@);
    assert(text::lower("add"@) =~= "add"@);
    assert(text::lower("strip"@) =~= "strip"@);
    let map = config.setting("host_map"@);
    if map is Some && map->0.node is Object {
        let members = map->0.node->Object_0;
        config::law_lists_are_taken_whole(members, host_entry());
        assert forall|j: int| 0 <= j < members.len() implies (host_entry()(
            #[trigger] members[j],
        ) is Ok <==> members[j].1.node is Text && members[j].1.node->Text_0.len() > 0) by {}
    }
}

} // verus!

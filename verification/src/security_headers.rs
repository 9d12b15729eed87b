//! `security-headers`: standard security headers on every response.
//!
//! | key | default | header |
//! |-----|---------|--------|
//! | `hsts` (bool) | `true` | `Strict-Transport-Security: max-age=63072000; includeSubDomains` |
//! | `csp` (string) | unset | `Content-Security-Policy` |
//! | `frame_options` (string) | `"DENY"` | `X-Frame-Options` (empty disables) |
//! | `content_type_options` (bool) | `true` | `X-Content-Type-Options: nosniff` |
//! | `referrer_policy` (string) | `"strict-origin-when-cross-origin"` | `Referrer-Policy` (empty disables) |
use vstd::prelude::*;
use vstd::string::*;

use crate::http::{Headers, Request, Response, ResponseModel};
use crate::json::{Json, JsonModel};
use crate::{config, http, text};

verus! {

/// Header policy, built once by [`SecurityHeaders::init`].
#[derive(Debug)]
pub struct SecurityHeaders {
    pub hsts: bool,
    pub csp: Option<String>,
    pub frame_options: Option<String>,
    pub content_type_options: bool,
    pub referrer_policy: Option<String>,
}

/// The mathematical reading of [`SecurityHeaders`].
pub struct SecurityHeadersModel {
    pub hsts: bool,
    pub csp: Option<Seq<char>>,
    pub frame_options: Option<Seq<char>>,
    pub content_type_options: bool,
    pub referrer_policy: Option<Seq<char>>,
}

impl View for SecurityHeaders {
    type V = SecurityHeadersModel;

    open spec fn view(&self) -> SecurityHeadersModel {
        SecurityHeadersModel {
            hsts: self.hsts,
            csp: config::text_opt(self.csp),
            frame_options: config::text_opt(self.frame_options),
            content_type_options: self.content_type_options,
            referrer_policy: config::text_opt(self.referrer_policy),
        }
    }
}

/// A header with a value, or no header.
pub open spec fn header_if(name: Seq<char>, value: Option<Seq<char>>) -> Headers {
    match value {
        Some(v) => seq![(name, v)],
        None => Seq::empty(),
    }
}

/// A value where a switch is on.
pub open spec fn value_if(on: bool, value: Seq<char>) -> Option<Seq<char>> {
    if on {
        Some(value)
    } else {
        None
    }
}

impl SecurityHeadersModel {
    /// The headers of every response.
    pub open spec fn headers(self) -> Headers {
        header_if(
            "Strict-Transport-Security"@,
            value_if(self.hsts, "max-age=63072000; includeSubDomains"@),
        ) + header_if("Content-Security-Policy"@, self.csp) + header_if(
            "X-Frame-Options"@,
            self.frame_options,
        ) + header_if(
            "X-Content-Type-Options"@,
            value_if(self.content_type_options, "nosniff"@),
        ) + header_if("Referrer-Policy"@, self.referrer_policy)
    }

    /// The verdict on every request: it is served, and its response gets the
    /// headers.
    pub open spec fn verdict(self) -> ResponseModel {
        ResponseModel { response_headers: self.headers(), ..ResponseModel::cont() }
    }

    /// The policy that a configuration describes, or the first setting that is
    /// refused.
    pub open spec fn configured(config: JsonModel) -> Result<SecurityHeadersModel, Seq<char>> {
        match (
            config::bool_or(config, "hsts"@, true),
            config::filled(config::text_or(config, "csp"@, None)),
            config::filled(config::text_or(config, "frame_options"@, Some("DENY"@))),
            config::bool_or(config, "content_type_options"@, true),
            config::filled(
                config::text_or(
                    config,
                    "referrer_policy"@,
                    Some("strict-origin-when-cross-origin"@),
                ),
            ),
        ) {
            (Err(e), _, _, _, _) => Err(e),
            (_, Err(e), _, _, _) => Err(e),
            (_, _, Err(e), _, _) => Err(e),
            (_, _, _, Err(e), _) => Err(e),
            (_, _, _, _, Err(e)) => Err(e),
            (Ok(hsts), Ok(csp), Ok(frame_options), Ok(content_type_options), Ok(rp)) => Ok(
                SecurityHeadersModel {
                    hsts,
                    csp,
                    frame_options,
                    content_type_options,
                    referrer_policy: rp,
                },
            ),
        }
    }
}

/// Reads a text setting with a default, where an empty text counts as none.
fn filled_or(config: &Json, key: &str, default: &str) -> (r: Result<Option<String>, String>)
    ensures
        match r {
            Ok(s) => config::filled(config::text_or(config@, key@, Some(default@))) == Ok::<
                _,
                Seq<char>,
            >(config::text_opt(s)),
            Err(e) => config::filled(config::text_or(config@, key@, Some(default@))) == Err::<
                Option<Seq<char>>,
                _,
            >(e@),
        },
{
    match config::opt_string(config, key, default) {
        Ok(s) => Ok(config::non_empty(Some(s))),
        Err(e) => Err(e),
    }
}

fn add_header(r: Response, name: &str, value: Option<&str>) -> (next: Response)
    ensures
        next@ == (ResponseModel {
            response_headers: r@.response_headers + header_if(
                name@,
                match value {
                    Some(v) => Some(v@),
                    None => None,
                },
            ),
            ..r@
        }),
{
    match value {
        Some(v) => {
            let next: Response = r.response_header(name, v);
            assert(next@.response_headers =~= r@.response_headers + seq![(name@, v@)]);
            next
        },
        None => {
            assert(r@.response_headers + Seq::empty() =~= r@.response_headers);
            r
        },
    }
}

fn as_text(s: &Option<String>) -> (r: Option<&str>)
    ensures
        match r {
            Some(v) => config::text_opt(*s) == Some(v@),
            None => config::text_opt(*s) is None,
        },
{
    match s {
        Some(v) => Some(v.as_str()),
        None => None,
    }
}

impl SecurityHeaders {
    /// Reads the policy from a module's configuration.
    pub fn init(config: &Json) -> (r: Result<SecurityHeaders, String>)
        ensures
            match r {
                Ok(m) => SecurityHeadersModel::configured(config@) == Ok::<_, Seq<char>>(m@),
                Err(e) => SecurityHeadersModel::configured(config@) == Err::<
                    SecurityHeadersModel,
                    _,
                >(e@),
            },
    {
        let hsts: bool = match config::opt_bool(config, "hsts", true) {
            Ok(b) => b,
            Err(e) => return Err(e),
        };
        let csp: Option<String> = match config::opt_str(config, "csp") {
            Ok(s) => s,
            Err(e) => return Err(e),
        };
        let frame_options: Option<String> = match filled_or(config, "frame_options", "DENY") {
            Ok(s) => s,
            Err(e) => return Err(e),
        };
        let content_type_options: bool = match config::opt_bool(
            config,
            "content_type_options",
            true,
        ) {
            Ok(b) => b,
            Err(e) => return Err(e),
        };
        let referrer_policy: Option<String> = match filled_or(
            config,
            "referrer_policy",
            "strict-origin-when-cross-origin",
        ) {
            Ok(s) => s,
            Err(e) => return Err(e),
        };
        Ok(
            SecurityHeaders {
                hsts,
                csp,
                frame_options,
                content_type_options,
                referrer_policy,
            },
        )
    }

    /// The verdict on a request: it is served, and its response gets the headers.
    pub fn invoke(&self, _req: &Request) -> (r: Response)
        ensures
            r@ == self@.verdict(),
    {
        let hsts: Option<&str> = if self.hsts {
            Some("max-age=63072000; includeSubDomains")
        } else {
            None
        };
        let sniff: Option<&str> = if self.content_type_options {
            Some("nosniff")
        } else {
            None
        };
        let r: Response = add_header(Response::cont(), "Strict-Transport-Security", hsts);
        let r: Response = add_header(r, "Content-Security-Policy", as_text(&self.csp));
        let r: Response = add_header(r, "X-Frame-Options", as_text(&self.frame_options));
        let r: Response = add_header(r, "X-Content-Type-Options", sniff);
        let r: Response = add_header(r, "Referrer-Policy", as_text(&self.referrer_policy));
        assert(r@.response_headers =~= self@.headers());
        r
    }
}

// ---------------------------------------------------------------------------
// Every request is served
// ---------------------------------------------------------------------------

/// Every request is served as it came, whatever the policy.
pub proof fn law_always_continues(p: SecurityHeadersModel)
    ensures
        p.verdict().action == http::Action::Continue,
        p.verdict().headers.len() == 0,
{
}

/// A configured header is on the response, a disabled one is not, and there is
/// no other.
pub proof fn law_headers_are_the_configured_ones(p: SecurityHeadersModel)
    ensures
        http::header_value(p.headers(), "Strict-Transport-Security"@) == value_if(
            p.hsts,
            "max-age=63072000; includeSubDomains"@,
        ),
        http::header_value(p.headers(), "Content-Security-Policy"@) == p.csp,
        http::header_value(p.headers(), "X-Frame-Options"@) == p.frame_options,
        http::header_value(p.headers(), "X-Content-Type-Options"@) == value_if(
            p.content_type_options,
            "nosniff"@,
        ),
        http::header_value(p.headers(), "Referrer-Policy"@) == p.referrer_policy,
        p.headers().len() <= 5,
{
    reveal_strlit("Strict-Transport-Security");
    reveal_strlit("Content-Security-Policy");
    reveal_strlit("X-Frame-Options");
    reveal_strlit("X-Content-Type-Options");
    reveal_strlit("Referrer-Policy");
    let low = |s: Seq<char>| text::lower(s);
    assert(low("Strict-Transport-Security"@).len() == 25);
    assert(low("Content-Security-Policy"@).len() == 23);
    assert(low("X-Content-Type-Options"@).len() == 22);
    assert(low("X-Frame-Options"@).len() == 15);
    assert(low("Referrer-Policy"@).len() == 15);
    assert(low("X-Frame-Options"@)[0] == 'x');
    assert(low("Referrer-Policy"@)[0] == 'r');
    lemma_header(p, "Strict-Transport-Security"@);
    lemma_header(p, "Content-Security-Policy"@);
    lemma_header(p, "X-Frame-Options"@);
    lemma_header(p, "X-Content-Type-Options"@);
    lemma_header(p, "Referrer-Policy"@);
}

/// What one of the headers reads, for a name that is asked for.
spec fn value_for(
    name: Seq<char>,
    value: Option<Seq<char>>,
    asked: Seq<char>,
) -> Option<Seq<char>> {
    if text::same_ignoring_case(name, asked) {
        value
    } else {
        None
    }
}

proof fn lemma_header_if(name: Seq<char>, value: Option<Seq<char>>, asked: Seq<char>)
    ensures
        http::header_value(header_if(name, value), asked) == value_for(name, value, asked),
{
    reveal_with_fuel(http::header_value, 2);
}

/// The headers are asked one after another.
proof fn lemma_header(p: SecurityHeadersModel, asked: Seq<char>)
    ensures
        http::header_value(p.headers(), asked) == (match value_for(
            "Strict-Transport-Security"@,
            value_if(p.hsts, "max-age=63072000; includeSubDomains"@),
            asked,
        ) {
            Some(v) => Some(v),
            None => match value_for("Content-Security-Policy"@, p.csp, asked) {
                Some(v) => Some(v),
                None => match value_for("X-Frame-Options"@, p.frame_options, asked) {
                    Some(v) => Some(v),
                    None => match value_for(
                        "X-Content-Type-Options"@,
                        value_if(p.content_type_options, "nosniff"@),
                        asked,
                    ) {
                        Some(v) => Some(v),
                        None => value_for("Referrer-Policy"@, p.referrer_policy, asked),
                    },
                },
            },
        }),
{
    let hsts = value_if(p.hsts, "max-age=63072000; includeSubDomains"@);
    let sniff = value_if(p.content_type_options, "nosniff"@);
    let a = header_if("Strict-Transport-Security"@, hsts);
    let b = header_if("Content-Security-Policy"@, p.csp);
    let c = header_if("X-Frame-Options"@, p.frame_options);
    let d = header_if("X-Content-Type-Options"@, sniff);
    let e = header_if("Referrer-Policy"@, p.referrer_policy);
    lemma_header_if("Strict-Transport-Security"@, hsts, asked);
    lemma_header_if("Content-Security-Policy"@, p.csp, asked);
    lemma_header_if("X-Frame-Options"@, p.frame_options, asked);
    lemma_header_if("X-Content-Type-Options"@, sniff, asked);
    lemma_header_if("Referrer-Policy"@, p.referrer_policy, asked);
    http::lemma_value_append(a + b + c + d, e, asked);
    http::lemma_value_append(a + b + c, d, asked);
    http::lemma_value_append(a + b, c, asked);
    http::lemma_value_append(a, b, asked);
}

/// The response gets the configured headers and no other, each with its value:
/// those that are switched on and those that have a text.
pub proof fn law_response_headers(p: SecurityHeadersModel, i: int)
    ensures
        ({
            let h = p.verdict().response_headers;
            &&& p.hsts ==> h.contains(
                ("Strict-Transport-Security"@, "max-age=63072000; includeSubDomains"@),
            )
            &&& p.csp is Some ==> h.contains(("Content-Security-Policy"@, p.csp->0))
            &&& p.frame_options is Some ==> h.contains(("X-Frame-Options"@, p.frame_options->0))
            &&& p.content_type_options ==> h.contains(("X-Content-Type-Options"@, "nosniff"@))
            &&& p.referrer_policy is Some ==> h.contains(("Referrer-Policy"@, p.referrer_policy->0))
            &&& 0 <= i < h.len() ==> {
                ||| p.hsts && h[i] == (
                    "Strict-Transport-Security"@,
                    "max-age=63072000; includeSubDomains"@,
                )
                ||| p.csp is Some && h[i] == ("Content-Security-Policy"@, p.csp->0)
                ||| p.frame_options is Some && h[i] == ("X-Frame-Options"@, p.frame_options->0)
                ||| p.content_type_options && h[i] == ("X-Content-Type-Options"@, "nosniff"@)
                ||| p.referrer_policy is Some && h[i] == (
                    "Referrer-Policy"@,
                    p.referrer_policy->0,
                )
            }
        }),
{
    let h = p.verdict().response_headers;
    let a = header_if(
        "Strict-Transport-Security"@,
        value_if(p.hsts, "max-age=63072000; includeSubDomains"@),
    );
    let b = header_if("Content-Security-Policy"@, p.csp);
    let c = header_if("X-Frame-Options"@, p.frame_options);
    let d = header_if("X-Content-Type-Options"@, value_if(p.content_type_options, "nosniff"@));
    let e = header_if("Referrer-Policy"@, p.referrer_policy);
    if p.hsts {
        assert(h[0] == a[0]);
    }
    if p.csp is Some {
        assert(h[a.len() as int] == b[0]);
    }
    if p.frame_options is Some {
        assert(h[a.len() as int + b.len()] == c[0]);
    }
    if p.content_type_options {
        assert(h[a.len() as int + b.len() + c.len()] == d[0]);
    }
    if p.referrer_policy is Some {
        assert(h[a.len() as int + b.len() + c.len() + d.len()] == e[0]);
    }
}

/// Every setting is read from its own key with its default, and an empty text
/// disables its header.
pub proof fn law_settings(config: JsonModel, p: SecurityHeadersModel)
    requires
        SecurityHeadersModel::configured(config) == Ok::<_, Seq<char>>(p),
    ensures
        config::bool_or(config, "hsts"@, true) == Ok::<_, Seq<char>>(p.hsts),
        config::bool_or(config, "content_type_options"@, true) == Ok::<_, Seq<char>>(
            p.content_type_options,
        ),
        config.setting("csp"@) is None ==> p.csp is None,
        config.setting("frame_options"@) is None ==> p.frame_options == Some("DENY"@),
        config.setting("referrer_policy"@) is None ==> p.referrer_policy == Some(
            "strict-origin-when-cross-origin"@,
        ),
        takes_text(config.setting("csp"@), p.csp),
        takes_text(config.setting("frame_options"@), p.frame_options),
        takes_text(config.setting("referrer_policy"@), p.referrer_policy),
{
    reveal_strlit("DENY");
    reveal_strlit("strict-origin-when-cross-origin");
}

/// A setting that is there is a text, taken as it is unless it is empty.
pub open spec fn takes_text(setting: Option<JsonModel>, taken: Option<Seq<char>>) -> bool {
    setting is Some ==> setting->0.node is Text && taken == (if setting->0.node->Text_0.len()
        == 0 {
        None
    } else {
        Some(setting->0.node->Text_0)
    })
}

/// A configuration is taken exactly where every setting has its type; of several
/// refused settings the first is named.
pub proof fn law_taken_configurations(config: JsonModel)
    ensures
        ({
            let r = SecurityHeadersModel::configured(config);
            let h = config::bool_or(config, "hsts"@, true);
            let c = config::text_or(config, "csp"@, None);
            let f = config::text_or(config, "frame_options"@, None);
            let t = config::bool_or(config, "content_type_options"@, true);
            let p = config::text_or(config, "referrer_policy"@, None);
            &&& r is Ok <==> h is Ok && c is Ok && f is Ok && t is Ok && p is Ok
            &&& h is Err ==> r->Err_0 == h->Err_0
            &&& h is Ok && c is Err ==> r->Err_0 == c->Err_0
            &&& h is Ok && c is Ok && f is Err ==> r->Err_0 == f->Err_0
            &&& h is Ok && c is Ok && f is Ok && t is Err ==> r->Err_0 == t->Err_0
            &&& h is Ok && c is Ok && f is Ok && t is Ok && p is Err ==> r->Err_0 == p->Err_0
        }),
{
}

} // verus!

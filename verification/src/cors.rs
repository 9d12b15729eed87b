//! `cors`: cross-origin resource sharing.
//!
//! A preflight request from an allowed origin is answered at once with `204`. Any
//! other request from an allowed origin is served, with the CORS headers added to
//! its response. A request without an `Origin` header, or from another origin,
//! passes untouched.
//!
//! | key | default | meaning |
//! |-----|---------|---------|
//! | `allow_origins` (array of strings) | required | allowed origins; `"*"` allows all |
//! | `allow_methods` (string) | `"GET, POST, PUT, PATCH, DELETE, OPTIONS"` | `Access-Control-Allow-Methods` |
//! | `allow_headers` (string) | `"Content-Type, Authorization"` | `Access-Control-Allow-Headers` |
//! | `allow_credentials` (bool) | `false` | allow credentials, and echo the origin instead of `*` |
//! | `max_age` (integer seconds) | `86400` | `Access-Control-Max-Age` |
use vstd::prelude::*;
use vstd::string::*;

use crate::http::{Headers, Request, RequestModel, Response, ResponseModel};
use crate::json::{Json, JsonModel, NodeModel};
use crate::{config, http, text};

verus! {

/// CORS policy, built once by [`Cors::init`].
#[derive(Debug)]
pub struct Cors {
    pub allow_origins: Vec<String>,
    /// Whether `"*"` is among the allowed origins.
    pub wildcard: bool,
    pub allow_methods: String,
    pub allow_headers: String,
    pub allow_credentials: bool,
    pub max_age: u64,
}

/// The mathematical reading of [`Cors`].
pub struct CorsModel {
    pub allow_origins: Seq<Seq<char>>,
    pub wildcard: bool,
    pub allow_methods: Seq<char>,
    pub allow_headers: Seq<char>,
    pub allow_credentials: bool,
    pub max_age: u64,
}

impl View for Cors {
    type V = CorsModel;

    open spec fn view(&self) -> CorsModel {
        CorsModel {
            allow_origins: config::texts(self.allow_origins@),
            wildcard: self.wildcard,
            allow_methods: self.allow_methods@,
            allow_headers: self.allow_headers@,
            allow_credentials: self.allow_credentials,
            max_age: self.max_age,
        }
    }
}

impl CorsModel {
    /// The origin may read responses.
    pub open spec fn allows(self, origin: Seq<char>) -> bool {
        self.wildcard || self.allow_origins.contains(origin)
    }

    /// The `Access-Control-Allow-Origin` value for an allowed origin: `*` only
    /// where every origin is allowed and credentials are not.
    pub open spec fn origin_value(self, origin: Seq<char>) -> Seq<char> {
        if self.wildcard && !self.allow_credentials {
            "*"@
        } else {
            origin
        }
    }

    /// The request asks for permission ahead of the request proper.
    pub open spec fn is_preflight(req: RequestModel) -> bool {
        text::same_ignoring_case(req.method, "OPTIONS"@) && req.header(
            "Access-Control-Request-Method"@,
        ) is Some
    }

    /// The answer to a preflight request.
    pub open spec fn preflight(self, origin: Seq<char>) -> ResponseModel {
        let r = ResponseModel::respond(204, ""@).header(
            "Access-Control-Allow-Origin"@,
            self.origin_value(origin),
        ).header("Access-Control-Allow-Methods"@, self.allow_methods).header(
            "Access-Control-Allow-Headers"@,
            self.allow_headers,
        ).header("Access-Control-Max-Age"@, text::decimal(self.max_age as nat)).header(
            "Vary"@,
            "Origin"@,
        );
        if self.allow_credentials {
            r.header("Access-Control-Allow-Credentials"@, "true"@)
        } else {
            r
        }
    }

    /// The verdict on a request proper from an allowed origin.
    pub open spec fn served(self, origin: Seq<char>) -> ResponseModel {
        let r = ResponseModel::cont().response_header(
            "Access-Control-Allow-Origin"@,
            self.origin_value(origin),
        ).response_header("Vary"@, "Origin"@);
        if self.allow_credentials {
            r.response_header("Access-Control-Allow-Credentials"@, "true"@)
        } else {
            r
        }
    }

    /// The verdict on a request.
    pub open spec fn verdict(self, req: RequestModel) -> ResponseModel {
        match req.header("Origin"@) {
            None => ResponseModel::cont(),
            Some(origin) => if !self.allows(origin) {
                ResponseModel::cont()
            } else if Self::is_preflight(req) {
                self.preflight(origin)
            } else {
                self.served(origin)
            },
        }
    }

    /// The `allow_origins` setting.
    pub open spec fn origins_setting(config: JsonModel) -> Result<Seq<Seq<char>>, Seq<char>> {
        match config.get("allow_origins"@) {
            None => Err("`allow_origins` is required (array of origins; \"*\" allows all)"@),
            Some(v) => match v.node {
                NodeModel::Array(items) => match config::collect(
                    items,
                    config::text_entry("allow_origins"@),
                ) {
                    Ok(list) => if list.len() == 0 {
                        Err("`allow_origins` must not be empty"@)
                    } else {
                        Ok(list)
                    },
                    Err(e) => Err(e),
                },
                _ => Err(config::must_be("allow_origins"@, "an array"@, v.text)),
            },
        }
    }

    /// The policy that a configuration describes, or the first setting that is
    /// refused.
    pub open spec fn configured(config: JsonModel) -> Result<CorsModel, Seq<char>> {
        match (
            Self::origins_setting(config),
            config::bool_or(config, "allow_credentials"@, false),
            config::u64_or(config, "max_age"@, 86400),
            config::text_or(
                config,
                "allow_methods"@,
                Some("GET, POST, PUT, PATCH, DELETE, OPTIONS"@),
            ),
            config::text_or(config, "allow_headers"@, Some("Content-Type, Authorization"@)),
        ) {
            (Err(e), _, _, _, _) => Err(e),
            (_, Err(e), _, _, _) => Err(e),
            (_, _, Err(e), _, _) => Err(e),
            (_, _, _, Err(e), _) => Err(e),
            (_, _, _, _, Err(e)) => Err(e),
            (Ok(origins), Ok(allow_credentials), Ok(max_age), Ok(methods), Ok(headers)) => Ok(
                CorsModel {
                    allow_origins: origins,
                    wildcard: origins.contains("*"@),
                    allow_methods: methods->0,
                    allow_headers: headers->0,
                    allow_credentials,
                    max_age,
                },
            ),
        }
    }

    /// What every configured policy keeps: some origin is allowed, and the flag
    /// says whether all are.
    pub open spec fn well_formed(self) -> bool {
        &&& self.allow_origins.len() > 0
        &&& self.wildcard == self.allow_origins.contains("*"@)
    }
}

/// Whether a text is on a list.
fn on_list(list: &Vec<String>, s: &str) -> (r: bool)
    ensures
        r == config::texts(list@).contains(s@),
{
    let ghost all = config::texts(list@);
    let mut i: usize = 0;
    while i < list.len()
        invariant
            i <= list.len(),
            all == config::texts(list@),
            forall|j: int| 0 <= j < i ==> #[trigger] all[j] != s@,
        decreases list.len() - i,
    {
        assert(all[i as int] == list@[i as int]@);
        if text::same(list[i].as_str(), s) {
            return true;
        }
        i += 1;
    }
    false
}

fn read_origins(config: &Json) -> (r: Result<Vec<String>, String>)
    ensures
        match r {
            Ok(list) => CorsModel::origins_setting(config@) == Ok::<_, Seq<char>>(
                config::texts(list@),
            ),
            Err(e) => CorsModel::origins_setting(config@) == Err::<Seq<Seq<char>>, _>(e@),
        },
{
    let v: &Json = match config.get("allow_origins") {
        Some(v) => v,
        None => return Err(
            "`allow_origins` is required (array of origins; \"*\" allows all)".to_owned(),
        ),
    };
    let items: &Vec<Json> = match v.as_array() {
        Some(items) => items,
        None => return Err(
            config::say_must_be("allow_origins", "an array", v.text.as_str()),
        ),
    };
    match config::read_strings(items, "allow_origins") {
        Ok(list) => if list.len() == 0 {
            Err("`allow_origins` must not be empty".to_owned())
        } else {
            Ok(list)
        },
        Err(e) => Err(e),
    }
}

impl Cors {
    /// Reads the policy from a module's configuration.
    pub fn init(config: &Json) -> (r: Result<Cors, String>)
        ensures
            match r {
                Ok(m) => {
                    &&& CorsModel::configured(config@) == Ok::<_, Seq<char>>(m@)
                    &&& m@.well_formed()
                },
                Err(e) => CorsModel::configured(config@) == Err::<CorsModel, _>(e@),
            },
    {
        let allow_origins: Vec<String> = match read_origins(config) {
            Ok(list) => list,
            Err(e) => return Err(e),
        };
        let allow_credentials: bool = match config::opt_bool(config, "allow_credentials", false) {
            Ok(b) => b,
            Err(e) => return Err(e),
        };
        let max_age: u64 = match config::opt_u64(config, "max_age", 86400) {
            Ok(n) => n,
            Err(e) => return Err(e),
        };
        let allow_methods: String = match config::opt_string(
            config,
            "allow_methods",
            "GET, POST, PUT, PATCH, DELETE, OPTIONS",
        ) {
            Ok(s) => s,
            Err(e) => return Err(e),
        };
        let allow_headers: String = match config::opt_string(
            config,
            "allow_headers",
            "Content-Type, Authorization",
        ) {
            Ok(s) => s,
            Err(e) => return Err(e),
        };
        let wildcard: bool = on_list(&allow_origins, "*");
        Ok(
            Cors {
                allow_origins,
                wildcard,
                allow_methods,
                allow_headers,
                allow_credentials,
                max_age,
            },
        )
    }

    /// The `Access-Control-Allow-Origin` value for an allowed origin. Responses
    /// with credentials echo the origin.
    pub fn allow_origin_value<'a>(&'a self, origin: &'a str) -> (r: &'a str)
        ensures
            r@ == self@.origin_value(origin@),
    {
        if self.wildcard && !self.allow_credentials {
            "*"
        } else {
            origin
        }
    }

    /// The verdict on a request.
    pub fn invoke(&self, req: &Request) -> (r: Response)
        ensures
            r@ == self@.verdict(req@),
    {
        let origin: &str = match req.header("Origin") {
            Some(origin) => origin,
            None => return Response::cont(),
        };
        if !self.wildcard && !on_list(&self.allow_origins, origin) {
            return Response::cont();
        }
        let allow_origin: &str = self.allow_origin_value(origin);
        if text::eq_ignore_case(req.method.as_str(), "OPTIONS") && req.header(
            "Access-Control-Request-Method",
        ).is_some() {
            let r: Response = Response::respond(204, "").header(
                "Access-Control-Allow-Origin",
                allow_origin,
            ).header("Access-Control-Allow-Methods", self.allow_methods.as_str()).header(
                "Access-Control-Allow-Headers",
                self.allow_headers.as_str(),
            ).header("Access-Control-Max-Age", text::number(self.max_age).as_str()).header(
                "Vary",
                "Origin",
            );
            return if self.allow_credentials {
                r.header("Access-Control-Allow-Credentials", "true")
            } else {
                r
            };
        }
        let r: Response = Response::cont().response_header(
            "Access-Control-Allow-Origin",
            allow_origin,
        ).response_header("Vary", "Origin");
        if self.allow_credentials {
            r.response_header("Access-Control-Allow-Credentials", "true")
        } else {
            r
        }
    }
}

// ---------------------------------------------------------------------------
// Who may read what
// ---------------------------------------------------------------------------

/// The CORS headers that go out: those of the answer, or those added to the
/// response.
pub open spec fn cors_headers(r: ResponseModel) -> Headers {
    if r.action == http::Action::Respond {
        r.headers
    } else {
        r.response_headers
    }
}

/// A request without an origin, or from one that is not allowed, passes without
/// a trace.
pub proof fn law_other_origins_see_nothing(p: CorsModel, req: RequestModel)
    requires
        req.header("Origin"@) is None || !p.allows(req.header("Origin"@)->0),
    ensures
        p.verdict(req) == ResponseModel::cont(),
{
}

/// Every verdict on an allowed origin names the origin first and varies by it; with
/// credentials the origin is the client's own, never `*` in its place.
pub proof fn law_credentials_echo_the_origin(p: CorsModel, req: RequestModel)
    requires
        req.header("Origin"@) is Some,
        p.allows(req.header("Origin"@)->0),
    ensures
        ({
            let headers = cors_headers(p.verdict(req));
            let origin = req.header("Origin"@)->0;
            &&& headers.len() > 0
            &&& headers[0] == ("Access-Control-Allow-Origin"@, p.origin_value(origin))
            &&& headers.contains(("Vary"@, "Origin"@))
            &&& p.allow_credentials ==> headers[0].1 == origin && headers.contains(
                ("Access-Control-Allow-Credentials"@, "true"@),
            )
            &&& headers[0].1 == "*"@ && origin != "*"@ ==> p.wildcard && !p.allow_credentials
        }),
{
    let origin = req.header("Origin"@)->0;
    let headers = cors_headers(p.verdict(req));
    if CorsModel::is_preflight(req) {
        assert(headers[4] == ("Vary"@, "Origin"@));
        if p.allow_credentials {
            assert(headers[5] == ("Access-Control-Allow-Credentials"@, "true"@));
        }
    } else {
        assert(headers[1] == ("Vary"@, "Origin"@));
        if p.allow_credentials {
            assert(headers[2] == ("Access-Control-Allow-Credentials"@, "true"@));
        }
    }
}

/// A request is answered at once exactly where it is a preflight request from an
/// allowed origin, and then with `204`; a request proper is always served.
pub proof fn law_only_preflights_are_answered(p: CorsModel, req: RequestModel)
    ensures
        p.verdict(req).action == http::Action::Respond <==> CorsModel::is_preflight(req)
            && req.header("Origin"@) is Some && p.allows(req.header("Origin"@)->0),
        p.verdict(req).action == http::Action::Respond ==> p.verdict(req).status == 204,
        p.verdict(req).action != http::Action::Rewrite,
{
}

/// Every listed origin is allowed, at whatever place it is listed: a preflight
/// request from it is answered and any other request is served, each with the
/// origin named.
pub proof fn law_every_listed_origin_is_allowed(p: CorsModel, req: RequestModel, i: int)
    requires
        0 <= i < p.allow_origins.len(),
        req.header("Origin"@) == Some(p.allow_origins[i]),
    ensures
        ({
            let preflight = text::same_ignoring_case(req.method, "OPTIONS"@) && req.header(
                "Access-Control-Request-Method"@,
            ) is Some;
            let r = p.verdict(req);
            let headers = if preflight {
                r.headers
            } else {
                r.response_headers
            };
            &&& r.action == (if preflight {
                http::Action::Respond
            } else {
                http::Action::Continue
            })
            &&& preflight ==> r.status == 204 && r.body.len() == 0 && r.response_headers.len() == 0
            &&& !preflight ==> r.headers.len() == 0
            &&& headers.len() > 0
            &&& headers[0].0 == "Access-Control-Allow-Origin"@
            &&& headers[0].1 == (if p.wildcard && !p.allow_credentials {
                "*"@
            } else {
                p.allow_origins[i]
            })
        }),
{
    reveal_strlit("");
    assert(p.allow_origins.contains(p.allow_origins[i]));
    assert(vstd::utf8::encode_utf8(""@).len() == 0);
}

/// Under a configured policy an origin that is not on the list is treated as an
/// allowed one exactly where `*` is on it; otherwise it sees no header at all.
pub proof fn law_unlisted_origins_need_the_wildcard(
    p: CorsModel,
    config: JsonModel,
    req: RequestModel,
)
    requires
        CorsModel::configured(config) == Ok::<_, Seq<char>>(p),
        req.header("Origin"@) is Some,
        forall|i: int|
            0 <= i < p.allow_origins.len() ==> #[trigger] p.allow_origins[i] != req.header(
                "Origin"@,
            )->0,
    ensures
        (exists|i: int| 0 <= i < p.allow_origins.len() && #[trigger] p.allow_origins[i] == "*"@)
            ==> ({
            let r = p.verdict(req);
            let headers = cors_headers(r);
            &&& headers.len() > 0
            &&& headers[0] == ("Access-Control-Allow-Origin"@, if p.allow_credentials {
                req.header("Origin"@)->0
            } else {
                "*"@
            })
        }),
        (forall|i: int| 0 <= i < p.allow_origins.len() ==> #[trigger] p.allow_origins[i] != "*"@)
            ==> p.verdict(req) == ResponseModel::cont(),
{
    if exists|i: int| 0 <= i < p.allow_origins.len() && #[trigger] p.allow_origins[i] == "*"@ {
        assert(p.allow_origins.contains("*"@));
    }
}

/// The answer to a preflight request names the configured methods, headers and
/// age, each once and as configured; a request proper gets none of them.
pub proof fn law_preflights_are_told_the_policy(p: CorsModel, req: RequestModel)
    ensures
        p.verdict(req).action == http::Action::Respond ==> ({
            let h = p.verdict(req).headers;
            &&& h.len() == (if p.allow_credentials {
                6int
            } else {
                5
            })
            &&& h[1] == ("Access-Control-Allow-Methods"@, p.allow_methods)
            &&& h[2] == ("Access-Control-Allow-Headers"@, p.allow_headers)
            &&& h[3].0 == "Access-Control-Max-Age"@
            &&& text::value(h[3].1) == p.max_age
            &&& h[4] == ("Vary"@, "Origin"@)
            &&& p.allow_credentials ==> h[5] == ("Access-Control-Allow-Credentials"@, "true"@)
        }),
        p.verdict(req).action == http::Action::Continue ==> ({
            let h = p.verdict(req).response_headers;
            &&& h.len() == 0 || h.len() == (if p.allow_credentials {
                3int
            } else {
                2
            })
            &&& h.len() > 0 ==> h[1] == ("Vary"@, "Origin"@)
            &&& h.len() > 2 ==> h[2] == ("Access-Control-Allow-Credentials"@, "true"@)
        }),
{
    text::law_decimal_notation(p.max_age as nat);
}

/// Every setting is read from its own key: the origins in order and completely,
/// the others with their defaults.
pub proof fn law_settings(config: JsonModel, p: CorsModel, i: int)
    requires
        CorsModel::configured(config) == Ok::<_, Seq<char>>(p),
    ensures
        config.get("allow_origins"@) is Some,
        config.get("allow_origins"@)->0.node is Array,
        ({
            let items = config.get("allow_origins"@)->0.node->Array_0;
            &&& items.len() == p.allow_origins.len()
            &&& items.len() > 0
            &&& 0 <= i < items.len() ==> items[i].node == NodeModel::Text(p.allow_origins[i])
        }),
        p.wildcard <==> exists|j: int|
            0 <= j < p.allow_origins.len() && #[trigger] p.allow_origins[j] == "*"@,
        config::bool_or(config, "allow_credentials"@, false) == Ok::<_, Seq<char>>(
            p.allow_credentials,
        ),
        config::u64_or(config, "max_age"@, 86400) == Ok::<_, Seq<char>>(p.max_age),
        config::text_or(
            config,
            "allow_methods"@,
            Some("GET, POST, PUT, PATCH, DELETE, OPTIONS"@),
        ) == Ok::<_, Seq<char>>(Some(p.allow_methods)),
        config::text_or(config, "allow_headers"@, Some("Content-Type, Authorization"@)) == Ok::<
            _,
            Seq<char>,
        >(Some(p.allow_headers)),
{
    let items = config.get("allow_origins"@)->0.node->Array_0;
    config::law_lists_are_read_whole(items, config::text_entry("allow_origins"@), i);
    if 0 <= i < items.len() {
        config::law_text_entries("allow_origins"@, items[i]);
    }
    if p.wildcard {
        let j = choose|j: int| 0 <= j < p.allow_origins.len() && p.allow_origins[j] == "*"@;
        assert(p.allow_origins[j] == "*"@);
    }
}

/// A configuration is taken exactly where the origins are a list of texts with one
/// entry at least and every other setting has its type; of several refused
/// settings the first is named.
pub proof fn law_taken_configurations(config: JsonModel)
    ensures
        ({
            let r = CorsModel::configured(config);
            let o = CorsModel::origins_setting(config);
            let c = config::bool_or(config, "allow_credentials"@, false);
            let a = config::u64_or(config, "max_age"@, 0);
            let m = config::text_or(config, "allow_methods"@, None);
            let h = config::text_or(config, "allow_headers"@, None);
            let listed = config.get("allow_origins"@) is Some && config.get(
                "allow_origins"@,
            )->0.node is Array && config.get("allow_origins"@)->0.node->Array_0.len() > 0 && (
            forall|j: int|
                0 <= j < config.get("allow_origins"@)->0.node->Array_0.len() ==> (
                #[trigger] config.get("allow_origins"@)->0.node->Array_0[j]).node is Text);
            &&& o is Ok <==> listed
            &&& r is Ok <==> listed && c is Ok && a is Ok && m is Ok && h is Ok
            &&& o is Err ==> r->Err_0 == o->Err_0
            &&& o is Ok && c is Err ==> r->Err_0 == c->Err_0
            &&& o is Ok && c is Ok && a is Err ==> r->Err_0 == a->Err_0
            &&& o is Ok && c is Ok && a is Ok && m is Err ==> r->Err_0 == m->Err_0
            &&& o is Ok && c is Ok && a is Ok && m is Ok && h is Err ==> r->Err_0 == h->Err_0
        }),
{
    if config.get("allow_origins"@) is Some && config.get("allow_origins"@)->0.node is Array {
        let items = config.get("allow_origins"@)->0.node->Array_0;
        config::law_lists_of_texts(items, "allow_origins"@);
        config::law_lists_are_read_whole(items, config::text_entry("allow_origins"@), 0);
    }
}

} // verus!

//! `ratelimit`: fixed-window rate limiting per client, counted in the key-value
//! store.
//!
//! A window of ten seconds allows `per_ip_rps * 10 + burst` requests per client.
//! The counter is bumped with one atomic call that also sets its time to live
//! where it creates the counter. Over the limit the client gets `429` with the
//! seconds left in the window. Where the store gives no count, the request is
//! served: for a rate limiter availability beats strictness.
//!
//! | key | default | meaning |
//! |-----|---------|---------|
//! | `per_ip_rps` (integer) | required, above 0 | sustained requests per second per client |
//! | `burst` (integer) | `per_ip_rps` | headroom on top of the window's allowance |
//! | `key_headers` (array of strings) | unset | identify clients by the first of these headers instead of the address |
use vstd::prelude::*;
use vstd::string::*;

use crate::http::{Request, RequestModel, Response, ResponseModel, Step, StepModel};
use crate::json::{Json, JsonModel, NodeModel};
use crate::{config, http, text};

verus! {

/// Length of a window in seconds.
pub const WINDOW_SECS: u64 = 10;

/// Time to live of a counter: one window, and slack for clocks that differ.
pub const KEY_TTL_SECS: i64 = 30;

/// Rate policy, built once by [`RateLimit::init`].
#[derive(Debug)]
pub struct RateLimit {
    pub per_ip_rps: u64,
    pub burst: u64,
    pub key_headers: Vec<String>,
}

/// The mathematical reading of [`RateLimit`].
pub struct RateLimitModel {
    pub per_ip_rps: u64,
    pub burst: u64,
    pub key_headers: Seq<Seq<char>>,
}

impl View for RateLimit {
    type V = RateLimitModel;

    open spec fn view(&self) -> RateLimitModel {
        RateLimitModel {
            per_ip_rps: self.per_ip_rps,
            burst: self.burst,
            key_headers: config::texts(self.key_headers@),
        }
    }
}

/// The first header of a list that a request has.
pub open spec fn first_present(req: RequestModel, names: Seq<Seq<char>>) -> Option<Seq<char>>
    decreases names.len(),
{
    if names.len() == 0 {
        None
    } else {
        match req.header(names[0]) {
            Some(v) => Some(v),
            None => first_present(req, names.skip(1)),
        }
    }
}

/// The store key of a client's counter in a window.
pub open spec fn counter_key(site: Seq<char>, client: Seq<char>, window: nat) -> Seq<char> {
    "mw:rl:"@ + site + ":"@ + client + ":"@ + text::decimal(window)
}

impl RateLimitModel {
    /// Requests that a client may make in a window, as far as a counter reaches.
    pub open spec fn limit(self) -> int {
        let n = self.per_ip_rps * WINDOW_SECS + self.burst;
        if n > i64::MAX {
            i64::MAX as int
        } else {
            n
        }
    }

    /// The client that a request counts for.
    pub open spec fn client(self, req: RequestModel) -> Seq<char> {
        match first_present(req, self.key_headers) {
            Some(v) => v,
            None => req.remote_ip,
        }
    }

    /// What happens before the count is known: one call that bumps the counter.
    pub open spec fn step(self, req: RequestModel, now: u64) -> StepModel {
        StepModel::IncrTtl {
            key: counter_key(req.site, self.client(req), (now / WINDOW_SECS) as nat),
            by: 1,
            ttl_secs: KEY_TTL_SECS,
        }
    }

    /// The seconds left in the window.
    pub open spec fn seconds_left(now: u64) -> nat {
        (WINDOW_SECS - now % WINDOW_SECS) as nat
    }

    /// The verdict for a count; `None` where the store gave none.
    pub open spec fn verdict(self, now: u64, count: Option<i64>) -> ResponseModel {
        match count {
            Some(n) => if n > self.limit() {
                ResponseModel::respond(429, "rate limit exceeded"@).header(
                    "Retry-After"@,
                    text::decimal(Self::seconds_left(now)),
                )
            } else {
                ResponseModel::cont()
            },
            None => ResponseModel::cont(),
        }
    }

    /// The `per_ip_rps` setting.
    pub open spec fn rps_setting(config: JsonModel) -> Result<u64, Seq<char>> {
        match config.get("per_ip_rps"@) {
            None => Err("`per_ip_rps` is required (requests/second per client, > 0)"@),
            Some(v) => match v.as_u64() {
                None => Err("`per_ip_rps` must be a positive integer"@),
                Some(n) => if n == 0 {
                    Err("`per_ip_rps` must be > 0"@)
                } else {
                    Ok(n)
                },
            },
        }
    }

    /// The `burst` setting.
    pub open spec fn burst_setting(config: JsonModel, default: u64) -> Result<u64, Seq<char>> {
        match config.setting("burst"@) {
            None => Ok(default),
            Some(v) => match v.as_u64() {
                None => Err("`burst` must be a non-negative integer"@),
                Some(n) => Ok(n),
            },
        }
    }

    /// The `key_headers` setting.
    pub open spec fn headers_setting(config: JsonModel) -> Result<Seq<Seq<char>>, Seq<char>> {
        match config.setting("key_headers"@) {
            None => Ok(Seq::empty()),
            Some(v) => match v.node {
                NodeModel::Array(items) => config::collect(
                    items,
                    config::text_entry("key_headers"@),
                ),
                _ => Err("`key_headers` must be an array of header names"@),
            },
        }
    }

    /// The policy that a configuration describes, or the first setting that is
    /// refused.
    pub open spec fn configured(config: JsonModel) -> Result<RateLimitModel, Seq<char>> {
        match Self::rps_setting(config) {
            Err(e) => Err(e),
            Ok(per_ip_rps) => match (
                Self::burst_setting(config, per_ip_rps),
                Self::headers_setting(config),
            ) {
                (Err(e), _) => Err(e),
                (_, Err(e)) => Err(e),
                (Ok(burst), Ok(key_headers)) => Ok(
                    RateLimitModel { per_ip_rps, burst, key_headers },
                ),
            },
        }
    }

    /// What every configured policy keeps: some requests are allowed.
    pub open spec fn well_formed(self) -> bool {
        self.per_ip_rps > 0
    }
}

fn read_headers(config: &Json) -> (r: Result<Vec<String>, String>)
    ensures
        match r {
            Ok(list) => RateLimitModel::headers_setting(config@) == Ok::<_, Seq<char>>(
                config::texts(list@),
            ),
            Err(e) => RateLimitModel::headers_setting(config@) == Err::<Seq<Seq<char>>, _>(e@),
        },
{
    let v: &Json = match config.setting("key_headers") {
        None => {
            let none: Vec<String> = Vec::new();
            assert(config::texts(none@) =~= Seq::empty());
            return Ok(none);
        },
        Some(v) => v,
    };
    match v.as_array() {
        Some(items) => config::read_strings(items, "key_headers"),
        None => Err("`key_headers` must be an array of header names".to_owned()),
    }
}

impl RateLimit {
    /// Reads the policy from a module's configuration.
    pub fn init(config: &Json) -> (r: Result<RateLimit, String>)
        ensures
            match r {
                Ok(m) => {
                    &&& RateLimitModel::configured(config@) == Ok::<_, Seq<char>>(m@)
                    &&& m@.well_formed()
                },
                Err(e) => RateLimitModel::configured(config@) == Err::<RateLimitModel, _>(e@),
            },
    {
        let per_ip_rps: u64 = match config.get("per_ip_rps") {
            None => return Err(
                "`per_ip_rps` is required (requests/second per client, > 0)".to_owned(),
            ),
            Some(v) => match v.as_u64() {
                None => return Err("`per_ip_rps` must be a positive integer".to_owned()),
                Some(n) => n,
            },
        };
        if per_ip_rps == 0 {
            return Err("`per_ip_rps` must be > 0".to_owned());
        }
        let burst: u64 = match config.setting("burst") {
            None => per_ip_rps,
            Some(v) => match v.as_u64() {
                None => return Err("`burst` must be a non-negative integer".to_owned()),
                Some(n) => n,
            },
        };
        let key_headers: Vec<String> = match read_headers(config) {
            Ok(list) => list,
            Err(e) => return Err(e),
        };
        Ok(RateLimit { per_ip_rps, burst, key_headers })
    }

    /// Requests that a client may make in a window.
    pub fn allowance(&self) -> (r: i64)
        ensures
            r == self@.limit(),
    {
        let n: u128 = self.per_ip_rps as u128 * WINDOW_SECS as u128 + self.burst as u128;
        if n > i64::MAX as u128 {
            i64::MAX
        } else {
            n as i64
        }
    }

    /// The client that a request counts for: the first present header of the
    /// list, else the address.
    pub fn client_key<'a>(&self, req: &'a Request) -> (r: &'a str)
        ensures
            r@ == self@.client(req@),
    {
        let ghost all = self@.key_headers;
        let mut i: usize = 0;
        assert(all.skip(0) =~= all);
        while i < self.key_headers.len()
            invariant
                i <= self.key_headers.len(),
                all == config::texts(self.key_headers@),
                all == self@.key_headers,
                first_present(req@, all) == first_present(req@, all.skip(i as int)),
            decreases self.key_headers.len() - i,
        {
            assert(all.skip(i as int)[0] == self.key_headers@[i as int]@);
            assert(all.skip(i as int).skip(1) =~= all.skip(i + 1));
            if let Some(v) = req.header(self.key_headers[i].as_str()) {
                return v;
            }
            i += 1;
        }
        req.remote_ip.as_str()
    }

    /// The first half of the verdict on a request at time `now` (seconds since
    /// the epoch): the counter to bump. [`RateLimit::finish`] takes the count.
    pub fn invoke(&self, req: &Request, now: u64) -> (r: Step)
        ensures
            r@ == self@.step(req@, now),
    {
        let window: u64 = now / WINDOW_SECS;
        let key: String = "mw:rl:".to_owned().concat(req.site.as_str()).concat(":").concat(
            self.client_key(req),
        ).concat(":").concat(text::number(window).as_str());
        Step::IncrTtl { key, by: 1, ttl_secs: KEY_TTL_SECS }
    }

    /// The verdict for a count; `None` where the store gave none.
    pub fn finish(&self, now: u64, count: Option<i64>) -> (r: Response)
        ensures
            r@ == self@.verdict(now, count),
    {
        if let Some(n) = count {
            if n > self.allowance() {
                let left: u64 = WINDOW_SECS - (now % WINDOW_SECS);
                return Response::respond(429, "rate limit exceeded").header(
                    "Retry-After",
                    text::number(left).as_str(),
                );
            }
        }
        Response::cont()
    }
}

// ---------------------------------------------------------------------------
// What a client may expect
// ---------------------------------------------------------------------------

/// Where the store gives no count, the request is served.
pub proof fn law_fails_open(p: RateLimitModel, now: u64)
    ensures
        p.verdict(now, None) == ResponseModel::cont(),
{
}

/// Under a configured policy the first request of a window is served, and so is
/// every request up to the allowance; each one beyond it is refused with `429`.
pub proof fn law_allowance_is_served(p: RateLimitModel, now: u64, count: i64)
    requires
        p.well_formed(),
    ensures
        p.limit() >= 10,
        count <= 1 ==> p.verdict(now, Some(count)) == ResponseModel::cont(),
        count <= p.limit() ==> p.verdict(now, Some(count)) == ResponseModel::cont(),
        count > p.limit() ==> p.verdict(now, Some(count)).action == http::Action::Respond
            && p.verdict(now, Some(count)).status == 429,
{
    assert(p.per_ip_rps * WINDOW_SECS >= WINDOW_SECS) by (nonlinear_arith)
        requires
            p.per_ip_rps >= 1,
    ;
}

/// A refused client is told to wait between one second and the length of a
/// window, and then a new window has begun.
pub proof fn law_retry_after_is_the_next_window(now: u64)
    ensures
        1 <= RateLimitModel::seconds_left(now) <= WINDOW_SECS,
        (now + RateLimitModel::seconds_left(now)) / WINDOW_SECS as int == now / WINDOW_SECS + 1,
        (now + RateLimitModel::seconds_left(now)) % WINDOW_SECS as int == 0,
{
}

/// A request counts for its site and its client alone: requests that matched no
/// site share one counter per client, whatever host they ask for.
pub proof fn law_counter_is_chosen_by_site_and_client(
    p: RateLimitModel,
    req: RequestModel,
    other: RequestModel,
    now: u64,
)
    requires
        req.site == other.site,
        p.client(req) == p.client(other),
    ensures
        p.step(req, now) == p.step(other, now),
{
}

/// Every client has its own counter in every window of its site; where sites
/// hold no colon, counters of different sites differ too.
pub proof fn law_counters_are_separate(
    site: Seq<char>,
    client: Seq<char>,
    window: nat,
    other_site: Seq<char>,
    other_client: Seq<char>,
    other_window: nat,
)
    requires
        counter_key(site, client, window) == counter_key(other_site, other_client, other_window),
        site == other_site || (!site.contains(':') && !other_site.contains(':')),
    ensures
        site == other_site,
        client == other_client,
        window == other_window,
{
    reveal_strlit("mw:rl:");
    reveal_strlit(":");
    let a = counter_key(site, client, window);
    let b = counter_key(other_site, other_client, other_window);
    let (d, e) = (text::decimal(window), text::decimal(other_window));
    text::lemma_decimal_value(window);
    text::lemma_decimal_value(other_window);
    // The window stands behind the last colon.
    let last = a.len() - d.len() - 1;
    let other_last = b.len() - e.len() - 1;
    assert(a[last] == ':');
    assert(b[other_last] == ':');
    if d.len() < e.len() {
        assert(b[last] == e[last - other_last - 1]);
        assert(text::is_digit(e[last - other_last - 1]));
    } else if e.len() < d.len() {
        assert(a[other_last] == d[other_last - last - 1]);
        assert(text::is_digit(d[other_last - last - 1]));
    }
    assert(d =~= a.skip(last + 1));
    assert(e =~= b.skip(last + 1));
    // The site stands before the first colon behind the prefix.
    if site != other_site {
        assert(a[6 + site.len() as int] == ':');
        assert(b[6 + other_site.len() as int] == ':');
        if site.len() < other_site.len() {
            assert(b[6 + site.len() as int] == other_site[site.len() as int]);
            assert(other_site.contains(other_site[site.len() as int]));
        } else if other_site.len() < site.len() {
            assert(a[6 + other_site.len() as int] == site[other_site.len() as int]);
            assert(site.contains(site[other_site.len() as int]));
        }
        assert(site =~= a.subrange(6, 6 + site.len() as int));
        assert(other_site =~= b.subrange(6, 6 + site.len() as int));
    }
    let from = 7 + site.len() as int;
    assert(client =~= a.subrange(from, last));
    assert(other_client =~= b.subrange(from, last));
}

/// A client may make ten times its rate and the burst in a window, as far as a
/// counter reaches; one request more is refused.
pub proof fn law_allowance_is_rate_and_burst(p: RateLimitModel, now: u64, count: i64)
    ensures
        count <= p.per_ip_rps * 10 + p.burst ==> p.verdict(now, Some(count))
            == ResponseModel::cont(),
        count > p.per_ip_rps * 10 + p.burst ==> ({
            let r = p.verdict(now, Some(count));
            &&& r.action == http::Action::Respond
            &&& r.status == 429
            &&& r.body == vstd::utf8::encode_utf8("rate limit exceeded"@)
            &&& r.headers.len() == 1
            &&& r.headers[0].0 == "Retry-After"@
            &&& text::value(r.headers[0].1) == 10 - now % 10
        }),
{
    text::law_decimal_notation(RateLimitModel::seconds_left(now));
}

/// The client is told by the first header of the list that the request has, in
/// the order of the list; by its address where it has none of them.
pub proof fn law_client_is_the_first_present_header(p: RateLimitModel, req: RequestModel, i: int)
    ensures
        0 <= i < p.key_headers.len() && req.header(p.key_headers[i]) is Some && (forall|j: int|
            0 <= j < i ==> req.header(#[trigger] p.key_headers[j]) is None) ==> p.client(req)
            == req.header(p.key_headers[i])->0,
        (forall|j: int| 0 <= j < p.key_headers.len() ==> req.header(#[trigger] p.key_headers[j]) is None)
            ==> p.client(req) == req.remote_ip,
{
    lemma_first_present(req, p.key_headers, i);
}

proof fn lemma_first_present(req: RequestModel, names: Seq<Seq<char>>, i: int)
    ensures
        0 <= i < names.len() && req.header(names[i]) is Some && (forall|j: int|
            0 <= j < i ==> req.header(#[trigger] names[j]) is None) ==> first_present(req, names)
            == req.header(names[i]),
        (forall|j: int| 0 <= j < names.len() ==> req.header(#[trigger] names[j]) is None)
            ==> first_present(req, names) is None,
    decreases names.len(),
{
    if names.len() > 0 && req.header(names[0]) is None {
        let rest = names.skip(1);
        lemma_first_present(req, rest, i - 1);
        assert(forall|j: int| 0 <= j < rest.len() ==> #[trigger] rest[j] == names[j + 1]);
        if 0 <= i < names.len() && req.header(names[i]) is Some && (forall|j: int|
            0 <= j < i ==> req.header(#[trigger] names[j]) is None) {
            assert(rest[i - 1] == names[i]);
            assert forall|j: int| 0 <= j < i - 1 implies req.header(#[trigger] rest[j]) is None by {
                assert(rest[j] == names[j + 1]);
            }
        }
        if forall|j: int| 0 <= j < names.len() ==> req.header(#[trigger] names[j]) is None {
            assert forall|j: int| 0 <= j < rest.len() implies req.header(
                #[trigger] rest[j],
            ) is None by {
                assert(rest[j] == names[j + 1]);
            }
        }
    } else if names.len() > 0 {
        assert(req.header(names[0]) is Some);
    }
}

/// Each request adds one to one counter, that of its site, its client and its
/// window of ten seconds, which lives for thirty: two moments share a counter
/// exactly where they lie in the same ten seconds.
pub proof fn law_windows_are_ten_seconds(
    p: RateLimitModel,
    req: RequestModel,
    now: u64,
    other: u64,
)
    ensures
        p.step(req, now) is IncrTtl,
        p.step(req, now)->by == 1,
        p.step(req, now)->ttl_secs == 30,
        p.step(req, now)->key == "mw:rl:"@ + req.site + ":"@ + p.client(req) + ":"@ + text::decimal(
            now as nat / 10,
        ),
        p.step(req, now)->key == p.step(req, other)->key <==> now / 10 == other / 10,
{
    if p.step(req, now)->key == p.step(req, other)->key {
        law_counters_are_separate(
            req.site,
            p.client(req),
            (now / 10) as nat,
            req.site,
            p.client(req),
            (other / 10) as nat,
        );
    }
}

/// Every setting is read from its own key: the rate is required, the burst is the
/// rate unless it is set, and the headers come in order and completely.
pub proof fn law_settings(config: JsonModel, p: RateLimitModel, i: int)
    requires
        RateLimitModel::configured(config) == Ok::<_, Seq<char>>(p),
    ensures
        config.get("per_ip_rps"@) is Some && config.get("per_ip_rps"@)->0.as_u64() == Some(
            p.per_ip_rps,
        ),
        p.per_ip_rps > 0,
        config.setting("burst"@) is None ==> p.burst == p.per_ip_rps,
        config.setting("burst"@) is Some ==> config.setting("burst"@)->0.as_u64() == Some(p.burst),
        config.setting("key_headers"@) is None ==> p.key_headers.len() == 0,
        config.setting("key_headers"@) is Some ==> config.setting("key_headers"@)->0.node is Array
            && ({
            let items = config.setting("key_headers"@)->0.node->Array_0;
            &&& items.len() == p.key_headers.len()
            &&& 0 <= i < items.len() ==> items[i].node == NodeModel::Text(p.key_headers[i])
        }),
{
    if config.setting("key_headers"@) is Some {
        let items = config.setting("key_headers"@)->0.node->Array_0;
        config::law_lists_are_read_whole(items, config::text_entry("key_headers"@), i);
        if 0 <= i < items.len() {
            config::law_text_entries("key_headers"@, items[i]);
        }
    }
}

/// A configuration is taken exactly where the rate is a positive integer, the
/// burst an integer and the headers a list of texts; of several refused settings
/// the first is named.
pub proof fn law_taken_configurations(config: JsonModel)
    ensures
        ({
            let r = RateLimitModel::configured(config);
            let p = RateLimitModel::rps_setting(config);
            let b = RateLimitModel::burst_setting(config, 0);
            let h = RateLimitModel::headers_setting(config);
            &&& p is Ok <==> config.get("per_ip_rps"@) is Some && config.get(
                "per_ip_rps"@,
            )->0.as_u64() is Some && config.get("per_ip_rps"@)->0.as_u64()->0 > 0
            &&& b is Ok <==> config.setting("burst"@) is None || config.setting(
                "burst"@,
            )->0.as_u64() is Some
            &&& h is Ok <==> config.setting("key_headers"@) is None || (config.setting(
                "key_headers"@,
            )->0.node is Array && (forall|j: int|
                0 <= j < config.setting("key_headers"@)->0.node->Array_0.len() ==> (
                #[trigger] config.setting("key_headers"@)->0.node->Array_0[j]).node is Text))
            &&& r is Ok <==> p is Ok && b is Ok && h is Ok
            &&& p is Err ==> r->Err_0 == p->Err_0
            &&& p is Ok && b is Err ==> r->Err_0 == b->Err_0
            &&& p is Ok && b is Ok && h is Err ==> r->Err_0 == h->Err_0
        }),
{
    if config.setting("key_headers"@) is Some && config.setting("key_headers"@)->0.node is Array {
        config::law_lists_of_texts(
            config.setting("key_headers"@)->0.node->Array_0,
            "key_headers"@,
        );
    }
}

} // verus!

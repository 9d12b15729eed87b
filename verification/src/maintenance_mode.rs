//! `maintenance-mode`: a holding page for a site while a flag is set in the
//! key-value store.
//!
//! The flag of a request is the value under a key made from `key_template`, with
//! `<vhost>` replaced by the request's site. Where it is set and not false, the
//! request is answered with `503` and `Retry-After`. Requests from `bypass_ips`
//! and to `bypass_paths` are served without a look at the store. A missing value
//! and a store that is down are the same here, and the request is served: this
//! signals maintenance, it does not guard anything.
//!
//! | key | default | meaning |
//! |-----|---------|---------|
//! | `key_template` (string) | `"mw:maintenance:<vhost>"` | store key of the flag |
//! | `retry_after` (integer seconds) | `300` | `Retry-After` of the answer |
//! | `body` (string) | a minimal page | body of the answer |
//! | `content_type` (string) | `"text/html; charset=utf-8"` | `Content-Type` of the answer |
//! | `bypass_ips` (array of strings) | unset | addresses or networks that are served anyway |
//! | `bypass_paths` (array of strings) | unset | path prefixes that stay live |
use vstd::prelude::*;
use vstd::string::*;
use vstd::utf8::*;

use crate::http::{Request, RequestModel, Response, ResponseModel, Step, StepModel};
use crate::json::{Json, JsonModel, NodeModel};
use crate::net::IpAddress;
use crate::{codec, config, net, text};

verus! {

/// The store key of the flag, unless configured.
pub const DEFAULT_KEY_TEMPLATE: &'static str = "mw:maintenance:<vhost>";

/// The content type of the holding page, unless configured.
pub const DEFAULT_CONTENT_TYPE: &'static str = "text/html; charset=utf-8";

/// The holding page, unless configured.
pub const DEFAULT_BODY: &'static str = "<!doctype html>\n<html lang=\"en\">\n<head>\n<meta charset=\"utf-8\">\n<meta name=\"viewport\" content=\"width=device-width, initial-scale=1\">\n<title>Down for maintenance</title>\n</head>\n<body>\n<h1>We&rsquo;ll be right back</h1>\n<p>This site is temporarily down for maintenance. Please try again shortly.</p>\n</body>\n</html>\n";

/// `Retry-After` in seconds, unless configured.
pub const DEFAULT_RETRY_AFTER: u64 = 300;

/// One entry of `bypass_ips`.
#[derive(Clone, Copy, Debug)]
pub enum IpMatcher {
    /// This address.
    Exact(IpAddress),
    /// The addresses that share this many leading bits.
    Cidr { network: IpAddress, prefix: u8 },
}

impl IpMatcher {
    /// The address is meant by the entry.
    pub open spec fn accepts(self, ip: IpAddress) -> bool {
        match self {
            IpMatcher::Exact(want) => want.same(ip),
            IpMatcher::Cidr { network, prefix } => net::in_network(network, prefix, ip),
        }
    }

    /// What an entry says: an address, or an address and a number of bits after
    /// the first slash.
    pub open spec fn read(entry: Seq<char>) -> Result<IpMatcher, Seq<char>> {
        match entry.index_of_first('/') {
            Some(i) => match net::address_text(entry.take(i)) {
                None => Err(
                    "`bypass_ips`: invalid CIDR network in "@ + codec::debug_text(entry),
                ),
                Some(network) => match text::u8_text(entry.skip(i + 1)) {
                    None => Err("`bypass_ips`: invalid prefix in "@ + codec::debug_text(entry)),
                    Some(prefix) => if prefix > network.width() {
                        Err(
                            "`bypass_ips`: prefix /"@ + text::decimal(prefix as nat)
                                + " too large in "@ + codec::debug_text(entry),
                        )
                    } else {
                        Ok(IpMatcher::Cidr { network, prefix })
                    },
                },
            },
            None => match net::address_text(entry) {
                None => Err("`bypass_ips`: invalid IP "@ + codec::debug_text(entry)),
                Some(ip) => Ok(IpMatcher::Exact(ip)),
            },
        }
    }

    /// Reads an address (`203.0.113.4`) or a network (`203.0.113.0/24`).
    pub fn parse(spec_text: &str) -> (r: Result<IpMatcher, String>)
        ensures
            match r {
                Ok(m) => Self::read(spec_text@) == Ok::<_, Seq<char>>(m),
                Err(e) => Self::read(spec_text@) == Err::<IpMatcher, _>(e@),
            },
    {
        let x: Vec<char> = text::chars_of(spec_text);
        let n: usize = x.len();
        if let Some(i) = text::find_first(&x, '/') {
            let network: IpAddress = match net::parse_address(spec_text.substring_char(0, i)) {
                Some(ip) => ip,
                None => return Err(
                    "`bypass_ips`: invalid CIDR network in ".to_owned().concat(
                        codec::quoted(spec_text).as_str(),
                    ),
                ),
            };
            let prefix: u8 = match text::parse_u8(spec_text.substring_char(i + 1, n)) {
                Some(prefix) => prefix,
                None => return Err(
                    "`bypass_ips`: invalid prefix in ".to_owned().concat(
                        codec::quoted(spec_text).as_str(),
                    ),
                ),
            };
            let max: u8 = match network {
                IpAddress::V4(_) => 32,
                IpAddress::V6(_) => 128,
            };
            if prefix > max {
                return Err(
                    "`bypass_ips`: prefix /".to_owned().concat(
                        text::number(prefix as u64).as_str(),
                    ).concat(" too large in ").concat(codec::quoted(spec_text).as_str()),
                );
            }
            Ok(IpMatcher::Cidr { network, prefix })
        } else {
            match net::parse_address(spec_text) {
                Some(ip) => Ok(IpMatcher::Exact(ip)),
                None => Err(
                    "`bypass_ips`: invalid IP ".to_owned().concat(
                        codec::quoted(spec_text).as_str(),
                    ),
                ),
            }
        }
    }

    /// Whether the address is meant by the entry.
    pub fn matches(&self, ip: IpAddress) -> (r: bool)
        ensures
            r == self.accepts(ip),
    {
        match self {
            IpMatcher::Exact(want) => net::same_address(*want, ip),
            IpMatcher::Cidr { network, prefix } => net::cidr_contains(*network, *prefix, ip),
        }
    }
}

/// Maintenance policy, built once by [`MaintenanceMode::init`].
#[derive(Debug)]
pub struct MaintenanceMode {
    pub key_template: String,
    pub retry_after: u64,
    pub body: String,
    pub content_type: String,
    pub bypass_ips: Vec<IpMatcher>,
    pub bypass_paths: Vec<String>,
}

/// The mathematical reading of [`MaintenanceMode`].
pub struct MaintenanceModel {
    pub key_template: Seq<char>,
    pub retry_after: u64,
    pub body: Seq<char>,
    pub content_type: Seq<char>,
    pub bypass_ips: Seq<IpMatcher>,
    pub bypass_paths: Seq<Seq<char>>,
}

impl View for MaintenanceMode {
    type V = MaintenanceModel;

    open spec fn view(&self) -> MaintenanceModel {
        MaintenanceModel {
            key_template: self.key_template@,
            retry_after: self.retry_after,
            body: self.body@,
            content_type: self.content_type@,
            bypass_ips: self.bypass_ips@,
            bypass_paths: config::texts(self.bypass_paths@),
        }
    }
}

/// A flag is on unless it is blank or one of the words for off. Bytes that are
/// not text are neither.
pub open spec fn flag_on(value: Seq<u8>) -> bool {
    valid_utf8(value) ==> {
        let word = text::lower(text::trimmed(decode_utf8(value)));
        &&& word.len() > 0
        &&& word != "0"@
        &&& word != "false"@
        &&& word != "off"@
        &&& word != "no"@
    }
}

/// Whether a stored flag is on.
pub fn is_truthy(value: &[u8]) -> (r: bool)
    ensures
        r == flag_on(value@),
{
    let s: String = match codec::text_of(copied(value)) {
        Some(s) => s,
        None => return true,
    };
    let word: String = text::to_lower(text::trim(s.as_str()));
    if word.as_str().is_empty() {
        return false;
    }
    !(text::same(word.as_str(), "0") || text::same(word.as_str(), "false") || text::same(
        word.as_str(),
        "off",
    ) || text::same(word.as_str(), "no"))
}

/// The same bytes, owned.
fn copied(bytes: &[u8]) -> (r: Vec<u8>)
    ensures
        r@ == bytes@,
{
    let mut out: Vec<u8> = Vec::new();
    let mut i: usize = 0;
    while i < bytes.len()
        invariant
            i <= bytes.len(),
            out@ =~= bytes@.take(i as int),
        decreases bytes.len() - i,
    {
        out.push(bytes[i]);
        i += 1;
    }
    assert(bytes@.take(i as int) =~= bytes@);
    out
}

// ---------------------------------------------------------------------------
// Configuration
// ---------------------------------------------------------------------------

/// A setting that is a list of texts.
pub open spec fn text_list(config: JsonModel, key: Seq<char>) -> Result<
    Seq<Seq<char>>,
    Seq<char>,
> {
    match config.setting(key) {
        None => Ok(Seq::empty()),
        Some(v) => match v.node {
            NodeModel::Array(items) => config::collect(items, config::text_entry(key)),
            _ => Err("`"@ + key + "` must be an array of strings"@),
        },
    }
}

/// One entry of the `bypass_ips` setting.
pub open spec fn ip_entry() -> spec_fn(Seq<char>) -> Result<IpMatcher, Seq<char>> {
    |s: Seq<char>| IpMatcher::read(s)
}

impl MaintenanceModel {
    /// The store key of a site's flag.
    pub open spec fn key(self, site: Seq<char>) -> Seq<char> {
        text::replaced(self.key_template, "<vhost>"@, site)
    }

    /// The path starts with one of the live prefixes.
    pub open spec fn path_live(self, path: Seq<char>) -> bool {
        exists|i: int|
            0 <= i < self.bypass_paths.len() && (#[trigger] self.bypass_paths[i]).is_prefix_of(path)
    }

    /// The address is one of those that are served anyway.
    pub open spec fn ip_live(self, ip: IpAddress) -> bool {
        exists|i: int|
            0 <= i < self.bypass_ips.len() && (#[trigger] self.bypass_ips[i]).accepts(ip)
    }

    /// The request is served whatever the flag says.
    pub open spec fn bypassed(self, req: RequestModel) -> bool {
        ||| self.path_live(req.path)
        ||| (net::address_text(req.remote_ip) is Some && self.ip_live(
            net::address_text(req.remote_ip)->0,
        ))
    }

    /// What happens before the store is asked.
    pub open spec fn step(self, req: RequestModel) -> StepModel {
        if self.bypassed(req) {
            StepModel::Done(ResponseModel::cont())
        } else {
            StepModel::Get(self.key(req.site))
        }
    }

    /// The holding page.
    pub open spec fn page(self) -> ResponseModel {
        ResponseModel::respond(503, self.body).header(
            "Retry-After"@,
            text::decimal(self.retry_after as nat),
        ).header("Content-Type"@, self.content_type)
    }

    /// The verdict once the store has answered.
    pub open spec fn verdict(self, value: Option<Seq<u8>>) -> ResponseModel {
        match value {
            Some(v) => if flag_on(v) {
                self.page()
            } else {
                ResponseModel::cont()
            },
            None => ResponseModel::cont(),
        }
    }

    /// The verdict on a request, for the value that the store holds under the
    /// key that it is asked for.
    pub open spec fn decision(self, req: RequestModel, value: Option<Seq<u8>>) -> ResponseModel {
        match self.step(req) {
            StepModel::Done(r) => r,
            _ => self.verdict(value),
        }
    }

    /// The `key_template` setting.
    pub open spec fn template_setting(config: JsonModel) -> Result<Seq<char>, Seq<char>> {
        match config::text_or(config, "key_template"@, Some(DEFAULT_KEY_TEMPLATE@)) {
            Ok(s) => if s->0.len() == 0 {
                Err("`key_template` must not be empty"@)
            } else {
                Ok(s->0)
            },
            Err(e) => Err(e),
        }
    }

    /// The `bypass_ips` setting.
    pub open spec fn ips_setting(config: JsonModel) -> Result<Seq<IpMatcher>, Seq<char>> {
        match text_list(config, "bypass_ips"@) {
            Ok(list) => config::collect(list, ip_entry()),
            Err(e) => Err(e),
        }
    }

    /// The policy that a configuration describes, or the first setting that is
    /// refused.
    pub open spec fn configured(config: JsonModel) -> Result<MaintenanceModel, Seq<char>> {
        match (
            Self::template_setting(config),
            config::u64_or(config, "retry_after"@, DEFAULT_RETRY_AFTER),
            config::text_or(config, "body"@, Some(DEFAULT_BODY@)),
            config::text_or(config, "content_type"@, Some(DEFAULT_CONTENT_TYPE@)),
            Self::ips_setting(config),
            text_list(config, "bypass_paths"@),
        ) {
            (Err(e), _, _, _, _, _) => Err(e),
            (_, Err(e), _, _, _, _) => Err(e),
            (_, _, Err(e), _, _, _) => Err(e),
            (_, _, _, Err(e), _, _) => Err(e),
            (_, _, _, _, Err(e), _) => Err(e),
            (_, _, _, _, _, Err(e)) => Err(e),
            (Ok(template), Ok(retry_after), Ok(body), Ok(content_type), Ok(ips), Ok(paths)) => Ok(
                MaintenanceModel {
                    key_template: template,
                    retry_after,
                    body: body->0,
                    content_type: content_type->0,
                    bypass_ips: ips,
                    bypass_paths: paths,
                },
            ),
        }
    }
}

/// Reads a setting that is a list of texts.
pub fn opt_string_array(config: &Json, key: &str) -> (r: Result<Vec<String>, String>)
    ensures
        match r {
            Ok(list) => text_list(config@, key@) == Ok::<_, Seq<char>>(config::texts(list@)),
            Err(e) => text_list(config@, key@) == Err::<Seq<Seq<char>>, _>(e@),
        },
{
    let v: &Json = match config.setting(key) {
        None => {
            let none: Vec<String> = Vec::new();
            assert(config::texts(none@) =~= Seq::empty());
            return Ok(none);
        },
        Some(v) => v,
    };
    match v.as_array() {
        Some(items) => config::read_strings(items, key),
        None => Err("`".to_owned().concat(key).concat("` must be an array of strings")),
    }
}

fn read_ips(config: &Json) -> (r: Result<Vec<IpMatcher>, String>)
    ensures
        match r {
            Ok(list) => MaintenanceModel::ips_setting(config@) == Ok::<_, Seq<char>>(list@),
            Err(e) => MaintenanceModel::ips_setting(config@) == Err::<Seq<IpMatcher>, _>(e@),
        },
{
    let list: Vec<String> = match opt_string_array(config, "bypass_ips") {
        Ok(list) => list,
        Err(e) => return Err(e),
    };
    let ghost all = config::texts(list@);
    let ghost read = ip_entry();
    let mut out: Vec<IpMatcher> = Vec::new();
    let mut i: usize = 0;
    assert(all.take(0) =~= Seq::empty());
    assert(out@ =~= Seq::empty());
    while i < list.len()
        invariant
            i <= list.len(),
            all == config::texts(list@),
            read == ip_entry(),
            MaintenanceModel::ips_setting(config@) == config::collect(all, read),
            config::collect(all.take(i as int), read) == Ok::<_, Seq<char>>(out@),
        decreases list.len() - i,
    {
        proof {
            config::lemma_collect_step(all, read, i as int);
        }
        match IpMatcher::parse(list[i].as_str()) {
            Ok(m) => {
                out.push(m);
            },
            Err(e) => {
                proof {
                    config::lemma_collect_refusal(all, read, i + 1);
                }
                return Err(e);
            },
        }
        i += 1;
    }
    assert(all.take(i as int) =~= all);
    Ok(out)
}

impl MaintenanceMode {
    /// Reads the policy from a module's configuration.
    pub fn init(config: &Json) -> (r: Result<MaintenanceMode, String>)
        ensures
            match r {
                Ok(m) => MaintenanceModel::configured(config@) == Ok::<_, Seq<char>>(m@),
                Err(e) => MaintenanceModel::configured(config@) == Err::<MaintenanceModel, _>(e@),
            },
    {
        let key_template: String = match config::opt_string(
            config,
            "key_template",
            DEFAULT_KEY_TEMPLATE,
        ) {
            Ok(s) => if s.as_str().is_empty() {
                return Err("`key_template` must not be empty".to_owned());
            } else {
                s
            },
            Err(e) => return Err(e),
        };
        let retry_after: u64 = match config::opt_u64(config, "retry_after", DEFAULT_RETRY_AFTER) {
            Ok(n) => n,
            Err(e) => return Err(e),
        };
        let body: String = match config::opt_string(config, "body", DEFAULT_BODY) {
            Ok(s) => s,
            Err(e) => return Err(e),
        };
        let content_type: String = match config::opt_string(
            config,
            "content_type",
            DEFAULT_CONTENT_TYPE,
        ) {
            Ok(s) => s,
            Err(e) => return Err(e),
        };
        let bypass_ips: Vec<IpMatcher> = match read_ips(config) {
            Ok(list) => list,
            Err(e) => return Err(e),
        };
        let bypass_paths: Vec<String> = match opt_string_array(config, "bypass_paths") {
            Ok(list) => list,
            Err(e) => return Err(e),
        };
        Ok(
            MaintenanceMode {
                key_template,
                retry_after,
                body,
                content_type,
                bypass_ips,
                bypass_paths,
            },
        )
    }

    /// The store key of a site's flag.
    pub fn key_for(&self, vhost: &str) -> (r: String)
        ensures
            r@ == self@.key(vhost@),
    {
        proof {
            reveal_strlit("<vhost>");
        }
        text::replace(self.key_template.as_str(), "<vhost>", vhost)
    }

    /// Whether the request is served whatever the flag says.
    pub fn is_bypassed(&self, req: &Request) -> (r: bool)
        ensures
            r == self@.bypassed(req@),
    {
        let ghost paths = self@.bypass_paths;
        let mut i: usize = 0;
        while i < self.bypass_paths.len()
            invariant
                i <= self.bypass_paths.len(),
                paths == config::texts(self.bypass_paths@),
                paths == self@.bypass_paths,
                forall|j: int| 0 <= j < i ==> !(#[trigger] paths[j]).is_prefix_of(req@.path),
            decreases self.bypass_paths.len() - i,
        {
            assert(paths[i as int] == self.bypass_paths@[i as int]@);
            if text::starts_with(req.path.as_str(), self.bypass_paths[i].as_str()) {
                return true;
            }
            i += 1;
        }
        let ip: IpAddress = match net::parse_address(req.remote_ip.as_str()) {
            Some(ip) => ip,
            None => return false,
        };
        let mut k: usize = 0;
        while k < self.bypass_ips.len()
            invariant
                k <= self.bypass_ips.len(),
                net::address_text(req@.remote_ip) == Some(ip),
                forall|j: int| 0 <= j < k ==> !(#[trigger] self@.bypass_ips[j]).accepts(ip),
            decreases self.bypass_ips.len() - k,
        {
            if self.bypass_ips[k].matches(ip) {
                assert(self@.bypass_ips[k as int].accepts(ip));
                return true;
            }
            k += 1;
        }
        false
    }

    /// The first half of the verdict on a request: it is served, or its site's
    /// flag is read and [`MaintenanceMode::finish`] takes the value.
    pub fn invoke(&self, req: &Request) -> (r: Step)
        ensures
            r@ == self@.step(req@),
    {
        if self.is_bypassed(req) {
            return Step::Done(Response::cont());
        }
        Step::Get(self.key_for(req.site.as_str()))
    }

    /// The verdict once the store has answered. No value, for whatever reason,
    /// means that the request is served.
    pub fn finish(&self, value: Option<Vec<u8>>) -> (r: Response)
        ensures
            r@ == self@.verdict(
                match value {
                    Some(v) => Some(v@),
                    None => None,
                },
            ),
    {
        if let Some(v) = value {
            if is_truthy(v.as_slice()) {
                return Response::respond(503, self.body.as_str()).header(
                    "Retry-After",
                    text::number(self.retry_after).as_str(),
                ).header("Content-Type", self.content_type.as_str());
            }
        }
        Response::cont()
    }
}

// ---------------------------------------------------------------------------
// Who is served
// ---------------------------------------------------------------------------

/// A request that bypasses maintenance is served without a call to the store,
/// whatever the store holds.
pub proof fn law_bypass_does_not_touch_the_store(
    p: MaintenanceModel,
    req: RequestModel,
    value: Option<Seq<u8>>,
)
    requires
        p.bypassed(req),
    ensures
        p.step(req) == StepModel::Done(ResponseModel::cont()),
        p.decision(req, value) == ResponseModel::cont(),
{
}

/// Without a value every request is served: an absent flag and a store that is
/// down take no site offline.
pub proof fn law_fails_open(p: MaintenanceModel, req: RequestModel)
    ensures
        p.decision(req, None) == ResponseModel::cont(),
{
}

/// A request is answered with the holding page exactly where it does not bypass
/// maintenance and its flag is on; otherwise it is served untouched.
pub proof fn law_page_while_flag_is_on(p: MaintenanceModel, req: RequestModel, value: Seq<u8>)
    ensures
        p.decision(req, Some(value)) == (if !p.bypassed(req) && flag_on(value) {
            p.page()
        } else {
            ResponseModel::cont()
        }),
{
}

/// Every listed path prefix and every listed address counts, at whatever place it
/// is listed; a request that none of them means is not bypassed.
pub proof fn law_every_bypass_counts(
    p: MaintenanceModel,
    req: RequestModel,
    rest: Seq<char>,
    ip: IpAddress,
    i: int,
)
    ensures
        0 <= i < p.bypass_paths.len() && req.path == p.bypass_paths[i] + rest ==> p.step(req)
            == StepModel::Done(ResponseModel::cont()),
        0 <= i < p.bypass_ips.len() && net::address_text(req.remote_ip) == Some(ip)
            && p.bypass_ips[i].accepts(ip) ==> p.step(req) == StepModel::Done(
            ResponseModel::cont(),
        ),
        (forall|j: int|
            0 <= j < p.bypass_paths.len() ==> !(#[trigger] p.bypass_paths[j]).is_prefix_of(
                req.path,
            )) && (net::address_text(req.remote_ip) is None || (forall|j: int|
            0 <= j < p.bypass_ips.len() ==> !(#[trigger] p.bypass_ips[j]).accepts(
                net::address_text(req.remote_ip)->0,
            ))) ==> p.step(req) == StepModel::Get(p.key(req.site)),
{
    if 0 <= i < p.bypass_paths.len() && req.path == p.bypass_paths[i] + rest {
        let prefix = p.bypass_paths[i];
        assert(req.path.take(prefix.len() as int) =~= prefix);
        assert(prefix.is_prefix_of(req.path));
    }
}

/// An entry that is an address means that address alone; one with a number of
/// bits means the addresses that share them.
pub proof fn law_entries_mean_addresses(address: IpAddress, prefix: u8, ip: IpAddress)
    ensures
        IpMatcher::Exact(address).accepts(ip) <==> (address is V4) == (ip is V4)
            && address.octets() == ip.octets(),
        (IpMatcher::Cidr { network: address, prefix }).accepts(ip) <==> net::in_network(
            address,
            prefix,
            ip,
        ),
{
}

/// An address is read as itself, and an address with a slash and a number of bits
/// that its family has as that network; a number that it has not is refused.
pub proof fn law_entries_are_read(address: Seq<char>, bits: u8)
    requires
        !address.contains('/'),
        net::address_text(address) is Some,
    ensures
        IpMatcher::read(address) == Ok::<_, Seq<char>>(
            IpMatcher::Exact(net::address_text(address)->0),
        ),
        bits <= net::address_text(address)->0.width() ==> IpMatcher::read(
            address + "/"@ + text::decimal(bits as nat),
        ) == Ok::<_, Seq<char>>(
            (IpMatcher::Cidr { network: net::address_text(address)->0, prefix: bits }),
        ),
        bits > net::address_text(address)->0.width() ==> IpMatcher::read(
            address + "/"@ + text::decimal(bits as nat),
        ) is Err,
{
    reveal_strlit("/");
    address.index_of_first_ensures('/');
    let digits = text::decimal(bits as nat);
    let entry = address + "/"@ + digits;
    let n = address.len() as int;
    assert(entry[n] == '/');
    assert(entry.contains('/'));
    entry.index_of_first_ensures('/');
    let i = entry.index_of_first('/')->0;
    assert(i == n) by {
        if i < n {
            assert(address.contains(address[i]));
        }
    }
    assert(entry.take(n) =~= address);
    assert(entry.skip(n + 1) =~= digits);
    text::lemma_decimal_value(bits as nat);
    text::law_small_numbers(digits);
}

/// A flag is off exactly where it is blank or says `0`, `false`, `off` or `no`, in
/// any case and with white space around it; every other value is on.
pub proof fn law_flags_say_off(word: Seq<char>, value: Seq<u8>)
    ensures
        word.len() == 0 || word == "0"@ || word == "false"@ || word == "off"@ || word == "no"@
            ==> (valid_utf8(value) && text::same_ignoring_case(
            text::trimmed(decode_utf8(value)),
            word,
        ) ==> !flag_on(value)),
        !flag_on(value) ==> valid_utf8(value) && ({
            let said = text::trimmed(decode_utf8(value));
            ||| said.len() == 0
            ||| text::same_ignoring_case(said, "0"@)
            ||| text::same_ignoring_case(said, "false"@)
            ||| text::same_ignoring_case(said, "off"@)
            ||| text::same_ignoring_case(said, "no"@)
        }),
{
    reveal_strlit("0");
    reveal_strlit("false");
    reveal_strlit("off");
    reveal_strlit("no");
    assert(text::lower("0"@) =~= "0"@);
    assert(text::lower("false"@) =~= "false"@);
    assert(text::lower("off"@) =~= "off"@);
    assert(text::lower("no"@) =~= "no"@);
    let said = text::trimmed(decode_utf8(value));
    assert(text::lower(said).len() == said.len());
    assert(text::lower(word).len() == word.len());
}

/// The flag of a site is read from the template with the site in the place of
/// `<vhost>`.
pub proof fn law_each_site_has_its_flag(
    p: MaintenanceModel,
    before: Seq<char>,
    after: Seq<char>,
    site: Seq<char>,
)
    requires
        p.key_template == before + "<vhost>"@ + after,
        !before.contains('<'),
        !after.contains('<'),
    ensures
        p.key(site) == before + site + after,
{
    reveal_strlit("<vhost>");
    assert(p.key_template =~= before + ("<vhost>"@ + after));
    text::lemma_replaced_skips(before, "<vhost>"@ + after, "<vhost>"@, site);
    text::lemma_replaced_at(after, "<vhost>"@, site);
    text::lemma_replaced_absent(after, "<vhost>"@, site);
    assert(before + (site + after) =~= before + site + after);
}

/// The holding page is a `503` with the configured body, the seconds to wait and
/// the content type.
pub proof fn law_holding_page(p: MaintenanceModel, value: Seq<u8>)
    requires
        flag_on(value),
    ensures
        ({
            let r = p.verdict(Some(value));
            &&& r.action == crate::http::Action::Respond
            &&& r.status == 503
            &&& r.body == encode_utf8(p.body)
            &&& r.headers.len() == 2
            &&& r.headers[0].0 == "Retry-After"@
            &&& text::value(r.headers[0].1) == p.retry_after
            &&& r.headers[1] == ("Content-Type"@, p.content_type)
        }),
{
    text::law_decimal_notation(p.retry_after as nat);
}

/// Every setting is read from its own key with its default; the lists in order
/// and completely.
pub proof fn law_settings(config: JsonModel, p: MaintenanceModel, i: int)
    requires
        MaintenanceModel::configured(config) == Ok::<_, Seq<char>>(p),
    ensures
        config::text_or(config, "key_template"@, Some("mw:maintenance:<vhost>"@)) == Ok::<
            _,
            Seq<char>,
        >(Some(p.key_template)),
        p.key_template.len() > 0,
        config::u64_or(config, "retry_after"@, 300) == Ok::<_, Seq<char>>(p.retry_after),
        config::text_or(config, "body"@, Some(DEFAULT_BODY@)) == Ok::<_, Seq<char>>(Some(p.body)),
        config::text_or(config, "content_type"@, Some("text/html; charset=utf-8"@)) == Ok::<
            _,
            Seq<char>,
        >(Some(p.content_type)),
        config.setting("bypass_paths"@) is None ==> p.bypass_paths.len() == 0,
        config.setting("bypass_paths"@) is Some ==> config.setting("bypass_paths"@)->0.node is Array
            && ({
            let items = config.setting("bypass_paths"@)->0.node->Array_0;
            &&& items.len() == p.bypass_paths.len()
            &&& 0 <= i < items.len() ==> items[i].node == NodeModel::Text(p.bypass_paths[i])
        }),
        config.setting("bypass_ips"@) is None ==> p.bypass_ips.len() == 0,
        config.setting("bypass_ips"@) is Some ==> config.setting("bypass_ips"@)->0.node is Array
            && ({
            let items = config.setting("bypass_ips"@)->0.node->Array_0;
            &&& items.len() == p.bypass_ips.len()
            &&& 0 <= i < items.len() ==> items[i].node is Text && IpMatcher::read(
                items[i].node->Text_0,
            ) == Ok::<_, Seq<char>>(p.bypass_ips[i])
        }),
{
    if config.setting("bypass_paths"@) is Some {
        let items = config.setting("bypass_paths"@)->0.node->Array_0;
        config::law_lists_are_read_whole(items, config::text_entry("bypass_paths"@), i);
        if 0 <= i < items.len() {
            config::law_text_entries("bypass_paths"@, items[i]);
        }
    }
    if config.setting("bypass_ips"@) is Some {
        let items = config.setting("bypass_ips"@)->0.node->Array_0;
        let read = config::text_entry("bypass_ips"@);
        config::law_lists_are_read_whole(items, read, i);
        let list = config::collect(items, read)->Ok_0;
        config::law_lists_are_read_whole(list, ip_entry(), i);
        if 0 <= i < items.len() {
            config::law_text_entries("bypass_ips"@, items[i]);
        }
    }
}

/// A configuration is taken exactly where every setting has its type, the template
/// is not empty, and every address entry can be read; of several refused settings
/// the first is named.
pub proof fn law_taken_configurations(config: JsonModel)
    ensures
        ({
            let r = MaintenanceModel::configured(config);
            let t = config::text_or(config, "key_template"@, Some(DEFAULT_KEY_TEMPLATE@));
            let s = config::u64_or(config, "retry_after"@, 300);
            let b = config::text_or(config, "body"@, None);
            let c = config::text_or(config, "content_type"@, None);
            let i = MaintenanceModel::ips_setting(config);
            let l = text_list(config, "bypass_paths"@);
            let named = t is Ok && t->Ok_0->0.len() > 0;
            &&& l is Ok <==> holds_texts(config.setting("bypass_paths"@))
            &&& i is Ok <==> holds_texts(config.setting("bypass_ips"@)) && (config.setting(
                "bypass_ips"@,
            ) is Some ==> forall|j: int|
                0 <= j < config.setting("bypass_ips"@)->0.node->Array_0.len() ==> IpMatcher::read(
                    (#[trigger] config.setting(
                        "bypass_ips"@,
                    )->0.node->Array_0[j]).node->Text_0,
                ) is Ok)
            &&& r is Ok <==> named && s is Ok && b is Ok && c is Ok && i is Ok && l is Ok
            &&& t is Err ==> r->Err_0 == t->Err_0
            &&& named && s is Err ==> r->Err_0 == s->Err_0
            &&& named && s is Ok && b is Err ==> r->Err_0 == b->Err_0
            &&& named && s is Ok && b is Ok && c is Err ==> r->Err_0 == c->Err_0
            &&& named && s is Ok && b is Ok && c is Ok && i is Err ==> r->Err_0 == i->Err_0
            &&& named && s is Ok && b is Ok && c is Ok && i is Ok && l is Err ==> r->Err_0
                == l->Err_0
        }),
{
    lemma_text_list(config, "bypass_paths"@);
    lemma_text_list(config, "bypass_ips"@);
    let ips = config.setting("bypass_ips"@);
    if ips is Some && holds_texts(ips) {
        let items = ips->0.node->Array_0;
        let read = config::text_entry("bypass_ips"@);
        let list = config::collect(items, read)->Ok_0;
        config::law_lists_are_read_whole(items, read, 0);
        config::law_lists_are_taken_whole(list, ip_entry());
        assert forall|j: int| 0 <= j < items.len() implies (#[trigger] items[j]).node
            == NodeModel::Text(list[j]) by {
            config::law_lists_are_read_whole(items, read, j);
            config::law_text_entries("bypass_ips"@, items[j]);
        }
        if forall|j: int|
            0 <= j < items.len() ==> IpMatcher::read((#[trigger] items[j]).node->Text_0) is Ok {
            assert forall|j: int| 0 <= j < list.len() implies ip_entry()(
                #[trigger] list[j],
            ) is Ok by {
                assert(items[j].node == NodeModel::Text(list[j]));
            }
        }
        if config::collect(list, ip_entry()) is Ok {
            assert forall|j: int| 0 <= j < items.len() implies IpMatcher::read(
                (#[trigger] items[j]).node->Text_0,
            ) is Ok by {
                assert(ip_entry()(list[j]) is Ok);
            }
        }
    } else if ips is None {
        config::law_lists_are_taken_whole(Seq::<Seq<char>>::empty(), ip_entry());
    }
}

/// A setting that is absent, or a list of texts.
pub open spec fn holds_texts(setting: Option<JsonModel>) -> bool {
    setting is Some ==> setting->0.node is Array && forall|j: int|
        0 <= j < setting->0.node->Array_0.len() ==> (
        #[trigger] setting->0.node->Array_0[j]).node is Text
}

proof fn lemma_text_list(config: JsonModel, key: Seq<char>)
    ensures
        text_list(config, key) is Ok <==> holds_texts(config.setting(key)),
{
    if config.setting(key) is Some && config.setting(key)->0.node is Array {
        config::law_lists_of_texts(config.setting(key)->0.node->Array_0, key);
    }
}

} // verus!

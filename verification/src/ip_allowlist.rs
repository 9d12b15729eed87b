//! `ip-allowlist`: requests allowed or refused by the client's address.
//!
//! An address in a `deny` network is refused with `403`; else one in an `allow`
//! network passes; else the `default` policy decides. The client's address comes
//! resolved through trusted proxies. A text that is no address matches no
//! network. A mistake in the configuration keeps the module from starting.
//!
//! | key | default | meaning |
//! |-----|---------|---------|
//! | `allow` (array of CIDR strings) | `[]` | networks whose addresses pass |
//! | `deny` (array of CIDR strings) | `[]` | networks whose addresses are refused; wins over `allow` |
//! | `default` (string) | `"deny"` | `"allow"` or `"deny"`, for other addresses |
use vstd::prelude::*;
use vstd::string::*;

use crate::http::{Request, Response, ResponseModel};
use crate::json::{Json, JsonModel, NodeModel};
use crate::net::{IpAddress, Network};
use crate::{codec, config, net, text};

verus! {

/// The verdict for an address in neither list.
#[derive(Clone, Copy, Debug, PartialEq, Eq, Structural)]
pub enum DefaultPolicy {
    /// Serve the request.
    Allow,
    /// Refuse it.
    Deny,
}

/// Address policy, built once by [`IpAllowlist::init`].
#[derive(Debug)]
pub struct IpAllowlist {
    pub allow: Vec<Network>,
    pub deny: Vec<Network>,
    pub default: DefaultPolicy,
}

/// The mathematical reading of [`IpAllowlist`].
pub struct IpAllowlistModel {
    pub allow: Seq<Network>,
    pub deny: Seq<Network>,
    pub default: DefaultPolicy,
}

impl View for IpAllowlist {
    type V = IpAllowlistModel;

    open spec fn view(&self) -> IpAllowlistModel {
        IpAllowlistModel { allow: self.allow@, deny: self.deny@, default: self.default }
    }
}

/// The address lies in one of the networks.
pub open spec fn in_any(nets: Seq<Network>, ip: IpAddress) -> bool {
    exists|i: int|
        0 <= i < nets.len() && net::in_network(
            (#[trigger] nets[i]).address,
            nets[i].prefix,
            ip,
        )
}

/// The refusal.
pub open spec fn refusal() -> ResponseModel {
    ResponseModel::respond(403, "Forbidden: your IP address is not permitted."@).header(
        "Content-Type"@,
        "text/plain; charset=utf-8"@,
    )
}

/// One entry of a list of networks.
pub open spec fn network_entry(key: Seq<char>) -> spec_fn(JsonModel) -> Result<
    Network,
    Seq<char>,
> {
    |v: JsonModel|
        match v.as_text() {
            None => Err(config::entries_must_be(key, "CIDR strings"@, v.text)),
            Some(s) => match net::network_text(s) {
                Some(network) => Ok(network),
                None => Err(
                    "`"@ + key + "` entry "@ + codec::debug_text(s)
                        + " is not a valid CIDR: invalid address: "@ + s,
                ),
            },
        }
}

/// A list of networks in the configuration.
pub open spec fn network_list(config: JsonModel, key: Seq<char>) -> Result<
    Seq<Network>,
    Seq<char>,
> {
    match config.setting(key) {
        None => Ok(Seq::empty()),
        Some(v) => match v.node {
            NodeModel::Array(items) => config::collect(items, network_entry(key)),
            _ => Err(config::must_be(key, "an array of CIDR strings"@, v.text)),
        },
    }
}

impl IpAllowlistModel {
    /// The verdict on an address, or on a text that is none.
    pub open spec fn verdict(self, ip: Option<IpAddress>) -> ResponseModel {
        if ip is Some && in_any(self.deny, ip->0) {
            refusal()
        } else if ip is Some && in_any(self.allow, ip->0) {
            ResponseModel::cont()
        } else {
            match self.default {
                DefaultPolicy::Allow => ResponseModel::cont(),
                DefaultPolicy::Deny => refusal(),
            }
        }
    }

    /// The `default` setting.
    pub open spec fn default_setting(config: JsonModel) -> Result<DefaultPolicy, Seq<char>> {
        match config.setting("default"@) {
            None => Ok(DefaultPolicy::Deny),
            Some(v) => match v.as_text() {
                Some(s) => if s == "allow"@ {
                    Ok(DefaultPolicy::Allow)
                } else if s == "deny"@ {
                    Ok(DefaultPolicy::Deny)
                } else {
                    Err(
                        config::must_be(
                            "default"@,
                            "\"allow\" or \"deny\""@,
                            codec::debug_text(s),
                        ),
                    )
                },
                None => Err(config::must_be("default"@, "\"allow\" or \"deny\""@, v.text)),
            },
        }
    }

    /// The policy that a configuration describes, or the first setting that is
    /// refused.
    pub open spec fn configured(config: JsonModel) -> Result<IpAllowlistModel, Seq<char>> {
        match (
            network_list(config, "allow"@),
            network_list(config, "deny"@),
            Self::default_setting(config),
        ) {
            (Err(e), _, _) => Err(e),
            (_, Err(e), _) => Err(e),
            (_, _, Err(e)) => Err(e),
            (Ok(allow), Ok(deny), Ok(default)) => Ok(IpAllowlistModel { allow, deny, default }),
        }
    }
}

/// Reads a list of networks. Anything but an array of valid networks is refused.
pub fn parse_cidrs(config: &Json, key: &str) -> (r: Result<Vec<Network>, String>)
    ensures
        match r {
            Ok(list) => network_list(config@, key@) == Ok::<_, Seq<char>>(list@),
            Err(e) => network_list(config@, key@) == Err::<Seq<Network>, _>(e@),
        },
{
    let mut out: Vec<Network> = Vec::new();
    let v: &Json = match config.setting(key) {
        None => return Ok(out),
        Some(v) => v,
    };
    let items: &Vec<Json> = match v.as_array() {
        Some(items) => items,
        None => return Err(
            config::say_must_be(key, "an array of CIDR strings", v.text.as_str()),
        ),
    };
    let ghost all = v@.node->Array_0;
    let ghost read = network_entry(key@);
    let mut i: usize = 0;
    assert(out@ =~= Seq::empty());
    while i < items.len()
        invariant
            i <= items.len(),
            all == items@.map_values(|v: Json| v@),
            read == network_entry(key@),
            network_list(config@, key@) == config::collect(all, read),
            config::collect(all.take(i as int), read) == Ok::<_, Seq<char>>(out@),
        decreases items.len() - i,
    {
        proof {
            config::lemma_collect_step(all, read, i as int);
        }
        let s: &str = match items[i].as_text() {
            Some(s) => s,
            None => {
                proof {
                    config::lemma_collect_refusal(all, read, i + 1);
                }
                return Err(
                    config::say_entries_must_be(key, "CIDR strings", items[i].text.as_str()),
                );
            },
        };
        match net::parse_network(s) {
            Ok(network) => {
                out.push(network);
            },
            Err(e) => {
                let message: String = "`".to_owned().concat(key).concat("` entry ").concat(
                    codec::quoted(s).as_str(),
                ).concat(" is not a valid CIDR: ").concat(e.as_str());
                proof {
                    config::lemma_collect_refusal(all, read, i + 1);
                    reveal_strlit(" is not a valid CIDR: ");
                    reveal_strlit("invalid address: ");
                    reveal_strlit(" is not a valid CIDR: invalid address: ");
                    assert(message@ =~= "`"@ + key@ + "` entry "@ + codec::debug_text(s@)
                        + " is not a valid CIDR: invalid address: "@ + s@);
                }
                return Err(message);
            },
        }
        i += 1;
    }
    assert(all.take(i as int) =~= all);
    Ok(out)
}

/// The `403` answer.
pub fn denied() -> (r: Response)
    ensures
        r@ == refusal(),
{
    Response::respond(403, "Forbidden: your IP address is not permitted.").header(
        "Content-Type",
        "text/plain; charset=utf-8",
    )
}

impl IpAllowlist {
    /// Reads the policy from a module's configuration.
    pub fn init(config: &Json) -> (r: Result<IpAllowlist, String>)
        ensures
            match r {
                Ok(m) => IpAllowlistModel::configured(config@) == Ok::<_, Seq<char>>(m@),
                Err(e) => IpAllowlistModel::configured(config@) == Err::<IpAllowlistModel, _>(e@),
            },
    {
        let allow: Vec<Network> = match parse_cidrs(config, "allow") {
            Ok(list) => list,
            Err(e) => return Err(e),
        };
        let deny: Vec<Network> = match parse_cidrs(config, "deny") {
            Ok(list) => list,
            Err(e) => return Err(e),
        };
        let default: DefaultPolicy = match config.setting("default") {
            None => DefaultPolicy::Deny,
            Some(v) => match v.as_text() {
                Some(s) => if text::same(s, "allow") {
                    DefaultPolicy::Allow
                } else if text::same(s, "deny") {
                    DefaultPolicy::Deny
                } else {
                    return Err(
                        config::say_must_be(
                            "default",
                            "\"allow\" or \"deny\"",
                            codec::quoted(s).as_str(),
                        ),
                    );
                },
                None => return Err(
                    config::say_must_be("default", "\"allow\" or \"deny\"", v.text.as_str()),
                ),
            },
        };
        Ok(IpAllowlist { allow, deny, default })
    }

    /// True when the address falls inside one of the networks.
    pub fn matches(nets: &[Network], ip: IpAddress) -> (r: bool)
        ensures
            r == in_any(nets@, ip),
    {
        let mut i: usize = 0;
        while i < nets.len()
            invariant
                i <= nets.len(),
                forall|j: int|
                    0 <= j < i ==> !net::in_network(
                        (#[trigger] nets@[j]).address,
                        nets@[j].prefix,
                        ip,
                    ),
            decreases nets.len() - i,
        {
            if net::cidr_contains(nets[i].address, nets[i].prefix, ip) {
                return true;
            }
            i += 1;
        }
        false
    }

    /// The verdict on an address, or on a text that is none.
    pub fn decide(&self, ip: Option<IpAddress>) -> (r: Response)
        ensures
            r@ == self@.verdict(ip),
    {
        if let Some(ip) = ip {
            if Self::matches(self.deny.as_slice(), ip) {
                return denied();
            }
            if Self::matches(self.allow.as_slice(), ip) {
                return Response::cont();
            }
        }
        match self.default {
            DefaultPolicy::Allow => Response::cont(),
            DefaultPolicy::Deny => denied(),
        }
    }

    /// The verdict on a request.
    pub fn invoke(&self, req: &Request) -> (r: Response)
        ensures
            r@ == self@.verdict(net::address_text(req@.remote_ip)),
    {
        self.decide(net::parse_address(req.remote_ip.as_str()))
    }
}

// ---------------------------------------------------------------------------
// Who gets in
// ---------------------------------------------------------------------------

/// A denied address is refused, whatever else the policy says.
pub proof fn law_deny_wins(p: IpAllowlistModel, ip: IpAddress)
    requires
        in_any(p.deny, ip),
    ensures
        p.verdict(Some(ip)) == refusal(),
{
}

/// Unless the default is open, only an address in an allowed network gets
/// in; a text that is no address never does.
pub proof fn law_closed_by_default(p: IpAllowlistModel, ip: Option<IpAddress>)
    requires
        p.default == DefaultPolicy::Deny,
    ensures
        p.verdict(ip) == (if ip is Some && in_any(p.allow, ip->0) && !in_any(p.deny, ip->0) {
            ResponseModel::cont()
        } else {
            refusal()
        }),
{
}

/// With an open default only a denied address is kept out.
pub proof fn law_open_default_refuses_denied_only(p: IpAllowlistModel, ip: Option<IpAddress>)
    requires
        p.default == DefaultPolicy::Allow,
    ensures
        p.verdict(ip) == (if ip is Some && in_any(p.deny, ip->0) {
            refusal()
        } else {
            ResponseModel::cont()
        }),
{
}

/// Every listed network counts, at whatever place it is listed: an address in a
/// denied one is refused, and one in an allowed one and in no denied one gets in.
pub proof fn law_every_listed_network_counts(p: IpAllowlistModel, ip: IpAddress, i: int)
    ensures
        0 <= i < p.deny.len() && net::in_network(p.deny[i].address, p.deny[i].prefix, ip)
            ==> p.verdict(Some(ip)).action == crate::http::Action::Respond,
        0 <= i < p.allow.len() && net::in_network(p.allow[i].address, p.allow[i].prefix, ip) && (
        forall|j: int|
            0 <= j < p.deny.len() ==> !net::in_network(
                (#[trigger] p.deny[j]).address,
                p.deny[j].prefix,
                ip,
            )) ==> p.verdict(Some(ip)).action == crate::http::Action::Continue,
        (forall|j: int|
            0 <= j < p.deny.len() ==> !net::in_network(
                (#[trigger] p.deny[j]).address,
                p.deny[j].prefix,
                ip,
            )) && (forall|j: int|
            0 <= j < p.allow.len() ==> !net::in_network(
                (#[trigger] p.allow[j]).address,
                p.allow[j].prefix,
                ip,
            )) ==> p.verdict(Some(ip)) == p.verdict(None),
        p.verdict(None).action == (if p.default == DefaultPolicy::Allow {
            crate::http::Action::Continue
        } else {
            crate::http::Action::Respond
        }),
{
    if 0 <= i < p.allow.len() && net::in_network(p.allow[i].address, p.allow[i].prefix, ip) {
        assert(in_any(p.allow, ip));
    }
    if 0 <= i < p.deny.len() && net::in_network(p.deny[i].address, p.deny[i].prefix, ip) {
        assert(in_any(p.deny, ip));
    }
}

/// A refusal is a `403` in plain text, and a request that gets in is untouched.
pub proof fn law_refusals_are_403(p: IpAllowlistModel, ip: Option<IpAddress>)
    ensures
        p.verdict(ip) == ResponseModel::cont() || ({
            let r = p.verdict(ip);
            &&& r.action == crate::http::Action::Respond
            &&& r.status == 403
            &&& r.body == vstd::utf8::encode_utf8(
                "Forbidden: your IP address is not permitted."@,
            )
            &&& r.headers == seq![("Content-Type"@, "text/plain; charset=utf-8"@)]
        }),
{
    assert(refusal().headers =~= seq![("Content-Type"@, "text/plain; charset=utf-8"@)]);
}

/// The two lists are read from their own keys, in order and completely, each entry
/// as the network that it denotes; the default is closed unless it says `allow`.
pub proof fn law_settings(config: JsonModel, p: IpAllowlistModel, i: int)
    requires
        IpAllowlistModel::configured(config) == Ok::<_, Seq<char>>(p),
    ensures
        lists_networks(config.setting("allow"@), p.allow, i),
        lists_networks(config.setting("deny"@), p.deny, i),
        p.default == DefaultPolicy::Allow <==> config.setting("default"@) is Some
            && config.setting("default"@)->0.node == NodeModel::Text("allow"@),
        config.setting("default"@) is Some ==> config.setting("default"@)->0.node
            == NodeModel::Text("allow"@) || config.setting("default"@)->0.node == NodeModel::Text(
            "deny"@,
        ),
{
    reveal_strlit("allow");
    reveal_strlit("deny");
    assert("allow"@.len() != "deny"@.len());
    if let Some(v) = config.setting("allow"@) {
        config::law_lists_are_read_whole(v.node->Array_0, network_entry("allow"@), i);
    }
    if let Some(v) = config.setting("deny"@) {
        config::law_lists_are_read_whole(v.node->Array_0, network_entry("deny"@), i);
    }
}

/// Network `i` of a list is what entry `i` of the setting denotes.
pub open spec fn lists_networks(setting: Option<JsonModel>, nets: Seq<Network>, i: int) -> bool {
    match setting {
        Some(v) => v.node is Array && v.node->Array_0.len() == nets.len() && (0 <= i < nets.len()
            ==> v.node->Array_0[i].node is Text && net::network_text(
            v.node->Array_0[i].node->Text_0,
        ) == Some(nets[i])),
        None => nets.len() == 0,
    }
}

/// A configuration is taken exactly where both lists hold texts that denote
/// networks and the default is one of its two words; of several refused settings
/// the first is named.
pub proof fn law_taken_configurations(config: JsonModel)
    ensures
        ({
            let r = IpAllowlistModel::configured(config);
            let (a, d) = (network_list(config, "allow"@), network_list(config, "deny"@));
            let p = IpAllowlistModel::default_setting(config);
            &&& a is Ok <==> holds_networks(config.setting("allow"@))
            &&& d is Ok <==> holds_networks(config.setting("deny"@))
            &&& p is Ok <==> config.setting("default"@) is None || config.setting(
                "default"@,
            )->0.node == NodeModel::Text("allow"@) || config.setting("default"@)->0.node
                == NodeModel::Text("deny"@)
            &&& r is Ok <==> a is Ok && d is Ok && p is Ok
            &&& a is Err ==> r->Err_0 == a->Err_0
            &&& a is Ok && d is Err ==> r->Err_0 == d->Err_0
            &&& a is Ok && d is Ok && p is Err ==> r->Err_0 == p->Err_0
        }),
{
    lemma_network_list(config, "allow"@);
    lemma_network_list(config, "deny"@);
}

/// A setting that is absent, or a list of texts that denote networks.
pub open spec fn holds_networks(setting: Option<JsonModel>) -> bool {
    setting is Some ==> setting->0.node is Array && forall|j: int|
        0 <= j < setting->0.node->Array_0.len() ==> (#[trigger] setting->0.node->Array_0[j]).node is Text
            && net::network_text(setting->0.node->Array_0[j].node->Text_0) is Some
}

proof fn lemma_network_list(config: JsonModel, key: Seq<char>)
    ensures
        network_list(config, key) is Ok <==> holds_networks(config.setting(key)),
{
    if config.setting(key) is Some && config.setting(key)->0.node is Array {
        let items = config.setting(key)->0.node->Array_0;
        config::law_lists_are_taken_whole(items, network_entry(key));
        assert forall|j: int| 0 <= j < items.len() implies (network_entry(key)(
            #[trigger] items[j],
        ) is Ok <==> items[j].node is Text && net::network_text(
            items[j].node->Text_0,
        ) is Some) by {}
    }
}

} // verus!

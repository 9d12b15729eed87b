//! `api-key` for nodes that serve several sites: the same guard as
//! [`crate::api_key`], with its credentials in the process-wide store.
//!
//! The store of a site is open to that site's own code, so credentials kept
//! there could be forged by a tenant. This guard reads them from the process-wide
//! store instead. A `<site>` placeholder in `kv_key_template` gives every tenant
//! its own key map: it stands for the canonical site key that the router
//! resolved, never for the `Host` header. A request that matched no site is then
//! refused without a look at the store.
//!
//! The settings are those of [`crate::api_key`]; `kv_key_template` may also hold
//! `<site>`, as in `apikey:<site>:<key>`.
use vstd::prelude::*;
use vstd::string::*;
use vstd::utf8::*;

use crate::api_key;
use crate::api_key::ApiKeyModel;
use crate::http::{Request, RequestModel, Response, ResponseModel, Step, StepModel};
use crate::json::Json;
use crate::{config, text};

verus! {

/// API-key policy, built once by [`ApiKey::init`].
#[derive(Debug)]
pub struct ApiKey {
    pub policy: api_key::ApiKey,
}

impl View for ApiKey {
    type V = ApiKeyModel;

    open spec fn view(&self) -> ApiKeyModel {
        self.policy@
    }
}

/// How a presented key is looked up in the store.
#[derive(Debug)]
pub enum KvLookup {
    /// Under this key of the process-wide store.
    Read(String),
    /// Not at all: there is no template.
    Miss,
    /// Not at all: the template asks for a site, and the request has none.
    NoTenant,
}

/// The mathematical reading of [`KvLookup`].
pub enum LookupModel {
    Read(Seq<char>),
    Miss,
    NoTenant,
}

impl View for KvLookup {
    type V = LookupModel;

    open spec fn view(&self) -> LookupModel {
        match self {
            KvLookup::Read(key) => LookupModel::Read(key@),
            KvLookup::Miss => LookupModel::Miss,
            KvLookup::NoTenant => LookupModel::NoTenant,
        }
    }
}

/// How a policy looks up a presented key. The site goes in before the key, so
/// that nothing in the key is taken for a placeholder of the site.
pub open spec fn lookup(
    p: ApiKeyModel,
    site: Option<Seq<char>>,
    presented: Seq<char>,
) -> LookupModel {
    match p.kv_key_template {
        None => LookupModel::Miss,
        Some(template) => if text::occurs(template, "<site>"@) {
            match site {
                None => LookupModel::NoTenant,
                Some(site) => LookupModel::Read(
                    text::replaced(
                        text::replaced(template, "<site>"@, site),
                        "<key>"@,
                        presented,
                    ),
                ),
            }
        } else {
            LookupModel::Read(text::replaced(template, "<key>"@, presented))
        },
    }
}

/// What happens for a presented key before the store is asked.
pub open spec fn step_for(
    p: ApiKeyModel,
    site: Option<Seq<char>>,
    key: Option<Seq<char>>,
) -> StepModel {
    match key {
        None => StepModel::Done(p.refused("missing api key"@)),
        Some(key) => match api_key::consumer_for(p.keys, encode_utf8(key)) {
            Some(consumer) => StepModel::Done(p.granted(consumer)),
            None => match lookup(p, site, key) {
                LookupModel::Read(at) => StepModel::GetGlobal(at),
                LookupModel::Miss => StepModel::Done(p.refused("invalid api key"@)),
                LookupModel::NoTenant => StepModel::Done(p.refused("unknown host"@)),
            },
        },
    }
}

/// The verdict on a request, for the value that the store holds under the key
/// that it is asked for.
pub open spec fn decision(
    p: ApiKeyModel,
    req: RequestModel,
    value: Option<Seq<u8>>,
) -> ResponseModel {
    match step_for(p, req.vhost_id(), p.presented(req)) {
        StepModel::Done(r) => r,
        _ => p.verdict(value),
    }
}

impl ApiKey {
    /// Reads the policy from a module's configuration.
    pub fn init(config: &Json) -> (r: Result<ApiKey, String>)
        ensures
            match r {
                Ok(m) => {
                    &&& ApiKeyModel::configured(config@) == Ok::<_, Seq<char>>(m@)
                    &&& m@.well_formed()
                },
                Err(e) => ApiKeyModel::configured(config@) == Err::<ApiKeyModel, _>(e@),
            },
    {
        match api_key::ApiKey::init(config) {
            Ok(policy) => Ok(ApiKey { policy }),
            Err(e) => Err(e),
        }
    }

    /// The presented key: in the header first, then in the query parameter where
    /// that is enabled. Empty values count as absent.
    pub fn extract_key(&self, req: &Request) -> (r: Option<String>)
        ensures
            config::text_opt(r) == self@.presented(req@),
    {
        self.policy.extract_key(req)
    }

    /// Looks a key up in the static map, comparing it with every entry.
    pub fn match_static(&self, presented: &[u8]) -> (r: Option<&str>)
        ensures
            match r {
                Some(consumer) => api_key::consumer_for(self@.keys, presented@) == Some(consumer@),
                None => api_key::consumer_for(self@.keys, presented@) is None,
            },
    {
        self.policy.match_static(presented)
    }

    /// How a presented key is looked up in the process-wide store.
    pub fn match_kv(&self, req: &Request, presented: &str) -> (r: KvLookup)
        ensures
            r@ == lookup(self@, req@.vhost_id(), presented@),
    {
        proof {
            reveal_strlit("<site>");
            reveal_strlit("<key>");
        }
        let template: &String = match &self.policy.kv_key_template {
            Some(template) => template,
            None => return KvLookup::Miss,
        };
        if text::contains(template.as_str(), "<site>") {
            match req.vhost_id() {
                Some(site) => {
                    let sited: String = text::replace(template.as_str(), "<site>", site);
                    KvLookup::Read(text::replace(sited.as_str(), "<key>", presented))
                },
                None => KvLookup::NoTenant,
            }
        } else {
            KvLookup::Read(text::replace(template.as_str(), "<key>", presented))
        }
    }

    /// Admits the request, with the consumer in its header.
    pub fn grant(&self, consumer: &str) -> (r: Response)
        ensures
            r@ == self@.granted(consumer@),
    {
        self.policy.grant(consumer)
    }

    /// Refuses the request with a hint at the header; the key is not shown.
    pub fn unauthorized(&self, body: &str) -> (r: Response)
        ensures
            r@ == self@.refused(body@),
    {
        self.policy.unauthorized(body)
    }

    /// What happens for a presented key: a verdict, or a read of the
    /// process-wide store that [`ApiKey::finish`] takes the value of.
    pub fn check(&self, req: &Request, key: Option<String>) -> (r: Step)
        ensures
            r@ == step_for(self@, req@.vhost_id(), config::text_opt(key)),
    {
        let key: String = match key {
            Some(key) => key,
            None => return Step::Done(self.unauthorized("missing api key")),
        };
        if let Some(consumer) = self.match_static(key.as_str().as_bytes_vec().as_slice()) {
            return Step::Done(self.grant(consumer));
        }
        match self.match_kv(req, key.as_str()) {
            KvLookup::Read(at) => Step::GetGlobal(at),
            KvLookup::Miss => Step::Done(self.unauthorized("invalid api key")),
            KvLookup::NoTenant => Step::Done(self.unauthorized("unknown host")),
        }
    }

    /// The first half of the verdict on a request.
    pub fn invoke(&self, req: &Request) -> (r: Step)
        ensures
            r@ == step_for(self@, req@.vhost_id(), self@.presented(req@)),
    {
        self.check(req, self.extract_key(req))
    }

    /// The verdict once the store has answered. The value is the consumer, where
    /// it is text that is not empty.
    pub fn finish(&self, value: Option<Vec<u8>>) -> (r: Response)
        ensures
            r@ == self@.verdict(
                match value {
                    Some(v) => Some(v@),
                    None => None,
                },
            ),
    {
        self.policy.finish(value)
    }
}

// ---------------------------------------------------------------------------
// Tenants are kept apart
// ---------------------------------------------------------------------------

/// Credentials are read from the process-wide store only, and nothing is written.
pub proof fn law_credentials_are_global(p: ApiKeyModel, req: RequestModel)
    ensures
        step_for(p, req.vhost_id(), p.presented(req)) is Done || step_for(
            p,
            req.vhost_id(),
            p.presented(req),
        ) is GetGlobal,
{
}

/// Under a site template a request without a tenant is admitted by a static key
/// or refused; the store is not asked, whatever it holds.
pub proof fn law_no_tenant_fails_closed(
    p: ApiKeyModel,
    req: RequestModel,
    value: Option<Seq<u8>>,
)
    requires
        p.kv_key_template is Some,
        text::occurs(p.kv_key_template->0, "<site>"@),
        req.vhost_id() is None,
        p.presented(req) is Some,
        api_key::consumer_for(p.keys, encode_utf8(p.presented(req)->0)) is None,
    ensures
        step_for(p, req.vhost_id(), p.presented(req)) == StepModel::Done(
            p.refused("unknown host"@),
        ),
        decision(p, req, value) == p.refused("unknown host"@),
{
}

/// Without a `<site>` placeholder the key map is the same for every site.
pub proof fn law_node_wide_without_site(
    p: ApiKeyModel,
    req: RequestModel,
    site: Seq<char>,
    value: Option<Seq<u8>>,
)
    requires
        p.kv_key_template is Some ==> !text::occurs(p.kv_key_template->0, "<site>"@),
    ensures
        decision(p, RequestModel { site, ..req }, value) == decision(p, req, value),
        step_for(p, RequestModel { site, ..req }.vhost_id(), p.presented(req)) == step_for(
            p,
            req.vhost_id(),
            p.presented(req),
        ),
{
}

/// A refusal tells nothing about the presented key.
pub proof fn law_refusals_do_not_show_the_key(
    p: ApiKeyModel,
    req: RequestModel,
    value: Option<Seq<u8>>,
)
    requires
        decision(p, req, value).action == crate::http::Action::Respond,
    ensures
        ({
            let r = decision(p, req, value);
            ||| r == p.refused("missing api key"@)
            ||| r == p.refused("invalid api key"@)
            ||| r == p.refused("unknown host"@)
        }),
{
}

/// In a template whose text around the two placeholders has no `<`, the presented
/// key is put in literally, whatever it holds.
pub proof fn law_presented_key_is_inert(
    p: ApiKeyModel,
    before: Seq<char>,
    between: Seq<char>,
    after: Seq<char>,
    site: Seq<char>,
    key: Seq<char>,
)
    requires
        p.kv_key_template == Some(before + "<site>"@ + between + "<key>"@ + after),
        !before.contains('<'),
        !between.contains('<'),
        !after.contains('<'),
        !site.contains('<'),
    ensures
        lookup(p, Some(site), key) == LookupModel::Read(before + site + between + key + after),
{
    reveal_strlit("<site>");
    reveal_strlit("<key>");
    let template = p.kv_key_template->0;
    let tail = between + "<key>"@ + after;
    assert(template =~= before + ("<site>"@ + tail));
    assert(text::occurs_at(template, "<site>"@, before.len() as int)) by {
        assert(template.subrange(before.len() as int, before.len() as int + 6) =~= "<site>"@);
    }
    // The site goes in.
    text::lemma_replaced_skips(before, "<site>"@ + tail, "<site>"@, site);
    text::lemma_replaced_at(tail, "<site>"@, site);
    let keyed = "<key>"@ + after;
    assert(tail =~= between + keyed);
    text::lemma_replaced_skips(between, keyed, "<site>"@, site);
    let rest = keyed.skip(1);
    assert(rest =~= seq!['k', 'e', 'y', '>'] + after);
    assert forall|i: int| 0 <= i < rest.len() implies rest[i] != '<' by {
        if i >= 4 {
            assert(rest[i] == after[i - 4]);
            assert(after.contains(after[i - 4]));
        }
    }
    text::lemma_replaced_absent(rest, "<site>"@, site);
    assert(text::replaced(keyed, "<site>"@, site) =~= keyed) by {
        assert("<site>"@[1] != keyed[1]);
        assert(seq![keyed[0]] + rest =~= keyed);
    }
    let sited = before + site + between + keyed;
    assert(text::replaced(template, "<site>"@, site) =~= sited);
    // The key goes in.
    let head = before + site + between;
    assert forall|i: int| 0 <= i < head.len() implies head[i] != '<' by {
        if i < before.len() {
            assert(before.contains(before[i]));
        } else if i < before.len() + site.len() {
            assert(site.contains(site[i - before.len()]));
        } else {
            assert(between.contains(between[i - before.len() - site.len()]));
        }
    }
    text::lemma_replaced_skips(head, keyed, "<key>"@, key);
    text::lemma_replaced_at(after, "<key>"@, key);
    text::lemma_replaced_absent(after, "<key>"@, key);
    assert(text::replaced(sited, "<key>"@, key) =~= before + site + between + key + after);
}

/// Under such a template no tenant can spend another's key: two lookups meet only
/// for one site and one key, as long as sites do not hold the character that
/// stands behind `<site>`.
pub proof fn law_tenants_have_their_own_keys(
    p: ApiKeyModel,
    before: Seq<char>,
    between: Seq<char>,
    after: Seq<char>,
    site: Seq<char>,
    key: Seq<char>,
    other_site: Seq<char>,
    other_key: Seq<char>,
)
    requires
        p.kv_key_template == Some(before + "<site>"@ + between + "<key>"@ + after),
        !before.contains('<'),
        !between.contains('<'),
        !after.contains('<'),
        between.len() > 0,
        !site.contains('<') && !site.contains(between[0]),
        !other_site.contains('<') && !other_site.contains(between[0]),
        lookup(p, Some(site), key) == lookup(p, Some(other_site), other_key),
    ensures
        site == other_site,
        key == other_key,
{
    law_presented_key_is_inert(p, before, between, after, site, key);
    law_presented_key_is_inert(p, before, between, after, other_site, other_key);
    let a = before + site + between + key + after;
    let b = before + other_site + between + other_key + after;
    assert(a == b);
    let n = before.len() as int;
    assert(a[n + site.len()] == between[0]);
    assert(b[n + other_site.len()] == between[0]);
    if site.len() < other_site.len() {
        assert(b[n + site.len()] == other_site[site.len() as int]);
        assert(other_site.contains(other_site[site.len() as int]));
    } else if other_site.len() < site.len() {
        assert(a[n + other_site.len()] == site[other_site.len() as int]);
        assert(site.contains(site[other_site.len() as int]));
    }
    assert(site =~= a.subrange(n, n + site.len()));
    assert(other_site =~= b.subrange(n, n + site.len()));
    let m = n + site.len() + between.len();
    assert(a.len() == m + key.len() + after.len());
    assert(b.len() == m + other_key.len() + after.len());
    assert(key =~= a.subrange(m, m + key.len()));
    assert(other_key =~= b.subrange(m, m + key.len()));
}

/// The presented key is put in literally in a template that has the key before
/// the site, too.
pub proof fn law_leading_key_is_inert(
    p: ApiKeyModel,
    before: Seq<char>,
    between: Seq<char>,
    after: Seq<char>,
    site: Seq<char>,
    key: Seq<char>,
)
    requires
        p.kv_key_template == Some(before + "<key>"@ + between + "<site>"@ + after),
        !before.contains('<'),
        !between.contains('<'),
        !after.contains('<'),
        !site.contains('<'),
    ensures
        lookup(p, Some(site), key) == LookupModel::Read(before + key + between + site + after),
{
    reveal_strlit("<site>");
    reveal_strlit("<key>");
    let template = p.kv_key_template->0;
    let tail = between + site + after;
    let at = before.len() as int + 5 + between.len();
    assert(text::occurs_at(template, "<site>"@, at)) by {
        assert(template.subrange(at, at + 6) =~= "<site>"@);
    }
    lemma_site_behind_key(before, between, after, site);
    assert(!tail.contains('<')) by {
        lemma_neither(between, site);
        lemma_neither(between + site, after);
    }
    text::lemma_replaced_skips(before, "<key>"@ + tail, "<key>"@, key);
    text::lemma_replaced_at(tail, "<key>"@, key);
    text::lemma_replaced_absent(tail, "<key>"@, key);
    assert(before + (key + tail) =~= before + key + between + site + after);
}

/// The site goes in behind the key.
proof fn lemma_site_behind_key(
    before: Seq<char>,
    between: Seq<char>,
    after: Seq<char>,
    site: Seq<char>,
)
    requires
        !before.contains('<'),
        !between.contains('<'),
        !after.contains('<'),
    ensures
        text::replaced(before + "<key>"@ + between + "<site>"@ + after, "<site>"@, site) == before
            + ("<key>"@ + (between + site + after)),
{
    reveal_strlit("<site>");
    reveal_strlit("<key>");
    let sites = "<site>"@ + after;
    let keyed = "<key>"@ + between + sites;
    let word = seq!['k', 'e', 'y', '>'] + between;
    assert(before + "<key>"@ + between + "<site>"@ + after =~= before + keyed);
    text::lemma_replaced_skips(before, keyed, "<site>"@, site);
    assert(keyed.skip(1) =~= word + sites);
    lemma_neither(seq!['k', 'e', 'y', '>'], between);
    text::lemma_replaced_skips(word, sites, "<site>"@, site);
    text::lemma_replaced_at(after, "<site>"@, site);
    text::lemma_replaced_absent(after, "<site>"@, site);
    assert("<site>"@[1] != keyed[1]);
    assert(seq![keyed[0]] + (word + (site + after)) =~= "<key>"@ + (between + site + after));
}

/// Two texts without a `<` make up one without it.
proof fn lemma_neither(a: Seq<char>, b: Seq<char>)
    requires
        !a.contains('<'),
        !b.contains('<'),
    ensures
        !(a + b).contains('<'),
{
    assert forall|i: int| 0 <= i < (a + b).len() implies (a + b)[i] != '<' by {
        if i < a.len() {
            assert(a.contains(a[i]));
        } else {
            assert(b.contains(b[i - a.len()]));
        }
    }
}

/// With the key before the site, two lookups meet only for one site and one key,
/// as long as sites do not hold the character that stands in front of `<site>`.
pub proof fn law_tenants_have_their_own_leading_keys(
    p: ApiKeyModel,
    before: Seq<char>,
    between: Seq<char>,
    after: Seq<char>,
    site: Seq<char>,
    key: Seq<char>,
    other_site: Seq<char>,
    other_key: Seq<char>,
)
    requires
        p.kv_key_template == Some(before + "<key>"@ + between + "<site>"@ + after),
        !before.contains('<'),
        !between.contains('<'),
        !after.contains('<'),
        between.len() > 0,
        !site.contains('<') && !site.contains(between.last()),
        !other_site.contains('<') && !other_site.contains(between.last()),
        lookup(p, Some(site), key) == lookup(p, Some(other_site), other_key),
    ensures
        site == other_site,
        key == other_key,
{
    law_leading_key_is_inert(p, before, between, after, site, key);
    law_leading_key_is_inert(p, before, between, after, other_site, other_key);
    let a = before + key + between + site + after;
    let b = before + other_key + between + other_site + after;
    assert(a == b);
    let n = a.len() - after.len();
    let (i, j) = (n - site.len() - 1, n - other_site.len() - 1);
    assert(a[i] == between.last());
    assert(b[j] == between.last());
    if site.len() < other_site.len() {
        assert(b[i] == other_site[i - j - 1]);
        assert(other_site.contains(other_site[i - j - 1]));
    } else if other_site.len() < site.len() {
        assert(a[j] == site[j - i - 1]);
        assert(site.contains(site[j - i - 1]));
    }
    assert(site =~= a.subrange(i + 1, n));
    assert(other_site =~= b.subrange(i + 1, n));
    let m = before.len() as int;
    assert(key =~= a.subrange(m, m + key.len()));
    assert(other_key =~= b.subrange(m, m + key.len()));
}

/// A request that presents a static key travels on with the consumer of that key
/// in the configured header, with or without a tenant and whatever the store
/// holds.
pub proof fn law_static_keys_forward_their_consumer(
    p: ApiKeyModel,
    req: RequestModel,
    key: Seq<char>,
    value: Option<Seq<u8>>,
    i: int,
)
    requires
        p.presented(req) == Some(key),
        0 <= i < p.keys.len(),
        p.keys[i].0 == encode_utf8(key),
        forall|j: int| 0 <= j < p.keys.len() && j != i ==> (#[trigger] p.keys[j]).0 != p.keys[i].0,
    ensures
        decision(p, req, value).action == crate::http::Action::Rewrite,
        decision(p, req, value).headers == seq![(p.consumer_header, p.keys[i].1)],
        step_for(p, req.vhost_id(), Some(key)) is Done,
{
    api_key::law_consumer_belongs_to_the_key(p.keys, encode_utf8(key), i);
    assert(decision(p, req, value).headers =~= seq![(p.consumer_header, p.keys[i].1)]);
}

/// A key that is on no list is looked up where the template says: without a
/// `<site>` for every tenant in one place, and then the text that is found is the
/// consumer. Without a template it is refused.
pub proof fn law_stored_keys_forward_their_consumer(
    p: ApiKeyModel,
    req: RequestModel,
    before: Seq<char>,
    after: Seq<char>,
    key: Seq<char>,
    consumer: Seq<char>,
)
    requires
        p.presented(req) == Some(key),
        !before.contains('<'),
        !after.contains('<'),
        forall|j: int| 0 <= j < p.keys.len() ==> (#[trigger] p.keys[j]).0 != encode_utf8(key),
    ensures
        p.kv_key_template == Some(before + "<key>"@ + after) ==> {
            &&& step_for(p, req.vhost_id(), Some(key)) == StepModel::GetGlobal(
                before + key + after,
            )
            &&& consumer.len() > 0 ==> decision(p, req, Some(encode_utf8(consumer))).headers
                == seq![(p.consumer_header, consumer)]
            &&& decision(p, req, None) == p.refused("invalid api key"@)
        },
        p.kv_key_template is None ==> step_for(p, req.vhost_id(), Some(key)) == StepModel::Done(
            p.refused("invalid api key"@),
        ),
        step_for(p, req.vhost_id(), None) == StepModel::Done(p.refused("missing api key"@)),
{
    reveal_strlit("<key>");
    reveal_strlit("<site>");
    api_key::law_consumer_belongs_to_the_key(p.keys, encode_utf8(key), 0);
    if api_key::consumer_for(p.keys, encode_utf8(key)) is Some {
        let c = api_key::consumer_for(p.keys, encode_utf8(key))->0;
        let j = choose|j: int|
            0 <= j < p.keys.len() && #[trigger] p.keys[j] == (encode_utf8(key), c);
        assert(p.keys[j].0 == encode_utf8(key));
    }
    if p.kv_key_template == Some(before + "<key>"@ + after) {
        api_key::law_stored_keys_forward_their_consumer(p, before, after, key, consumer);
        let template = p.kv_key_template->0;
        assert(!text::occurs(template, "<site>"@)) by {
            if text::occurs(template, "<site>"@) {
                let i = choose|i: int| text::occurs_at(template, "<site>"@, i);
                let part = template.subrange(i, i + 6);
                assert(part[0] == '<' && part[1] == 's');
                if i < before.len() {
                    assert(before.contains(before[i]));
                } else if i >= before.len() + 5 {
                    assert(after.contains(after[i - before.len() - 5]));
                } else {
                    assert("<key>"@[i - before.len()] == '<');
                    assert(i == before.len());
                    assert(template[i + 1] == "<key>"@[1]);
                }
            }
        }
    }
}

} // verus!

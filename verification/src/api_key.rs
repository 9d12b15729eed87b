//! `api-key`: an API key on the request, checked before the request is served,
//! with the consumer that it belongs to forwarded in a request header.
//!
//! The key is read from a header and, where `query_param` is set, from the query
//! string. It is looked up in a static map first, then in the key-value store of
//! the site that serves the request. A missing or unknown key is answered with
//! `401`. Static keys are compared in constant time, every one of them.
//!
//! | key | default | meaning |
//! |-----|---------|---------|
//! | `header` (string) | `"X-Api-Key"` | header that carries the key |
//! | `query_param` (string) | unset | query parameter that may carry the key instead |
//! | `keys` (object) | unset | static map from key to consumer |
//! | `kv_key_template` (string) | unset | store key with a `<key>` placeholder; the value is the consumer |
//! | `consumer_header` (string) | `"X-Consumer-Id"` | request header that receives the consumer |
//!
//! At least one of `keys` and `kv_key_template` must be set.
use vstd::prelude::*;
use vstd::string::*;
use vstd::utf8::*;

use crate::http::{Request, RequestModel, Response, ResponseModel, Step, StepModel};
use crate::json::{Json, JsonModel, NodeModel};
use crate::{codec, config, credential, text};

verus! {

/// API-key policy, built once by [`ApiKey::init`].
#[derive(Debug)]
pub struct ApiKey {
    pub header: String,
    pub query_param: Option<String>,
    pub consumer_header: String,
    /// Static keys, as bytes, and their consumers.
    pub keys: Vec<(Vec<u8>, String)>,
    /// Store key that contains the `<key>` placeholder.
    pub kv_key_template: Option<String>,
}

/// The mathematical reading of [`ApiKey`].
pub struct ApiKeyModel {
    pub header: Seq<char>,
    pub query_param: Option<Seq<char>>,
    pub consumer_header: Seq<char>,
    pub keys: Seq<(Seq<u8>, Seq<char>)>,
    pub kv_key_template: Option<Seq<char>>,
}

/// The bytes and texts of a list of keys.
pub open spec fn key_list(list: Seq<(Vec<u8>, String)>) -> Seq<(Seq<u8>, Seq<char>)> {
    list.map_values(|p: (Vec<u8>, String)| (p.0@, p.1@))
}

impl View for ApiKey {
    type V = ApiKeyModel;

    open spec fn view(&self) -> ApiKeyModel {
        ApiKeyModel {
            header: self.header@,
            query_param: config::text_opt(self.query_param),
            consumer_header: self.consumer_header@,
            keys: key_list(self.keys@),
            kv_key_template: config::text_opt(self.kv_key_template),
        }
    }
}

/// The consumer of a static key: that of its last entry.
pub open spec fn consumer_for(
    keys: Seq<(Seq<u8>, Seq<char>)>,
    presented: Seq<u8>,
) -> Option<Seq<char>>
    decreases keys.len(),
{
    if keys.len() == 0 {
        None
    } else if keys.last().0 == presented {
        Some(keys.last().1)
    } else {
        consumer_for(keys.drop_last(), presented)
    }
}

/// The consumer that a stored value names: a text that is not empty.
pub open spec fn stored_consumer(value: Option<Seq<u8>>) -> Option<Seq<char>> {
    match value {
        Some(bytes) => if valid_utf8(bytes) && decode_utf8(bytes).len() > 0 {
            Some(decode_utf8(bytes))
        } else {
            None
        },
        None => None,
    }
}

/// One member of the `keys` setting.
pub open spec fn key_entry() -> spec_fn((Seq<char>, JsonModel)) -> Result<
    (Seq<u8>, Seq<char>),
    Seq<char>,
> {
    |m: (Seq<char>, JsonModel)|
        if m.0.len() == 0 {
            Err("`keys` entries must have a non-empty key"@)
        } else {
            match m.1.as_text() {
                Some(consumer) => Ok((encode_utf8(m.0), consumer)),
                None => Err("`keys[\""@ + m.0 + "\"]` must be a string consumer-id"@),
            }
        }
}

impl ApiKeyModel {
    /// The key that a request presents: in the header, else in the query string
    /// where that is enabled.
    pub open spec fn presented(self, req: RequestModel) -> Option<Seq<char>> {
        match req.header(self.header) {
            Some(v) => if text::trimmed(v).len() > 0 {
                Some(text::trimmed(v))
            } else {
                self.presented_in_query(req)
            },
            None => self.presented_in_query(req),
        }
    }

    /// The key in the query string.
    pub open spec fn presented_in_query(self, req: RequestModel) -> Option<Seq<char>> {
        match self.query_param {
            Some(param) => match credential::query_text(req.query, param) {
                Some(v) => if v.len() > 0 {
                    Some(v)
                } else {
                    None
                },
                None => None,
            },
            None => None,
        }
    }

    /// The request passes, with the consumer in its header.
    pub open spec fn granted(self, consumer: Seq<char>) -> ResponseModel {
        ResponseModel::rewrite().header(self.consumer_header, consumer)
    }

    /// The request is refused, with a hint at the header.
    pub open spec fn refused(self, body: Seq<char>) -> ResponseModel {
        ResponseModel::respond(401, body).header(
            "WWW-Authenticate"@,
            "ApiKey header=\""@ + self.header + "\""@,
        )
    }

    /// What happens for a presented key before the store is asked.
    pub open spec fn step_for(self, key: Option<Seq<char>>) -> StepModel {
        match key {
            None => StepModel::Done(self.refused("missing api key"@)),
            Some(key) => match consumer_for(self.keys, encode_utf8(key)) {
                Some(consumer) => StepModel::Done(self.granted(consumer)),
                None => match self.kv_key_template {
                    None => StepModel::Done(self.refused("invalid api key"@)),
                    Some(template) => StepModel::Get(text::replaced(template, "<key>"@, key)),
                },
            },
        }
    }

    /// The verdict once the store has answered.
    pub open spec fn verdict(self, value: Option<Seq<u8>>) -> ResponseModel {
        match stored_consumer(value) {
            Some(consumer) => self.granted(consumer),
            None => self.refused("invalid api key"@),
        }
    }

    /// The verdict on a request, for the value that the store holds under the
    /// key that it is asked for.
    pub open spec fn decision(self, req: RequestModel, value: Option<Seq<u8>>) -> ResponseModel {
        match self.step_for(self.presented(req)) {
            StepModel::Done(r) => r,
            _ => self.verdict(value),
        }
    }

    /// The `keys` setting.
    pub open spec fn keys_setting(config: JsonModel) -> Result<
        Seq<(Seq<u8>, Seq<char>)>,
        Seq<char>,
    > {
        match config.setting("keys"@) {
            None => Ok(Seq::empty()),
            Some(v) => match v.node {
                NodeModel::Object(members) => config::collect(members, key_entry()),
                _ => Err("`keys` must be an object of key -> consumer-id"@),
            },
        }
    }

    /// The `kv_key_template` setting.
    pub open spec fn template_setting(config: JsonModel) -> Result<Option<Seq<char>>, Seq<char>> {
        match config::filled(config::text_or(config, "kv_key_template"@, None)) {
            Ok(Some(template)) => if text::occurs(template, "<key>"@) {
                Ok(Some(template))
            } else {
                Err("`kv_key_template` must contain the `<key>` placeholder"@)
            },
            other => other,
        }
    }

    /// The policy that a configuration describes, or the first setting that is
    /// refused.
    pub open spec fn configured(config: JsonModel) -> Result<ApiKeyModel, Seq<char>> {
        match (
            config::filled(config::text_or(config, "header"@, None)),
            config::filled(config::text_or(config, "query_param"@, None)),
            config::filled(config::text_or(config, "consumer_header"@, None)),
            Self::keys_setting(config),
            Self::template_setting(config),
        ) {
            (Err(e), _, _, _, _) => Err(e),
            (_, Err(e), _, _, _) => Err(e),
            (_, _, Err(e), _, _) => Err(e),
            (_, _, _, Err(e), _) => Err(e),
            (_, _, _, _, Err(e)) => Err(e),
            (Ok(header), Ok(query_param), Ok(consumer), Ok(keys), Ok(template)) => if keys.len()
                == 0 && template is None {
                Err("at least one of `keys` or `kv_key_template` must be configured"@)
            } else {
                Ok(
                    ApiKeyModel {
                        header: match header {
                            Some(name) => name,
                            None => "X-Api-Key"@,
                        },
                        query_param,
                        consumer_header: match consumer {
                            Some(name) => name,
                            None => "X-Consumer-Id"@,
                        },
                        keys,
                        kv_key_template: template,
                    },
                )
            },
        }
    }

    /// What every configured policy keeps: there is somewhere to look a key up,
    /// and the store key depends on it.
    pub open spec fn well_formed(self) -> bool {
        &&& self.keys.len() > 0 || self.kv_key_template is Some
        &&& (match self.kv_key_template {
            Some(template) => text::occurs(template, "<key>"@),
            None => true,
        })
    }
}

fn read_keys(config: &Json) -> (r: Result<Vec<(Vec<u8>, String)>, String>)
    ensures
        match r {
            Ok(list) => ApiKeyModel::keys_setting(config@) == Ok::<_, Seq<char>>(key_list(list@)),
            Err(e) => ApiKeyModel::keys_setting(config@) == Err::<Seq<(Seq<u8>, Seq<char>)>, _>(
                e@,
            ),
        },
{
    let mut out: Vec<(Vec<u8>, String)> = Vec::new();
    assert(key_list(out@) =~= Seq::empty());
    let v: &Json = match config.setting("keys") {
        None => return Ok(out),
        Some(v) => v,
    };
    let members: &Vec<(String, Json)> = match v.as_object() {
        Some(members) => members,
        None => return Err("`keys` must be an object of key -> consumer-id".to_owned()),
    };
    let ghost all = v@.node->Object_0;
    let ghost read = key_entry();
    let mut i: usize = 0;
    while i < members.len()
        invariant
            i <= members.len(),
            all == members@.map_values(|m: (String, Json)| (m.0@, m.1@)),
            read == key_entry(),
            ApiKeyModel::keys_setting(config@) == config::collect(all, read),
            config::collect(all.take(i as int), read) == Ok::<_, Seq<char>>(key_list(out@)),
        decreases members.len() - i,
    {
        proof {
            config::lemma_collect_step(all, read, i as int);
        }
        let key: &str = members[i].0.as_str();
        if key.is_empty() {
            proof {
                config::lemma_collect_refusal(all, read, i + 1);
            }
            return Err("`keys` entries must have a non-empty key".to_owned());
        }
        match members[i].1.as_text() {
            Some(consumer) => {
                let entry: (Vec<u8>, String) = (key.as_bytes_vec(), consumer.to_owned());
                assert(key_list(out@.push(entry)) =~= key_list(out@).push((entry.0@, entry.1@)));
                out.push(entry);
            },
            None => {
                proof {
                    config::lemma_collect_refusal(all, read, i + 1);
                }
                return Err(
                    "`keys[\"".to_owned().concat(key).concat("\"]` must be a string consumer-id"),
                );
            },
        }
        i += 1;
    }
    assert(all.take(i as int) =~= all);
    Ok(out)
}

impl ApiKey {
    /// Reads the policy from a module's configuration.
    pub fn init(config: &Json) -> (r: Result<ApiKey, String>)
        ensures
            match r {
                Ok(m) => {
                    &&& ApiKeyModel::configured(config@) == Ok::<_, Seq<char>>(m@)
                    &&& m@.well_formed()
                },
                Err(e) => ApiKeyModel::configured(config@) == Err::<ApiKeyModel, _>(e@),
            },
    {
        let header: String = match config::opt_str(config, "header") {
            Ok(Some(name)) => name,
            Ok(None) => "X-Api-Key".to_owned(),
            Err(e) => return Err(e),
        };
        let query_param: Option<String> = match config::opt_str(config, "query_param") {
            Ok(s) => s,
            Err(e) => return Err(e),
        };
        let consumer_header: String = match config::opt_str(config, "consumer_header") {
            Ok(Some(name)) => name,
            Ok(None) => "X-Consumer-Id".to_owned(),
            Err(e) => return Err(e),
        };
        let keys: Vec<(Vec<u8>, String)> = match read_keys(config) {
            Ok(list) => list,
            Err(e) => return Err(e),
        };
        let kv_key_template: Option<String> = match config::opt_str(config, "kv_key_template") {
            Ok(s) => s,
            Err(e) => return Err(e),
        };
        if let Some(template) = &kv_key_template {
            if !text::contains(template.as_str(), "<key>") {
                return Err("`kv_key_template` must contain the `<key>` placeholder".to_owned());
            }
        }
        if keys.len() == 0 && kv_key_template.is_none() {
            return Err(
                "at least one of `keys` or `kv_key_template` must be configured".to_owned(),
            );
        }
        Ok(ApiKey { header, query_param, consumer_header, keys, kv_key_template })
    }

    /// The presented key: in the header first, then in the query parameter where
    /// that is enabled. Empty values count as absent.
    pub fn extract_key(&self, req: &Request) -> (r: Option<String>)
        ensures
            config::text_opt(r) == self@.presented(req@),
    {
        if let Some(v) = req.header(self.header.as_str()) {
            let v: &str = text::trim(v);
            if !v.is_empty() {
                return Some(v.to_owned());
            }
        }
        if let Some(param) = &self.query_param {
            if let Some(v) = credential::query_value(req.query.as_str(), param.as_str()) {
                if !v.as_str().is_empty() {
                    return Some(v);
                }
            }
        }
        None
    }

    /// Looks a key up in the static map, comparing it with every entry.
    pub fn match_static(&self, presented: &[u8]) -> (r: Option<&str>)
        ensures
            match r {
                Some(consumer) => consumer_for(self@.keys, presented@) == Some(consumer@),
                None => consumer_for(self@.keys, presented@) is None,
            },
    {
        let ghost all = self@.keys;
        let mut matched: Option<&str> = None;
        let mut i: usize = 0;
        assert(all.take(0) =~= Seq::empty());
        while i < self.keys.len()
            invariant
                i <= self.keys.len(),
                all == key_list(self.keys@),
                match matched {
                    Some(consumer) => consumer_for(all.take(i as int), presented@) == Some(
                        consumer@,
                    ),
                    None => consumer_for(all.take(i as int), presented@) is None,
                },
            decreases self.keys.len() - i,
        {
            assert(all.take(i + 1).drop_last() =~= all.take(i as int));
            assert(all.take(i + 1).last() == (self.keys@[i as int].0@, self.keys@[i as int].1@));
            if credential::ct_eq(presented, self.keys[i].0.as_slice()) {
                matched = Some(self.keys[i].1.as_str());
            }
            i += 1;
        }
        assert(all.take(i as int) =~= all);
        matched
    }

    /// The key to look up in the store for a presented key.
    pub fn match_kv(&self, presented: &str) -> (r: Option<String>)
        ensures
            match self@.kv_key_template {
                Some(template) => r is Some && r->0@ == text::replaced(
                    template,
                    "<key>"@,
                    presented@,
                ),
                None => r is None,
            },
    {
        match &self.kv_key_template {
            Some(template) => {
                proof {
                    reveal_strlit("<key>");
                }
                Some(text::replace(template.as_str(), "<key>", presented))
            },
            None => None,
        }
    }

    /// Admits the request, with the consumer in its header.
    pub fn grant(&self, consumer: &str) -> (r: Response)
        ensures
            r@ == self@.granted(consumer@),
    {
        Response::rewrite().header(self.consumer_header.as_str(), consumer)
    }

    /// Refuses the request with a hint at the header; the key is not shown.
    pub fn unauthorized(&self, body: &str) -> (r: Response)
        ensures
            r@ == self@.refused(body@),
    {
        let hint: String = "ApiKey header=\"".to_owned().concat(self.header.as_str()).concat("\"");
        Response::respond(401, body).header("WWW-Authenticate", hint.as_str())
    }

    /// What happens for a presented key: a verdict, or a read of the site's
    /// store that [`ApiKey::finish`] takes the value of.
    pub fn check(&self, key: Option<String>) -> (r: Step)
        ensures
            r@ == self@.step_for(config::text_opt(key)),
    {
        let key: String = match key {
            Some(key) => key,
            None => return Step::Done(self.unauthorized("missing api key")),
        };
        if let Some(consumer) = self.match_static(key.as_str().as_bytes_vec().as_slice()) {
            return Step::Done(self.grant(consumer));
        }
        match self.match_kv(key.as_str()) {
            Some(lookup) => Step::Get(lookup),
            None => Step::Done(self.unauthorized("invalid api key")),
        }
    }

    /// The first half of the verdict on a request.
    pub fn invoke(&self, req: &Request) -> (r: Step)
        ensures
            r@ == self@.step_for(self@.presented(req@)),
    {
        self.check(self.extract_key(req))
    }

    /// The verdict once the store has answered. The value is the consumer, where
    /// it is text that is not empty.
    pub fn finish(&self, value: Option<Vec<u8>>) -> (r: Response)
        ensures
            r@ == self@.verdict(
                match value {
                    Some(v) => Some(v@),
                    None => None,
                },
            ),
    {
        if let Some(bytes) = value {
            if let Some(consumer) = codec::text_of(bytes) {
                if !consumer.as_str().is_empty() {
                    return self.grant(consumer.as_str());
                }
            }
        }
        self.unauthorized("invalid api key")
    }
}

// ---------------------------------------------------------------------------
// Who is admitted
// ---------------------------------------------------------------------------

/// A request that is not refused presents a key that the static map or the store
/// knows, and travels on with exactly that consumer in its header.
pub proof fn law_only_known_keys_are_admitted(
    p: ApiKeyModel,
    req: RequestModel,
    value: Option<Seq<u8>>,
)
    ensures
        ({
            let key = p.presented(req);
            let known = key is Some && consumer_for(p.keys, encode_utf8(key->0)) is Some;
            let stored = key is Some && p.kv_key_template is Some && stored_consumer(value)
                is Some;
            let r = p.decision(req, value);
            &&& known ==> r == p.granted(consumer_for(p.keys, encode_utf8(key->0))->0)
            &&& !known && stored ==> r == p.granted(stored_consumer(value)->0)
            &&& !known && !stored ==> r.action == crate::http::Action::Respond && r.status == 401
        }),
{
}

/// A refusal tells nothing about the presented key: it is one of two answers,
/// each with the hint at the header and nothing else.
pub proof fn law_refusals_do_not_show_the_key(
    p: ApiKeyModel,
    req: RequestModel,
    value: Option<Seq<u8>>,
)
    requires
        p.decision(req, value).action == crate::http::Action::Respond,
    ensures
        p.decision(req, value) == p.refused("missing api key"@) || p.decision(req, value)
            == p.refused("invalid api key"@),
{
}

/// Without a query parameter in the policy the query string does not count.
pub proof fn law_query_is_off_by_default(
    p: ApiKeyModel,
    req: RequestModel,
    query: Seq<char>,
    value: Option<Seq<u8>>,
)
    requires
        p.query_param is None,
    ensures
        p.decision(RequestModel { query, ..req }, value) == p.decision(req, value),
{
}

/// The consumer of a static key is the one that is configured for that very key,
/// and a key that is on the list is always found, each with its own consumer
/// where no key is listed twice.
pub proof fn law_consumer_belongs_to_the_key(
    keys: Seq<(Seq<u8>, Seq<char>)>,
    presented: Seq<u8>,
    i: int,
)
    ensures
        match consumer_for(keys, presented) {
            Some(c) => exists|j: int| 0 <= j < keys.len() && #[trigger] keys[j] == (presented, c),
            None => forall|j: int| 0 <= j < keys.len() ==> (#[trigger] keys[j]).0 != presented,
        },
        0 <= i < keys.len() && (forall|j: int|
            0 <= j < keys.len() && j != i ==> (#[trigger] keys[j]).0 != keys[i].0) ==> consumer_for(
            keys,
            keys[i].0,
        ) == Some(keys[i].1),
    decreases keys.len(),
{
    if keys.len() > 0 {
        let before = keys.drop_last();
        law_consumer_belongs_to_the_key(before, presented, i);
        assert(forall|j: int| 0 <= j < before.len() ==> #[trigger] before[j] == keys[j]);
        assert(keys[keys.len() - 1] == keys.last());
        if keys.last().0 != presented && consumer_for(before, presented) is Some {
            let c = consumer_for(before, presented)->0;
            let j = choose|j: int| 0 <= j < before.len() && #[trigger] before[j] == (presented, c);
            assert(keys[j] == (presented, c));
        }
        if consumer_for(keys, presented) is None {
            assert forall|j: int| 0 <= j < keys.len() implies (#[trigger] keys[j]).0
                != presented by {
                if j < before.len() {
                    assert(before[j].0 != presented);
                }
            }
        }
        if 0 <= i < keys.len() && (forall|j: int|
            0 <= j < keys.len() && j != i ==> (#[trigger] keys[j]).0 != keys[i].0) {
            if i < before.len() {
                assert forall|j: int| 0 <= j < before.len() && j != i implies (
                #[trigger] before[j]).0 != before[i].0 by {
                    assert(before[j] == keys[j]);
                }
                assert(before[i] == keys[i]);
                assert(keys.last().0 != keys[i].0);
            }
        }
    }
}

/// A request that presents a static key travels on with the consumer of that key
/// alone in the configured header, whatever the store holds.
pub proof fn law_static_keys_forward_their_consumer(
    p: ApiKeyModel,
    req: RequestModel,
    key: Seq<char>,
    value: Option<Seq<u8>>,
    i: int,
)
    requires
        p.presented(req) == Some(key),
        0 <= i < p.keys.len(),
        p.keys[i].0 == encode_utf8(key),
        forall|j: int| 0 <= j < p.keys.len() && j != i ==> (#[trigger] p.keys[j]).0 != p.keys[i].0,
    ensures
        p.decision(req, value).action == crate::http::Action::Rewrite,
        p.decision(req, value).headers == seq![(p.consumer_header, p.keys[i].1)],
        p.decision(req, value).response_headers.len() == 0,
        p.step_for(Some(key)) is Done,
{
    law_consumer_belongs_to_the_key(p.keys, encode_utf8(key), i);
    assert(p.decision(req, value).headers =~= seq![(p.consumer_header, p.keys[i].1)]);
}

/// The key is read from the configured header, without the white space around
/// it; only where that leaves nothing is the query parameter read, and only where
/// one is configured.
pub proof fn law_header_comes_before_query(p: ApiKeyModel, req: RequestModel)
    ensures
        req.header(p.header) is Some && text::trimmed(req.header(p.header)->0).len() > 0
            ==> p.presented(req) == Some(text::trimmed(req.header(p.header)->0)),
        req.header(p.header) is None || text::trimmed(req.header(p.header)->0).len() == 0 ==> match (
            p.query_param
        ) {
            None => p.presented(req) is None,
            Some(name) => match credential::query_text(req.query, name) {
                Some(v) => p.presented(req) == (if v.len() == 0 {
                    None
                } else {
                    Some(v)
                }),
                None => p.presented(req) is None,
            },
        },
        p.presented(req) is Some ==> p.presented(req)->0.len() > 0,
{
}

/// A key that is on no list is looked up in the store, in the place of `<key>` in
/// the template; the text that is found there is the consumer.
pub proof fn law_stored_keys_forward_their_consumer(
    p: ApiKeyModel,
    before: Seq<char>,
    after: Seq<char>,
    key: Seq<char>,
    consumer: Seq<char>,
)
    requires
        p.kv_key_template == Some(before + "<key>"@ + after),
        !before.contains('<'),
        !after.contains('<'),
        forall|j: int| 0 <= j < p.keys.len() ==> (#[trigger] p.keys[j]).0 != encode_utf8(key),
    ensures
        p.step_for(Some(key)) == StepModel::Get(before + key + after),
        consumer.len() > 0 ==> p.verdict(Some(encode_utf8(consumer))).headers == seq![
            (p.consumer_header, consumer),
        ] && p.verdict(Some(encode_utf8(consumer))).action == crate::http::Action::Rewrite,
        p.verdict(None).action == crate::http::Action::Respond,
        p.verdict(Some(Seq::empty())).action == crate::http::Action::Respond,
{
    reveal_strlit("<key>");
    law_consumer_belongs_to_the_key(p.keys, encode_utf8(key), 0);
    if consumer_for(p.keys, encode_utf8(key)) is Some {
        let c = consumer_for(p.keys, encode_utf8(key))->0;
        let j = choose|j: int|
            0 <= j < p.keys.len() && #[trigger] p.keys[j] == (encode_utf8(key), c);
        assert(p.keys[j].0 == encode_utf8(key));
    }
    let template = before + "<key>"@ + after;
    assert(template =~= before + ("<key>"@ + after));
    text::lemma_replaced_skips(before, "<key>"@ + after, "<key>"@, key);
    text::lemma_replaced_at(after, "<key>"@, key);
    text::lemma_replaced_absent(after, "<key>"@, key);
    assert(before + (key + after) =~= before + key + after);
    encode_utf8_valid_utf8(consumer);
    encode_utf8_decode_utf8(consumer);
    encode_utf8_decode_utf8(Seq::<char>::empty());
    assert(encode_utf8(Seq::<char>::empty()) =~= Seq::<u8>::empty());
    if consumer.len() > 0 {
        assert(p.verdict(Some(encode_utf8(consumer))).headers =~= seq![
            (p.consumer_header, consumer),
        ]);
    }
}

/// A refusal is a `401` with its reason, and its one header hints at the header
/// for the key.
pub proof fn law_refusals_hint_at_the_header(p: ApiKeyModel, body: Seq<char>)
    ensures
        p.refused(body).action == crate::http::Action::Respond,
        p.refused(body).status == 401,
        p.refused(body).body == encode_utf8(body),
        p.refused(body).headers == seq![
            ("WWW-Authenticate"@, "ApiKey header=\""@ + p.header + "\""@),
        ],
{
    assert(p.refused(body).headers =~= seq![
        ("WWW-Authenticate"@, "ApiKey header=\""@ + p.header + "\""@),
    ]);
}

/// Every setting is read from its own key: the static keys in order and
/// completely, each as the bytes of its name, the others with their defaults.
pub proof fn law_settings(config: JsonModel, p: ApiKeyModel, i: int)
    requires
        ApiKeyModel::configured(config) == Ok::<_, Seq<char>>(p),
    ensures
        config.setting("keys"@) is None ==> p.keys.len() == 0,
        config.setting("keys"@) is Some ==> config.setting("keys"@)->0.node is Object && ({
            let members = config.setting("keys"@)->0.node->Object_0;
            &&& members.len() == p.keys.len()
            &&& 0 <= i < members.len() ==> p.keys[i].0 == encode_utf8(members[i].0)
                && members[i].0.len() > 0 && members[i].1.node == NodeModel::Text(p.keys[i].1)
        }),
        config::filled(config::text_or(config, "query_param"@, None)) == Ok::<_, Seq<char>>(
            p.query_param,
        ),
        config::filled(config::text_or(config, "kv_key_template"@, None)) == Ok::<_, Seq<char>>(
            p.kv_key_template,
        ),
        config::filled(config::text_or(config, "header"@, None)) == Ok::<_, Seq<char>>(
            Some(p.header),
        ) || (config::filled(config::text_or(config, "header"@, None)) == Ok::<_, Seq<char>>(
            None::<Seq<char>>,
        ) && p.header == "X-Api-Key"@),
        config::filled(config::text_or(config, "consumer_header"@, None)) == Ok::<_, Seq<char>>(
            Some(p.consumer_header),
        ) || (config::filled(config::text_or(config, "consumer_header"@, None)) == Ok::<
            _,
            Seq<char>,
        >(None::<Seq<char>>) && p.consumer_header == "X-Consumer-Id"@),
{
    if config.setting("keys"@) is Some {
        config::law_lists_are_read_whole(
            config.setting("keys"@)->0.node->Object_0,
            key_entry(),
            i,
        );
    }
}

/// Where the store holds nothing, an empty text or bytes that are no text, the key
/// is refused; any other text is the consumer as it stands.
pub proof fn law_stored_values(p: ApiKeyModel, value: Option<Seq<u8>>)
    ensures
        value is None || !valid_utf8(value->0) || decode_utf8(value->0).len() == 0 ==> p.verdict(
            value,
        ) == p.refused("invalid api key"@),
        value is Some && valid_utf8(value->0) && decode_utf8(value->0).len() > 0 ==> p.verdict(
            value,
        ).headers == seq![(p.consumer_header, decode_utf8(value->0))],
{
    if value is Some && valid_utf8(value->0) && decode_utf8(value->0).len() > 0 {
        assert(p.verdict(value).headers =~= seq![(p.consumer_header, decode_utf8(value->0))]);
    }
}

/// A configuration is taken exactly where the static keys have names and texts,
/// the template has the place for the key, one of the two is there, and the other
/// settings are texts; of several refused settings the first is named.
pub proof fn law_taken_configurations(config: JsonModel)
    ensures
        ({
            let r = ApiKeyModel::configured(config);
            let read = |key: Seq<char>| config::text_or(config, key, None);
            let (h, q, c, t) = (
                read("header"@),
                read("query_param"@),
                read("consumer_header"@),
                config::filled(read("kv_key_template"@)),
            );
            let k = ApiKeyModel::keys_setting(config);
            let placed = t is Ok && (t->Ok_0 is Some ==> text::occurs(t->Ok_0->0, "<key>"@));
            let listed = config.setting("keys"@) is None || (config.setting(
                "keys"@,
            )->0.node is Object && (forall|j: int|
                0 <= j < config.setting("keys"@)->0.node->Object_0.len() ==> ({
                    let m = #[trigger] config.setting("keys"@)->0.node->Object_0[j];
                    m.0.len() > 0 && m.1.node is Text
                })));
            let some = (t is Ok && t->Ok_0 is Some) || (config.setting("keys"@) is Some
                && config.setting("keys"@)->0.node is Object && config.setting(
                "keys"@,
            )->0.node->Object_0.len() > 0);
            &&& k is Ok <==> listed
            &&& r is Ok <==> h is Ok && q is Ok && c is Ok && listed && placed && some
            &&& h is Err ==> r->Err_0 == h->Err_0
            &&& h is Ok && q is Err ==> r->Err_0 == q->Err_0
            &&& h is Ok && q is Ok && c is Err ==> r->Err_0 == c->Err_0
            &&& h is Ok && q is Ok && c is Ok && k is Err ==> r->Err_0 == k->Err_0
            &&& h is Ok && q is Ok && c is Ok && k is Ok && t is Err ==> r->Err_0 == t->Err_0
        }),
{
    if config.setting("keys"@) is Some && config.setting("keys"@)->0.node is Object {
        let members = config.setting("keys"@)->0.node->Object_0;
        config::law_lists_are_taken_whole(members, key_entry());
        config::law_lists_are_read_whole(members, key_entry(), 0);
        assert forall|j: int| 0 <= j < members.len() implies (key_entry()(
            #[trigger] members[j],
        ) is Ok <==> members[j].0.len() > 0 && members[j].1.node is Text) by {}
    }
}

} // verus!

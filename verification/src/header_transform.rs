//! `header-transform`: sets request headers before the request is served, and
//! sets or removes response headers on the way out.
//!
//! | section | key | effect |
//! |---------|-----|--------|
//! | `request` | `set` (object) | replace or add each request header |
//! | `response` | `set` (object) | replace or add each response header |
//! | `response` | `remove` (array) | delete each response header |
//!
//! A request header can be overridden but not deleted, so `request.remove` is
//! refused rather than ignored. Assignments replace or add one occurrence, so
//! there is no separate `add`.
use vstd::prelude::*;
use vstd::string::*;

use crate::http::{
    EditsModel, Headers, ReplyModel, Request, Response, ResponseModel, ResponseView,
};
use crate::json::{Json, JsonModel, Node, NodeModel};
use crate::{config, http, text};

verus! {

/// Header policy, built once by [`HeaderTransform::init`].
#[derive(Debug)]
pub struct HeaderTransform {
    pub request_set: Vec<(String, String)>,
    pub response_set: Vec<(String, String)>,
    pub response_remove: Vec<String>,
}

/// The mathematical reading of [`HeaderTransform`].
pub struct HeaderTransformModel {
    pub request_set: Headers,
    pub response_set: Headers,
    pub response_remove: Seq<Seq<char>>,
}

impl View for HeaderTransform {
    type V = HeaderTransformModel;

    open spec fn view(&self) -> HeaderTransformModel {
        HeaderTransformModel {
            request_set: config::text_pairs(self.request_set@),
            response_set: config::text_pairs(self.response_set@),
            response_remove: config::texts(self.response_remove@),
        }
    }
}

// ---------------------------------------------------------------------------
// Configuration
// ---------------------------------------------------------------------------

/// A section of the configuration: an object, or nothing.
pub open spec fn section_of(config: JsonModel, key: Seq<char>) -> Result<
    Option<JsonModel>,
    Seq<char>,
> {
    match config.setting(key) {
        None => Ok(None),
        Some(v) => if v.node is Object {
            Ok(Some(v))
        } else {
            Err(config::must_be(key, "an object"@, v.text))
        },
    }
}

/// A setting of a section.
pub open spec fn section_setting(section: Option<JsonModel>, key: Seq<char>) -> Option<JsonModel> {
    match section {
        Some(v) => v.setting(key),
        None => None,
    }
}

/// One assignment of a `set` object.
pub open spec fn set_entry(path: Seq<char>) -> spec_fn((Seq<char>, JsonModel)) -> Result<
    (Seq<char>, Seq<char>),
    Seq<char>,
> {
    |m: (Seq<char>, JsonModel)|
        if m.0.len() == 0 {
            Err("`"@ + path + ".set` has an empty header name"@)
        } else {
            match m.1.as_text() {
                Some(v) => Ok((m.0, v)),
                None => Err(
                    "`"@ + path + ".set` values must be strings, got "@ + m.1.text + " for `"@
                        + m.0 + "`"@,
                ),
            }
        }
}

/// The `set` object of a section.
pub open spec fn set_of(section: Option<JsonModel>, path: Seq<char>) -> Result<
    Headers,
    Seq<char>,
> {
    match section_setting(section, "set"@) {
        None => Ok(Seq::empty()),
        Some(v) => match v.node {
            NodeModel::Object(members) => config::collect(members, set_entry(path)),
            _ => Err(config::must_be(path + ".set"@, "an object"@, v.text)),
        },
    }
}

/// One name of a `remove` list.
pub open spec fn remove_entry(path: Seq<char>) -> spec_fn(JsonModel) -> Result<
    Seq<char>,
    Seq<char>,
> {
    |v: JsonModel|
        match v.as_text() {
            None => Err(config::entries_must_be(path + ".remove"@, "strings"@, v.text)),
            Some(name) => if name.len() == 0 {
                Err("`"@ + path + ".remove` has an empty header name"@)
            } else {
                Ok(name)
            },
        }
}

/// The `remove` list of a section.
pub open spec fn remove_of(section: Option<JsonModel>, path: Seq<char>) -> Result<
    Seq<Seq<char>>,
    Seq<char>,
> {
    match section_setting(section, "remove"@) {
        None => Ok(Seq::empty()),
        Some(v) => match v.node {
            NodeModel::Array(items) => config::collect(items, remove_entry(path)),
            _ => Err(config::must_be(path + ".remove"@, "an array"@, v.text)),
        },
    }
}

impl HeaderTransformModel {
    /// The policy that a configuration describes, or the first setting that is
    /// refused.
    pub open spec fn configured(config: JsonModel) -> Result<HeaderTransformModel, Seq<char>> {
        match (section_of(config, "request"@), section_of(config, "response"@)) {
            (Err(e), _) => Err(e),
            (_, Err(e)) => Err(e),
            (Ok(request), Ok(response)) => if section_setting(request, "remove"@) is Some {
                Err(
                    "`request.remove` is not supported: the v1 ABI request phase can only set/override request headers, not delete them"@,
                )
            } else {
                match (
                    set_of(request, "request"@),
                    set_of(response, "response"@),
                    remove_of(response, "response"@),
                ) {
                    (Err(e), _, _) => Err(e),
                    (_, Err(e), _) => Err(e),
                    (_, _, Err(e)) => Err(e),
                    (Ok(request_set), Ok(response_set), Ok(response_remove)) => Ok(
                        HeaderTransformModel { request_set, response_set, response_remove },
                    ),
                }
            },
        }
    }

    /// The verdict of the request phase.
    pub open spec fn verdict(self) -> ResponseModel {
        if self.request_set.len() == 0 {
            ResponseModel::cont()
        } else {
            ResponseModel { headers: self.request_set, ..ResponseModel::rewrite() }
        }
    }

    /// The edits of the response phase: removals and assignments behind those
    /// already asked for.
    pub open spec fn edited(self, edits: EditsModel) -> EditsModel {
        EditsModel {
            set: edits.set + self.response_set,
            remove: edits.remove + self.response_remove,
            ..edits
        }
    }
}

/// The section called `key`, where there is one.
pub fn section<'a>(config: &'a Json, key: &str) -> (r: Result<Option<&'a Json>, String>)
    ensures
        match r {
            Ok(Some(v)) => section_of(config@, key@) == Ok::<_, Seq<char>>(Some(v@)),
            Ok(None) => section_of(config@, key@) == Ok::<_, Seq<char>>(None::<JsonModel>),
            Err(e) => section_of(config@, key@) == Err::<Option<JsonModel>, _>(e@),
        },
{
    match config.setting(key) {
        None => Ok(None),
        Some(v) => match &v.node {
            Node::Object(_) => Ok(Some(v)),
            _ => Err(config::say_must_be(key, "an object", v.text.as_str())),
        },
    }
}

fn setting_of<'a>(section: Option<&'a Json>, key: &str) -> (r: Option<&'a Json>)
    ensures
        match r {
            Some(v) => section_setting(view_of(section), key@) == Some(v@),
            None => section_setting(view_of(section), key@) is None,
        },
{
    match section {
        Some(v) => v.setting(key),
        None => None,
    }
}

/// The model of an optional value.
pub open spec fn view_of(section: Option<&Json>) -> Option<JsonModel> {
    match section {
        Some(v) => Some(v@),
        None => None,
    }
}

/// Reads the `set` object of a section.
pub fn parse_set(section: Option<&Json>, path: &str) -> (r: Result<Vec<(String, String)>, String>)
    ensures
        match r {
            Ok(list) => set_of(view_of(section), path@) == Ok::<_, Seq<char>>(
                config::text_pairs(list@),
            ),
            Err(e) => set_of(view_of(section), path@) == Err::<Headers, _>(e@),
        },
{
    let mut out: Vec<(String, String)> = Vec::new();
    assert(config::text_pairs(out@) =~= Seq::empty());
    let v: &Json = match setting_of(section, "set") {
        None => return Ok(out),
        Some(v) => v,
    };
    let members: &Vec<(String, Json)> = match v.as_object() {
        Some(members) => members,
        None => {
            let key: String = path.to_owned().concat(".set");
            return Err(config::say_must_be(key.as_str(), "an object", v.text.as_str()));
        },
    };
    let ghost all = v@.node->Object_0;
    let ghost read = set_entry(path@);
    let mut i: usize = 0;
    while i < members.len()
        invariant
            i <= members.len(),
            all == members@.map_values(|m: (String, Json)| (m.0@, m.1@)),
            read == set_entry(path@),
            set_of(view_of(section), path@) == config::collect(all, read),
            config::collect(all.take(i as int), read) == Ok::<_, Seq<char>>(
                config::text_pairs(out@),
            ),
        decreases members.len() - i,
    {
        proof {
            config::lemma_collect_step(all, read, i as int);
        }
        let name: &str = members[i].0.as_str();
        if name.is_empty() {
            proof {
                config::lemma_collect_refusal(all, read, i + 1);
            }
            return Err("`".to_owned().concat(path).concat(".set` has an empty header name"));
        }
        match members[i].1.as_text() {
            Some(value) => {
                let pair: (String, String) = (name.to_owned(), value.to_owned());
                proof {
                    config::lemma_text_pairs_push(out@, pair);
                }
                out.push(pair);
            },
            None => {
                proof {
                    config::lemma_collect_refusal(all, read, i + 1);
                }
                return Err(
                    "`".to_owned().concat(path).concat(".set` values must be strings, got ").concat(
                        members[i].1.text.as_str(),
                    ).concat(" for `").concat(name).concat("`"),
                );
            },
        }
        i += 1;
    }
    assert(all.take(i as int) =~= all);
    Ok(out)
}

/// Reads the `remove` list of a section.
pub fn parse_remove(section: Option<&Json>, path: &str) -> (r: Result<Vec<String>, String>)
    ensures
        match r {
            Ok(list) => remove_of(view_of(section), path@) == Ok::<_, Seq<char>>(
                config::texts(list@),
            ),
            Err(e) => remove_of(view_of(section), path@) == Err::<Seq<Seq<char>>, _>(e@),
        },
{
    let mut out: Vec<String> = Vec::new();
    assert(config::texts(out@) =~= Seq::empty());
    let v: &Json = match setting_of(section, "remove") {
        None => return Ok(out),
        Some(v) => v,
    };
    let key: String = path.to_owned().concat(".remove");
    let items: &Vec<Json> = match v.as_array() {
        Some(items) => items,
        None => return Err(config::say_must_be(key.as_str(), "an array", v.text.as_str())),
    };
    let ghost all = v@.node->Array_0;
    let ghost read = remove_entry(path@);
    let mut i: usize = 0;
    while i < items.len()
        invariant
            i <= items.len(),
            all == items@.map_values(|v: Json| v@),
            key@ == path@ + ".remove"@,
            read == remove_entry(path@),
            remove_of(view_of(section), path@) == config::collect(all, read),
            config::collect(all.take(i as int), read) == Ok::<_, Seq<char>>(config::texts(out@)),
        decreases items.len() - i,
    {
        proof {
            config::lemma_collect_step(all, read, i as int);
        }
        match items[i].as_text() {
            None => {
                proof {
                    config::lemma_collect_refusal(all, read, i + 1);
                }
                return Err(
                    config::say_entries_must_be(key.as_str(), "strings", items[i].text.as_str()),
                );
            },
            Some(name) => {
                if name.is_empty() {
                    proof {
                        config::lemma_collect_refusal(all, read, i + 1);
                    }
                    return Err(
                        "`".to_owned().concat(path).concat(".remove` has an empty header name"),
                    );
                }
                let owned: String = name.to_owned();
                proof {
                    config::lemma_texts_push(out@, owned);
                }
                out.push(owned);
            },
        }
        i += 1;
    }
    assert(all.take(i as int) =~= all);
    Ok(out)
}

impl HeaderTransform {
    /// Reads the policy from a module's configuration.
    pub fn init(config: &Json) -> (r: Result<HeaderTransform, String>)
        ensures
            match r {
                Ok(m) => HeaderTransformModel::configured(config@) == Ok::<_, Seq<char>>(m@),
                Err(e) => HeaderTransformModel::configured(config@) == Err::<
                    HeaderTransformModel,
                    _,
                >(e@),
            },
    {
        let request: Option<&Json> = match section(config, "request") {
            Ok(s) => s,
            Err(e) => return Err(e),
        };
        let response: Option<&Json> = match section(config, "response") {
            Ok(s) => s,
            Err(e) => return Err(e),
        };
        if setting_of(request, "remove").is_some() {
            return Err(
                "`request.remove` is not supported: the v1 ABI request phase can only set/override request headers, not delete them".to_owned(),
            );
        }
        let request_set: Vec<(String, String)> = match parse_set(request, "request") {
            Ok(list) => list,
            Err(e) => return Err(e),
        };
        let response_set: Vec<(String, String)> = match parse_set(response, "response") {
            Ok(list) => list,
            Err(e) => return Err(e),
        };
        let response_remove: Vec<String> = match parse_remove(response, "response") {
            Ok(list) => list,
            Err(e) => return Err(e),
        };
        Ok(HeaderTransform { request_set, response_set, response_remove })
    }

    /// The request phase: sets the configured request headers.
    pub fn invoke(&self, _req: &Request) -> (r: Response)
        ensures
            r@ == self@.verdict(),
    {
        if self.request_set.len() == 0 {
            return Response::cont();
        }
        let ghost all = self@.request_set;
        let mut r: Response = Response::rewrite();
        let mut i: usize = 0;
        assert(all.take(0) =~= Seq::empty());
        while i < self.request_set.len()
            invariant
                i <= self.request_set.len(),
                all == config::text_pairs(self.request_set@),
                r@ == (ResponseModel {
                    headers: all.take(i as int),
                    ..ResponseModel::rewrite()
                }),
            decreases self.request_set.len() - i,
        {
            assert(all.take(i as int).push(all[i as int]) =~= all.take(i + 1));
            r = r.header(self.request_set[i].0.as_str(), self.request_set[i].1.as_str());
            i += 1;
        }
        assert(all.take(i as int) =~= all);
        r
    }

    /// The response phase: removes and sets the configured response headers.
    pub fn invoke_response(&self, _req: &Request, resp: &mut ResponseView)
        ensures
            final(resp)@ == self@.edited(old(resp)@),
    {
        let ghost start = resp@;
        let ghost remove = self@.response_remove;
        let ghost set = self@.response_set;
        let mut i: usize = 0;
        assert(start.remove + remove.take(0) =~= start.remove);
        while i < self.response_remove.len()
            invariant
                i <= self.response_remove.len(),
                remove == config::texts(self.response_remove@),
                resp@ == (EditsModel { remove: start.remove + remove.take(i as int), ..start }),
            decreases self.response_remove.len() - i,
        {
            assert((start.remove + remove.take(i as int)).push(remove[i as int]) =~= start.remove
                + remove.take(i + 1));
            resp.remove_header(self.response_remove[i].as_str());
            i += 1;
        }
        assert(remove.take(i as int) =~= remove);
        let mut j: usize = 0;
        assert(start.set + set.take(0) =~= start.set);
        while j < self.response_set.len()
            invariant
                j <= self.response_set.len(),
                set == config::text_pairs(self.response_set@),
                resp@ == (EditsModel {
                    remove: start.remove + remove,
                    set: start.set + set.take(j as int),
                    ..start
                }),
            decreases self.response_set.len() - j,
        {
            assert((start.set + set.take(j as int)).push(set[j as int]) =~= start.set + set.take(
                j + 1,
            ));
            resp.set_header(self.response_set[j].0.as_str(), self.response_set[j].1.as_str());
            j += 1;
        }
        assert(set.take(j as int) =~= set);
    }
}

// ---------------------------------------------------------------------------
// What the client gets
// ---------------------------------------------------------------------------

/// A response header that is set stands once, with the value last configured,
/// also where it is removed as well; one that is only removed is gone; every
/// other header, the status and the body stay as they are.
pub proof fn law_transformed_reply(p: HeaderTransformModel, reply: ReplyModel, name: Seq<char>)
    ensures
        ({
            let sent = p.edited(EditsModel::of(reply)).applied();
            &&& sent.status == reply.status
            &&& sent.body == reply.body
            &&& match http::assigned(p.response_set, name) {
                Some(v) => {
                    &&& sent.header(name) == Some(v)
                    &&& http::occurrences(sent.headers, name) == 1
                },
                None => if http::listed(p.response_remove, name) {
                    sent.header(name) is None
                } else {
                    sent.header(name) == reply.header(name)
                },
            }
        }),
{
    let edits = p.edited(EditsModel::of(reply));
    assert(edits.set =~= p.response_set);
    assert(edits.remove =~= p.response_remove);
    http::law_edited_reply(edits, name);
}

/// An empty policy changes nothing.
pub proof fn law_empty_policy_changes_nothing(p: HeaderTransformModel, reply: ReplyModel)
    requires
        p.request_set.len() == 0,
        p.response_set.len() == 0,
        p.response_remove.len() == 0,
    ensures
        p.verdict() == ResponseModel::cont(),
        p.edited(EditsModel::of(reply)).applied() == reply,
{
    let edits = p.edited(EditsModel::of(reply));
    assert(edits.set =~= Seq::empty());
    assert(edits.remove =~= Seq::empty());
}

/// The request phase sets exactly the configured request headers, in order, and
/// touches nothing where there are none.
pub proof fn law_request_headers_are_set(p: HeaderTransformModel, i: int)
    ensures
        p.request_set.len() == 0 ==> p.verdict().action == http::Action::Continue,
        p.request_set.len() > 0 ==> p.verdict().action == http::Action::Rewrite,
        p.verdict().headers.len() == p.request_set.len(),
        0 <= i < p.request_set.len() ==> p.verdict().headers[i] == p.request_set[i],
        p.verdict().response_headers.len() == 0,
        p.verdict().body.len() == 0,
{
}

/// A header on the list to remove is gone, at whatever place it is listed; a
/// header on the list to set reads as the last assignment to it says, whether it
/// is removed as well or not; one on neither list stays as often as it was there.
pub proof fn law_each_listed_header_counts(
    p: HeaderTransformModel,
    reply: ReplyModel,
    name: Seq<char>,
    i: int,
)
    ensures
        ({
            let sent = p.edited(EditsModel::of(reply)).applied();
            let unset = forall|j: int|
                0 <= j < p.response_set.len() ==> !text::same_ignoring_case(
                    name,
                    (#[trigger] p.response_set[j]).0,
                );
            let unlisted = forall|j: int|
                0 <= j < p.response_remove.len() ==> !text::same_ignoring_case(
                    name,
                    #[trigger] p.response_remove[j],
                );
            &&& unset && 0 <= i < p.response_remove.len() && text::same_ignoring_case(
                name,
                p.response_remove[i],
            ) ==> sent.header(name) is None && http::occurrences(sent.headers, name) == 0
            &&& unset && unlisted ==> sent.header(name) == reply.header(name) && http::occurrences(
                sent.headers,
                name,
            ) == http::occurrences(reply.headers, name)
            &&& 0 <= i < p.response_set.len() && text::same_ignoring_case(
                name,
                p.response_set[i].0,
            ) && (forall|j: int|
                i < j < p.response_set.len() ==> !text::same_ignoring_case(
                    name,
                    (#[trigger] p.response_set[j]).0,
                )) ==> sent.header(name) == Some(p.response_set[i].1) && http::occurrences(
                sent.headers,
                name,
            ) == 1
        }),
{
    let edits = p.edited(EditsModel::of(reply));
    assert(edits.set =~= p.response_set);
    assert(edits.remove =~= p.response_remove);
    http::law_edited_reply(edits, name);
    lemma_assigned(p.response_set, name, i);
}

proof fn lemma_assigned(set: Headers, name: Seq<char>, i: int)
    ensures
        (forall|j: int|
            0 <= j < set.len() ==> !text::same_ignoring_case(name, (#[trigger] set[j]).0))
            ==> http::assigned(set, name) is None,
        0 <= i < set.len() && text::same_ignoring_case(name, set[i].0) && (forall|j: int|
            i < j < set.len() ==> !text::same_ignoring_case(name, (#[trigger] set[j]).0))
            ==> http::assigned(set, name) == Some(set[i].1),
    decreases set.len(),
{
    if set.len() > 0 {
        let before = set.drop_last();
        lemma_assigned(before, name, i);
        assert(set.last() == set[set.len() - 1]);
        assert(forall|j: int| 0 <= j < before.len() ==> #[trigger] before[j] == set[j]);
        if !text::same_ignoring_case(name, set.last().0) {
            if forall|j: int|
                0 <= j < set.len() ==> !text::same_ignoring_case(name, (#[trigger] set[j]).0) {
                assert forall|j: int| 0 <= j < before.len() implies !text::same_ignoring_case(
                    name,
                    (#[trigger] before[j]).0,
                ) by {
                    assert(before[j] == set[j]);
                }
            }
            if 0 <= i < set.len() && text::same_ignoring_case(name, set[i].0) && (forall|j: int|
                i < j < set.len() ==> !text::same_ignoring_case(name, (#[trigger] set[j]).0)) {
                assert(before[i] == set[i]);
                assert forall|j: int| i < j < before.len() implies !text::same_ignoring_case(
                    name,
                    (#[trigger] before[j]).0,
                ) by {
                    assert(before[j] == set[j]);
                }
            }
        }
    }
}

/// The headers to set and to remove are read from their own sections, in order
/// and completely, each name and value as it is.
pub proof fn law_settings(config: JsonModel, p: HeaderTransformModel, i: int)
    requires
        HeaderTransformModel::configured(config) == Ok::<_, Seq<char>>(p),
    ensures
        config.setting("request"@) is Some ==> config.setting("request"@)->0.node is Object
            && config.setting("request"@)->0.setting("remove"@) is None,
        config.setting("response"@) is Some ==> config.setting("response"@)->0.node is Object,
        lists_assignments(config.setting("request"@), p.request_set, i),
        lists_assignments(config.setting("response"@), p.response_set, i),
        match config.setting("response"@) {
            Some(section) => match section.setting("remove"@) {
                Some(v) => v.node is Array && v.node->Array_0.len() == p.response_remove.len() && (
                0 <= i < p.response_remove.len() ==> v.node->Array_0[i].node == NodeModel::Text(
                    p.response_remove[i],
                ) && p.response_remove[i].len() > 0),
                None => p.response_remove.len() == 0,
            },
            None => p.response_remove.len() == 0,
        },
{
    if let Some(section) = config.setting("request"@) {
        if let Some(v) = section.setting("set"@) {
            config::law_lists_are_read_whole(v.node->Object_0, set_entry("request"@), i);
        }
    }
    if let Some(section) = config.setting("response"@) {
        if let Some(v) = section.setting("set"@) {
            config::law_lists_are_read_whole(v.node->Object_0, set_entry("response"@), i);
        }
        if let Some(v) = section.setting("remove"@) {
            config::law_lists_are_read_whole(v.node->Array_0, remove_entry("response"@), i);
        }
    }
}

/// Assignment `i` of a list is member `i` of the `set` object of a section.
pub open spec fn lists_assignments(section: Option<JsonModel>, set: Headers, i: int) -> bool {
    match section {
        Some(section) => match section.setting("set"@) {
            Some(v) => v.node is Object && v.node->Object_0.len() == set.len() && (0 <= i
                < set.len() ==> v.node->Object_0[i].0 == set[i].0 && set[i].0.len() > 0
                && v.node->Object_0[i].1.node == NodeModel::Text(set[i].1)),
            None => set.len() == 0,
        },
        None => set.len() == 0,
    }
}

/// A configuration is taken exactly where its sections are objects, nothing is to
/// be removed from the request, every header has a name, and every value and every
/// name to remove is a text.
pub proof fn law_taken_configurations(config: JsonModel)
    ensures
        HeaderTransformModel::configured(config) is Ok <==> {
            let (request, response) = (config.setting("request"@), config.setting("response"@));
            &&& request is Some ==> request->0.node is Object && request->0.setting("remove"@) is None
            &&& response is Some ==> response->0.node is Object
            &&& holds_assignments(section_setting(request, "set"@))
            &&& holds_assignments(section_setting(response, "set"@))
            &&& holds_names(section_setting(response, "remove"@))
        },
{
    let (request, response) = (config.setting("request"@), config.setting("response"@));
    lemma_holds(request, "request"@);
    lemma_holds(response, "response"@);
}

/// A setting that is absent, or an object of named texts.
pub open spec fn holds_assignments(setting: Option<JsonModel>) -> bool {
    setting is Some ==> setting->0.node is Object && forall|j: int|
        0 <= j < setting->0.node->Object_0.len() ==> (#[trigger] setting->0.node->Object_0[j]).0.len()
            > 0 && setting->0.node->Object_0[j].1.node is Text
}

/// A setting that is absent, or a list of names.
pub open spec fn holds_names(setting: Option<JsonModel>) -> bool {
    setting is Some ==> setting->0.node is Array && forall|j: int|
        0 <= j < setting->0.node->Array_0.len() ==> (#[trigger] setting->0.node->Array_0[j]).node is Text
            && setting->0.node->Array_0[j].node->Text_0.len() > 0
}

proof fn lemma_holds(section: Option<JsonModel>, path: Seq<char>)
    ensures
        set_of(section, path) is Ok <==> holds_assignments(section_setting(section, "set"@)),
        remove_of(section, path) is Ok <==> holds_names(section_setting(section, "remove"@)),
{
    let set = section_setting(section, "set"@);
    if set is Some && set->0.node is Object {
        let members = set->0.node->Object_0;
        config::law_lists_are_taken_whole(members, set_entry(path));
        assert forall|j: int| 0 <= j < members.len() implies (set_entry(path)(
            #[trigger] members[j],
        ) is Ok <==> members[j].0.len() > 0 && members[j].1.node is Text) by {}
    }
    let remove = section_setting(section, "remove"@);
    if remove is Some && remove->0.node is Array {
        let items = remove->0.node->Array_0;
        config::law_lists_are_taken_whole(items, remove_entry(path));
        assert forall|j: int| 0 <= j < items.len() implies (remove_entry(path)(
            #[trigger] items[j],
        ) is Ok <==> items[j].node is Text && items[j].node->Text_0.len() > 0) by {}
    }
}

} // verus!

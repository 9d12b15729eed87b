//! Requests, verdicts and replies as plain data, and the edits that the
//! response phase makes to a reply.
use vstd::prelude::*;
use vstd::string::*;
use vstd::utf8::*;

use crate::{config, text};

verus! {

// ---------------------------------------------------------------------------
// Headers
// ---------------------------------------------------------------------------

/// A list of headers as texts.
pub type Headers = Seq<(Seq<char>, Seq<char>)>;

/// The value of the first header called `name`, up to the case of ASCII letters.
pub open spec fn header_value(headers: Headers, name: Seq<char>) -> Option<Seq<char>>
    decreases headers.len(),
{
    if headers.len() == 0 {
        None
    } else if text::same_ignoring_case(headers[0].0, name) {
        Some(headers[0].1)
    } else {
        header_value(headers.skip(1), name)
    }
}

/// The headers that are not called `name`.
pub open spec fn without(headers: Headers, name: Seq<char>) -> Headers
    decreases headers.len(),
{
    if headers.len() == 0 {
        headers
    } else {
        let before = without(headers.drop_last(), name);
        if text::same_ignoring_case(headers.last().0, name) {
            before
        } else {
            before.push(headers.last())
        }
    }
}

/// The headers with exactly one called `name`, which stands last.
pub open spec fn with_header(headers: Headers, name: Seq<char>, value: Seq<char>) -> Headers {
    without(headers, name).push((name, value))
}

/// The headers without those on the list.
pub open spec fn without_all(headers: Headers, names: Seq<Seq<char>>) -> Headers
    decreases names.len(),
{
    if names.len() == 0 {
        headers
    } else {
        without(without_all(headers, names.drop_last()), names.last())
    }
}

/// The headers with each assignment made in turn.
pub open spec fn with_all(headers: Headers, set: Headers) -> Headers
    decreases set.len(),
{
    if set.len() == 0 {
        headers
    } else {
        with_header(with_all(headers, set.drop_last()), set.last().0, set.last().1)
    }
}

/// How many headers are called `name`.
pub open spec fn occurrences(headers: Headers, name: Seq<char>) -> nat
    decreases headers.len(),
{
    if headers.len() == 0 {
        0
    } else {
        occurrences(headers.drop_last(), name) + if text::same_ignoring_case(
            headers.last().0,
            name,
        ) {
            1nat
        } else {
            0nat
        }
    }
}

proof fn lemma_value_push(headers: Headers, header: (Seq<char>, Seq<char>), name: Seq<char>)
    ensures
        header_value(headers.push(header), name) == (match header_value(headers, name) {
            Some(v) => Some(v),
            None => if text::same_ignoring_case(header.0, name) {
                Some(header.1)
            } else {
                None
            },
        }),
    decreases headers.len(),
{
    let more = headers.push(header);
    if headers.len() == 0 {
        assert(more.skip(1) =~= Seq::empty());
    } else {
        assert(more.skip(1) =~= headers.skip(1).push(header));
        lemma_value_push(headers.skip(1), header, name);
    }
}

/// A list behind another is read where the first has no such header.
pub proof fn lemma_value_append(headers: Headers, more: Headers, name: Seq<char>)
    ensures
        header_value(headers + more, name) == (match header_value(headers, name) {
            Some(v) => Some(v),
            None => header_value(more, name),
        }),
    decreases headers.len(),
{
    if headers.len() == 0 {
        assert(headers + more =~= more);
    } else {
        assert((headers + more).skip(1) =~= headers.skip(1) + more);
        lemma_value_append(headers.skip(1), more, name);
    }
}

/// A removed header is gone, and every other header reads as before.
pub proof fn law_removed_header_is_gone(headers: Headers, name: Seq<char>, other: Seq<char>)
    ensures
        text::same_ignoring_case(other, name) ==> header_value(without(headers, name), other)
            is None && occurrences(without(headers, name), other) == 0,
        !text::same_ignoring_case(other, name) ==> header_value(without(headers, name), other)
            == header_value(headers, other) && occurrences(without(headers, name), other)
            == occurrences(headers, other),
    decreases headers.len(),
{
    if headers.len() > 0 {
        let before = headers.drop_last();
        law_removed_header_is_gone(before, name, other);
        assert(headers =~= before.push(headers.last()));
        lemma_value_push(before, headers.last(), other);
        lemma_value_push(without(before, name), headers.last(), other);
        assert(without(before, name).push(headers.last()).drop_last() =~= without(before, name));
    }
}

/// A header that was set reads as it was set and stands there once, and every
/// other header reads as before.
pub proof fn law_set_header_is_read(
    headers: Headers,
    name: Seq<char>,
    value: Seq<char>,
    other: Seq<char>,
)
    ensures
        text::same_ignoring_case(other, name) ==> header_value(
            with_header(headers, name, value),
            other,
        ) == Some(value) && occurrences(with_header(headers, name, value), other) == 1,
        !text::same_ignoring_case(other, name) ==> header_value(
            with_header(headers, name, value),
            other,
        ) == header_value(headers, other) && occurrences(with_header(headers, name, value), other)
            == occurrences(headers, other),
{
    law_removed_header_is_gone(headers, name, other);
    lemma_value_push(without(headers, name), (name, value), other);
    assert(with_header(headers, name, value).drop_last() =~= without(headers, name));
}

/// The value of the first header called `name`.
pub fn find_header<'a>(headers: &'a Vec<(String, String)>, name: &str) -> (r: Option<&'a str>)
    ensures
        match r {
            Some(v) => header_value(config::text_pairs(headers@), name@) == Some(v@),
            None => header_value(config::text_pairs(headers@), name@) is None,
        },
{
    let ghost all = config::text_pairs(headers@);
    assert(all.skip(0) =~= all);
    let mut i: usize = 0;
    while i < headers.len()
        invariant
            i <= headers.len(),
            all == config::text_pairs(headers@),
            header_value(all, name@) == header_value(all.skip(i as int), name@),
        decreases headers.len() - i,
    {
        assert(all.skip(i as int)[0] == all[i as int]);
        if text::eq_ignore_case(headers[i].0.as_str(), name) {
            return Some(headers[i].1.as_str());
        }
        assert(all.skip(i as int).skip(1) =~= all.skip(i + 1));
        i += 1;
    }
    None
}

/// Removes every header called `name`.
pub fn remove_header(headers: &Vec<(String, String)>, name: &str) -> (r: Vec<(String, String)>)
    ensures
        config::text_pairs(r@) == without(config::text_pairs(headers@), name@),
{
    let ghost all = config::text_pairs(headers@);
    let mut out: Vec<(String, String)> = Vec::new();
    let mut i: usize = 0;
    assert(config::text_pairs(out@) =~= all.take(0));
    while i < headers.len()
        invariant
            i <= headers.len(),
            all == config::text_pairs(headers@),
            config::text_pairs(out@) == without(all.take(i as int), name@),
        decreases headers.len() - i,
    {
        assert(all.take(i + 1).drop_last() =~= all.take(i as int));
        if !text::eq_ignore_case(headers[i].0.as_str(), name) {
            let kept: (String, String) = (headers[i].0.clone(), headers[i].1.clone());
            proof {
                config::lemma_text_pairs_push(out@, kept);
            }
            out.push(kept);
        }
        i += 1;
    }
    assert(all.take(i as int) =~= all);
    out
}

/// Replaces or adds the header called `name`.
pub fn set_header(headers: &Vec<(String, String)>, name: &str, value: &str) -> (r: Vec<
    (String, String),
>)
    ensures
        config::text_pairs(r@) == with_header(config::text_pairs(headers@), name@, value@),
{
    let mut out: Vec<(String, String)> = remove_header(headers, name);
    let added: (String, String) = (name.to_owned(), value.to_owned());
    proof {
        config::lemma_text_pairs_push(out@, added);
    }
    out.push(added);
    out
}

// ---------------------------------------------------------------------------
// Requests
// ---------------------------------------------------------------------------

/// What the modules read of a request.
#[derive(Debug)]
pub struct Request {
    pub method: String,
    pub path: String,
    pub query: String,
    /// The client's address after trusted-proxy resolution.
    pub remote_ip: String,
    /// The canonical site key that the router resolved; empty where the request
    /// matched no virtual host.
    pub site: String,
    pub headers: Vec<(String, String)>,
}

/// The mathematical reading of [`Request`].
pub struct RequestModel {
    pub method: Seq<char>,
    pub path: Seq<char>,
    pub query: Seq<char>,
    pub remote_ip: Seq<char>,
    pub site: Seq<char>,
    pub headers: Headers,
}

impl View for Request {
    type V = RequestModel;

    open spec fn view(&self) -> RequestModel {
        RequestModel {
            method: self.method@,
            path: self.path@,
            query: self.query@,
            remote_ip: self.remote_ip@,
            site: self.site@,
            headers: config::text_pairs(self.headers@),
        }
    }
}

impl RequestModel {
    /// The value of the header called `name`.
    pub open spec fn header(self, name: Seq<char>) -> Option<Seq<char>> {
        header_value(self.headers, name)
    }

    /// The tenant that the request belongs to, if any.
    pub open spec fn vhost_id(self) -> Option<Seq<char>> {
        if self.site.len() == 0 {
            None
        } else {
            Some(self.site)
        }
    }
}

impl Request {
    /// The value of the header called `name`.
    pub fn header(&self, name: &str) -> (r: Option<&str>)
        ensures
            match r {
                Some(v) => self@.header(name@) == Some(v@),
                None => self@.header(name@) is None,
            },
    {
        find_header(&self.headers, name)
    }

    /// The tenant that the request belongs to: `None` where the request matched
    /// no virtual host, never the `Host` header that a client sent.
    pub fn vhost_id(&self) -> (r: Option<&str>)
        ensures
            match r {
                Some(v) => self@.vhost_id() == Some(v@),
                None => self@.vhost_id() is None,
            },
    {
        if self.site.as_str().is_empty() {
            None
        } else {
            Some(self.site.as_str())
        }
    }
}

// ---------------------------------------------------------------------------
// Verdicts of the request phase
// ---------------------------------------------------------------------------

/// What happens to a request.
#[derive(Clone, Copy, Debug, PartialEq, Eq, Structural)]
pub enum Action {
    /// Serve the request.
    Continue,
    /// Serve the request with request headers replaced.
    Rewrite,
    /// Answer at once; the request is not served.
    Respond,
}

/// A verdict of the request phase.
#[derive(Debug)]
pub struct Response {
    pub action: Action,
    /// The status of an immediate answer; zero otherwise.
    pub status: u16,
    /// The body of an immediate answer; empty otherwise.
    pub body: Vec<u8>,
    /// Headers of an immediate answer, or request headers to replace.
    pub headers: Vec<(String, String)>,
    /// Headers for the eventual response of a request that is served.
    pub response_headers: Vec<(String, String)>,
}

/// The mathematical reading of [`Response`].
pub struct ResponseModel {
    pub action: Action,
    pub status: u16,
    pub body: Seq<u8>,
    pub headers: Headers,
    pub response_headers: Headers,
}

impl View for Response {
    type V = ResponseModel;

    open spec fn view(&self) -> ResponseModel {
        ResponseModel {
            action: self.action,
            status: self.status,
            body: self.body@,
            headers: config::text_pairs(self.headers@),
            response_headers: config::text_pairs(self.response_headers@),
        }
    }
}

impl ResponseModel {
    pub open spec fn verdict(action: Action) -> ResponseModel {
        ResponseModel {
            action,
            status: 0,
            body: Seq::empty(),
            headers: Seq::empty(),
            response_headers: Seq::empty(),
        }
    }

    /// The request is served as it is.
    pub open spec fn cont() -> ResponseModel {
        Self::verdict(Action::Continue)
    }

    /// The request is served with headers replaced.
    pub open spec fn rewrite() -> ResponseModel {
        Self::verdict(Action::Rewrite)
    }

    /// The request is answered at once.
    pub open spec fn respond(status: u16, body: Seq<char>) -> ResponseModel {
        ResponseModel { status, body: encode_utf8(body), ..Self::verdict(Action::Respond) }
    }

    pub open spec fn header(self, name: Seq<char>, value: Seq<char>) -> ResponseModel {
        ResponseModel { headers: self.headers.push((name, value)), ..self }
    }

    pub open spec fn response_header(self, name: Seq<char>, value: Seq<char>) -> ResponseModel {
        ResponseModel { response_headers: self.response_headers.push((name, value)), ..self }
    }
}

impl Response {
    fn verdict(action: Action) -> (r: Response)
        ensures
            r@ == ResponseModel::verdict(action),
    {
        let r: Response = Response {
            action,
            status: 0,
            body: Vec::new(),
            headers: Vec::new(),
            response_headers: Vec::new(),
        };
        assert(r@.headers =~= Seq::empty());
        assert(r@.response_headers =~= Seq::empty());
        r
    }

    /// The request is served as it is.
    pub fn cont() -> (r: Response)
        ensures
            r@ == ResponseModel::cont(),
    {
        Self::verdict(Action::Continue)
    }

    /// The request is served with headers replaced.
    pub fn rewrite() -> (r: Response)
        ensures
            r@ == ResponseModel::rewrite(),
    {
        Self::verdict(Action::Rewrite)
    }

    /// The request is answered at once.
    pub fn respond(status: u16, body: &str) -> (r: Response)
        ensures
            r@ == ResponseModel::respond(status, body@),
    {
        let mut r: Response = Self::verdict(Action::Respond);
        r.status = status;
        r.body = body.as_bytes_vec();
        r
    }

    /// Adds a header: of the answer, or of the request where it is rewritten.
    pub fn header(self, name: &str, value: &str) -> (r: Response)
        ensures
            r@ == self@.header(name@, value@),
    {
        let mut r: Response = self;
        let added: (String, String) = (name.to_owned(), value.to_owned());
        proof {
            config::lemma_text_pairs_push(r.headers@, added);
        }
        r.headers.push(added);
        r
    }

    /// Adds a header to the eventual response.
    pub fn response_header(self, name: &str, value: &str) -> (r: Response)
        ensures
            r@ == self@.response_header(name@, value@),
    {
        let mut r: Response = self;
        let added: (String, String) = (name.to_owned(), value.to_owned());
        proof {
            config::lemma_text_pairs_push(r.response_headers@, added);
        }
        r.response_headers.push(added);
        r
    }
}

// ---------------------------------------------------------------------------
// Verdicts that need the key-value store
// ---------------------------------------------------------------------------

/// The first half of a decision, which is the verdict or the one call to the
/// key-value store that decides it.
#[derive(Debug)]
pub enum Step {
    /// The verdict, without any call.
    Done(Response),
    /// Read this key from the store of the site that serves the request.
    Get(String),
    /// Read this key from the process-wide store.
    GetGlobal(String),
    /// Add to the counter under this key in the site's store, and give the key
    /// this time to live where the call creates it.
    IncrTtl { key: String, by: i64, ttl_secs: i64 },
}

/// The mathematical reading of [`Step`].
pub enum StepModel {
    Done(ResponseModel),
    Get(Seq<char>),
    GetGlobal(Seq<char>),
    IncrTtl { key: Seq<char>, by: i64, ttl_secs: i64 },
}

impl View for Step {
    type V = StepModel;

    open spec fn view(&self) -> StepModel {
        match self {
            Step::Done(r) => StepModel::Done(r@),
            Step::Get(key) => StepModel::Get(key@),
            Step::GetGlobal(key) => StepModel::GetGlobal(key@),
            Step::IncrTtl { key, by, ttl_secs } => StepModel::IncrTtl {
                key: key@,
                by: *by,
                ttl_secs: *ttl_secs,
            },
        }
    }
}

// ---------------------------------------------------------------------------
// The response phase
// ---------------------------------------------------------------------------

/// A buffered reply on its way to the client.
#[derive(Debug)]
pub struct Reply {
    pub status: u16,
    pub headers: Vec<(String, String)>,
    pub body: Vec<u8>,
}

/// The mathematical reading of [`Reply`].
pub struct ReplyModel {
    pub status: u16,
    pub headers: Headers,
    pub body: Seq<u8>,
}

impl View for Reply {
    type V = ReplyModel;

    open spec fn view(&self) -> ReplyModel {
        ReplyModel {
            status: self.status,
            headers: config::text_pairs(self.headers@),
            body: self.body@,
        }
    }
}

impl ReplyModel {
    pub open spec fn header(self, name: Seq<char>) -> Option<Seq<char>> {
        header_value(self.headers, name)
    }
}

/// A reply and the edits that modules have asked for. Reads see the reply as it
/// came; the edits take effect when the view is applied.
#[derive(Debug)]
pub struct ResponseView {
    pub reply: Reply,
    pub set: Vec<(String, String)>,
    pub remove: Vec<String>,
    pub body: Option<Vec<u8>>,
}

/// The mathematical reading of [`ResponseView`].
pub struct EditsModel {
    pub reply: ReplyModel,
    pub set: Headers,
    pub remove: Seq<Seq<char>>,
    pub body: Option<Seq<u8>>,
}

impl View for ResponseView {
    type V = EditsModel;

    open spec fn view(&self) -> EditsModel {
        EditsModel {
            reply: self.reply@,
            set: config::text_pairs(self.set@),
            remove: config::texts(self.remove@),
            body: match self.body {
                Some(b) => Some(b@),
                None => None,
            },
        }
    }
}

impl EditsModel {
    /// A reply without any edits.
    pub open spec fn of(reply: ReplyModel) -> EditsModel {
        EditsModel { reply, set: Seq::empty(), remove: Seq::empty(), body: None }
    }

    pub open spec fn set_header(self, name: Seq<char>, value: Seq<char>) -> EditsModel {
        EditsModel { set: self.set.push((name, value)), ..self }
    }

    pub open spec fn remove_header(self, name: Seq<char>) -> EditsModel {
        EditsModel { remove: self.remove.push(name), ..self }
    }

    pub open spec fn set_body(self, body: Seq<u8>) -> EditsModel {
        EditsModel { body: Some(body), ..self }
    }

    /// The reply that the client gets: removals first, then assignments, then
    /// the body.
    pub open spec fn applied(self) -> ReplyModel {
        ReplyModel {
            status: self.reply.status,
            headers: with_all(without_all(self.reply.headers, self.remove), self.set),
            body: match self.body {
                Some(b) => b,
                None => self.reply.body,
            },
        }
    }
}

impl ResponseView {
    /// A reply without any edits.
    pub fn new(reply: Reply) -> (r: ResponseView)
        ensures
            r@ == EditsModel::of(reply@),
    {
        let r: ResponseView = ResponseView {
            reply,
            set: Vec::new(),
            remove: Vec::new(),
            body: None,
        };
        assert(r@.set =~= Seq::empty());
        assert(r@.remove =~= Seq::empty());
        r
    }

    /// The value of a header of the reply as it came.
    pub fn header(&self, name: &str) -> (r: Option<&str>)
        ensures
            match r {
                Some(v) => self@.reply.header(name@) == Some(v@),
                None => self@.reply.header(name@) is None,
            },
    {
        find_header(&self.reply.headers, name)
    }

    /// Asks for a header to be replaced or added.
    pub fn set_header(&mut self, name: &str, value: &str)
        ensures
            final(self)@ == old(self)@.set_header(name@, value@),
    {
        let added: (String, String) = (name.to_owned(), value.to_owned());
        proof {
            config::lemma_text_pairs_push(self.set@, added);
        }
        self.set.push(added);
    }

    /// Asks for a header to be removed.
    pub fn remove_header(&mut self, name: &str)
        ensures
            final(self)@ == old(self)@.remove_header(name@),
    {
        let added: String = name.to_owned();
        proof {
            config::lemma_texts_push(self.remove@, added);
        }
        self.remove.push(added);
    }

    /// Asks for the body to be replaced.
    pub fn set_body(&mut self, body: Vec<u8>)
        ensures
            final(self)@ == old(self)@.set_body(body@),
    {
        self.body = Some(body);
    }

    /// Makes the edits: removals first, then assignments, then the body.
    pub fn apply(self) -> (r: Reply)
        ensures
            r@ == self@.applied(),
    {
        let ghost before = config::text_pairs(self.reply.headers@);
        let ghost remove = config::texts(self.remove@);
        let ghost set = config::text_pairs(self.set@);
        let mut headers: Vec<(String, String)> = self.reply.headers;
        let mut i: usize = 0;
        assert(remove.take(0) =~= Seq::empty());
        while i < self.remove.len()
            invariant
                i <= self.remove.len(),
                remove == config::texts(self.remove@),
                config::text_pairs(headers@) == without_all(before, remove.take(i as int)),
            decreases self.remove.len() - i,
        {
            assert(remove.take(i + 1).drop_last() =~= remove.take(i as int));
            headers = remove_header(&headers, self.remove[i].as_str());
            i += 1;
        }
        assert(remove.take(i as int) =~= remove);
        let ghost between = config::text_pairs(headers@);
        let mut j: usize = 0;
        assert(set.take(0) =~= Seq::empty());
        while j < self.set.len()
            invariant
                j <= self.set.len(),
                set == config::text_pairs(self.set@),
                config::text_pairs(headers@) == with_all(between, set.take(j as int)),
            decreases self.set.len() - j,
        {
            assert(set.take(j + 1).drop_last() =~= set.take(j as int));
            headers = set_header(&headers, self.set[j].0.as_str(), self.set[j].1.as_str());
            j += 1;
        }
        assert(set.take(j as int) =~= set);
        Reply {
            status: self.reply.status,
            headers,
            body: match self.body {
                Some(b) => b,
                None => self.reply.body,
            },
        }
    }
}

// ---------------------------------------------------------------------------
// What edits do to a reply
// ---------------------------------------------------------------------------

/// The value that a list of assignments gives to a header: that of the last one.
pub open spec fn assigned(set: Headers, name: Seq<char>) -> Option<Seq<char>>
    decreases set.len(),
{
    if set.len() == 0 {
        None
    } else if text::same_ignoring_case(name, set.last().0) {
        Some(set.last().1)
    } else {
        assigned(set.drop_last(), name)
    }
}

/// A header is on the list of names.
pub open spec fn listed(names: Seq<Seq<char>>, name: Seq<char>) -> bool {
    exists|i: int| 0 <= i < names.len() && text::same_ignoring_case(name, #[trigger] names[i])
}

proof fn lemma_without_all(headers: Headers, names: Seq<Seq<char>>, name: Seq<char>)
    ensures
        header_value(without_all(headers, names), name) == (if listed(names, name) {
            None
        } else {
            header_value(headers, name)
        }),
        occurrences(without_all(headers, names), name) == (if listed(names, name) {
            0
        } else {
            occurrences(headers, name)
        }),
    decreases names.len(),
{
    if names.len() > 0 {
        let before = names.drop_last();
        lemma_without_all(headers, before, name);
        law_removed_header_is_gone(without_all(headers, before), names.last(), name);
        if listed(before, name) {
            let i = choose|i: int|
                0 <= i < before.len() && text::same_ignoring_case(name, #[trigger] before[i]);
            assert(names[i] == before[i]);
        }
        if listed(names, name) && !listed(before, name) {
            let i = choose|i: int|
                0 <= i < names.len() && text::same_ignoring_case(name, #[trigger] names[i]);
            if i < before.len() {
                assert(before[i] == names[i]);
            }
        }
        if text::same_ignoring_case(name, names.last()) {
            assert(text::same_ignoring_case(name, names[names.len() - 1]));
        }
    }
}

proof fn lemma_with_all(headers: Headers, set: Headers, name: Seq<char>)
    ensures
        header_value(with_all(headers, set), name) == (match assigned(set, name) {
            Some(v) => Some(v),
            None => header_value(headers, name),
        }),
        occurrences(with_all(headers, set), name) == (match assigned(set, name) {
            Some(_) => 1,
            None => occurrences(headers, name),
        }),
    decreases set.len(),
{
    if set.len() > 0 {
        lemma_with_all(headers, set.drop_last(), name);
        law_set_header_is_read(
            with_all(headers, set.drop_last()),
            set.last().0,
            set.last().1,
            name,
        );
    }
}

/// In an edited reply a header that was set stands once, with the value that was
/// set last; a header that was removed and not set is gone; every other header
/// is as it was. The status never changes.
pub proof fn law_edited_reply(edits: EditsModel, name: Seq<char>)
    ensures
        ({
            let sent = edits.applied();
            &&& sent.status == edits.reply.status
            &&& match assigned(edits.set, name) {
                Some(v) => sent.header(name) == Some(v) && occurrences(sent.headers, name) == 1,
                None => if listed(edits.remove, name) {
                    sent.header(name) is None && occurrences(sent.headers, name) == 0
                } else {
                    sent.header(name) == edits.reply.header(name) && occurrences(
                        sent.headers,
                        name,
                    ) == occurrences(edits.reply.headers, name)
                },
            }
        }),
{
    lemma_without_all(edits.reply.headers, edits.remove, name);
    lemma_with_all(without_all(edits.reply.headers, edits.remove), edits.set, name);
}

// ---------------------------------------------------------------------------
// What reading and building come to
// ---------------------------------------------------------------------------

/// A header reads as the first one of its name, in any case; a name that no header
/// has reads as nothing.
pub proof fn law_first_header_is_read(headers: Headers, name: Seq<char>, i: int)
    ensures
        0 <= i < headers.len() && text::same_ignoring_case(headers[i].0, name) && (forall|j: int|
            0 <= j < i ==> !text::same_ignoring_case((#[trigger] headers[j]).0, name))
            ==> header_value(headers, name) == Some(headers[i].1),
        (forall|j: int|
            0 <= j < headers.len() ==> !text::same_ignoring_case((#[trigger] headers[j]).0, name))
            ==> header_value(headers, name) is None,
    decreases headers.len(),
{
    if headers.len() > 0 {
        let rest = headers.skip(1);
        law_first_header_is_read(rest, name, i - 1);
        assert(forall|j: int| 0 <= j < rest.len() ==> #[trigger] rest[j] == headers[j + 1]);
        if !text::same_ignoring_case(headers[0].0, name) {
            if 0 <= i < headers.len() && text::same_ignoring_case(headers[i].0, name) && (forall|
                j: int,
            |
                0 <= j < i ==> !text::same_ignoring_case((#[trigger] headers[j]).0, name)) {
                assert(rest[i - 1] == headers[i]);
                assert forall|j: int| 0 <= j < i - 1 implies !text::same_ignoring_case(
                    (#[trigger] rest[j]).0,
                    name,
                ) by {
                    assert(rest[j] == headers[j + 1]);
                }
            }
            if forall|j: int|
                0 <= j < headers.len() ==> !text::same_ignoring_case(
                    (#[trigger] headers[j]).0,
                    name,
                ) {
                assert forall|j: int| 0 <= j < rest.len() implies !text::same_ignoring_case(
                    (#[trigger] rest[j]).0,
                    name,
                ) by {
                    assert(rest[j] == headers[j + 1]);
                }
            }
        } else {
            assert(!(forall|j: int|
                0 <= j < headers.len() ==> !text::same_ignoring_case(
                    (#[trigger] headers[j]).0,
                    name,
                ))) by {
                assert(text::same_ignoring_case(headers[0].0, name));
            }
            if i > 0 {
                assert(text::same_ignoring_case(headers[0].0, name));
            }
        }
    }
}

/// Removal takes away the headers of a name and keeps every other one, in order.
pub proof fn law_removal_keeps_the_others(headers: Headers, name: Seq<char>)
    ensures
        without(headers, name) == headers.filter(
            |h: (Seq<char>, Seq<char>)| !text::same_ignoring_case(h.0, name),
        ),
    decreases headers.len(),
{
    reveal(Seq::filter);
    if headers.len() > 0 {
        law_removal_keeps_the_others(headers.drop_last(), name);
    }
}

/// A header that is set goes behind all others of the reply, which stay as they
/// were.
pub proof fn law_set_header_stands_last(headers: Headers, name: Seq<char>, value: Seq<char>)
    ensures
        with_header(headers, name, value) == headers.filter(
            |h: (Seq<char>, Seq<char>)| !text::same_ignoring_case(h.0, name),
        ).push((name, value)),
{
    law_removal_keeps_the_others(headers, name);
}

/// The body of an edited reply is the one that was asked for last, or the one
/// that came; a reply without edits is sent as it came.
pub proof fn law_edited_body(edits: EditsModel, body: Seq<u8>)
    ensures
        edits.set_body(body).applied().body == body,
        edits.set_body(body).applied().headers == edits.applied().headers,
        edits.body is None ==> edits.applied().body == edits.reply.body,
        EditsModel::of(edits.reply).applied() == edits.reply,
{
}

/// What each verdict is made of.
pub proof fn law_verdicts(status: u16, body: Seq<char>, name: Seq<char>, value: Seq<char>, r: ResponseModel)
    ensures
        ResponseModel::cont().action == Action::Continue,
        ResponseModel::rewrite().action == Action::Rewrite,
        ResponseModel::respond(status, body).action == Action::Respond,
        ResponseModel::respond(status, body).status == status,
        ResponseModel::respond(status, body).body == encode_utf8(body),
        ResponseModel::respond(status, body).headers.len() == 0,
        ResponseModel::respond(status, body).response_headers.len() == 0,
        ResponseModel::cont().headers.len() == 0 && ResponseModel::cont().response_headers.len()
            == 0 && ResponseModel::cont().body.len() == 0 && ResponseModel::cont().status == 0,
        ResponseModel::rewrite().headers.len() == 0
            && ResponseModel::rewrite().response_headers.len() == 0
            && ResponseModel::rewrite().body.len() == 0 && ResponseModel::rewrite().status == 0,
        r.header(name, value).headers == r.headers + seq![(name, value)],
        r.header(name, value) == (ResponseModel { headers: r.header(name, value).headers, ..r }),
        r.response_header(name, value).response_headers == r.response_headers + seq![
            (name, value),
        ],
        r.response_header(name, value) == (ResponseModel {
            response_headers: r.response_header(name, value).response_headers,
            ..r
        }),
{
    assert(r.headers.push((name, value)) =~= r.headers + seq![(name, value)]);
    assert(r.response_headers.push((name, value)) =~= r.response_headers + seq![(name, value)]);
}

/// A request belongs to the site that it was matched to, whatever its headers
/// say, and to none where it was matched to none.
pub proof fn law_tenant_is_the_matched_site(req: RequestModel, headers: Headers)
    ensures
        req.site.len() > 0 ==> req.vhost_id() == Some(req.site),
        req.site.len() == 0 ==> req.vhost_id() is None,
        (RequestModel { headers, ..req }).vhost_id() == req.vhost_id(),
{
}

} // verus!

//! `basic-auth`: a whole site behind HTTP Basic authentication.
//!
//! A request with a known `Authorization: Basic` credential passes; every other
//! request is answered with `401` and a `WWW-Authenticate` challenge, whatever it
//! asks for. Credentials are compared in constant time, with every configured
//! one.
//!
//! | key | default | meaning |
//! |-----|---------|---------|
//! | `users` (object) | required | table from username to password, at least one entry |
//! | `realm` (string) | `"Restricted"` | realm of the challenge (no `"`, `\`, or control characters) |
//! | `forward_user_header` (string) | unset | request header that receives the username |
use vstd::prelude::*;
use vstd::string::*;
use vstd::utf8::*;

use crate::http::{Request, RequestModel, Response, ResponseModel};
use crate::json::{Json, JsonModel, NodeModel};
use crate::{codec, config, credential, text};

verus! {

/// One configured credential.
#[derive(Debug)]
pub struct Cred {
    pub username: String,
    /// `username:password` as bytes, which is what a decoded credential holds.
    pub userpass: Vec<u8>,
}

/// Access policy, built once by [`BasicAuth::init`].
#[derive(Debug)]
pub struct BasicAuth {
    pub creds: Vec<Cred>,
    pub realm: String,
    pub forward_user_header: Option<String>,
}

/// The mathematical reading of [`BasicAuth`]: each credential is a username and
/// the bytes of `username:password`.
pub struct BasicAuthModel {
    pub creds: Seq<(Seq<char>, Seq<u8>)>,
    pub realm: Seq<char>,
    pub forward_user_header: Option<Seq<char>>,
}

/// The texts and bytes of a list of credentials.
pub open spec fn cred_list(list: Seq<Cred>) -> Seq<(Seq<char>, Seq<u8>)> {
    list.map_values(|c: Cred| (c.username@, c.userpass@))
}

impl View for BasicAuth {
    type V = BasicAuthModel;

    open spec fn view(&self) -> BasicAuthModel {
        BasicAuthModel {
            creds: cred_list(self.creds@),
            realm: self.realm@,
            forward_user_header: config::text_opt(self.forward_user_header),
        }
    }
}

/// The bytes that a client sends, before Base64, for a username and a password.
pub open spec fn credential_of(username: Seq<char>, password: Seq<char>) -> Seq<u8> {
    encode_utf8(username + ":"@ + password)
}

/// The user of a presented credential: that of its last entry.
pub open spec fn user_for(
    creds: Seq<(Seq<char>, Seq<u8>)>,
    presented: Seq<u8>,
) -> Option<Seq<char>>
    decreases creds.len(),
{
    if creds.len() == 0 {
        None
    } else if creds.last().1 == presented {
        Some(creds.last().0)
    } else {
        user_for(creds.drop_last(), presented)
    }
}

/// The control characters.
pub open spec fn is_control(c: char) -> bool {
    (c as u32) < 0x20 || 0x7f <= c as u32 <= 0x9f
}

/// A realm that can stand between quotes in a header.
pub open spec fn realm_safe(realm: Seq<char>) -> bool {
    forall|i: int|
        0 <= i < realm.len() ==> {
            let c = #[trigger] realm[i];
            c != '"' && c != '\\' && !is_control(c)
        }
}

/// One member of the `users` setting.
pub open spec fn user_entry() -> spec_fn((Seq<char>, JsonModel)) -> Result<
    (Seq<char>, Seq<u8>),
    Seq<char>,
> {
    |m: (Seq<char>, JsonModel)|
        if m.0.len() == 0 || m.0.contains(':') {
            Err(
                "username "@ + codec::debug_text(m.0)
                    + " is invalid (empty, or contains `:` — the Basic credential separator)"@,
            )
        } else {
            match m.1.as_text() {
                Some(password) => Ok((m.0, credential_of(m.0, password))),
                None => Err(
                    "`users["@ + codec::debug_text(m.0) + "]` must be a string password"@,
                ),
            }
        }
}

impl BasicAuthModel {
    /// The Base64 text of a Basic credential in the `Authorization` header.
    pub open spec fn token(req: RequestModel) -> Option<Seq<char>> {
        match req.header("Authorization"@) {
            Some(value) => match value.index_of_first(' ') {
                Some(i) => if text::same_ignoring_case(value.take(i), "basic"@) {
                    Some(text::trimmed(value.skip(i + 1)))
                } else {
                    None
                },
                None => None,
            },
            None => None,
        }
    }

    /// The credential that a request presents.
    pub open spec fn presented(req: RequestModel) -> Option<Seq<u8>> {
        match Self::token(req) {
            Some(token) => codec::base64_standard(token),
            None => None,
        }
    }

    /// The answer to a request that is not authenticated.
    pub open spec fn challenge_response(self) -> ResponseModel {
        ResponseModel::respond(401, "authentication required"@).header(
            "WWW-Authenticate"@,
            "Basic realm=\""@ + self.realm + "\", charset=\"UTF-8\""@,
        )
    }

    /// The verdict for a presented credential.
    pub open spec fn verdict(self, presented: Option<Seq<u8>>) -> ResponseModel {
        match presented {
            None => self.challenge_response(),
            Some(credential) => match user_for(self.creds, credential) {
                None => self.challenge_response(),
                Some(username) => match self.forward_user_header {
                    Some(header) => ResponseModel::rewrite().header(header, username),
                    None => ResponseModel::cont(),
                },
            },
        }
    }

    /// The `users` setting.
    pub open spec fn users_setting(config: JsonModel) -> Result<
        Seq<(Seq<char>, Seq<u8>)>,
        Seq<char>,
    > {
        match config.setting("users"@) {
            None => Err("`users` is required and must be an object of username -> password"@),
            Some(v) => match v.node {
                NodeModel::Object(members) => if members.len() == 0 {
                    Err("`users` must have at least one entry"@)
                } else {
                    config::collect(members, user_entry())
                },
                _ => Err("`users` is required and must be an object of username -> password"@),
            },
        }
    }

    /// A setting that is a text and not empty.
    pub open spec fn filled_setting(config: JsonModel, key: Seq<char>) -> Result<
        Option<Seq<char>>,
        Seq<char>,
    > {
        match config.setting(key) {
            None => Ok(None),
            Some(v) => match v.as_text() {
                Some(s) => if s.len() == 0 {
                    Err(config::must_be(key, "a non-empty string"@, v.text))
                } else {
                    Ok(Some(s))
                },
                None => Err(config::must_be(key, "a non-empty string"@, v.text)),
            },
        }
    }

    /// The `realm` setting.
    pub open spec fn realm_setting(config: JsonModel) -> Result<Seq<char>, Seq<char>> {
        match Self::filled_setting(config, "realm"@) {
            Ok(None) => Ok("Restricted"@),
            Ok(Some(s)) => if realm_safe(s) {
                Ok(s)
            } else {
                Err("`realm` must not contain `\"`, `\\`, or control characters"@)
            },
            Err(e) => Err(e),
        }
    }

    /// The policy that a configuration describes, or the first setting that is
    /// refused.
    pub open spec fn configured(config: JsonModel) -> Result<BasicAuthModel, Seq<char>> {
        match (
            Self::users_setting(config),
            Self::realm_setting(config),
            Self::filled_setting(config, "forward_user_header"@),
        ) {
            (Err(e), _, _) => Err(e),
            (_, Err(e), _) => Err(e),
            (_, _, Err(e)) => Err(e),
            (Ok(creds), Ok(realm), Ok(forward_user_header)) => Ok(
                BasicAuthModel { creds, realm, forward_user_header },
            ),
        }
    }

    /// A configured credential: a username without a colon, and the bytes that
    /// it makes with some password.
    pub open spec fn cred_formed(cred: (Seq<char>, Seq<u8>)) -> bool {
        &&& cred.0.len() > 0
        &&& !cred.0.contains(':')
        &&& exists|password: Seq<char>| cred.1 == #[trigger] credential_of(cred.0, password)
    }

    /// What every configured policy keeps: there is someone to let in, every
    /// credential is well formed, and the realm can be quoted.
    pub open spec fn well_formed(self) -> bool {
        &&& self.creds.len() > 0
        &&& forall|i: int| 0 <= i < self.creds.len() ==> Self::cred_formed(#[trigger] self.creds[i])
        &&& realm_safe(self.realm)
    }
}

proof fn lemma_configured(config: JsonModel)
    requires
        BasicAuthModel::configured(config) is Ok,
    ensures
        BasicAuthModel::configured(config)->Ok_0.well_formed(),
{
    reveal_strlit("Restricted");
    let m = BasicAuthModel::configured(config)->Ok_0;
    let members = config.setting("users"@)->0.node->Object_0;
    config::lemma_collect_items(members, user_entry());
    assert forall|i: int| 0 <= i < m.creds.len() implies BasicAuthModel::cred_formed(
        #[trigger] m.creds[i],
    ) by {
        assert(user_entry()(members[i]) == Ok::<_, Seq<char>>(m.creds[i]));
        let password = members[i].1.as_text()->0;
        assert(m.creds[i].1 == credential_of(m.creds[i].0, password));
    }
}

fn read_users(config: &Json) -> (r: Result<Vec<Cred>, String>)
    ensures
        match r {
            Ok(list) => BasicAuthModel::users_setting(config@) == Ok::<_, Seq<char>>(
                cred_list(list@),
            ),
            Err(e) => BasicAuthModel::users_setting(config@) == Err::<
                Seq<(Seq<char>, Seq<u8>)>,
                _,
            >(e@),
        },
{
    let missing: &str = "`users` is required and must be an object of username -> password";
    let v: &Json = match config.setting("users") {
        None => return Err(missing.to_owned()),
        Some(v) => v,
    };
    let members: &Vec<(String, Json)> = match v.as_object() {
        Some(members) => members,
        None => return Err(missing.to_owned()),
    };
    if members.len() == 0 {
        return Err("`users` must have at least one entry".to_owned());
    }
    let mut out: Vec<Cred> = Vec::new();
    let ghost all = v@.node->Object_0;
    let ghost read = user_entry();
    let mut i: usize = 0;
    assert(cred_list(out@) =~= Seq::empty());
    while i < members.len()
        invariant
            i <= members.len(),
            all == members@.map_values(|m: (String, Json)| (m.0@, m.1@)),
            read == user_entry(),
            BasicAuthModel::users_setting(config@) == config::collect(all, read),
            config::collect(all.take(i as int), read) == Ok::<_, Seq<char>>(cred_list(out@)),
        decreases members.len() - i,
    {
        proof {
            config::lemma_collect_step(all, read, i as int);
        }
        let username: &str = members[i].0.as_str();
        if username.is_empty() || text::contains_char(username, ':') {
            proof {
                config::lemma_collect_refusal(all, read, i + 1);
            }
            return Err(
                "username ".to_owned().concat(codec::quoted(username).as_str()).concat(
                    " is invalid (empty, or contains `:` — the Basic credential separator)",
                ),
            );
        }
        match members[i].1.as_text() {
            Some(password) => {
                let userpass: Vec<u8> = username.to_owned().concat(":").concat(
                    password,
                ).as_str().as_bytes_vec();
                let cred: Cred = Cred { username: username.to_owned(), userpass };
                assert(cred_list(out@.push(cred)) =~= cred_list(out@).push(
                    (cred.username@, cred.userpass@),
                ));
                out.push(cred);
            },
            None => {
                proof {
                    config::lemma_collect_refusal(all, read, i + 1);
                }
                return Err(
                    "`users[".to_owned().concat(codec::quoted(username).as_str()).concat(
                        "]` must be a string password",
                    ),
                );
            },
        }
        i += 1;
    }
    assert(all.take(i as int) =~= all);
    Ok(out)
}

fn read_filled(config: &Json, key: &str) -> (r: Result<Option<String>, String>)
    ensures
        match r {
            Ok(s) => BasicAuthModel::filled_setting(config@, key@) == Ok::<_, Seq<char>>(
                config::text_opt(s),
            ),
            Err(e) => BasicAuthModel::filled_setting(config@, key@) == Err::<
                Option<Seq<char>>,
                _,
            >(e@),
        },
{
    match config.setting(key) {
        None => Ok(None),
        Some(v) => match v.as_text() {
            Some(s) => if s.is_empty() {
                Err(config::say_must_be(key, "a non-empty string", v.text.as_str()))
            } else {
                Ok(Some(s.to_owned()))
            },
            None => Err(config::say_must_be(key, "a non-empty string", v.text.as_str())),
        },
    }
}

/// Whether a realm can stand between quotes in a header.
fn is_realm_safe(realm: &str) -> (r: bool)
    ensures
        r == realm_safe(realm@),
{
    let x: Vec<char> = text::chars_of(realm);
    let mut i: usize = 0;
    while i < x.len()
        invariant
            x@ == realm@,
            i <= x.len(),
            forall|j: int|
                0 <= j < i ==> {
                    let c = #[trigger] x@[j];
                    c != '"' && c != '\\' && !is_control(c)
                },
        decreases x.len() - i,
    {
        let c: char = x[i];
        if c == '"' || c == '\\' || (c as u32) < 0x20 || (0x7f <= c as u32 && c as u32
            <= 0x9f) {
            assert(x@[i as int] == realm@[i as int]);
            return false;
        }
        i += 1;
    }
    true
}

impl BasicAuth {
    /// Reads the policy from a module's configuration.
    pub fn init(config: &Json) -> (r: Result<BasicAuth, String>)
        ensures
            match r {
                Ok(m) => {
                    &&& BasicAuthModel::configured(config@) == Ok::<_, Seq<char>>(m@)
                    &&& m@.well_formed()
                },
                Err(e) => BasicAuthModel::configured(config@) == Err::<BasicAuthModel, _>(e@),
            },
    {
        let creds: Vec<Cred> = match read_users(config) {
            Ok(list) => list,
            Err(e) => return Err(e),
        };
        let realm: String = match read_filled(config, "realm") {
            Ok(None) => "Restricted".to_owned(),
            Ok(Some(s)) => if is_realm_safe(s.as_str()) {
                s
            } else {
                return Err(
                    "`realm` must not contain `\"`, `\\`, or control characters".to_owned(),
                );
            },
            Err(e) => return Err(e),
        };
        let forward_user_header: Option<String> = match read_filled(config, "forward_user_header") {
            Ok(s) => s,
            Err(e) => return Err(e),
        };
        proof {
            lemma_configured(config@);
        }
        Ok(BasicAuth { creds, realm, forward_user_header })
    }

    /// What the module is, in one line.
    pub fn describe() -> (r: &'static str)
        ensures
            r@ == "basic-auth (HTTP Basic whole-site gate)"@,
    {
        "basic-auth (HTTP Basic whole-site gate)"
    }

    /// The decoded credential of an `Authorization: Basic` header; `None` where
    /// the header is absent, of another scheme, or not valid Base64. The scheme
    /// may be written in any case.
    pub fn presented(req: &Request) -> (r: Option<Vec<u8>>)
        ensures
            match r {
                Some(b) => BasicAuthModel::presented(req@) == Some(b@),
                None => BasicAuthModel::presented(req@) is None,
            },
    {
        let value: &str = match req.header("Authorization") {
            Some(value) => value,
            None => return None,
        };
        let x: Vec<char> = text::chars_of(value);
        let i: usize = match text::find_first(&x, ' ') {
            Some(i) => i,
            None => return None,
        };
        if !text::eq_ignore_case(value.substring_char(0, i), "basic") {
            return None;
        }
        codec::decode_base64(text::trim(value.substring_char(i + 1, x.len())))
    }

    /// Compares a presented credential with every configured one; the username
    /// that it belongs to, or `None`.
    pub fn authenticate(&self, presented: &[u8]) -> (r: Option<&str>)
        ensures
            match r {
                Some(username) => user_for(self@.creds, presented@) == Some(username@),
                None => user_for(self@.creds, presented@) is None,
            },
    {
        let ghost all = self@.creds;
        let mut matched: Option<&str> = None;
        let mut i: usize = 0;
        assert(all.take(0) =~= Seq::empty());
        while i < self.creds.len()
            invariant
                i <= self.creds.len(),
                all == cred_list(self.creds@),
                match matched {
                    Some(username) => user_for(all.take(i as int), presented@) == Some(username@),
                    None => user_for(all.take(i as int), presented@) is None,
                },
            decreases self.creds.len() - i,
        {
            assert(all.take(i + 1).drop_last() =~= all.take(i as int));
            assert(all.take(i + 1).last() == (
                self.creds@[i as int].username@,
                self.creds@[i as int].userpass@,
            ));
            if credential::ct_eq(presented, self.creds[i].userpass.as_slice()) {
                matched = Some(self.creds[i].username.as_str());
            }
            i += 1;
        }
        assert(all.take(i as int) =~= all);
        matched
    }

    /// The answer to a request that is not authenticated.
    pub fn challenge(&self) -> (r: Response)
        ensures
            r@ == self@.challenge_response(),
    {
        let value: String = "Basic realm=\"".to_owned().concat(self.realm.as_str()).concat(
            "\", charset=\"UTF-8\"",
        );
        Response::respond(401, "authentication required").header(
            "WWW-Authenticate",
            value.as_str(),
        )
    }

    /// The verdict for a presented credential.
    pub fn respond(&self, presented: Option<Vec<u8>>) -> (r: Response)
        ensures
            r@ == self@.verdict(
                match presented {
                    Some(b) => Some(b@),
                    None => None,
                },
            ),
    {
        let credential: Vec<u8> = match presented {
            Some(b) => b,
            None => return self.challenge(),
        };
        let username: &str = match self.authenticate(credential.as_slice()) {
            Some(username) => username,
            None => return self.challenge(),
        };
        match &self.forward_user_header {
            Some(header) => Response::rewrite().header(header.as_str(), username),
            None => Response::cont(),
        }
    }

    /// The verdict on a request.
    pub fn invoke(&self, req: &Request) -> (r: Response)
        ensures
            r@ == self@.verdict(BasicAuthModel::presented(req@)),
    {
        self.respond(Self::presented(req))
    }
}

// ---------------------------------------------------------------------------
// Who is let in
// ---------------------------------------------------------------------------

/// The guard looks at the `Authorization` header alone: path, query, method, site
/// and every other header make no difference.
pub proof fn law_gate_is_blind_to_the_target(
    p: BasicAuthModel,
    req: RequestModel,
    other: RequestModel,
)
    requires
        req.header("Authorization"@) == other.header("Authorization"@),
    ensures
        p.verdict(BasicAuthModel::presented(req)) == p.verdict(BasicAuthModel::presented(other)),
{
}

/// A request without a configured credential is challenged; one with a
/// configured credential passes.
pub proof fn law_only_known_credentials_pass(p: BasicAuthModel, presented: Option<Seq<u8>>)
    ensures
        ({
            let known = presented is Some && exists|i: int|
                0 <= i < p.creds.len() && (#[trigger] p.creds[i]).1 == presented->0;
            &&& known ==> p.verdict(presented).action != crate::http::Action::Respond
            &&& !known ==> p.verdict(presented) == p.challenge_response()
        }),
{
    if presented is Some {
        lemma_user_for(p.creds, presented->0);
    }
}

proof fn lemma_user_for(creds: Seq<(Seq<char>, Seq<u8>)>, presented: Seq<u8>)
    ensures
        user_for(creds, presented) is Some <==> exists|i: int|
            0 <= i < creds.len() && (#[trigger] creds[i]).1 == presented,
        user_for(creds, presented) is Some ==> exists|i: int|
            0 <= i < creds.len() && (#[trigger] creds[i]) == (
                user_for(creds, presented)->0,
                presented,
            ),
    decreases creds.len(),
{
    if creds.len() > 0 {
        let before = creds.drop_last();
        lemma_user_for(before, presented);
        assert(creds[creds.len() - 1] == creds.last());
        assert(forall|i: int| 0 <= i < before.len() ==> #[trigger] before[i] == creds[i]);
        if creds.last().1 != presented {
            if exists|i: int| 0 <= i < creds.len() && (#[trigger] creds[i]).1 == presented {
                let i = choose|i: int|
                    0 <= i < creds.len() && (#[trigger] creds[i]).1 == presented;
                assert(before[i].1 == presented);
            }
        }
    }
}

/// A credential belongs to one user and one password: under a configured policy
/// whoever presents `name:password` is let in as `name` or not at all.
pub proof fn law_credentials_are_unambiguous(
    p: BasicAuthModel,
    name: Seq<char>,
    password: Seq<char>,
)
    requires
        p.well_formed(),
        !name.contains(':'),
        user_for(p.creds, credential_of(name, password)) is Some,
    ensures
        user_for(p.creds, credential_of(name, password)) == Some(name),
{
    reveal_strlit(":");
    let presented = credential_of(name, password);
    lemma_user_for(p.creds, presented);
    let user = user_for(p.creds, presented)->0;
    let i = choose|i: int| 0 <= i < p.creds.len() && (#[trigger] p.creds[i]) == (user, presented);
    assert(BasicAuthModel::cred_formed(p.creds[i]));
    let known = choose|known: Seq<char>| p.creds[i].1 == #[trigger] credential_of(user, known);
    let a = user + ":"@ + known;
    let b = name + ":"@ + password;
    encode_utf8_decode_utf8(a);
    encode_utf8_decode_utf8(b);
    assert(a == b);
    assert(a[user.len() as int] == ':');
    assert(b[name.len() as int] == ':');
    if user.len() < name.len() {
        assert(b[user.len() as int] == name[user.len() as int]);
        assert(name.contains(name[user.len() as int]));
    } else if name.len() < user.len() {
        assert(a[name.len() as int] == user[name.len() as int]);
        assert(user.contains(user[name.len() as int]));
    }
    assert(user =~= a.take(user.len() as int));
    assert(name =~= b.take(user.len() as int));
}

/// Whoever presents a configured credential travels on under the name of that
/// very credential, at whatever place it is configured; the name is forwarded
/// alone and only where a header for it is configured.
pub proof fn law_users_are_forwarded_by_name(
    p: BasicAuthModel,
    presented: Seq<u8>,
    i: int,
)
    requires
        0 <= i < p.creds.len(),
        p.creds[i].1 == presented,
        forall|j: int| 0 <= j < p.creds.len() && j != i ==> (#[trigger] p.creds[j]).1 != presented,
    ensures
        p.forward_user_header is None ==> p.verdict(Some(presented)) == ResponseModel::cont(),
        p.forward_user_header is Some ==> p.verdict(Some(presented)).action
            == crate::http::Action::Rewrite && p.verdict(Some(presented)).headers == seq![
            (p.forward_user_header->0, p.creds[i].0),
        ],
{
    lemma_user_for(p.creds, presented);
    let user = user_for(p.creds, presented)->0;
    let j = choose|j: int| 0 <= j < p.creds.len() && (#[trigger] p.creds[j]) == (user, presented);
    assert(j == i);
    if p.forward_user_header is Some {
        assert(p.verdict(Some(presented)).headers =~= seq![
            (p.forward_user_header->0, p.creds[i].0),
        ]);
    }
}

/// The credential is what follows the word `Basic`, in any case, and a space,
/// read as Base64 without the white space around it; under another word, without
/// a space or without a header there is none.
pub proof fn law_basic_scheme_carries_the_credential(
    req: RequestModel,
    scheme: Seq<char>,
    rest: Seq<char>,
)
    requires
        !scheme.contains(' '),
    ensures
        req.header("Authorization"@) is None ==> BasicAuthModel::presented(req) is None,
        req.header("Authorization"@) == Some(scheme) ==> BasicAuthModel::presented(req) is None,
        req.header("Authorization"@) == Some(scheme + " "@ + rest) ==> BasicAuthModel::presented(
            req,
        ) == (if text::same_ignoring_case(scheme, "basic"@) {
            codec::base64_standard(text::trimmed(rest))
        } else {
            None
        }),
{
    reveal_strlit(" ");
    scheme.index_of_first_ensures(' ');
    let value = scheme + " "@ + rest;
    let n = scheme.len() as int;
    assert(value[n] == ' ');
    assert(value.contains(' '));
    value.index_of_first_ensures(' ');
    let i = value.index_of_first(' ')->0;
    assert(i == n) by {
        if i < n {
            assert(scheme.contains(scheme[i]));
        }
    }
    assert(value.take(n) =~= scheme);
    assert(value.skip(n + 1) =~= rest);
}

/// A request that is not let in is answered with `401` and a challenge that
/// quotes the realm.
pub proof fn law_challenge_quotes_the_realm(p: BasicAuthModel)
    ensures
        p.verdict(None).action == crate::http::Action::Respond,
        p.verdict(None).status == 401,
        p.verdict(None).body == encode_utf8("authentication required"@),
        p.verdict(None).headers == seq![
            ("WWW-Authenticate"@, "Basic realm=\""@ + p.realm + "\", charset=\"UTF-8\""@),
        ],
{
    assert(p.verdict(None).headers =~= seq![
        ("WWW-Authenticate"@, "Basic realm=\""@ + p.realm + "\", charset=\"UTF-8\""@),
    ]);
}

/// A realm is refused exactly where it holds a quote, a backslash or a control
/// character, at whatever place.
pub proof fn law_realms_can_be_quoted(realm: Seq<char>, i: int)
    ensures
        0 <= i < realm.len() && (realm[i] == '"' || realm[i] == '\\' || (realm[i] as int) < 32 || (
        127 <= realm[i] as int <= 159)) ==> !realm_safe(realm),
        (forall|j: int|
            0 <= j < realm.len() ==> {
                let n = #[trigger] realm[j] as int;
                n >= 32 && n != 34 && n != 92 && !(127 <= n <= 159)
            }) ==> realm_safe(realm),
{
    assert forall|j: int| 0 <= j < realm.len() implies #[trigger] realm[j] as u32
        == realm[j] as int by {
        lemma_code(realm[j]);
    }
    if 0 <= i < realm.len() && realm_safe(realm) {
        let c: char = realm[i];
        assert(!is_control(c));
    }
    if forall|j: int|
        0 <= j < realm.len() ==> {
            let n = #[trigger] realm[j] as int;
            n >= 32 && n != 34 && n != 92 && !(127 <= n <= 159)
        } {
        assert forall|j: int| 0 <= j < realm.len() implies {
            let c = #[trigger] realm[j];
            c != '"' && c != '\\' && !is_control(c)
        } by {
            let n = realm[j] as int;
        }
    }
}

/// A character is a number of 32 bits.
proof fn lemma_code(c: char)
    ensures
        c as u32 == c as int,
{
}

/// Every configured user becomes a credential, in order and completely: the name
/// and the bytes of the name, a colon and the password. The other settings are
/// read from their own keys.
pub proof fn law_settings(config: JsonModel, p: BasicAuthModel, i: int)
    requires
        BasicAuthModel::configured(config) == Ok::<_, Seq<char>>(p),
    ensures
        config.setting("users"@) is Some && config.setting("users"@)->0.node is Object,
        ({
            let members = config.setting("users"@)->0.node->Object_0;
            &&& members.len() == p.creds.len()
            &&& members.len() > 0
            &&& 0 <= i < members.len() ==> members[i].1.node is Text && p.creds[i].0
                == members[i].0 && p.creds[i].1 == encode_utf8(
                members[i].0 + ":"@ + members[i].1.node->Text_0,
            ) && members[i].0.len() > 0 && !members[i].0.contains(':')
        }),
        config.setting("realm"@) is None ==> p.realm == "Restricted"@,
        config.setting("realm"@) is Some ==> config.setting("realm"@)->0.node == NodeModel::Text(
            p.realm,
        ) && p.realm.len() > 0,
        config.setting("forward_user_header"@) is None ==> p.forward_user_header is None,
        config.setting("forward_user_header"@) is Some ==> p.forward_user_header is Some
            && config.setting("forward_user_header"@)->0.node == NodeModel::Text(
            p.forward_user_header->0,
        ) && p.forward_user_header->0.len() > 0,
{
    let members = config.setting("users"@)->0.node->Object_0;
    config::law_lists_are_read_whole(members, user_entry(), i);
    if 0 <= i < members.len() {
        assert(user_entry()(members[i]) == Ok::<_, Seq<char>>(p.creds[i]));
    }
}

/// A configuration is taken exactly where there is a user, every user has a name
/// without a colon and a text for a password, the realm can be quoted, and the
/// header has a name; of several refused settings the first is named.
pub proof fn law_taken_configurations(config: JsonModel)
    ensures
        ({
            let r = BasicAuthModel::configured(config);
            let u = BasicAuthModel::users_setting(config);
            let m = BasicAuthModel::realm_setting(config);
            let f = BasicAuthModel::filled_setting(config, "forward_user_header"@);
            let listed = config.setting("users"@) is Some && config.setting(
                "users"@,
            )->0.node is Object && config.setting("users"@)->0.node->Object_0.len() > 0 && (forall|
                j: int,
            |
                0 <= j < config.setting("users"@)->0.node->Object_0.len() ==> ({
                    let m = #[trigger] config.setting("users"@)->0.node->Object_0[j];
                    m.0.len() > 0 && !m.0.contains(':') && m.1.node is Text
                }));
            let named = |key: Seq<char>|
                config.setting(key) is None || (config.setting(key)->0.node is Text
                    && config.setting(key)->0.node->Text_0.len() > 0);
            let quotable = config.setting("realm"@) is None || realm_safe(
                config.setting("realm"@)->0.node->Text_0,
            );
            &&& u is Ok <==> listed
            &&& m is Ok <==> named("realm"@) && quotable
            &&& f is Ok <==> named("forward_user_header"@)
            &&& r is Ok <==> u is Ok && m is Ok && f is Ok
            &&& u is Err ==> r->Err_0 == u->Err_0
            &&& u is Ok && m is Err ==> r->Err_0 == m->Err_0
            &&& u is Ok && m is Ok && f is Err ==> r->Err_0 == f->Err_0
        }),
{
    if config.setting("users"@) is Some && config.setting("users"@)->0.node is Object {
        let members = config.setting("users"@)->0.node->Object_0;
        config::law_lists_are_taken_whole(members, user_entry());
        assert forall|j: int| 0 <= j < members.len() implies (user_entry()(
            #[trigger] members[j],
        ) is Ok <==> members[j].0.len() > 0 && !members[j].0.contains(':')
            && members[j].1.node is Text) by {}
    }
}

} // verus!

//! `jwt`: bearer tokens signed with HS256, checked before the request is served.
//!
//! A missing or malformed token is answered with `401`. A valid one lets the
//! request pass, and where `claims_header` is set its claims travel on in that
//! request header.
//!
//! | key | default | meaning |
//! |-----|---------|---------|
//! | `secret` (string) | required | shared secret |
//! | `issuer` (string) | unset | required `iss` claim |
//! | `audience` (string) | unset | required `aud` claim (text or array member) |
//! | `header` (string) | `"Authorization"` | header that carries the token; a `Bearer` prefix is stripped |
//! | `claims_header` (string) | unset | request header that receives the claims |
use vstd::arithmetic::div_mod::*;
use vstd::arithmetic::mul::*;
use vstd::arithmetic::power2::*;
use vstd::bits::*;
use vstd::prelude::*;
use vstd::string::*;
use vstd::utf8::*;

use hmac::Mac;

use crate::http::{Request, RequestModel, Response, ResponseModel};
use crate::json::{Json, JsonModel, Node, NodeModel};
use crate::{codec, config, json, text};

verus! {

/// Token policy, built once by [`Jwt::init`].
#[derive(Debug)]
pub struct Jwt {
    pub secret: Vec<u8>,
    pub issuer: Option<String>,
    pub audience: Option<String>,
    pub header: String,
    pub claims_header: Option<String>,
}

/// The mathematical reading of [`Jwt`].
pub struct JwtModel {
    pub secret: Seq<u8>,
    pub issuer: Option<Seq<char>>,
    pub audience: Option<Seq<char>>,
    pub header: Seq<char>,
    pub claims_header: Option<Seq<char>>,
}

impl View for Jwt {
    type V = JwtModel;

    open spec fn view(&self) -> JwtModel {
        JwtModel {
            secret: self.secret@,
            issuer: config::text_opt(self.issuer),
            audience: config::text_opt(self.audience),
            header: self.header@,
            claims_header: config::text_opt(self.claims_header),
        }
    }
}

// ---------------------------------------------------------------------------
// The signature
// ---------------------------------------------------------------------------

/// The HMAC-SHA256 code of a message under a key.
pub uninterp spec fn hmac_sha256(key: Seq<u8>, message: Seq<u8>) -> Seq<u8>;

/// `hmac::Hmac::<sha2::Sha256>`, keyed by `new_from_slice`, fed by `update` and
/// asked by `verify_slice` (a comparison in constant time): whether `tag` is the
/// whole code of the message. `new_from_slice` takes a key of any length.
#[verifier::external_body]
fn verify_hmac(key: &[u8], message: &[u8], tag: &[u8]) -> (r: bool)
    ensures
        r == (tag@ == hmac_sha256(key@, message@)),
{
    match hmac::Hmac::<sha2::Sha256>::new_from_slice(key) {
        Ok(mut mac) => {
            mac.update(message);
            mac.verify_slice(tag).is_ok()
        },
        Err(_) => false,
    }
}

// ---------------------------------------------------------------------------
// Dates
// ---------------------------------------------------------------------------

/// The floor of a double-precision number (IEEE 754 binary64) given by its bits,
/// where the number is finite, not negative and below 2^64. (A subnormal number
/// is below one, so its scale does not matter here.)
pub open spec fn float_floor(bits: u64) -> Option<u64> {
    let negative = bits / 0x8000_0000_0000_0000 == 1;
    let exponent = (bits / 0x10_0000_0000_0000) % 2048;
    let fraction = bits % 0x10_0000_0000_0000;
    let significand = if exponent == 0 {
        fraction as nat
    } else {
        (0x10_0000_0000_0000 + fraction) as nat
    };
    if exponent >= 1087 || (negative && significand != 0) {
        None
    } else {
        Some((significand * pow2(exponent as nat) / pow2(1075)) as u64)
    }
}

/// A date claim: whole seconds since the epoch, fractions rounded down.
pub open spec fn date(v: JsonModel) -> Option<u64> {
    match v.node {
        NodeModel::Number(n) => match n.unsigned {
            Some(seconds) => Some(seconds),
            None => match n.float_bits {
                Some(bits) => float_floor(bits),
                None => None,
            },
        },
        _ => None,
    }
}

proof fn lemma_scaled(significand: nat, exponent: nat)
    requires
        significand < pow2(53),
        exponent < 1087,
    ensures
        exponent < 1023 ==> significand * pow2(exponent) / pow2(1075) == 0,
        1023 <= exponent <= 1075 ==> significand * pow2(exponent) / pow2(1075) == significand
            / pow2((1075 - exponent) as nat),
        1075 < exponent ==> significand * pow2(exponent) / pow2(1075) == significand * pow2(
            (exponent - 1075) as nat,
        ) && significand * pow2((exponent - 1075) as nat) <= u64::MAX,
{
    lemma_pow2_pos(exponent);
    lemma_pow2_pos(1075);
    if exponent < 1023 {
        lemma_pow2_adds(53, exponent);
        lemma_mul_strict_inequality(significand as int, pow2(53) as int, pow2(exponent) as int);
        if 53 + exponent < 1075 {
            lemma_pow2_strictly_increases(53 + exponent, 1075);
        }
        lemma_basic_div((significand * pow2(exponent)) as int, pow2(1075) as int);
    } else if exponent <= 1075 {
        let down = (1075 - exponent) as nat;
        lemma_pow2_pos(down);
        lemma_pow2_adds(exponent, down);
        lemma_div_denominator(
            (significand * pow2(exponent)) as int,
            pow2(exponent) as int,
            pow2(down) as int,
        );
        lemma_div_multiples_vanish(significand as int, pow2(exponent) as int);
        lemma_mul_is_commutative(significand as int, pow2(exponent) as int);
    } else {
        let up = (exponent - 1075) as nat;
        lemma_pow2_pos(up);
        lemma_pow2_adds(up, 1075);
        lemma_mul_is_associative(significand as int, pow2(up) as int, pow2(1075) as int);
        lemma_div_multiples_vanish((significand * pow2(up)) as int, pow2(1075) as int);
        lemma_mul_is_commutative((significand * pow2(up)) as int, pow2(1075) as int);
        if up < 11 {
            lemma_pow2_strictly_increases(up, 11);
        }
        lemma_mul_upper_bound(
            significand as int,
            pow2(53) - 1,
            pow2(up) as int,
            pow2(11) as int,
        );
        lemma2_to64();
        lemma2_to64_rest();
    }
}

fn floor_bits(bits: u64) -> (r: Option<u64>)
    ensures
        r == float_floor(bits),
{
    let negative: bool = bits / 0x8000_0000_0000_0000 == 1;
    let exponent: u64 = (bits / 0x10_0000_0000_0000) % 2048;
    let fraction: u64 = bits % 0x10_0000_0000_0000;
    let significand: u64 = if exponent == 0 {
        fraction
    } else {
        0x10_0000_0000_0000 + fraction
    };
    if exponent >= 1087 || (negative && significand != 0) {
        return None;
    }
    proof {
        lemma2_to64();
        lemma2_to64_rest();
        lemma_scaled(significand as nat, exponent as nat);
    }
    if exponent < 1023 {
        Some(0)
    } else if exponent <= 1075 {
        proof {
            lemma_u64_shr_is_div(significand, (1075 - exponent) as u64);
        }
        Some(significand >> (1075 - exponent))
    } else {
        proof {
            lemma_u64_shl_is_mul(significand, (exponent - 1075) as u64);
        }
        Some(significand << (exponent - 1075))
    }
}

/// Reads a date claim (`exp`, `nbf`): an integer or a fraction, rounded down;
/// negative values and other JSON types are no dates.
pub fn numeric_date(v: &Json) -> (r: Option<u64>)
    ensures
        r == date(v@),
{
    match &v.node {
        Node::Number(n) => match n.unsigned {
            Some(seconds) => Some(seconds),
            None => match n.float_bits {
                Some(bits) => floor_bits(bits),
                None => None,
            },
        },
        _ => None,
    }
}

// ---------------------------------------------------------------------------
// Tokens
// ---------------------------------------------------------------------------

/// A header value without its optional `Bearer` prefix.
pub open spec fn bare_token(value: Seq<char>) -> Seq<char> {
    let all = text::trimmed(value);
    if all.len() >= 6 && text::same_ignoring_case(all.take(6), "bearer"@) && (all.len() == 6
        || all[6] == ' ') {
        text::trimmed_start(all.skip(6))
    } else {
        all
    }
}

/// The part of a token that its signature covers.
pub open spec fn signed_part(header: Seq<char>, payload: Seq<char>) -> Seq<u8> {
    encode_utf8(header + "."@ + payload)
}

impl JwtModel {
    /// The `aud` claim names the expected audience, as its text or among its
    /// items.
    pub open spec fn audience_named(claims: JsonModel, expected: Seq<char>) -> bool {
        match claims.get("aud"@) {
            Some(aud) => match aud.node {
                NodeModel::Text(s) => s == expected,
                NodeModel::Array(items) => exists|i: int|
                    0 <= i < items.len() && (#[trigger] items[i]).as_text() == Some(expected),
                _ => false,
            },
            None => false,
        }
    }

    /// What the policy asks of a token whose signature holds.
    pub open spec fn accepts(self, header: JsonModel, claims: JsonModel, now: u64) -> bool {
        &&& (match header.get("alg"@) {
            Some(alg) => alg.as_text() == Some("HS256"@),
            None => false,
        })
        &&& (match claims.get("exp"@) {
            Some(exp) => date(exp) is Some && date(exp)->0 > now,
            None => false,
        })
        &&& (match claims.get("nbf"@) {
            Some(nbf) => date(nbf) is Some && date(nbf)->0 <= now,
            None => true,
        })
        &&& (match self.issuer {
            Some(expected) => match claims.get("iss"@) {
                Some(iss) => iss.as_text() == Some(expected),
                None => false,
            },
            None => true,
        })
        &&& (match self.audience {
            Some(expected) => Self::audience_named(claims, expected),
            None => true,
        })
    }

    /// The claims of a token that is accepted at this time, as the text that was
    /// signed.
    pub open spec fn verified(self, token: Seq<char>, now: u64) -> Option<Seq<char>> {
        let parts = text::pieces(token, '.');
        if parts.len() != 3 {
            None
        } else {
            match (
                codec::base64_url(parts[2]),
                codec::base64_url(parts[0]),
                codec::base64_url(parts[1]),
            ) {
                (Some(signature), Some(header), Some(payload)) => match (
                    json::json_document(header),
                    json::json_document(payload),
                ) {
                    (Some(h), Some(claims)) => if signature == hmac_sha256(
                        self.secret,
                        signed_part(parts[0], parts[1]),
                    ) && self.accepts(h, claims, now) && valid_utf8(payload) {
                        Some(decode_utf8(payload))
                    } else {
                        None
                    },
                    _ => None,
                },
                _ => None,
            }
        }
    }

    /// The verdict once the token has been looked at.
    pub open spec fn verdict(self, claims: Option<Seq<char>>) -> ResponseModel {
        match claims {
            Some(text) => match self.claims_header {
                Some(name) => ResponseModel::rewrite().header(name, text),
                None => ResponseModel::cont(),
            },
            None => ResponseModel::respond(401, "invalid token"@),
        }
    }

    /// The token of the request, where there is one.
    pub open spec fn token(self, req: RequestModel) -> Option<Seq<char>> {
        match req.header(self.header) {
            Some(raw) => if bare_token(raw).len() == 0 {
                None
            } else {
                Some(bare_token(raw))
            },
            None => None,
        }
    }

    /// The verdict on a request at a time.
    pub open spec fn decision(self, req: RequestModel, now: u64) -> ResponseModel {
        match self.token(req) {
            Some(token) => self.verdict(self.verified(token, now)),
            None => ResponseModel::respond(401, "missing bearer token"@),
        }
    }

    /// The `secret` setting.
    pub open spec fn secret_setting(config: JsonModel) -> Result<Seq<u8>, Seq<char>> {
        match config.get("secret"@) {
            None => Err("`secret` is required (HS256 shared secret)"@),
            Some(v) => match v.as_text() {
                None => Err("`secret` must be a string"@),
                Some(s) => if s.len() == 0 {
                    Err("`secret` must not be empty"@)
                } else {
                    Ok(encode_utf8(s))
                },
            },
        }
    }

    /// What every configured policy keeps: there is a secret, and a header to
    /// read.
    pub open spec fn well_formed(self) -> bool {
        &&& self.secret.len() > 0
        &&& self.header.len() > 0
    }

    /// The policy that a configuration describes, or the first setting that is
    /// refused.
    pub open spec fn configured(config: JsonModel) -> Result<JwtModel, Seq<char>> {
        match (
            Self::secret_setting(config),
            config::filled(config::text_or(config, "issuer"@, None)),
            config::filled(config::text_or(config, "audience"@, None)),
            config::filled(config::text_or(config, "header"@, None)),
            config::filled(config::text_or(config, "claims_header"@, None)),
        ) {
            (Err(e), _, _, _, _) => Err(e),
            (_, Err(e), _, _, _) => Err(e),
            (_, _, Err(e), _, _) => Err(e),
            (_, _, _, Err(e), _) => Err(e),
            (_, _, _, _, Err(e)) => Err(e),
            (Ok(secret), Ok(issuer), Ok(audience), Ok(header), Ok(claims_header)) => Ok(
                JwtModel {
                    secret,
                    issuer,
                    audience,
                    header: match header {
                        Some(name) => name,
                        None => "Authorization"@,
                    },
                    claims_header,
                },
            ),
        }
    }
}

/// Strips an optional `Bearer` prefix, in any case. A bare `Bearer` yields the
/// empty text.
pub fn strip_bearer(value: &str) -> (r: &str)
    ensures
        r@ == bare_token(value@),
{
    let all: &str = text::trim(value);
    let n: usize = all.unicode_len();
    if n >= 6 && text::eq_ignore_case(all.substring_char(0, 6), "bearer") && (n == 6
        || all.get_char(6) == ' ') {
        return text::trim_start(all.substring_char(6, n));
    }
    all
}

/// Whether a member called `key` is the text `expected`.
fn member_is(v: &Json, key: &str, expected: &str) -> (r: bool)
    ensures
        r == (match v@.get(key@) {
            Some(m) => m.as_text() == Some(expected@),
            None => false,
        }),
{
    match v.get(key) {
        Some(m) => match m.as_text() {
            Some(s) => text::same(s, expected),
            None => false,
        },
        None => false,
    }
}

/// Whether the `aud` claim names the expected audience.
fn names_audience(claims: &Json, expected: &str) -> (r: bool)
    ensures
        r == JwtModel::audience_named(claims@, expected@),
{
    let aud: &Json = match claims.get("aud") {
        Some(aud) => aud,
        None => return false,
    };
    if let Some(s) = aud.as_text() {
        return text::same(s, expected);
    }
    let items: &Vec<Json> = match aud.as_array() {
        Some(items) => items,
        None => return false,
    };
    let ghost all = aud@.node->Array_0;
    let mut i: usize = 0;
    while i < items.len()
        invariant
            i <= items.len(),
            all == items@.map_values(|v: Json| v@),
            claims@.get("aud"@) == Some(aud@),
            aud@.node == NodeModel::Array(all),
            forall|j: int| 0 <= j < i ==> (#[trigger] all[j]).as_text() != Some(expected@),
        decreases items.len() - i,
    {
        assert(all[i as int] == items@[i as int]@);
        if let Some(s) = items[i].as_text() {
            if text::same(s, expected) {
                return true;
            }
        }
        i += 1;
    }
    false
}

proof fn lemma_configured(config: JsonModel)
    requires
        JwtModel::configured(config) is Ok,
    ensures
        JwtModel::configured(config)->Ok_0.well_formed(),
{
    reveal_strlit("Authorization");
    let secret = config.get("secret"@)->0.as_text()->0;
    assert(encode_utf8(secret).len() > 0) by {
        assert(encode_utf8(secret) == encode_scalar(secret[0] as u32) + encode_utf8(
            secret.drop_first(),
        ));
    }
}

impl Jwt {
    /// Reads the policy from a module's configuration.
    pub fn init(config: &Json) -> (r: Result<Jwt, String>)
        ensures
            match r {
                Ok(m) => {
                    &&& JwtModel::configured(config@) == Ok::<_, Seq<char>>(m@)
                    &&& m@.well_formed()
                },
                Err(e) => JwtModel::configured(config@) == Err::<JwtModel, _>(e@),
            },
    {
        let secret: Vec<u8> = match config.get("secret") {
            None => return Err("`secret` is required (HS256 shared secret)".to_owned()),
            Some(v) => match v.as_text() {
                None => return Err("`secret` must be a string".to_owned()),
                Some(s) => if s.is_empty() {
                    return Err("`secret` must not be empty".to_owned());
                } else {
                    s.as_bytes_vec()
                },
            },
        };
        let issuer: Option<String> = match config::opt_str(config, "issuer") {
            Ok(s) => s,
            Err(e) => return Err(e),
        };
        let audience: Option<String> = match config::opt_str(config, "audience") {
            Ok(s) => s,
            Err(e) => return Err(e),
        };
        let header: String = match config::opt_str(config, "header") {
            Ok(Some(name)) => name,
            Ok(None) => "Authorization".to_owned(),
            Err(e) => return Err(e),
        };
        let claims_header: Option<String> = match config::opt_str(config, "claims_header") {
            Ok(s) => s,
            Err(e) => return Err(e),
        };
        proof {
            lemma_configured(config@);
        }
        Ok(Jwt { secret, issuer, audience, header, claims_header })
    }

    /// Whether the policy accepts a token with this header and these claims,
    /// once its signature holds.
    pub fn accept(&self, header: &Json, claims: &Json, now: u64) -> (r: bool)
        ensures
            r == self@.accepts(header@, claims@, now),
    {
        if !member_is(header, "alg", "HS256") {
            return false;
        }
        let exp: Option<u64> = match claims.get("exp") {
            Some(v) => numeric_date(v),
            None => None,
        };
        match exp {
            Some(t) => if t <= now {
                return false;
            },
            None => return false,
        }
        if let Some(v) = claims.get("nbf") {
            match numeric_date(v) {
                Some(t) => if t > now {
                    return false;
                },
                None => return false,
            }
        }
        if let Some(expected) = &self.issuer {
            if !member_is(claims, "iss", expected.as_str()) {
                return false;
            }
        }
        if let Some(expected) = &self.audience {
            if !names_audience(claims, expected.as_str()) {
                return false;
            }
        }
        true
    }

    /// Verifies a token at time `now` (seconds since the epoch): the claims as
    /// they were signed, or `None` on any failure. The signature is checked
    /// before anything is parsed.
    pub fn verify(&self, token: &str, now: u64) -> (r: Option<String>)
        ensures
            match r {
                Some(claims) => self@.verified(token@, now) == Some(claims@),
                None => self@.verified(token@, now) is None,
            },
    {
        let parts: Vec<&str> = text::split(token, '.');
        let ghost all = text::pieces(token@, '.');
        assert(all.len() == parts.len());
        if parts.len() != 3 {
            return None;
        }
        assert(forall|i: int| 0 <= i < 3 ==> #[trigger] all[i] == parts@[i]@);
        let signature: Vec<u8> = match codec::decode_base64_url(parts[2]) {
            Some(b) => b,
            None => return None,
        };
        let message: Vec<u8> = parts[0].to_owned().concat(".").concat(parts[1]).as_str().as_bytes_vec();
        if !verify_hmac(self.secret.as_slice(), message.as_slice(), signature.as_slice()) {
            return None;
        }
        let header: Json = match codec::decode_base64_url(parts[0]) {
            Some(b) => match Json::parse(b.as_slice()) {
                Some(h) => h,
                None => return None,
            },
            None => return None,
        };
        let payload: Vec<u8> = match codec::decode_base64_url(parts[1]) {
            Some(b) => b,
            None => return None,
        };
        let claims: Json = match Json::parse(payload.as_slice()) {
            Some(c) => c,
            None => return None,
        };
        if !self.accept(&header, &claims, now) {
            return None;
        }
        codec::text_of(payload)
    }

    /// The verdict on a token, given the claims that it was verified with.
    pub fn respond(&self, claims: Option<String>) -> (r: Response)
        ensures
            r@ == self@.verdict(config::text_opt(claims)),
    {
        match claims {
            Some(text) => match &self.claims_header {
                Some(name) => Response::rewrite().header(name.as_str(), text.as_str()),
                None => Response::cont(),
            },
            None => Response::respond(401, "invalid token"),
        }
    }

    /// The verdict on a request at time `now` (seconds since the epoch).
    pub fn invoke(&self, req: &Request, now: u64) -> (r: Response)
        ensures
            r@ == self@.decision(req@, now),
    {
        let raw: &str = match req.header(self.header.as_str()) {
            Some(raw) => raw,
            None => return Response::respond(401, "missing bearer token"),
        };
        let token: &str = strip_bearer(raw);
        if token.is_empty() {
            return Response::respond(401, "missing bearer token");
        }
        self.respond(self.verify(token, now))
    }
}

// ---------------------------------------------------------------------------
// What a served request shows
// ---------------------------------------------------------------------------

/// A request that is not answered at once carries a token of three parts whose
/// signature is the HMAC-SHA256 code of the first two under the secret, whose
/// header names HS256, which expires later than now, is valid by now, and names
/// the configured issuer and audience.
pub proof fn law_served_requests_carry_genuine_tokens(p: JwtModel, req: RequestModel, now: u64)
    requires
        p.decision(req, now).action != crate::http::Action::Respond,
    ensures
        ({
            let parts = text::pieces(p.token(req)->0, '.');
            let header = codec::base64_url(parts[0])->0;
            let payload = codec::base64_url(parts[1])->0;
            &&& p.token(req) is Some
            &&& parts.len() == 3
            &&& codec::base64_url(parts[2]) == Some(
                hmac_sha256(p.secret, signed_part(parts[0], parts[1])),
            )
            &&& p.accepts(
                json::json_document(header)->0,
                json::json_document(payload)->0,
                now,
            )
        }),
{
}

/// Every refusal is a `401` that adds no header.
pub proof fn law_refusals_are_401(p: JwtModel, req: RequestModel, now: u64)
    requires
        p.decision(req, now).action == crate::http::Action::Respond,
    ensures
        p.decision(req, now).status == 401,
        p.decision(req, now).headers.len() == 0,
{
}

/// A token is accepted over one stretch of time: accepted at two moments, it is
/// accepted at every moment between them, with the same claims.
pub proof fn law_validity_is_an_interval(
    p: JwtModel,
    token: Seq<char>,
    early: u64,
    now: u64,
    late: u64,
)
    requires
        early <= now <= late,
        p.verified(token, early) is Some,
        p.verified(token, late) is Some,
    ensures
        p.verified(token, now) == p.verified(token, early),
        p.verified(token, late) == p.verified(token, early),
{
}

/// A token never comes back: refused after a moment at which it was accepted, it
/// stays refused.
pub proof fn law_expiry_is_final(p: JwtModel, token: Seq<char>, valid: u64, expired: u64, later: u64)
    requires
        valid <= expired <= later,
        p.verified(token, valid) is Some,
        p.verified(token, expired) is None,
    ensures
        p.verified(token, later) is None,
{
}

// ---------------------------------------------------------------------------
// What each check asks
// ---------------------------------------------------------------------------

/// With an audience configured and every other check passed, a list in `aud` is
/// enough exactly where one of its items, whichever, is the audience as a text; a
/// single text is enough exactly where it is the audience, and nothing else is
/// enough.
pub proof fn law_audience_is_any_item(
    p: JwtModel,
    expected: Seq<char>,
    header: JsonModel,
    claims: JsonModel,
    now: u64,
    i: int,
)
    requires
        p.audience == Some(expected),
        (JwtModel { audience: None, ..p }).accepts(header, claims, now),
    ensures
        claims.get("aud"@) is None ==> !p.accepts(header, claims, now),
        claims.get("aud"@) is Some ==> match claims.get("aud"@)->0.node {
            NodeModel::Text(s) => p.accepts(header, claims, now) <==> s == expected,
            NodeModel::Array(items) => {
                &&& 0 <= i < items.len() && items[i].node == NodeModel::Text(expected)
                    ==> p.accepts(header, claims, now)
                &&& (forall|j: int|
                    0 <= j < items.len() ==> (#[trigger] items[j]).node != NodeModel::Text(
                        expected,
                    )) ==> !p.accepts(header, claims, now)
            },
            _ => !p.accepts(header, claims, now),
        },
{
    if claims.get("aud"@) is Some {
        if let NodeModel::Array(items) = claims.get("aud"@)->0.node {
            if 0 <= i < items.len() && items[i].node == NodeModel::Text(expected) {
                assert(items[i].as_text() == Some(expected));
            }
        }
    }
}

/// The order of the items in `aud` and how often one is named make no difference,
/// and more items never turn an accepted token down.
pub proof fn law_audience_order_does_not_matter(
    p: JwtModel,
    header: JsonModel,
    claims: JsonModel,
    other: JsonModel,
    now: u64,
)
    requires
        claims.get("aud"@) is Some && claims.get("aud"@)->0.node is Array,
        other.get("aud"@) is Some && other.get("aud"@)->0.node is Array,
        forall|key: Seq<char>| key != "aud"@ ==> #[trigger] claims.get(key) == other.get(key),
        forall|v: JsonModel| #[trigger]
            claims.get("aud"@)->0.node->Array_0.contains(v)
                ==> other.get("aud"@)->0.node->Array_0.contains(v),
    ensures
        p.accepts(header, claims, now) ==> p.accepts(header, other, now),
        (forall|v: JsonModel| #[trigger]
            other.get("aud"@)->0.node->Array_0.contains(v)
                ==> claims.get("aud"@)->0.node->Array_0.contains(v)) ==> p.accepts(
            header,
            claims,
            now,
        ) == p.accepts(header, other, now),
{
    reveal_strlit("aud");
    reveal_strlit("exp");
    reveal_strlit("nbf");
    reveal_strlit("iss");
    assert("aud"@[0] != "exp"@[0] && "aud"@[0] != "nbf"@[0] && "aud"@[0] != "iss"@[0]);
    let (a, b) = (claims.get("aud"@)->0.node->Array_0, other.get("aud"@)->0.node->Array_0);
    assert(claims.get("exp"@) == other.get("exp"@));
    assert(claims.get("nbf"@) == other.get("nbf"@));
    assert(claims.get("iss"@) == other.get("iss"@));
    if p.audience is Some {
        let e = p.audience->0;
        if exists|i: int| 0 <= i < a.len() && (#[trigger] a[i]).as_text() == Some(e) {
            let i = choose|i: int| 0 <= i < a.len() && (#[trigger] a[i]).as_text() == Some(e);
            assert(a.contains(a[i]));
            let j = choose|j: int| 0 <= j < b.len() && b[j] == a[i];
            assert(b[j].as_text() == Some(e));
        }
        if forall|v: JsonModel| #[trigger] b.contains(v) ==> a.contains(v) {
            if exists|i: int| 0 <= i < b.len() && (#[trigger] b[i]).as_text() == Some(e) {
                let i = choose|i: int| 0 <= i < b.len() && (#[trigger] b[i]).as_text() == Some(e);
                assert(b.contains(b[i]));
                let j = choose|j: int| 0 <= j < a.len() && a[j] == b[i];
                assert(a[j].as_text() == Some(e));
            }
        }
    }
}

/// With an issuer configured and every other check passed, a token is accepted
/// exactly where its `iss` claim is that text.
pub proof fn law_issuer_is_the_configured_one(
    p: JwtModel,
    expected: Seq<char>,
    header: JsonModel,
    claims: JsonModel,
    now: u64,
)
    requires
        p.issuer == Some(expected),
        (JwtModel { issuer: None, ..p }).accepts(header, claims, now),
    ensures
        p.accepts(header, claims, now) <==> claims.get("iss"@) is Some && claims.get(
            "iss"@,
        )->0.node == NodeModel::Text(expected),
{
}

/// A token without a header that names HS256, or without a date of expiry, is
/// never accepted.
pub proof fn law_alg_and_expiry_are_required(
    p: JwtModel,
    header: JsonModel,
    claims: JsonModel,
    now: u64,
)
    requires
        p.accepts(header, claims, now),
    ensures
        header.get("alg"@) is Some && header.get("alg"@)->0.node == NodeModel::Text("HS256"@),
        claims.get("exp"@) is Some && claims.get("exp"@)->0.node is Number,
        claims.get("nbf"@) is Some ==> claims.get("nbf"@)->0.node is Number,
        p.issuer is Some ==> claims.get("iss"@) is Some,
        p.audience is Some ==> claims.get("aud"@) is Some,
{
}

/// A token that is accepted at some moment is accepted from its `nbf` second on,
/// or from the start where it has none, until its `exp` second has come.
pub proof fn law_dates_bound_the_token(
    p: JwtModel,
    header: JsonModel,
    claims: JsonModel,
    some: u64,
    now: u64,
)
    requires
        p.accepts(header, claims, some),
    ensures
        p.accepts(header, claims, now) <==> now < date(claims.get("exp"@)->0)->0 && (claims.get(
            "nbf"@,
        ) is Some ==> now >= date(claims.get("nbf"@)->0)->0),
{
}

/// A date that is an integer is itself; only numbers are dates.
pub proof fn law_integer_dates(v: JsonModel, numeral: json::Numeral, n: u64)
    ensures
        v.node == NodeModel::Number(numeral) && numeral.unsigned == Some(n) ==> date(v) == Some(n),
        !(v.node is Number) ==> date(v) is None,
        v.node == NodeModel::Number(numeral) && numeral.unsigned is None
            && numeral.float_bits is None ==> date(v) is None,
{
}

/// A date that is a fraction is rounded down: the double-precision number with
/// this exponent and fraction lies between the second and the next. Negative
/// numbers and those from 2^64 on are no dates.
pub proof fn law_fractional_dates(v: JsonModel, exponent: u64, fraction: u64, negative: bool)
    requires
        exponent < 2048,
        fraction < 0x10_0000_0000_0000,
        v.node is Number,
        v.node->Number_0.unsigned is None,
        v.node->Number_0.float_bits == Some(
            (exponent * 0x10_0000_0000_0000 + fraction + if negative {
                0x8000_0000_0000_0000int
            } else {
                0
            }) as u64,
        ),
    ensures
        ({
            let m = fraction + if exponent > 0 {
                0x10_0000_0000_0000int
            } else {
                0
            };
            let above = exponent >= 1087;
            &&& negative && m > 0 ==> date(v) is None
            &&& above ==> date(v) is None
            &&& !above && !(negative && m > 0) ==> date(v) is Some && {
                let n = date(v)->0 as int;
                n * pow2(1075) <= m * pow2(exponent as nat) < (n + 1) * pow2(1075)
            }
        }),
{
    let bits = v.node->Number_0.float_bits->0;
    let whole = exponent * 0x10_0000_0000_0000 + fraction;
    assert(whole < 0x8000_0000_0000_0000);
    assert(bits as int == whole + if negative {
        0x8000_0000_0000_0000int
    } else {
        0
    });
    assert((bits / 0x8000_0000_0000_0000 == 1) == negative);
    assert(bits / 0x10_0000_0000_0000 == exponent + if negative {
        2048int
    } else {
        0
    });
    assert((bits / 0x10_0000_0000_0000) % 2048 == exponent);
    assert(bits % 0x10_0000_0000_0000 == fraction);
    let m = (fraction + if exponent > 0 {
        0x10_0000_0000_0000int
    } else {
        0
    }) as nat;
    if exponent < 1087 && !(negative && m > 0) {
        lemma2_to64();
        lemma2_to64_rest();
        lemma_scaled(m, exponent as nat);
        lemma_pow2_pos(1075);
        let total = (m * pow2(exponent as nat)) as int;
        let d = pow2(1075) as int;
        lemma_fundamental_div_mod(total, d);
        lemma_mod_bound(total, d);
        let n = total / d;
        assert(0 <= n <= u64::MAX) by {
            if 1023 <= exponent <= 1075 {
                lemma_pow2_pos((1075 - exponent) as nat);
                lemma_div_is_ordered_by_denominator(
                    m as int,
                    1,
                    pow2((1075 - exponent) as nat) as int,
                );
                lemma_div_pos_is_pos(m as int, pow2((1075 - exponent) as nat) as int);
            }
        }
        assert(date(v) == Some(n as u64));
        lemma_mul_is_commutative(n, d);
        lemma_mul_is_distributive_add_other_way(d, n, 1);
        assert(n * d <= total < n * d + d);
        assert((n + 1) * d == n * d + d) by (nonlinear_arith);
    }
}

/// A token of three parts without a dot is verified exactly where its third part
/// is the code of the first two under the secret, and its header and its claims
/// are accepted; the claims come back as they were signed.
pub proof fn law_tokens_are_signed_whole(
    p: JwtModel,
    head: Seq<char>,
    body: Seq<char>,
    tail: Seq<char>,
    now: u64,
    claims: Seq<char>,
)
    requires
        !head.contains('.'),
        !body.contains('.'),
        !tail.contains('.'),
    ensures
        p.verified(head + "."@ + body + "."@ + tail, now) == Some(claims) <==> {
            &&& codec::base64_url(tail) == Some(
                hmac_sha256(p.secret, encode_utf8(head + "."@ + body)),
            )
            &&& codec::base64_url(head) is Some
            &&& codec::base64_url(body) is Some
            &&& json::json_document(codec::base64_url(head)->0) is Some
            &&& json::json_document(codec::base64_url(body)->0) is Some
            &&& p.accepts(
                json::json_document(codec::base64_url(head)->0)->0,
                json::json_document(codec::base64_url(body)->0)->0,
                now,
            )
            &&& valid_utf8(codec::base64_url(body)->0)
            &&& claims == decode_utf8(codec::base64_url(body)->0)
        },
{
    reveal_strlit(".");
    let parts = seq![head, body, tail];
    let token = head + "."@ + body + "."@ + tail;
    assert(parts.drop_last() =~= seq![head, body]);
    assert(seq![head, body].drop_last() =~= seq![head]);
    reveal_with_fuel(text::joined, 4);
    assert(text::joined(parts, '.') =~= token);
    text::law_joined_texts_come_apart(parts, '.');
}

/// A text with another number of dots is no token.
pub proof fn law_tokens_have_three_parts(p: JwtModel, parts: Seq<Seq<char>>, now: u64)
    requires
        parts.len() > 0,
        parts.len() != 3,
        forall|i: int| 0 <= i < parts.len() ==> !(#[trigger] parts[i]).contains('.'),
    ensures
        p.verified(text::joined(parts, '.'), now) is None,
{
    text::law_joined_texts_come_apart(parts, '.');
}

/// A `Bearer` in any case before a token, with one space or more behind it, is
/// stripped; a value without it, or with no space behind it, is taken whole.
pub proof fn law_bearer_is_stripped(scheme: Seq<char>, spaces: Seq<char>, token: Seq<char>)
    requires
        text::same_ignoring_case(scheme, "bearer"@),
        forall|i: int| 0 <= i < spaces.len() ==> #[trigger] spaces[i] == ' ',
        token.len() > 0,
        !text::is_white_space(token[0]),
        !text::is_white_space(token.last()),
    ensures
        bare_token(scheme + " "@ + spaces + token) == token,
        bare_token(scheme) == Seq::<char>::empty(),
        (token.len() < 6 || !text::same_ignoring_case(token.take(6), "bearer"@)) ==> bare_token(
            token,
        ) == token,
        token[0] != ' ' ==> bare_token(scheme + token) == scheme + token,
{
    reveal_strlit("bearer");
    reveal_strlit(" ");
    text::law_only_case_may_differ(scheme, "bearer"@);
    assert(scheme.len() == 6);
    let first = scheme[0];
    assert("bearer"@[0] as int == 98);
    assert("bearer"@[5] as int == 114);
    assert(!text::is_white_space(scheme[0]) && !text::is_white_space(scheme[5]));
    let value = scheme + " "@ + spaces + token;
    assert(value[0] == scheme[0]);
    assert(value.last() == token.last());
    text::lemma_trimmed_stays(value);
    assert(value.take(6) =~= scheme);
    assert(value[6] == ' ');
    let rest = value.skip(6);
    assert(rest =~= " "@ + spaces + token);
    lemma_spaces_go(" "@ + spaces, token);
    text::lemma_trimmed_stays(scheme);
    assert(scheme.take(6) =~= scheme);
    assert(scheme.skip(6) =~= Seq::<char>::empty());
    text::lemma_trimmed_stays(Seq::empty());
    text::lemma_trimmed_stays(token);
    let joint = scheme + token;
    assert(joint[0] == scheme[0]);
    assert(joint.last() == token.last());
    assert(joint[6] == token[0]);
    text::lemma_trimmed_stays(joint);
}

proof fn lemma_spaces_go(spaces: Seq<char>, token: Seq<char>)
    requires
        forall|i: int| 0 <= i < spaces.len() ==> #[trigger] spaces[i] == ' ',
        token.len() > 0,
        !text::is_white_space(token[0]),
    ensures
        text::trimmed_start(spaces + token) == token,
    decreases spaces.len(),
{
    if spaces.len() == 0 {
        assert(spaces + token =~= token);
    } else {
        assert((spaces + token)[0] == ' ');
        assert((spaces + token).drop_first() =~= spaces.drop_first() + token);
        lemma_spaces_go(spaces.drop_first(), token);
    }
}

/// A request without a token is told so; one with a token that holds is served,
/// with the claims in the configured header and nowhere else; any other is
/// refused.
pub proof fn law_requests_are_judged_by_their_token(
    p: JwtModel,
    req: RequestModel,
    now: u64,
    token: Seq<char>,
)
    ensures
        req.header(p.header) is None ==> p.decision(req, now) == ResponseModel::respond(
            401,
            "missing bearer token"@,
        ),
        req.header(p.header) is Some && bare_token(req.header(p.header)->0).len() == 0
            ==> p.decision(req, now) == ResponseModel::respond(401, "missing bearer token"@),
        req.header(p.header) is Some && bare_token(req.header(p.header)->0) == token && token.len()
            > 0 ==> match (p.verified(token, now), p.claims_header) {
            (None, _) => p.decision(req, now) == ResponseModel::respond(401, "invalid token"@),
            (Some(_), None) => p.decision(req, now).action == crate::http::Action::Continue
                && p.decision(req, now).headers.len() == 0,
            (Some(claims), Some(name)) => p.decision(req, now).action
                == crate::http::Action::Rewrite && p.decision(req, now).headers == seq![
                (name, claims),
            ],
        },
{
    if req.header(p.header) is Some && bare_token(req.header(p.header)->0) == token && token.len()
        > 0 {
        if p.verified(token, now) is Some && p.claims_header is Some {
            assert(p.decision(req, now).headers =~= seq![
                (p.claims_header->0, p.verified(token, now)->0),
            ]);
        }
    }
}

/// Every setting is read from its own key, an empty text counts as unset, and a
/// configuration with a secret and texts elsewhere is always taken.
pub proof fn law_settings(config: JsonModel, p: JwtModel)
    ensures
        JwtModel::configured(config) == Ok::<_, Seq<char>>(p) ==> {
            &&& config.get("secret"@) is Some && config.get("secret"@)->0.node is Text
            &&& p.secret == encode_utf8(config.get("secret"@)->0.node->Text_0)
            &&& config.get("secret"@)->0.node->Text_0.len() > 0
            &&& config::filled(config::text_or(config, "issuer"@, None)) == Ok::<_, Seq<char>>(
                p.issuer,
            )
            &&& config::filled(config::text_or(config, "audience"@, None)) == Ok::<_, Seq<char>>(
                p.audience,
            )
            &&& config::filled(config::text_or(config, "claims_header"@, None)) == Ok::<
                _,
                Seq<char>,
            >(p.claims_header)
            &&& (config.setting("header"@) is None ==> p.header == "Authorization"@)
            &&& (config.setting("header"@) is Some && config.setting("header"@)->0.node
                == NodeModel::Text(p.header) || p.header == "Authorization"@)
            &&& (config.setting("header"@) is Some && config.setting("header"@)->0.node is Text
                && config.setting("header"@)->0.node->Text_0.len() > 0 ==> config.setting(
                "header"@,
            )->0.node == NodeModel::Text(p.header))
        },
        (config.get("secret"@) is Some && config.get("secret"@)->0.node is Text && config.get(
            "secret"@,
        )->0.node->Text_0.len() > 0 && config::text_or(config, "issuer"@, None) is Ok
            && config::text_or(config, "audience"@, None) is Ok && config::text_or(
            config,
            "header"@,
            None,
        ) is Ok && config::text_or(config, "claims_header"@, None) is Ok)
            <==> JwtModel::configured(config) is Ok,
{
}

/// Of several refused settings the first is named: the secret, then the issuer,
/// the audience, the header and the header for the claims.
pub proof fn law_first_refusal_is_named(config: JsonModel)
    ensures
        ({
            let r = JwtModel::configured(config);
            let read = |key: Seq<char>| config::text_or(config, key, None);
            let (i, a, h, c) = (
                read("issuer"@),
                read("audience"@),
                read("header"@),
                read("claims_header"@),
            );
            let secret = JwtModel::secret_setting(config);
            &&& secret is Err ==> r is Err && r->Err_0 == secret->Err_0
            &&& secret is Ok && i is Err ==> r is Err && r->Err_0 == i->Err_0
            &&& secret is Ok && i is Ok && a is Err ==> r is Err && r->Err_0 == a->Err_0
            &&& secret is Ok && i is Ok && a is Ok && h is Err ==> r is Err && r->Err_0
                == h->Err_0
            &&& secret is Ok && i is Ok && a is Ok && h is Ok && c is Err ==> r is Err && r->Err_0
                == c->Err_0
        }),
{
}

} // verus!

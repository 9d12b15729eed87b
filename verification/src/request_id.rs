//! `request-id`: one correlation id per request, for the application and for the
//! client.
//!
//! The request phase takes a trusted inbound id, or a fresh UUID (version 4), puts
//! it into the request header and onto the response. The response phase adds the
//! header only where it is missing: a reply that no request phase saw gets an id
//! too, and no id is ever overwritten.
//!
//! | key | default | meaning |
//! |-----|---------|---------|
//! | `header` (string) | `"X-Request-Id"` | header that carries the id |
//! | `trust_inbound` (bool) | `false` | reuse a well-formed inbound id |
//!
//! An inbound id is trusted only where it is a short token of printable ASCII.
//! The random words of fresh ids come from the caller, which keeps the state of
//! the generator.
use vstd::arithmetic::div_mod::*;
use vstd::arithmetic::mul::*;
use vstd::prelude::*;
use vstd::string::*;

use crate::http::{
    EditsModel, ReplyModel, Request, RequestModel, Response, ResponseModel, ResponseView,
};
use crate::json::{Json, JsonModel};
use crate::{config, http, text};

verus! {

/// The longest inbound id that is reused.
pub const MAX_INBOUND_LEN: usize = 200;

/// Id policy, built once by [`RequestId::init`].
#[derive(Debug)]
pub struct RequestId {
    /// Header that carries the id.
    pub header: String,
    /// Whether a well-formed inbound id is reused.
    pub trust_inbound: bool,
}

/// The mathematical reading of [`RequestId`].
pub struct RequestIdModel {
    pub header: Seq<char>,
    pub trust_inbound: bool,
}

impl View for RequestId {
    type V = RequestIdModel;

    open spec fn view(&self) -> RequestIdModel {
        RequestIdModel { header: self.header@, trust_inbound: self.trust_inbound }
    }
}

// ---------------------------------------------------------------------------
// Random words
// ---------------------------------------------------------------------------

/// The state of the generator after one draw.
pub open spec fn next_state(state: u64) -> u64 {
    state.wrapping_add(0x9E37_79B9_7F4A_7C15)
}

/// The word that SplitMix64 makes of a state.
pub open spec fn mixed(state: u64) -> u64 {
    let a = (state ^ (state >> 30u64)).wrapping_mul(0xBF58_476D_1CE4_E5B9);
    let b = (a ^ (a >> 27u64)).wrapping_mul(0x94D0_49BB_1331_11EB);
    b ^ (b >> 31u64)
}

/// The word rotated to the left by some bits.
pub open spec fn rotated(v: u64, bits: u64) -> u64 {
    (v << bits) | (v >> ((64 - bits) as u64))
}

/// A process seed made from the clock and an address; never zero.
pub open spec fn fresh_seed(nanos: u64, addr: u64) -> u64 {
    let s = nanos ^ rotated(addr, 17) ^ 0xA5A5_5A5A_1234_ABCD;
    if s == 0 {
        0xDEAD_BEEF_CAFE_F00D
    } else {
        s
    }
}

/// The process seed with the number of a thread mixed in.
pub open spec fn numbered(seed: u64, thread: u64) -> u64 {
    seed.wrapping_mul(0x2545_F491_4F6C_DD1D).wrapping_add(rotated(thread, 32))
}

/// The first state of a thread's generator; never zero.
pub open spec fn first_state(seed: u64, thread: u64) -> u64 {
    let s = numbered(seed, thread);
    if s == 0 {
        1
    } else {
        s
    }
}

/// SplitMix64: a small, fast, well distributed generator, not a cryptographic
/// one.
pub fn splitmix64(state: &mut u64) -> (r: u64)
    ensures
        *final(state) == next_state(*old(state)),
        r == mixed(next_state(*old(state))),
{
    *state = (*state).wrapping_add(0x9E37_79B9_7F4A_7C15);
    let z: u64 = *state;
    let a: u64 = (z ^ (z >> 30u64)).wrapping_mul(0xBF58_476D_1CE4_E5B9);
    let b: u64 = (a ^ (a >> 27u64)).wrapping_mul(0x94D0_49BB_1331_11EB);
    b ^ (b >> 31u64)
}

/// The process seed: the one there is, or a fresh one where it is zero.
pub fn ensure_seed(seed: u64, nanos: u64, addr: u64) -> (r: u64)
    ensures
        r == (if seed == 0 {
            fresh_seed(nanos, addr)
        } else {
            seed
        }),
        r != 0,
{
    if seed != 0 {
        return seed;
    }
    let s: u64 = nanos ^ ((addr << 17u64) | (addr >> 47u64)) ^ 0xA5A5_5A5A_1234_ABCD;
    if s == 0 {
        0xDEAD_BEEF_CAFE_F00D
    } else {
        s
    }
}

/// Draws two words from a thread's generator. A state of zero is one that was
/// never used: it is set first, from the process seed and the number of the
/// thread.
pub fn next_u128(state: &mut u64, seed: u64, thread: u64) -> (r: (u64, u64))
    ensures
        ({
            let start = if *old(state) == 0 {
                first_state(seed, thread)
            } else {
                *old(state)
            };
            &&& r.0 == mixed(next_state(start))
            &&& r.1 == mixed(next_state(next_state(start)))
            &&& *final(state) == next_state(next_state(start))
        }),
{
    if *state == 0 {
        let s: u64 = seed.wrapping_mul(0x2545_F491_4F6C_DD1D).wrapping_add(
            (thread << 32u64) | (thread >> 32u64),
        );
        *state = if s == 0 {
            1
        } else {
            s
        };
    }
    let hi: u64 = splitmix64(state);
    let lo: u64 = splitmix64(state);
    (hi, lo)
}

// ---------------------------------------------------------------------------
// Ids
// ---------------------------------------------------------------------------

/// The lower-case hexadecimal digit for a number below sixteen.
pub open spec fn hex_char(n: u64) -> char {
    if n < 10 {
        (n + 48) as char
    } else {
        (n - 10 + 97) as char
    }
}

/// Digit `k` of a word in hexadecimal, counted from the left.
pub open spec fn hex_digit(v: u64, k: int) -> char {
    hex_char((v >> ((60 - 4 * k) as u64)) & 0xF)
}

/// Some digits of a word in hexadecimal.
pub open spec fn hex_digits(v: u64, from: int, to: int) -> Seq<char> {
    Seq::new((to - from) as nat, |k: int| hex_digit(v, from + k))
}

/// The high word with the version of the UUID set.
pub open spec fn versioned(hi: u64) -> u64 {
    (hi & 0xFFFF_FFFF_FFFF_0FFF) | 0x0000_0000_0000_4000
}

/// The low word with the variant of the UUID set.
pub open spec fn variant(lo: u64) -> u64 {
    (lo & 0x3FFF_FFFF_FFFF_FFFF) | 0x8000_0000_0000_0000
}

/// The UUID (version 4) made from two words.
pub open spec fn uuid(hi: u64, lo: u64) -> Seq<char> {
    let h = versioned(hi);
    let l = variant(lo);
    hex_digits(h, 0, 8) + "-"@ + hex_digits(h, 8, 12) + "-"@ + hex_digits(h, 12, 16) + "-"@
        + hex_digits(l, 0, 4) + "-"@ + hex_digits(l, 4, 16)
}

/// A printable ASCII character other than the space.
pub open spec fn is_graphic(c: char) -> bool {
    '!' <= c && c <= '~'
}

/// A safe id: printable ASCII without spaces, not empty and not too long.
pub open spec fn is_safe(id: Seq<char>) -> bool {
    &&& 0 < id.len() <= MAX_INBOUND_LEN
    &&& forall|i: int| 0 <= i < id.len() ==> is_graphic(#[trigger] id[i])
}

/// Whether an id is safe to pass on.
pub fn is_safe_id(id: &str) -> (r: bool)
    ensures
        r == is_safe(id@),
{
    let x: Vec<char> = text::chars_of(id);
    if x.len() == 0 || x.len() > MAX_INBOUND_LEN {
        return false;
    }
    let mut i: usize = 0;
    while i < x.len()
        invariant
            x@ == id@,
            i <= x.len(),
            forall|j: int| 0 <= j < i ==> is_graphic(#[trigger] x@[j]),
        decreases x.len() - i,
    {
        if !('!' <= x[i] && x[i] <= '~') {
            assert(!is_graphic(id@[i as int]));
            return false;
        }
        i += 1;
    }
    true
}

/// Writes some digits of a word in hexadecimal.
fn push_hex(out: &mut String, v: u64, from: u64, to: u64)
    requires
        from <= to <= 16,
    ensures
        final(out)@ == old(out)@ + hex_digits(v, from as int, to as int),
{
    let ghost start = out@;
    let mut k: u64 = from;
    assert(hex_digits(v, from as int, from as int) =~= Seq::empty());
    while k < to
        invariant
            from <= k <= to <= 16,
            out@ =~= start + hex_digits(v, from as int, k as int),
        decreases to - k,
    {
        let n: u64 = (v >> (60 - 4 * k)) & 0xF;
        assert(n <= 0xF) by {
            let w = v >> ((60 - 4 * k) as u64);
            assert(w & 0xF <= 0xF) by (bit_vector);
        }
        let c: char = if n < 10 {
            (n as u8 + 48) as char
        } else {
            (n as u8 - 10 + 97) as char
        };
        assert(hex_digits(v, from as int, k + 1) =~= hex_digits(v, from as int, k as int).push(
            hex_digit(v, k as int),
        ));
        out.push(c);
        k += 1;
    }
}

/// Makes a UUID (version 4) of two random words:
/// `xxxxxxxx-xxxx-4xxx-yxxx-xxxxxxxxxxxx`.
pub fn generate_id(hi: u64, lo: u64) -> (r: String)
    ensures
        r@ == uuid(hi, lo),
{
    let h: u64 = (hi & 0xFFFF_FFFF_FFFF_0FFF) | 0x0000_0000_0000_4000;
    let l: u64 = (lo & 0x3FFF_FFFF_FFFF_FFFF) | 0x8000_0000_0000_0000;
    let mut out: String = String::new();
    push_hex(&mut out, h, 0, 8);
    assert(out@ =~= hex_digits(h, 0, 8));
    out.append("-");
    push_hex(&mut out, h, 8, 12);
    out.append("-");
    push_hex(&mut out, h, 12, 16);
    out.append("-");
    push_hex(&mut out, l, 0, 4);
    out.append("-");
    push_hex(&mut out, l, 4, 16);
    out
}

impl RequestIdModel {
    /// The id of a request: a trusted inbound one, else a fresh one.
    pub open spec fn id(self, inbound: Option<Seq<char>>, hi: u64, lo: u64) -> Seq<char> {
        if self.trust_inbound && inbound is Some && is_safe(inbound->0) {
            inbound->0
        } else {
            uuid(hi, lo)
        }
    }

    /// The verdict of the request phase.
    pub open spec fn verdict(self, req: RequestModel, hi: u64, lo: u64) -> ResponseModel {
        let id = self.id(req.header(self.header), hi, lo);
        ResponseModel::rewrite().header(self.header, id).response_header(self.header, id)
    }

    /// The edits of the response phase.
    pub open spec fn edited(
        self,
        req: RequestModel,
        edits: EditsModel,
        hi: u64,
        lo: u64,
    ) -> EditsModel {
        if edits.reply.header(self.header) is Some {
            edits
        } else {
            edits.set_header(self.header, self.id(req.header(self.header), hi, lo))
        }
    }

    /// The policy that a configuration describes, or the first setting that is
    /// refused.
    pub open spec fn configured(config: JsonModel) -> Result<RequestIdModel, Seq<char>> {
        match config::text_or(config, "header"@, Some("X-Request-Id"@)) {
            Err(e) => Err(e),
            Ok(header) => if header->0.len() == 0 {
                Err("`header` must not be empty"@)
            } else {
                match config::bool_or(config, "trust_inbound"@, false) {
                    Err(e) => Err(e),
                    Ok(trust_inbound) => Ok(RequestIdModel { header: header->0, trust_inbound }),
                }
            },
        }
    }
}

impl RequestId {
    /// Reads the policy from a module's configuration.
    pub fn init(config: &Json) -> (r: Result<RequestId, String>)
        ensures
            match r {
                Ok(m) => {
                    &&& RequestIdModel::configured(config@) == Ok::<_, Seq<char>>(m@)
                    &&& m@.header.len() > 0
                },
                Err(e) => RequestIdModel::configured(config@) == Err::<RequestIdModel, _>(e@),
            },
    {
        let header: String = match config::opt_string(config, "header", "X-Request-Id") {
            Ok(s) => s,
            Err(e) => return Err(e),
        };
        if header.as_str().is_empty() {
            return Err("`header` must not be empty".to_owned());
        }
        let trust_inbound: bool = match config::opt_bool(config, "trust_inbound", false) {
            Ok(b) => b,
            Err(e) => return Err(e),
        };
        Ok(RequestId { header, trust_inbound })
    }

    /// The id of a request: a trusted, well-formed inbound id, else a fresh one
    /// made from two random words.
    pub fn resolve(&self, inbound: Option<&str>, hi: u64, lo: u64) -> (r: String)
        ensures
            r@ == self@.id(
                match inbound {
                    Some(v) => Some(v@),
                    None => None,
                },
                hi,
                lo,
            ),
    {
        if self.trust_inbound {
            if let Some(v) = inbound {
                if is_safe_id(v) {
                    return v.to_owned();
                }
            }
        }
        generate_id(hi, lo)
    }

    /// The request phase: the id goes into the request and onto the response.
    pub fn invoke(&self, req: &Request, hi: u64, lo: u64) -> (r: Response)
        ensures
            r@ == self@.verdict(req@, hi, lo),
    {
        let id: String = self.resolve(req.header(self.header.as_str()), hi, lo);
        Response::rewrite().header(self.header.as_str(), id.as_str()).response_header(
            self.header.as_str(),
            id.as_str(),
        )
    }

    /// The response phase: an id is added where the reply has none.
    pub fn invoke_response(&self, req: &Request, resp: &mut ResponseView, hi: u64, lo: u64)
        ensures
            final(resp)@ == self@.edited(req@, old(resp)@, hi, lo),
    {
        if resp.header(self.header.as_str()).is_some() {
            return ;
        }
        let id: String = self.resolve(req.header(self.header.as_str()), hi, lo);
        resp.set_header(self.header.as_str(), id.as_str());
    }
}

// ---------------------------------------------------------------------------
// What ids look like
// ---------------------------------------------------------------------------

/// A fresh id has the shape of a UUID: 36 characters, hexadecimal digits in groups
/// of 8, 4, 4, 4 and 12, version 4 and a variant digit between 8 and b.
pub proof fn law_fresh_ids_are_uuids(hi: u64, lo: u64)
    ensures
        ({
            let id = uuid(hi, lo);
            &&& id.len() == 36
            &&& id[8] == '-' && id[13] == '-' && id[18] == '-' && id[23] == '-'
            &&& id[14] == '4'
            &&& id[19] == '8' || id[19] == '9' || id[19] == 'a' || id[19] == 'b'
            &&& forall|i: int|
                0 <= i < 36 && i != 8 && i != 13 && i != 18 && i != 23 ==> {
                    let c = #[trigger] id[i];
                    ('0' <= c && c <= '9') || ('a' <= c && c <= 'f')
                }
        }),
{
    reveal_strlit("-");
    let id = uuid(hi, lo);
    let h = versioned(hi);
    let l = variant(lo);
    assert(id[14] == hex_digit(h, 12));
    assert((((hi & 0xFFFF_FFFF_FFFF_0FFF) | 0x0000_0000_0000_4000) >> 12u64) & 0xF == 4)
        by (bit_vector);
    assert(id[19] == hex_digit(l, 0));
    assert(8 <= (((lo & 0x3FFF_FFFF_FFFF_FFFF) | 0x8000_0000_0000_0000) >> 60u64) & 0xF <= 11)
        by (bit_vector);
    assert forall|i: int| 0 <= i < 36 && i != 8 && i != 13 && i != 18 && i != 23 implies ({
        let c = #[trigger] id[i];
        ('0' <= c && c <= '9') || ('a' <= c && c <= 'f')
    }) by {
        let (word, k) = if i < 8 {
            (h, i)
        } else if i < 13 {
            (h, i - 1)
        } else if i < 18 {
            (h, i - 2)
        } else if i < 23 {
            (l, i - 19)
        } else {
            (l, i - 20)
        };
        assert(id[i] == hex_digit(word, k));
        let w = word >> ((60 - 4 * k) as u64);
        assert(w & 0xF <= 0xF) by (bit_vector);
    }
}

/// Every id that is passed on is safe, whatever the client sent: no control
/// characters, no spaces, at most 200 characters.
pub proof fn law_ids_are_safe(p: RequestIdModel, inbound: Option<Seq<char>>, hi: u64, lo: u64)
    ensures
        is_safe(p.id(inbound, hi, lo)),
{
    law_fresh_ids_are_uuids(hi, lo);
    let id = uuid(hi, lo);
    assert forall|i: int| 0 <= i < id.len() implies is_graphic(#[trigger] id[i]) by {
        if i == 8 || i == 13 || i == 18 || i == 23 {
            assert(id[i] == '-');
        }
    }
}

/// The application and the client see one id.
pub proof fn law_one_id_per_request(p: RequestIdModel, req: RequestModel, hi: u64, lo: u64)
    ensures
        ({
            let r = p.verdict(req, hi, lo);
            &&& r.headers.len() == 1
            &&& r.response_headers == r.headers
            &&& r.headers[0].0 == p.header
        }),
{
}

/// An inbound id that is not trusted makes no difference.
pub proof fn law_untrusted_ids_are_ignored(
    p: RequestIdModel,
    inbound: Option<Seq<char>>,
    hi: u64,
    lo: u64,
)
    requires
        !p.trust_inbound,
    ensures
        p.id(inbound, hi, lo) == uuid(hi, lo),
{
}

/// After the response phase a reply has an id; one that it had stays, and a
/// second run changes nothing.
pub proof fn law_response_phase_is_idempotent(
    p: RequestIdModel,
    req: RequestModel,
    reply: ReplyModel,
    hi: u64,
    lo: u64,
    hi_again: u64,
    lo_again: u64,
)
    ensures
        ({
            let sent = p.edited(req, EditsModel::of(reply), hi, lo).applied();
            let again = p.edited(req, EditsModel::of(sent), hi_again, lo_again).applied();
            &&& sent.header(p.header) is Some
            &&& reply.header(p.header) is Some ==> sent == reply
            &&& reply.header(p.header) is None ==> http::occurrences(sent.headers, p.header) == 1
            &&& again == sent
        }),
{
    let edits = p.edited(req, EditsModel::of(reply), hi, lo);
    let sent = edits.applied();
    http::law_edited_reply(edits, p.header);
    assert(EditsModel::of(reply).applied() == reply);
    assert(EditsModel::of(sent).applied() == sent);
}

// ---------------------------------------------------------------------------
// Different words, different ids
// ---------------------------------------------------------------------------

/// Multiplication by an odd constant can be undone.
proof fn lemma_odd_factor(a: u64, b: u64, factor: u64, inverse: u64, times: nat)
    requires
        factor as nat * inverse as nat == times * 0x1_0000_0000_0000_0000 + 1,
        a.wrapping_mul(factor) == b.wrapping_mul(factor),
    ensures
        a == b,
{
    lemma_undone(a, factor, inverse, times);
    lemma_undone(b, factor, inverse, times);
}

proof fn lemma_undone(a: u64, factor: u64, inverse: u64, times: nat)
    requires
        factor as nat * inverse as nat == times * 0x1_0000_0000_0000_0000 + 1,
    ensures
        (a.wrapping_mul(factor) as int * inverse as int) % 0x1_0000_0000_0000_0000 == a,
{
    let m = 0x1_0000_0000_0000_0000int;
    let (x, f, k, t) = (a as int, factor as int, inverse as int, times as int);
    lemma_mul_mod_noop_left(x * f, k, m);
    assert((x * f) * k == x + (x * t) * m) by (nonlinear_arith)
        requires
            f * k == t * m + 1,
    ;
    lemma_mod_multiples_vanish(x * t, x, m);
    lemma_mul_is_commutative(x * t, m);
    lemma_small_mod(a as nat, m as nat);
}

/// The generator makes different words of different states, so a thread repeats
/// no word before its state comes round.
pub proof fn law_words_do_not_repeat(state: u64, other: u64)
    requires
        mixed(state) == mixed(other),
    ensures
        state == other,
{
    let x = state ^ (state >> 30u64);
    let y = other ^ (other >> 30u64);
    let a = x.wrapping_mul(0xBF58_476D_1CE4_E5B9);
    let b = y.wrapping_mul(0xBF58_476D_1CE4_E5B9);
    let p = a ^ (a >> 27u64);
    let q = b ^ (b >> 27u64);
    let c = p.wrapping_mul(0x94D0_49BB_1331_11EB);
    let d = q.wrapping_mul(0x94D0_49BB_1331_11EB);
    assert(c ^ (c >> 31u64) == d ^ (d >> 31u64) ==> c == d) by (bit_vector);
    lemma_odd_factor(
        p,
        q,
        0x94D0_49BB_1331_11EB,
        0x3196_42B2_D24D_8EC3,
        0x1CD3_36ED_A85F_1453,
    );
    assert(a ^ (a >> 27u64) == b ^ (b >> 27u64) ==> a == b) by (bit_vector);
    lemma_odd_factor(
        x,
        y,
        0xBF58_476D_1CE4_E5B9,
        0x96DE_1B17_3F11_9089,
        0x70C3_BCA7_8F27_F46C,
    );
    assert(state ^ (state >> 30u64) == other ^ (other >> 30u64) ==> state == other)
        by (bit_vector);
}

/// Two threads of a process start from different states, and so draw different
/// first words, unless one starts from the state that zero is folded into and
/// the other stands there by its number.
pub proof fn law_threads_start_apart(seed: u64, thread: u64, other: u64)
    requires
        thread != other,
        !(numbered(seed, thread) == 0 && numbered(seed, other) == 1),
        !(numbered(seed, thread) == 1 && numbered(seed, other) == 0),
    ensures
        first_state(seed, thread) != first_state(seed, other),
        mixed(next_state(first_state(seed, thread))) != mixed(
            next_state(first_state(seed, other)),
        ),
{
    let (a, b) = (rotated(thread, 32), rotated(other, 32));
    assert((thread << 32u64) | (thread >> 32u64) == (other << 32u64) | (other >> 32u64) ==> thread
        == other) by (bit_vector);
    assert(a != b);
    let (s, t) = (first_state(seed, thread), first_state(seed, other));
    assert(s != t);
    if mixed(next_state(s)) == mixed(next_state(t)) {
        law_words_do_not_repeat(next_state(s), next_state(t));
    }
}

/// Threads that are numbered below 2^32 start from different states, whatever
/// the seed.
pub proof fn law_numbered_threads_start_apart(seed: u64, thread: u64, other: u64)
    requires
        thread != other,
        thread < 0x1_0000_0000,
        other < 0x1_0000_0000,
    ensures
        first_state(seed, thread) != first_state(seed, other),
        mixed(next_state(first_state(seed, thread))) != mixed(
            next_state(first_state(seed, other)),
        ),
{
    let (a, b) = (rotated(thread, 32), rotated(other, 32));
    assert((thread << 32u64) | (thread >> 32u64) == thread * 0x1_0000_0000) by (bit_vector)
        requires
            thread < 0x1_0000_0000,
    ;
    assert((other << 32u64) | (other >> 32u64) == other * 0x1_0000_0000) by (bit_vector)
        requires
            other < 0x1_0000_0000,
    ;
    assert(a % 0x1_0000_0000 == 0 && b % 0x1_0000_0000 == 0);
    law_threads_start_apart(seed, thread, other);
}

/// Two fresh ids are one only where the words agree, but for the six bits that
/// every UUID of this version shares.
pub proof fn law_equal_ids_have_equal_words(hi: u64, lo: u64, other_hi: u64, other_lo: u64)
    requires
        uuid(hi, lo) == uuid(other_hi, other_lo),
    ensures
        versioned(hi) == versioned(other_hi),
        variant(lo) == variant(other_lo),
{
    reveal_strlit("-");
    let a = uuid(hi, lo);
    let b = uuid(other_hi, other_lo);
    assert forall|k: int| 0 <= k < 16 implies hex_digit(versioned(hi), k) == hex_digit(
        versioned(other_hi),
        k,
    ) by {
        let i = if k < 8 {
            k
        } else if k < 12 {
            k + 1
        } else {
            k + 2
        };
        assert(a[i] == hex_digit(versioned(hi), k));
        assert(b[i] == hex_digit(versioned(other_hi), k));
    }
    assert forall|k: int| 0 <= k < 16 implies hex_digit(variant(lo), k) == hex_digit(
        variant(other_lo),
        k,
    ) by {
        let i = if k < 4 {
            k + 19
        } else {
            k + 20
        };
        assert(a[i] == hex_digit(variant(lo), k));
        assert(b[i] == hex_digit(variant(other_lo), k));
    }
    lemma_hex_digits(versioned(hi), versioned(other_hi));
    lemma_hex_digits(variant(lo), variant(other_lo));
}

proof fn lemma_hex_digit(v: u64, w: u64, k: int)
    requires
        0 <= k < 16,
        hex_digit(v, k) == hex_digit(w, k),
    ensures
        (v >> ((60 - 4 * k) as u64)) & 0xF == (w >> ((60 - 4 * k) as u64)) & 0xF,
{
    let x = v >> ((60 - 4 * k) as u64);
    let y = w >> ((60 - 4 * k) as u64);
    assert(x & 0xF <= 0xF && y & 0xF <= 0xF) by (bit_vector);
}

proof fn lemma_hex_digits(v: u64, w: u64)
    requires
        forall|k: int| 0 <= k < 16 ==> #[trigger] hex_digit(v, k) == hex_digit(w, k),
    ensures
        v == w,
{
    lemma_hex_digit(v, w, 0);
    lemma_hex_digit(v, w, 1);
    lemma_hex_digit(v, w, 2);
    lemma_hex_digit(v, w, 3);
    lemma_hex_digit(v, w, 4);
    lemma_hex_digit(v, w, 5);
    lemma_hex_digit(v, w, 6);
    lemma_hex_digit(v, w, 7);
    lemma_hex_digit(v, w, 8);
    lemma_hex_digit(v, w, 9);
    lemma_hex_digit(v, w, 10);
    lemma_hex_digit(v, w, 11);
    lemma_hex_digit(v, w, 12);
    lemma_hex_digit(v, w, 13);
    lemma_hex_digit(v, w, 14);
    lemma_hex_digit(v, w, 15);
    assert((v >> 60u64) & 0xF == (w >> 60u64) & 0xF && (v >> 56u64) & 0xF == (w >> 56u64) & 0xF && (
    v >> 52u64) & 0xF == (w >> 52u64) & 0xF && (v >> 48u64) & 0xF == (w >> 48u64) & 0xF && (v
        >> 44u64) & 0xF == (w >> 44u64) & 0xF && (v >> 40u64) & 0xF == (w >> 40u64) & 0xF && (v
        >> 36u64) & 0xF == (w >> 36u64) & 0xF && (v >> 32u64) & 0xF == (w >> 32u64) & 0xF && (v
        >> 28u64) & 0xF == (w >> 28u64) & 0xF && (v >> 24u64) & 0xF == (w >> 24u64) & 0xF && (v
        >> 20u64) & 0xF == (w >> 20u64) & 0xF && (v >> 16u64) & 0xF == (w >> 16u64) & 0xF && (v
        >> 12u64) & 0xF == (w >> 12u64) & 0xF && (v >> 8u64) & 0xF == (w >> 8u64) & 0xF && (v
        >> 4u64) & 0xF == (w >> 4u64) & 0xF && (v >> 0u64) & 0xF == (w >> 0u64) & 0xF ==> v == w)
        by (bit_vector);
}

// ---------------------------------------------------------------------------
// Which id a request gets
// ---------------------------------------------------------------------------

/// A trusted id is kept as it came where it is printable ASCII without spaces, of
/// one to 200 characters; one that is longer, empty or holds anything else at
/// whatever place gives way to a fresh id.
pub proof fn law_trusted_ids_are_kept(
    p: RequestIdModel,
    inbound: Seq<char>,
    hi: u64,
    lo: u64,
    i: int,
)
    requires
        p.trust_inbound,
    ensures
        1 <= inbound.len() <= 200 && (forall|j: int|
            0 <= j < inbound.len() ==> 33 <= #[trigger] inbound[j] as int <= 126) ==> p.id(
            Some(inbound),
            hi,
            lo,
        ) == inbound,
        inbound.len() == 0 || inbound.len() > 200 ==> p.id(Some(inbound), hi, lo) == uuid(hi, lo),
        0 <= i < inbound.len() && !(33 <= inbound[i] as int <= 126) ==> p.id(
            Some(inbound),
            hi,
            lo,
        ) == uuid(hi, lo),
        p.id(None, hi, lo) == uuid(hi, lo),
{
    if 1 <= inbound.len() <= 200 && (forall|j: int|
        0 <= j < inbound.len() ==> 33 <= #[trigger] inbound[j] as int <= 126) {
        assert forall|j: int| 0 <= j < inbound.len() implies is_graphic(#[trigger] inbound[j]) by {
            assert(33 <= inbound[j] as int <= 126);
        }
    }
    if 0 <= i < inbound.len() && !(33 <= inbound[i] as int <= 126) {
        assert(!is_graphic(inbound[i]));
    }
}

/// The id goes into the request and onto the response under the configured
/// header; the response phase adds it where the reply has none, and changes
/// nothing else.
pub proof fn law_id_is_carried(
    p: RequestIdModel,
    req: RequestModel,
    reply: ReplyModel,
    hi: u64,
    lo: u64,
    name: Seq<char>,
)
    ensures
        p.verdict(req, hi, lo).action == http::Action::Rewrite,
        p.verdict(req, hi, lo).headers == seq![
            (p.header, p.id(req.header(p.header), hi, lo)),
        ],
        p.verdict(req, hi, lo).response_headers == seq![
            (p.header, p.id(req.header(p.header), hi, lo)),
        ],
        reply.header(p.header) is None ==> ({
            let sent = p.edited(req, EditsModel::of(reply), hi, lo).applied();
            &&& sent.header(p.header) == Some(p.id(req.header(p.header), hi, lo))
            &&& sent.body == reply.body
            &&& sent.status == reply.status
            &&& !text::same_ignoring_case(name, p.header) ==> sent.header(name) == reply.header(
                name,
            ) && http::occurrences(sent.headers, name) == http::occurrences(reply.headers, name)
        }),
{
    let r = p.verdict(req, hi, lo);
    let id = p.id(req.header(p.header), hi, lo);
    assert(r.headers =~= seq![(p.header, id)]);
    assert(r.response_headers =~= seq![(p.header, id)]);
    if reply.header(p.header) is None {
        let edits = p.edited(req, EditsModel::of(reply), hi, lo);
        http::law_edited_reply(edits, p.header);
        http::law_edited_reply(edits, name);
        assert(edits.set =~= seq![(p.header, id)]);
        assert(edits.set.drop_last() =~= Seq::empty());
        assert(http::assigned(edits.set.drop_last(), name) is None);
    }
}

/// The number that a hexadecimal digit stands for.
pub open spec fn digit_value(c: char) -> int {
    if c as int >= 97 {
        c as int - 87
    } else {
        c as int - 48
    }
}

/// A fresh id spells its two words in hexadecimal from the left, but for the
/// version digit and the upper bits of the variant digit.
pub proof fn law_ids_spell_their_words(hi: u64, lo: u64, k: int)
    requires
        0 <= k < 16,
    ensures
        ({
            let id = uuid(hi, lo);
            let i = if k < 8 {
                k
            } else if k < 12 {
                k + 1
            } else {
                k + 2
            };
            let j = if k < 4 {
                k + 19
            } else {
                k + 20
            };
            &&& k != 12 ==> digit_value(id[i]) == (hi >> ((60 - 4 * k) as u64)) & 0xF
            &&& k != 0 ==> digit_value(id[j]) == (lo >> ((60 - 4 * k) as u64)) & 0xF
            &&& k == 0 ==> digit_value(id[j]) == 8 + ((lo >> 60u64) & 3)
        }),
{
    reveal_strlit("-");
    let id = uuid(hi, lo);
    let (h, l) = (versioned(hi), variant(lo));
    let i = if k < 8 {
        k
    } else if k < 12 {
        k + 1
    } else {
        k + 2
    };
    let j = if k < 4 {
        k + 19
    } else {
        k + 20
    };
    assert(id[i] == hex_digit(h, k));
    assert(id[j] == hex_digit(l, k));
    let s = (60 - 4 * k) as u64;
    assert(s <= 60 && s % 4 == 0);
    let (x, y) = ((h >> s) & 0xF, (l >> s) & 0xF);
    assert((h >> s) & 0xF <= 0xF) by (bit_vector);
    assert((l >> s) & 0xF <= 0xF) by (bit_vector);
    assert(s <= 60 && s % 4 == 0 && s != 12 ==> ((((hi & 0xFFFF_FFFF_FFFF_0FFF)
        | 0x0000_0000_0000_4000) >> s) & 0xF) == (hi >> s) & 0xF) by (bit_vector);
    assert(s < 60 && s % 4 == 0 ==> ((((lo & 0x3FFF_FFFF_FFFF_FFFF) | 0x8000_0000_0000_0000)
        >> s) & 0xF) == (lo >> s) & 0xF) by (bit_vector);
    assert((((lo & 0x3FFF_FFFF_FFFF_FFFF) | 0x8000_0000_0000_0000) >> 60u64) & 0xF == 8 + ((lo
        >> 60u64) & 3)) by (bit_vector);
}

/// Every setting is read from its own key with its default, and the header has a
/// name.
pub proof fn law_settings(config: JsonModel, p: RequestIdModel)
    requires
        RequestIdModel::configured(config) == Ok::<_, Seq<char>>(p),
    ensures
        config::text_or(config, "header"@, Some("X-Request-Id"@)) == Ok::<_, Seq<char>>(
            Some(p.header),
        ),
        p.header.len() > 0,
        config::bool_or(config, "trust_inbound"@, false) == Ok::<_, Seq<char>>(p.trust_inbound),
{
}

/// A configuration is taken exactly where the header is a text that is not empty
/// and the trust is a boolean.
pub proof fn law_taken_configurations(config: JsonModel)
    ensures
        ({
            let r = RequestIdModel::configured(config);
            let h = config::text_or(config, "header"@, Some("X-Request-Id"@));
            let t = config::bool_or(config, "trust_inbound"@, false);
            let named = h is Ok && h->Ok_0->0.len() > 0;
            &&& r is Ok <==> named && t is Ok
            &&& h is Err ==> r->Err_0 == h->Err_0
            &&& named && t is Err ==> r->Err_0 == t->Err_0
        }),
{
}

} // verus!

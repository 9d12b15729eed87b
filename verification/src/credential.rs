//! Comparing and reading credentials.
use vstd::prelude::*;
use vstd::string::*;
use vstd::utf8::*;

use subtle::ConstantTimeEq;

use crate::{codec, text};

verus! {

// ---------------------------------------------------------------------------
// Comparison
// ---------------------------------------------------------------------------

/// `subtle::ConstantTimeEq::ct_eq` on byte slices, which looks at every byte of
/// two slices of one length: whether they are equal.
#[verifier::external_body]
fn equal_in_constant_time(a: &[u8], b: &[u8]) -> (r: bool)
    ensures
        r == (a@ == b@),
{
    a.ct_eq(b).into()
}

/// Equality of byte slices in constant time; only a difference in length shows.
pub fn ct_eq(a: &[u8], b: &[u8]) -> (r: bool)
    ensures
        r == (a@ == b@),
{
    equal_in_constant_time(a, b)
}

// ---------------------------------------------------------------------------
// Query strings
// ---------------------------------------------------------------------------

/// The value of a hexadecimal digit.
pub open spec fn hex_value(b: u8) -> Option<u8> {
    if 0x30 <= b <= 0x39 {
        Some((b - 0x30) as u8)
    } else if 0x41 <= b <= 0x46 {
        Some((b - 0x41 + 10) as u8)
    } else if 0x61 <= b <= 0x66 {
        Some((b - 0x61 + 10) as u8)
    } else {
        None
    }
}

/// The bytes with `+` read as a space and `%XX` as a byte; a `%` without two
/// hexadecimal digits stays as it is.
pub open spec fn unescaped(s: Seq<u8>) -> Seq<u8>
    decreases s.len(),
{
    if s.len() == 0 {
        Seq::empty()
    } else if s[0] == 0x2b {
        seq![0x20u8] + unescaped(s.skip(1))
    } else if s[0] == 0x25 && s.len() > 2 && hex_value(s[1]) is Some && hex_value(s[2]) is Some {
        seq![(hex_value(s[1])->0 * 16 + hex_value(s[2])->0) as u8] + unescaped(s.skip(3))
    } else {
        seq![s[0]] + unescaped(s.skip(1))
    }
}

fn hex_digit(b: u8) -> (r: Option<u8>)
    ensures
        r == hex_value(b),
        r is Some ==> r->0 < 16,
{
    if 0x30 <= b && b <= 0x39 {
        Some(b - 0x30)
    } else if 0x41 <= b && b <= 0x46 {
        Some(b - 0x41 + 10)
    } else if 0x61 <= b && b <= 0x66 {
        Some(b - 0x61 + 10)
    } else {
        None
    }
}

/// Resolves the escapes of a query-string component.
pub fn unescape(s: &str) -> (r: Vec<u8>)
    ensures
        r@ == unescaped(encode_utf8(s@)),
{
    let bytes: Vec<u8> = s.as_bytes_vec();
    let ghost all = bytes@;
    let mut out: Vec<u8> = Vec::new();
    let mut i: usize = 0;
    assert(all.skip(0) =~= all);
    while i < bytes.len()
        invariant
            i <= bytes.len(),
            all == bytes@,
            unescaped(all) =~= out@ + unescaped(all.skip(i as int)),
        decreases bytes.len() - i,
    {
        let ghost rest = all.skip(i as int);
        let b: u8 = bytes[i];
        assert(rest[0] == b);
        assert(rest.skip(1) =~= all.skip(i + 1));
        if b == 0x2b {
            out.push(0x20);
            i += 1;
        } else if b == 0x25 && bytes.len() - i > 2 {
            assert(rest[1] == bytes@[i + 1] && rest[2] == bytes@[i + 2]);
            assert(rest.skip(3) =~= all.skip(i + 3));
            match (hex_digit(bytes[i + 1]), hex_digit(bytes[i + 2])) {
                (Some(hi), Some(lo)) => {
                    out.push(hi * 16 + lo);
                    i += 3;
                },
                _ => {
                    out.push(b);
                    i += 1;
                },
            }
        } else {
            out.push(b);
            i += 1;
        }
    }
    out
}

/// URL-decodes a query-string component. Invalid escapes pass through literally.
pub fn percent_decode(s: &str) -> (r: String)
    ensures
        r@ == codec::lossy(unescaped(encode_utf8(s@))),
        valid_utf8(unescaped(encode_utf8(s@))) ==> r@ == decode_utf8(
            unescaped(encode_utf8(s@)),
        ),
{
    codec::text_of_lossy(unescape(s).as_slice())
}

/// A pair of a query string: what stands before the first `=`, and after it.
pub open spec fn query_pair(pair: Seq<char>) -> (Seq<char>, Seq<char>) {
    match pair.index_of_first('=') {
        Some(i) => (pair.take(i), pair.skip(i + 1)),
        None => (pair, Seq::empty()),
    }
}

/// The value of the first pair called `name`, as it stands in the query string.
pub open spec fn raw_value(pairs: Seq<Seq<char>>, name: Seq<char>) -> Option<Seq<char>>
    decreases pairs.len(),
{
    if pairs.len() == 0 {
        None
    } else if query_pair(pairs[0]).0 == name {
        Some(query_pair(pairs[0]).1)
    } else {
        raw_value(pairs.skip(1), name)
    }
}

/// The decoded value of the first parameter called `name`.
pub open spec fn query_text(query: Seq<char>, name: Seq<char>) -> Option<Seq<char>> {
    match raw_value(text::pieces(query, '&'), name) {
        Some(v) => Some(codec::lossy(unescaped(encode_utf8(v)))),
        None => None,
    }
}

/// The value of the first parameter called `name`, not yet decoded.
pub fn raw_query_value<'a>(query: &'a str, name: &str) -> (r: Option<&'a str>)
    ensures
        match r {
            Some(v) => raw_value(text::pieces(query@, '&'), name@) == Some(v@),
            None => raw_value(text::pieces(query@, '&'), name@) is None,
        },
{
    let pairs: Vec<&'a str> = text::split(query, '&');
    let ghost all = text::pieces(query@, '&');
    let mut i: usize = 0;
    assert(all.skip(0) =~= all);
    while i < pairs.len()
        invariant
            i <= pairs.len(),
            all =~= pairs@.map_values(|p: &'a str| p@),
            all == text::pieces(query@, '&'),
            raw_value(all, name@) == raw_value(all.skip(i as int), name@),
        decreases pairs.len() - i,
    {
        let pair: &'a str = pairs[i];
        assert(all.skip(i as int)[0] == pair@);
        assert(all.skip(i as int).skip(1) =~= all.skip(i + 1));
        let x: Vec<char> = text::chars_of(pair);
        let n: usize = x.len();
        let (key, value): (&'a str, &'a str) = match text::find_first(&x, '=') {
            Some(at) => (pair.substring_char(0, at), pair.substring_char(at + 1, n)),
            None => (pair, pair.substring_char(n, n)),
        };
        assert(key@ =~= query_pair(pair@).0);
        assert(value@ =~= query_pair(pair@).1);
        if text::same(key, name) {
            return Some(value);
        }
        i += 1;
    }
    None
}

/// The decoded value of query parameter `name`, where there is one.
pub fn query_value(query: &str, name: &str) -> (r: Option<String>)
    ensures
        match r {
            Some(v) => query_text(query@, name@) == Some(v@),
            None => query_text(query@, name@) is None,
        },
{
    match raw_query_value(query, name) {
        Some(v) => Some(percent_decode(v)),
        None => None,
    }
}

// ---------------------------------------------------------------------------
// Escaping is undone
// ---------------------------------------------------------------------------

/// The hexadecimal digit for a number below sixteen.
pub open spec fn hex_char(n: u8) -> u8 {
    if n < 10 {
        (n + 0x30) as u8
    } else {
        (n - 10 + 0x41) as u8
    }
}

/// The bytes with each one escaped, but for those that may stay.
pub open spec fn escaped(s: Seq<u8>, stays: spec_fn(u8) -> bool) -> Seq<u8>
    decreases s.len(),
{
    if s.len() == 0 {
        Seq::empty()
    } else if stays(s[0]) {
        seq![s[0]] + escaped(s.skip(1), stays)
    } else {
        seq![0x25u8, hex_char(s[0] / 16), hex_char(s[0] % 16)] + escaped(s.skip(1), stays)
    }
}

/// Escaped bytes are read back, whichever bytes other than `+` and `%` were left
/// as they are.
pub proof fn law_escaped_bytes_are_read_back(s: Seq<u8>, stays: spec_fn(u8) -> bool)
    requires
        !stays(0x2b),
        !stays(0x25),
    ensures
        unescaped(escaped(s, stays)) == s,
    decreases s.len(),
{
    if s.len() > 0 {
        let rest = s.skip(1);
        law_escaped_bytes_are_read_back(rest, stays);
        let e = escaped(s, stays);
        if stays(s[0]) {
            assert(e.skip(1) =~= escaped(rest, stays));
        } else {
            assert(e.skip(3) =~= escaped(rest, stays));
            assert(s[0] == s[0] / 16 * 16 + s[0] % 16);
        }
        assert(unescaped(e) =~= seq![s[0]] + rest);
        assert(seq![s[0]] + rest =~= s);
    } else {
        assert(s =~= Seq::empty());
    }
}

/// So is escaped text.
pub proof fn law_escaped_text_is_read_back(s: Seq<char>, stays: spec_fn(u8) -> bool)
    requires
        !stays(0x2b),
        !stays(0x25),
    ensures
        valid_utf8(unescaped(escaped(encode_utf8(s), stays))),
        decode_utf8(unescaped(escaped(encode_utf8(s), stays))) == s,
{
    law_escaped_bytes_are_read_back(encode_utf8(s), stays);
    encode_utf8_valid_utf8(s);
    encode_utf8_decode_utf8(s);
}

// ---------------------------------------------------------------------------
// What a query says
// ---------------------------------------------------------------------------

/// The hexadecimal digits are those of a number below sixteen, letters in either
/// case.
pub proof fn law_hex_digits(b: u8, n: u8)
    ensures
        hex_value(b) == Some(n) <==> n < 16 && (if n < 10 {
            b == 48 + n
        } else {
            b == 55 + n || b == 87 + n
        }),
{
}

/// Bytes other than `+` and `%` stay, a `+` is a space, a `%` with two hexadecimal
/// digits is the byte that they spell, and any other `%` stays: each one alone,
/// whatever follows.
pub proof fn law_escapes_are_resolved_one_by_one(plain: Seq<u8>, hi: u8, lo: u8, rest: Seq<u8>)
    requires
        !plain.contains(0x2b),
        !plain.contains(0x25),
    ensures
        unescaped(plain + rest) == plain + unescaped(rest),
        unescaped(seq![0x2bu8] + rest) == seq![0x20u8] + unescaped(rest),
        hex_value(hi) is Some && hex_value(lo) is Some ==> unescaped(seq![0x25u8, hi, lo] + rest)
            == seq![(hex_value(hi)->0 * 16 + hex_value(lo)->0) as u8] + unescaped(rest),
        hex_value(hi) is None || hex_value(lo) is None ==> unescaped(seq![0x25u8, hi, lo] + rest)
            == seq![0x25u8] + unescaped(seq![hi, lo] + rest),
        rest.len() < 2 ==> unescaped(seq![0x25u8] + rest) == seq![0x25u8] + unescaped(rest),
        unescaped(Seq::empty()) == Seq::<u8>::empty(),
    decreases plain.len(),
{
    assert((seq![0x2bu8] + rest).skip(1) =~= rest);
    assert((seq![0x25u8] + rest).skip(1) =~= rest);
    assert((seq![0x25u8, hi, lo] + rest).skip(3) =~= rest);
    assert((seq![0x25u8, hi, lo] + rest).skip(1) =~= seq![hi, lo] + rest);
    if plain.len() == 0 {
        assert(plain + rest =~= rest);
        assert(plain + unescaped(rest) =~= unescaped(rest));
    } else {
        let tail = plain.skip(1);
        assert(plain.contains(plain[0]));
        assert forall|b: u8| tail.contains(b) implies plain.contains(b) by {
            let i = choose|i: int| 0 <= i < tail.len() && tail[i] == b;
            assert(plain[i + 1] == b);
        }
        law_escapes_are_resolved_one_by_one(tail, hi, lo, rest);
        assert((plain + rest).skip(1) =~= tail + rest);
        assert(seq![plain[0]] + (tail + unescaped(rest)) =~= plain + unescaped(rest));
    }
}

/// A parameter reads as the first one of its name, at whatever place it stands:
/// what follows the `=`, decoded, or nothing where there is no `=`. A name that no
/// parameter has reads as none.
pub proof fn law_first_parameter_is_read(
    list: Seq<Seq<char>>,
    name: Seq<char>,
    value: Seq<char>,
    i: int,
)
    requires
        list.len() > 0,
        forall|j: int| 0 <= j < list.len() ==> !(#[trigger] list[j]).contains('&'),
        !name.contains('='),
        forall|j: int|
            0 <= j < list.len() && j < i ==> #[trigger] list[j] != name && !(name
                + "="@).is_prefix_of(list[j]),
    ensures
        0 <= i < list.len() && list[i] == name + "="@ + value ==> query_text(
            text::joined(list, '&'),
            name,
        ) == Some(codec::lossy(unescaped(encode_utf8(value)))),
        0 <= i < list.len() && list[i] == name ==> query_text(text::joined(list, '&'), name)
            == Some(codec::lossy(unescaped(encode_utf8(Seq::empty())))),
        i >= list.len() ==> query_text(text::joined(list, '&'), name) is None,
{
    reveal_strlit("=");
    text::law_joined_texts_come_apart(list, '&');
    assert forall|j: int| 0 <= j < list.len() && j < i implies query_pair(#[trigger] list[j]).0
        != name by {
        lemma_pair(list[j], name);
    }
    if 0 <= i < list.len() {
        if list[i] == name + "="@ + value {
            let pair = list[i];
            let n = name.len() as int;
            assert(pair[n] == '=');
            assert(pair.contains('='));
            pair.index_of_first_ensures('=');
            let k = pair.index_of_first('=')->0;
            assert(k == n) by {
                if k < n {
                    assert(name.contains(name[k]));
                }
            }
            assert(pair.take(n) =~= name);
            assert(pair.skip(n + 1) =~= value);
        }
        if list[i] == name {
            name.index_of_first_ensures('=');
        }
    }
    lemma_raw_value(list, name, i);
}

proof fn lemma_pair(pair: Seq<char>, name: Seq<char>)
    requires
        pair != name,
        !(name + "="@).is_prefix_of(pair),
    ensures
        query_pair(pair).0 != name,
{
    reveal_strlit("=");
    pair.index_of_first_ensures('=');
    if let Some(k) = pair.index_of_first('=') {
        if pair.take(k) == name {
            assert(name + "="@ =~= pair.take(k + 1));
            assert((name + "="@).is_prefix_of(pair));
        }
    }
}

proof fn lemma_raw_value(pairs: Seq<Seq<char>>, name: Seq<char>, i: int)
    requires
        forall|j: int|
            0 <= j < pairs.len() && j < i ==> query_pair(#[trigger] pairs[j]).0 != name,
    ensures
        0 <= i < pairs.len() && query_pair(pairs[i]).0 == name ==> raw_value(pairs, name) == Some(
            query_pair(pairs[i]).1,
        ),
        i >= pairs.len() ==> raw_value(pairs, name) is None,
    decreases pairs.len(),
{
    if pairs.len() > 0 && i > 0 {
        let rest = pairs.skip(1);
        assert(query_pair(pairs[0]).0 != name);
        assert forall|j: int| 0 <= j < rest.len() && j < i - 1 implies query_pair(
            #[trigger] rest[j],
        ).0 != name by {
            assert(rest[j] == pairs[j + 1]);
        }
        lemma_raw_value(rest, name, i - 1);
        if i < pairs.len() {
            assert(rest[i - 1] == pairs[i]);
        }
    }
}

} // verus!

//! Quality weights: whether a decimal notation denotes a number above zero in
//! single precision, decided on its digits.
//!
//! The notation is an optional sign followed by `inf`, `infinity`, `nan` or a
//! decimal number with an optional exponent, letters in any case. A number
//! counts as positive where it rounds to a positive single-precision value: it
//! lies above the midpoint 2^-150 between zero and the least such value.
use vstd::arithmetic::mul::*;
use vstd::arithmetic::power::*;
use vstd::arithmetic::power2::*;
use vstd::prelude::*;
use vstd::string::*;

use crate::text;

verus! {

// ---------------------------------------------------------------------------
// What a notation denotes
// ---------------------------------------------------------------------------

/// The text without its sign.
pub open spec fn unsigned(s: Seq<char>) -> Seq<char> {
    if s.len() > 0 && (s[0] == '+' || s[0] == '-') {
        s.skip(1)
    } else {
        s
    }
}

/// The text starts with a minus sign.
pub open spec fn negative(s: Seq<char>) -> bool {
    s.len() > 0 && s[0] == '-'
}

/// The position of the letter before the exponent; the length where there is
/// none.
pub open spec fn exponent_mark(s: Seq<char>) -> int {
    match text::lower(s).index_of_first('e') {
        Some(i) => i,
        None => s.len() as int,
    }
}

/// The position of the decimal point; the length where there is none.
pub open spec fn point(s: Seq<char>) -> int {
    match s.index_of_first('.') {
        Some(i) => i,
        None => s.len() as int,
    }
}

/// The digits before the decimal point.
pub open spec fn whole(mantissa: Seq<char>) -> Seq<char> {
    mantissa.take(point(mantissa))
}

/// The digits after the decimal point.
pub open spec fn fraction(mantissa: Seq<char>) -> Seq<char> {
    if point(mantissa) < mantissa.len() {
        mantissa.skip(point(mantissa) + 1)
    } else {
        Seq::empty()
    }
}

/// A decimal number without a sign: digits with an optional point among or
/// around them, then optionally `e`, a sign and digits.
pub open spec fn is_number(s: Seq<char>) -> bool {
    let mark = exponent_mark(s);
    let mantissa = s.take(mark);
    &&& text::all_digits(whole(mantissa))
    &&& text::all_digits(fraction(mantissa))
    &&& whole(mantissa).len() + fraction(mantissa).len() > 0
    &&& mark < s.len() ==> {
        &&& text::all_digits(unsigned(s.skip(mark + 1)))
        &&& unsigned(s.skip(mark + 1)).len() > 0
    }
}

/// The number `digits * 10^scale` lies above 2^-150.
pub open spec fn above_least(digits: nat, scale: int) -> bool {
    if scale >= 0 {
        digits > 0
    } else {
        digits * pow2(150) > pow(10, (-scale) as nat)
    }
}

/// The exponent of a decimal number.
pub open spec fn exponent(s: Seq<char>) -> int {
    let mark = exponent_mark(s);
    if mark < s.len() {
        let tail = s.skip(mark + 1);
        if negative(tail) {
            -(text::value(unsigned(tail)) as int)
        } else {
            text::value(unsigned(tail)) as int
        }
    } else {
        0
    }
}

/// The decimal number rounds to a positive value.
pub open spec fn rounds_above_zero(s: Seq<char>) -> bool {
    let mantissa = s.take(exponent_mark(s));
    above_least(
        text::value(whole(mantissa) + fraction(mantissa)),
        exponent(s) - fraction(mantissa).len(),
    )
}

/// The notation denotes a number above zero.
pub open spec fn is_positive(s: Seq<char>) -> bool {
    let body = unsigned(s);
    &&& !negative(s)
    &&& {
        ||| text::lower(body) == "inf"@
        ||| text::lower(body) == "infinity"@
        ||| (is_number(body) && rounds_above_zero(body))
    }
}

// ---------------------------------------------------------------------------
// Long decimal numbers, least significant digit first
// ---------------------------------------------------------------------------

spec fn amount(v: Seq<u8>) -> int
    decreases v.len(),
{
    if v.len() == 0 {
        0
    } else {
        amount(v.drop_last()) + v.last() * pow(10, (v.len() - 1) as nat)
    }
}

spec fn decimal_digits(v: Seq<u8>) -> bool {
    forall|i: int| 0 <= i < v.len() ==> #[trigger] v[i] < 10
}

proof fn lemma_amount_push(v: Seq<u8>, d: u8)
    ensures
        amount(v.push(d)) == amount(v) + d * pow(10, v.len()),
{
    assert(v.push(d).drop_last() =~= v);
}

proof fn lemma_amount_bounds(v: Seq<u8>)
    requires
        decimal_digits(v),
    ensures
        0 <= amount(v) < pow(10, v.len()),
        v.len() > 0 && v.last() > 0 ==> pow(10, (v.len() - 1) as nat) <= amount(v),
    decreases v.len(),
{
    if v.len() == 0 {
        lemma_pow0(10);
    } else {
        let n = (v.len() - 1) as nat;
        let p = pow(10, n);
        let d = v.last() as int;
        lemma_amount_bounds(v.drop_last());
        lemma_pow_positive(10, n);
        assert(pow(10, v.len()) == 10 * p) by {
            reveal(pow);
        }
        assert(0 <= d * p <= 9 * p) by (nonlinear_arith)
            requires
                0 <= d <= 9,
                p > 0,
        ;
        if d > 0 {
            assert(d * p >= p) by (nonlinear_arith)
                requires
                    d >= 1,
                    p > 0,
            ;
        }
    }
}

/// Doubles a number.
fn twice(v: &Vec<u8>) -> (r: Vec<u8>)
    requires
        decimal_digits(v@),
    ensures
        decimal_digits(r@),
        amount(r@) == 2 * amount(v@),
{
    let mut out: Vec<u8> = Vec::new();
    let mut carry: u8 = 0;
    let mut i: usize = 0;
    assert(v@.take(0) =~= Seq::empty());
    assert(0 * pow(10, 0) == 0);
    while i < v.len()
        invariant
            i <= v.len(),
            out.len() == i,
            carry <= 1,
            decimal_digits(v@),
            decimal_digits(out@),
            amount(out@) + carry * pow(10, i as nat) == 2 * amount(v@.take(i as int)),
        decreases v.len() - i,
    {
        let sum: u8 = v[i] * 2 + carry;
        let d: u8 = sum % 10;
        proof {
            let p = pow(10, i as nat);
            assert(v@.take(i + 1).drop_last() =~= v@.take(i as int));
            lemma_amount_push(out@, d);
            assert(pow(10, (i + 1) as nat) == 10 * p) by {
                reveal(pow);
            }
            let next = sum / 10;
            assert(d * p + next * (10 * p) == (d + 10 * next) * p) by (nonlinear_arith);
            assert((2 * v@[i as int] + carry) * p == 2 * (v@[i as int] * p) + carry * p)
                by (nonlinear_arith);
        }
        out.push(d);
        carry = sum / 10;
        i += 1;
    }
    assert(v@.take(i as int) =~= v@);
    if carry > 0 {
        proof {
            lemma_amount_push(out@, carry);
        }
        out.push(carry);
    }
    out
}

/// The number of digits without leading zeros.
fn significant(v: &Vec<u8>) -> (n: usize)
    requires
        decimal_digits(v@),
    ensures
        n <= v.len(),
        n > 0 ==> v@[n - 1] > 0,
        amount(v@) == amount(v@.take(n as int)),
{
    let mut n: usize = v.len();
    assert(v@.take(n as int) =~= v@);
    while n > 0 && v[n - 1] == 0
        invariant
            n <= v.len(),
            amount(v@) == amount(v@.take(n as int)),
        decreases n,
    {
        assert(v@.take(n as int).drop_last() =~= v@.take(n - 1));
        assert(0 * pow(10, (n - 1) as nat) == 0);
        n -= 1;
    }
    n
}

/// Whether a digit other than zero stands below position `n`.
fn any_below(v: &Vec<u8>, n: usize) -> (r: bool)
    requires
        n <= v.len(),
        decimal_digits(v@),
    ensures
        r == (amount(v@.take(n as int)) > 0),
{
    let mut i: usize = 0;
    assert(v@.take(0) =~= Seq::empty());
    while i < n
        invariant
            i <= n <= v.len(),
            decimal_digits(v@),
            amount(v@.take(i as int)) == 0,
        decreases n - i,
    {
        assert(v@.take(i + 1).drop_last() =~= v@.take(i as int));
        if v[i] > 0 {
            proof {
                lemma_amount_bounds(v@.take(i + 1));
                lemma_pow_positive(10, i as nat);
                lemma_amount_grows(v@, i + 1, n as int);
            }
            return true;
        }
        assert(0 * pow(10, i as nat) == 0);
        i += 1;
    }
    false
}

proof fn lemma_amount_grows(v: Seq<u8>, i: int, n: int)
    requires
        0 <= i <= n <= v.len(),
    ensures
        amount(v.take(i)) <= amount(v.take(n)),
    decreases n - i,
{
    if i < n {
        lemma_amount_grows(v, i, n - 1);
        assert(v.take(n).drop_last() =~= v.take(n - 1));
        lemma_pow_positive(10, (n - 1) as nat);
        let d = v[n - 1] as int;
        let p = pow(10, (n - 1) as nat);
        assert(d * p >= 0) by (nonlinear_arith)
            requires
                d >= 0,
                p > 0,
        ;
    }
}

/// Whether a number lies above a power of ten.
fn above_power(v: &Vec<u8>, power: u128) -> (r: bool)
    requires
        decimal_digits(v@),
    ensures
        r == (amount(v@) > pow(10, power as nat)),
{
    let n: usize = significant(v);
    let ghost w = v@.take(n as int);
    proof {
        lemma_amount_bounds(w);
        lemma_pow_positive(10, power as nat);
    }
    if n as u128 <= power {
        proof {
            lemma_pow_increases(10, n as nat, power as nat);
        }
        return false;
    }
    if n as u128 - 1 > power {
        proof {
            lemma_pow_strictly_increases(10, power as nat, (n - 1) as nat);
        }
        return true;
    }
    let top: u8 = v[n - 1];
    let below: bool = any_below(v, n - 1);
    proof {
        let p = pow(10, power as nat);
        assert(w.drop_last() =~= v@.take(n - 1));
        lemma_amount_bounds(w.drop_last());
        let d = top as int;
        assert(d > 1 ==> d * p >= p + p) by (nonlinear_arith)
            requires
                p > 0,
        ;
        assert(d == 1 ==> d * p == p) by (nonlinear_arith);
    }
    top > 1 || below
}

/// Exponents are read up to this bound, which no length of a text reaches.
const CAP: u128 = 1_000_000_000_000_000_000_000_000_000_000;

spec fn capped(n: nat) -> nat {
    if n > CAP {
        CAP as nat
    } else {
        n
    }
}

/// Reads an exponent, up to the bound.
fn read_capped(x: &Vec<char>, from: usize) -> (r: u128)
    requires
        from <= x.len(),
        text::all_digits(x@.skip(from as int)),
    ensures
        r == capped(text::value(x@.skip(from as int))),
{
    let ghost all = x@.skip(from as int);
    let mut r: u128 = 0;
    let mut i: usize = from;
    assert(all.take(0) =~= Seq::empty());
    while i < x.len()
        invariant
            from <= i <= x.len(),
            all == x@.skip(from as int),
            text::all_digits(all),
            r == capped(text::value(all.take(i - from))),
        decreases x.len() - i,
    {
        proof {
            let k = i - from;
            assert(all[k] == x@[i as int]);
            assert(text::is_digit(all[k]));
            assert(all.take(k + 1) =~= all.take(k).push(all[k]));
            assert(text::all_digits(all.take(k + 1))) by {
                assert forall|j: int| 0 <= j < k + 1 implies text::is_digit(
                    #[trigger] all.take(k + 1)[j],
                ) by {
                    assert(all[j] == all.take(k + 1)[j]);
                }
            }
            text::lemma_value_push(all.take(k), all[k]);
        }
        let d: u128 = x[i] as u128 - 48;
        let next: u128 = r * 10 + d;
        r = if next > CAP {
            CAP
        } else {
            next
        };
        i += 1;
    }
    assert(all.take(i - from) =~= all);
    r
}

/// The digits of a number, least significant first.
fn digits_of(x: &Vec<char>) -> (r: Vec<u8>)
    requires
        text::all_digits(x@),
    ensures
        decimal_digits(r@),
        amount(r@) == text::value(x@),
{
    let mut out: Vec<u8> = Vec::new();
    let mut i: usize = x.len();
    assert(x@.skip(i as int) =~= Seq::empty());
    while i > 0
        invariant
            i <= x.len(),
            out.len() == x.len() - i,
            text::all_digits(x@),
            decimal_digits(out@),
            amount(out@) == text::value(x@.skip(i as int)),
        decreases i,
    {
        let c: char = x[i - 1];
        assert(text::is_digit(x@[i - 1]));
        let d: u8 = c as u8 - 48;
        proof {
            let rest = x@.skip(i - 1);
            assert(rest[0] == c);
            assert(rest.skip(1) =~= x@.skip(i as int));
            lemma_amount_push(out@, d);
            lemma_pow_positive(10, out@.len());
            assert(d * pow(10, out@.len()) >= 0) by (nonlinear_arith)
                requires
                    pow(10, out@.len()) > 0,
                    d >= 0,
            ;
        }
        out.push(d);
        i -= 1;
    }
    assert(x@.skip(0) =~= x@);
    out
}

/// Whether a number, scaled by a power of ten, lies above the midpoint.
fn scaled_above_least(v: Vec<u8>, minus: bool, exponent: u128, places: usize) -> (r: bool)
    requires
        decimal_digits(v@),
        exponent <= CAP,
    ensures
        forall|e: nat| #[trigger]
            capped(e) == exponent ==> r == above_least(
                amount(v@) as nat,
                (if minus {
                    -(e as int)
                } else {
                    e as int
                }) - places,
            ),
{
    let n: usize = significant(&v);
    proof {
        lemma_amount_bounds(v@.take(n as int));
        lemma_pow_positive(10, (n - 1) as nat);
    }
    if n == 0 {
        assert(amount(v@) == 0);
        assert forall|e: nat| #[trigger] capped(e) == exponent implies !above_least(
            0,
            (if minus {
                -(e as int)
            } else {
                e as int
            }) - places,
        ) by {
            let scale = (if minus {
                -(e as int)
            } else {
                e as int
            }) - places;
            lemma_pow_positive(10, (-scale) as nat);
        }
        return false;
    }
    assert(amount(v@) > 0);
    if (!minus && exponent >= places as u128) || (exponent == 0 && places == 0) {
        return true;
    }
    let power: u128 = if minus {
        exponent + places as u128
    } else {
        places as u128 - exponent
    };
    let ghost first = amount(v@);
    let mut w: Vec<u8> = v;
    let mut k: u8 = 0;
    assert(first * pow2(0) == first) by {
        lemma2_to64();
    }
    while k < 150
        invariant
            k <= 150,
            decimal_digits(w@),
            amount(w@) == first * pow2(k as nat),
        decreases 150 - k,
    {
        w = twice(&w);
        proof {
            lemma_pow2_unfold((k + 1) as nat);
            let p = pow2(k as nat);
            assert(first * (2 * p) == 2 * (first * p)) by (nonlinear_arith);
        }
        k += 1;
    }
    let r: bool = above_power(&w, power);
    proof {
        assert(w@.len() == w.len());
        assert forall|e: nat| #[trigger] capped(e) == exponent implies r == above_least(
            first as nat,
            (if minus {
                -(e as int)
            } else {
                e as int
            }) - places,
        ) by {
            if e > CAP {
                // Only a negative exponent comes here; no length reaches it.
                lemma_long(w@, power as nat, (e + places) as nat);
            }
        }
    }
    r
}

/// A number of fewer digits than a power of ten has zeros lies below every
/// higher power too.
proof fn lemma_long(v: Seq<u8>, power: nat, higher: nat)
    requires
        decimal_digits(v),
        v.len() <= power <= higher,
    ensures
        amount(v) < pow(10, power),
        amount(v) < pow(10, higher),
{
    lemma_amount_bounds(v);
    lemma_pow_increases(10, v.len(), power);
    lemma_pow_increases(10, power, higher);
}

// ---------------------------------------------------------------------------
// Reading a notation
// ---------------------------------------------------------------------------

/// Decides a decimal number without a sign.
fn number_above_zero(body: &str) -> (r: bool)
    ensures
        r == (is_number(body@) && rounds_above_zero(body@)),
{
    let n: usize = body.unicode_len();
    let low: Vec<char> = text::chars_of(text::to_lower(body).as_str());
    let mark: usize = match text::find_first(&low, 'e') {
        Some(i) => i,
        None => n,
    };
    assert(mark == exponent_mark(body@));
    let m: Vec<char> = text::chars_of(body.substring_char(0, mark));
    let ghost mantissa = m@;
    assert(mantissa =~= body@.take(mark as int));
    let dot: usize = match text::find_first(&m, '.') {
        Some(i) => i,
        None => m.len(),
    };
    let after: usize = if dot < m.len() {
        dot + 1
    } else {
        dot
    };
    assert(m@.subrange(0, dot as int) =~= whole(mantissa));
    assert(m@.subrange(after as int, m@.len() as int) =~= fraction(mantissa));
    if !text::digits_between(&m, 0, dot) || !text::digits_between(&m, after, m.len()) {
        return false;
    }
    let places: usize = m.len() - after;
    let mut all: Vec<char> = Vec::new();
    let mut i: usize = 0;
    while i < m.len()
        invariant
            i <= m.len(),
            mantissa == m@,
            dot <= after <= m.len(),
            after == dot + 1 || (after == dot && dot == m.len()),
            all@ =~= m@.subrange(0, if i < dot {
                i as int
            } else {
                dot as int
            }) + m@.subrange(after as int, if i < after {
                after as int
            } else {
                i as int
            }),
        decreases m.len() - i,
    {
        if i != dot {
            all.push(m[i]);
        }
        i += 1;
    }
    assert(all@ =~= whole(mantissa) + fraction(mantissa));
    if all.len() == 0 {
        return false;
    }
    assert(text::all_digits(all@)) by {
        let (w, f) = (whole(mantissa), fraction(mantissa));
        assert forall|j: int| 0 <= j < all@.len() implies text::is_digit(#[trigger] all@[j]) by {
            if j < w.len() {
                assert(all@[j] == w[j]);
            } else {
                assert(all@[j] == f[j - w.len()]);
            }
        }
    }
    let mut minus: bool = false;
    let mut exp: u128 = 0;
    if mark < n {
        let t: Vec<char> = text::chars_of(body.substring_char(mark + 1, n));
        let ghost tail = body@.skip(mark + 1);
        assert(t@ =~= tail);
        let from: usize = if t.len() > 0 && (t[0] == '+' || t[0] == '-') {
            1
        } else {
            0
        };
        assert(t@.skip(from as int) =~= unsigned(tail));
        assert(t@.subrange(from as int, t@.len() as int) =~= unsigned(tail));
        if from == t.len() || !text::digits_between(&t, from, t.len()) {
            return false;
        }
        minus = t[0] == '-';
        exp = read_capped(&t, from);
    }
    let ghost e: nat = if mark < n {
        text::value(unsigned(body@.skip(mark + 1)))
    } else {
        0
    };
    assert(capped(e) == exp);
    let digits: Vec<u8> = digits_of(&all);
    scaled_above_least(digits, minus, exp, places)
}

/// Whether a notation denotes a number above zero.
pub fn positive(s: &str) -> (r: bool)
    ensures
        r == is_positive(s@),
{
    let n: usize = s.unicode_len();
    if n > 0 && s.get_char(0) == '-' {
        return false;
    }
    let body: &str = if n > 0 && s.get_char(0) == '+' {
        s.substring_char(1, n)
    } else {
        s
    };
    assert(body@ =~= unsigned(s@));
    let low: String = text::to_lower(body);
    text::same(low.as_str(), "inf") || text::same(low.as_str(), "infinity") || number_above_zero(
        body,
    )
}

// ---------------------------------------------------------------------------
// Plain weights
// ---------------------------------------------------------------------------

/// A weight written as digits, with or without a point and up to 45 digits behind
/// it, is positive exactly where one of its digits is not zero; with a minus sign
/// it never is, and a plus sign makes no difference.
pub proof fn law_plain_weights(before: Seq<char>, after: Seq<char>, i: int)
    requires
        text::all_digits(before),
        text::all_digits(after),
        before.len() + after.len() > 0,
        after.len() <= 45,
    ensures
        ({
            let digits = before + after;
            let weight = before + "."@ + after;
            &&& 0 <= i < digits.len() && digits[i] != '0' ==> is_positive(weight)
            &&& (forall|j: int| 0 <= j < digits.len() ==> #[trigger] digits[j] == '0')
                ==> !is_positive(weight)
            &&& !is_positive("-"@ + weight)
            &&& is_positive("+"@ + weight) == is_positive(weight)
            &&& before.len() > 0 && after.len() == 0 ==> is_positive(before) == is_positive(weight)
        }),
{
    reveal_strlit(".");
    reveal_strlit("-");
    reveal_strlit("+");
    reveal_strlit("inf");
    reveal_strlit("infinity");
    let digits = before + after;
    let weight = before + "."@ + after;
    assert forall|j: int| 0 <= j < digits.len() implies text::is_digit(#[trigger] digits[j]) by {
        if j < before.len() {
            assert(text::is_digit(before[j]));
        } else {
            assert(text::is_digit(after[j - before.len()]));
        }
    }
    lemma_value_of(digits, i);
    assert forall|j: int| 0 <= j < weight.len() implies #[trigger] weight[j] == '.'
        || text::is_digit(weight[j]) by {
        if j < before.len() {
            assert(text::is_digit(before[j]));
        } else if j > before.len() {
            assert(text::is_digit(after[j - before.len() - 1]));
        }
    }
    lemma_plain(weight, before, after);
    assert(("-"@ + weight)[0] == '-');
    assert(("+"@ + weight)[0] == '+');
    assert(("+"@ + weight).skip(1) =~= weight);
    if before.len() > 0 && after.len() == 0 {
        assert forall|j: int| 0 <= j < before.len() implies text::is_digit(
            #[trigger] before[j],
        ) by {}
        assert(digits =~= before);
        lemma_whole(before);
    }
}

/// A row of digits is zero exactly where every digit is.
proof fn lemma_value_of(digits: Seq<char>, i: int)
    requires
        text::all_digits(digits),
    ensures
        0 <= i < digits.len() && digits[i] != '0' ==> text::value(digits) > 0,
        (forall|j: int| 0 <= j < digits.len() ==> #[trigger] digits[j] == '0') ==> text::value(
            digits,
        ) == 0,
    decreases digits.len(),
{
    if digits.len() > 0 {
        let before = digits.drop_last();
        assert forall|j: int| 0 <= j < before.len() implies text::is_digit(
            #[trigger] before[j],
        ) by {
            assert(digits[j] == before[j]);
        }
        assert(digits =~= before.push(digits.last()));
        assert(text::is_digit(digits[digits.len() - 1]));
        text::lemma_value_push(before, digits.last());
        lemma_value_of(before, i);
        assert(forall|j: int| 0 <= j < before.len() ==> #[trigger] before[j] == digits[j]);
    }
}

/// A notation of digits and a point is read as such a number.
proof fn lemma_plain(weight: Seq<char>, before: Seq<char>, after: Seq<char>)
    requires
        weight == before + "."@ + after,
        text::all_digits(before),
        text::all_digits(after),
        before.len() + after.len() > 0,
        after.len() <= 45,
    ensures
        is_positive(weight) == (text::value(before + after) > 0),
        !negative(weight) && unsigned(weight) == weight,
{
    reveal_strlit(".");
    reveal_strlit("inf");
    reveal_strlit("infinity");
    let n = before.len() as int;
    assert forall|j: int| 0 <= j < weight.len() implies #[trigger] weight[j] == '.'
        || text::is_digit(weight[j]) by {
        if j < n {
            assert(text::is_digit(before[j]));
        } else if j > n {
            assert(text::is_digit(after[j - n - 1]));
        }
    }
    let low = text::lower(weight);
    assert(weight.len() > 0);
    assert(weight[0] == '.' || text::is_digit(weight[0]));
    assert(low[0] != 'i');
    assert("inf"@[0] == 'i' && "infinity"@[0] == 'i');
    assert(!low.contains('e')) by {
        if low.contains('e') {
            let j = choose|j: int| 0 <= j < low.len() && low[j] == 'e';
            assert(weight[j] == '.' || text::is_digit(weight[j]));
        }
    }
    low.index_of_first_ensures('e');
    assert(weight.take(weight.len() as int) =~= weight);
    assert(weight[n] == '.');
    assert(weight.contains('.'));
    weight.index_of_first_ensures('.');
    let k = weight.index_of_first('.')->0;
    assert(k == n) by {
        if k < n {
            assert(text::is_digit(before[k]));
        }
    }
    assert(whole(weight) =~= before);
    assert(fraction(weight) =~= after);
    lemma_places(text::value(before + after), after.len());
}

/// The same without a point.
proof fn lemma_whole(weight: Seq<char>)
    requires
        text::all_digits(weight),
        weight.len() > 0,
    ensures
        is_positive(weight) == (text::value(weight) > 0),
{
    reveal_strlit("inf");
    reveal_strlit("infinity");
    let low = text::lower(weight);
    assert(text::is_digit(weight[0]));
    assert(low[0] != 'i');
    assert("inf"@[0] == 'i' && "infinity"@[0] == 'i');
    assert(!low.contains('e')) by {
        if low.contains('e') {
            let j = choose|j: int| 0 <= j < low.len() && low[j] == 'e';
            assert(text::is_digit(weight[j]));
        }
    }
    low.index_of_first_ensures('e');
    assert(weight.take(weight.len() as int) =~= weight);
    assert(!weight.contains('.')) by {
        if weight.contains('.') {
            let j = choose|j: int| 0 <= j < weight.len() && weight[j] == '.';
            assert(text::is_digit(weight[j]));
        }
    }
    weight.index_of_first_ensures('.');
    assert(whole(weight) =~= weight);
    assert(weight + Seq::<char>::empty() =~= weight);
    lemma_places(text::value(weight), 0);
}

/// With few places behind the point only zero is too small.
proof fn lemma_places(digits: nat, places: nat)
    requires
        places <= 45,
    ensures
        above_least(digits, -(places as int)) == (digits > 0),
{
    lemma_pow2_pos(150);
    if places > 0 {
        assert(pow(10, places) < pow2(150)) by {
            lemma_pow_increases(10, places, 45);
            lemma_pow_multiplies(10, 3, 15);
            assert(pow(10, 3) == 1000) by {
                reveal_with_fuel(pow, 5);
            }
            lemma_pow_strictly_grows(15);
            lemma_pow2(150);
            lemma_pow_multiplies(2, 10, 15);
            assert(pow(2, 10) == 1024) by {
                reveal_with_fuel(pow, 12);
            }
        }
        lemma_pow_positive(10, places);
        if digits > 0 {
            assert(digits * pow2(150) >= pow2(150)) by (nonlinear_arith)
                requires
                    digits >= 1,
            ;
        } else {
            assert(digits * pow2(150) == 0) by (nonlinear_arith)
                requires
                    digits == 0,
            ;
        }
    }
}

proof fn lemma_pow_strictly_grows(n: nat)
    requires
        n > 0,
    ensures
        0 < pow(1000, n) < pow(1024, n),
    decreases n,
{
    reveal(pow);
    if n > 1 {
        lemma_pow_strictly_grows((n - 1) as nat);
        let (a, b) = (pow(1000, (n - 1) as nat), pow(1024, (n - 1) as nat));
        assert(0 < 1000 * a < 1024 * b) by (nonlinear_arith)
            requires
                0 < a < b,
        ;
    } else {
        lemma_pow0(1000);
        lemma_pow0(1024);
    }
}

} // verus!

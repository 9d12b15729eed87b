//! Text as sequences of characters: the string operations that the middleware
//! modules share, each proved against a short statement over `Seq<char>`.
use vstd::arithmetic::power::*;
use vstd::prelude::*;
use vstd::string::*;

verus! {

/// `String::push` appends one character.
pub assume_specification[ String::push ](s: &mut String, c: char)
    ensures
        final(s)@ == old(s)@.push(c),
;

// ---------------------------------------------------------------------------
// Characters
// ---------------------------------------------------------------------------

/// The ASCII lower-case form of a character; other characters stay as they are.
pub open spec fn lower_char(c: char) -> char {
    if 'A' <= c && c <= 'Z' {
        ((c as u8) + 32) as char
    } else {
        c
    }
}

/// The text with every ASCII letter in lower case.
pub open spec fn lower(s: Seq<char>) -> Seq<char> {
    s.map_values(|c: char| lower_char(c))
}

/// Two texts that differ at most in the case of ASCII letters.
pub open spec fn same_ignoring_case(a: Seq<char>, b: Seq<char>) -> bool {
    lower(a) == lower(b)
}

pub proof fn lemma_lower_twice(s: Seq<char>)
    ensures
        lower(lower(s)) == lower(s),
{
    assert(lower(lower(s)) =~= lower(s));
}

/// The characters with the Unicode property `White_Space`.
pub open spec fn is_white_space(c: char) -> bool {
    ||| ('\u{9}' <= c && c <= '\u{d}')
    ||| c == ' '
    ||| c == '\u{85}'
    ||| c == '\u{a0}'
    ||| c == '\u{1680}'
    ||| ('\u{2000}' <= c && c <= '\u{200a}')
    ||| c == '\u{2028}'
    ||| c == '\u{2029}'
    ||| c == '\u{202f}'
    ||| c == '\u{205f}'
    ||| c == '\u{3000}'
}

/// The ASCII digits.
pub open spec fn is_digit(c: char) -> bool {
    '0' <= c && c <= '9'
}

pub fn to_lower_char(c: char) -> (r: char)
    ensures
        r == lower_char(c),
{
    if 'A' <= c && c <= 'Z' {
        ((c as u8) + 32) as char
    } else {
        c
    }
}

pub fn white_space(c: char) -> (r: bool)
    ensures
        r == is_white_space(c),
{
    ('\u{9}' <= c && c <= '\u{d}') || c == ' ' || c == '\u{85}' || c == '\u{a0}' || c == '\u{1680}'
        || ('\u{2000}' <= c && c <= '\u{200a}') || c == '\u{2028}' || c == '\u{2029}'
        || c == '\u{202f}' || c == '\u{205f}' || c == '\u{3000}'
}

// ---------------------------------------------------------------------------
// Whole texts
// ---------------------------------------------------------------------------

/// The characters of a text, one by one.
pub fn chars_of(s: &str) -> (r: Vec<char>)
    ensures
        r@ == s@,
{
    let mut out: Vec<char> = Vec::new();
    for c in it: s.chars()
        invariant
            out@ == it.seq().take(it.index()),
            it.seq() == s@,
    {
        out.push(c);
    }
    out
}

/// Exact comparison of two texts.
pub fn same(a: &str, b: &str) -> (r: bool)
    ensures
        r == (a@ == b@),
{
    let x: Vec<char> = chars_of(a);
    let y: Vec<char> = chars_of(b);
    if x.len() != y.len() {
        return false;
    }
    let mut i: usize = 0;
    while i < x.len()
        invariant
            x@ == a@,
            y@ == b@,
            x.len() == y.len(),
            i <= x.len(),
            forall|j: int| 0 <= j < i ==> x@[j] == y@[j],
        decreases x.len() - i,
    {
        if x[i] != y[i] {
            return false;
        }
        i += 1;
    }
    assert(x@ =~= y@);
    true
}

/// The text with every ASCII letter in lower case.
pub fn to_lower(s: &str) -> (r: String)
    ensures
        r@ == lower(s@),
{
    let x: Vec<char> = chars_of(s);
    let mut out: String = String::new();
    let mut i: usize = 0;
    while i < x.len()
        invariant
            x@ == s@,
            i <= x.len(),
            out@ =~= lower(s@).take(i as int),
        decreases x.len() - i,
    {
        out.push(to_lower_char(x[i]));
        i += 1;
    }
    assert(lower(s@).take(x.len() as int) =~= lower(s@));
    out
}

/// Comparison of two texts up to the case of ASCII letters.
pub fn eq_ignore_case(a: &str, b: &str) -> (r: bool)
    ensures
        r == same_ignoring_case(a@, b@),
{
    let x: String = to_lower(a);
    let y: String = to_lower(b);
    same(x.as_str(), y.as_str())
}

// ---------------------------------------------------------------------------
// Trimming
// ---------------------------------------------------------------------------

/// The text without its leading white space.
pub open spec fn trimmed_start(s: Seq<char>) -> Seq<char>
    decreases s.len(),
{
    if s.len() > 0 && is_white_space(s[0]) {
        trimmed_start(s.drop_first())
    } else {
        s
    }
}

/// The text without its trailing white space.
pub open spec fn trimmed_end(s: Seq<char>) -> Seq<char>
    decreases s.len(),
{
    if s.len() > 0 && is_white_space(s.last()) {
        trimmed_end(s.drop_last())
    } else {
        s
    }
}

/// The text without the white space around it.
pub open spec fn trimmed(s: Seq<char>) -> Seq<char> {
    trimmed_end(trimmed_start(s))
}

/// How many characters of white space a text starts with.
fn leading_space(x: &Vec<char>) -> (k: usize)
    ensures
        k <= x.len(),
        trimmed_start(x@) == x@.skip(k as int),
{
    let mut k: usize = 0;
    assert(x@.skip(0) =~= x@);
    while k < x.len() && white_space(x[k])
        invariant
            k <= x.len(),
            trimmed_start(x@) == trimmed_start(x@.skip(k as int)),
        decreases x.len() - k,
    {
        assert(x@.skip(k as int).drop_first() =~= x@.skip(k + 1));
        k += 1;
    }
    k
}

/// `str::trim_start`.
pub fn trim_start(s: &str) -> (r: &str)
    ensures
        r@ == trimmed_start(s@),
{
    let x: Vec<char> = chars_of(s);
    let k: usize = leading_space(&x);
    s.substring_char(k, x.len())
}

/// `str::trim`.
pub fn trim(s: &str) -> (r: &str)
    ensures
        r@ == trimmed(s@),
{
    let x: Vec<char> = chars_of(s);
    let k: usize = leading_space(&x);
    let ghost rest = x@.skip(k as int);
    let mut end: usize = x.len();
    assert(rest =~= x@.subrange(k as int, end as int));
    while k < end && white_space(x[end - 1])
        invariant
            k <= end <= x.len(),
            trimmed_end(rest) == trimmed_end(x@.subrange(k as int, end as int)),
        decreases end,
    {
        assert(x@.subrange(k as int, end as int).drop_last() =~= x@.subrange(
            k as int,
            end as int - 1,
        ));
        end -= 1;
    }
    s.substring_char(k, end)
}

// ---------------------------------------------------------------------------
// Searching and cutting
// ---------------------------------------------------------------------------

/// The position of the first `c` in the text.
pub fn find_first(x: &Vec<char>, c: char) -> (r: Option<usize>)
    ensures
        match r {
            Some(i) => x@.index_of_first(c) == Some(i as int) && i < x.len(),
            None => x@.index_of_first(c) is None,
        },
{
    let mut i: usize = 0;
    while i < x.len()
        invariant
            i <= x.len(),
            forall|j: int| 0 <= j < i ==> x@[j] != c,
        decreases x.len() - i,
    {
        if x[i] == c {
            proof {
                assert(x@.contains(c));
                x@.index_of_first_ensures(c);
            }
            return Some(i);
        }
        i += 1;
    }
    proof {
        x@.index_of_first_ensures(c);
    }
    None
}

/// The position of the last `c` in the text.
pub fn find_last(x: &Vec<char>, c: char) -> (r: Option<usize>)
    ensures
        match r {
            Some(i) => x@.index_of_last(c) == Some(i as int) && i < x.len(),
            None => x@.index_of_last(c) is None,
        },
{
    let mut i: usize = x.len();
    while i > 0
        invariant
            i <= x.len(),
            forall|j: int| i <= j < x.len() ==> x@[j] != c,
        decreases i,
    {
        if x[i - 1] == c {
            proof {
                assert(x@.contains(c));
                x@.index_of_last_ensures(c);
            }
            return Some(i - 1);
        }
        i -= 1;
    }
    proof {
        x@.index_of_last_ensures(c);
    }
    None
}

/// Whether `c` occurs in the text.
pub fn contains_char(s: &str, c: char) -> (r: bool)
    ensures
        r == s@.contains(c),
{
    let x: Vec<char> = chars_of(s);
    proof {
        x@.index_of_first_ensures(c);
    }
    find_first(&x, c).is_some()
}

/// The pieces of a text between the occurrences of `sep`; always at least one.
pub open spec fn pieces(s: Seq<char>, sep: char) -> Seq<Seq<char>>
    decreases s.len(),
{
    if s.len() == 0 {
        seq![Seq::empty()]
    } else {
        let before = pieces(s.drop_last(), sep);
        if s.last() == sep {
            before.push(Seq::empty())
        } else {
            before.drop_last().push(before.last().push(s.last()))
        }
    }
}

pub proof fn lemma_pieces_nonempty(s: Seq<char>, sep: char)
    ensures
        pieces(s, sep).len() > 0,
    decreases s.len(),
{
    if s.len() > 0 {
        lemma_pieces_nonempty(s.drop_last(), sep);
    }
}

/// A text without the separator is one piece.
pub proof fn lemma_one_piece(s: Seq<char>, sep: char)
    requires
        !s.contains(sep),
    ensures
        pieces(s, sep) =~= seq![s],
    decreases s.len(),
{
    if s.len() > 0 {
        let before = s.drop_last();
        assert(forall|i: int| 0 <= i < before.len() ==> #[trigger] before[i] == s[i]);
        assert(s[s.len() - 1] == s.last());
        lemma_one_piece(before, sep);
        assert(before.push(s.last()) =~= s);
    } else {
        assert(s =~= Seq::empty());
    }
}

/// The pieces of two texts around a separator.
pub proof fn lemma_pieces_join(a: Seq<char>, sep: char, b: Seq<char>)
    ensures
        pieces(a.push(sep) + b, sep) =~= pieces(a, sep) + pieces(b, sep),
    decreases b.len(),
{
    let s = a.push(sep) + b;
    if b.len() == 0 {
        assert(s =~= a.push(sep));
        assert(s.drop_last() =~= a);
    } else {
        lemma_pieces_join(a, sep, b.drop_last());
        lemma_pieces_nonempty(b.drop_last(), sep);
        assert(s.drop_last() =~= a.push(sep) + b.drop_last());
    }
}

/// A character before a text goes to the first piece.
proof fn lemma_pieces_prepend(c: char, s: Seq<char>, sep: char)
    requires
        c != sep,
    ensures
        pieces(seq![c] + s, sep) =~= pieces(s, sep).update(0, seq![c] + pieces(s, sep)[0]),
    decreases s.len(),
{
    let t = seq![c] + s;
    lemma_pieces_nonempty(s, sep);
    if s.len() == 0 {
        assert(t =~= seq![c]);
        assert(t.drop_last() =~= Seq::empty());
        assert(pieces(t.drop_last(), sep) =~= seq![Seq::<char>::empty()]);
        assert(seq![c] + Seq::<char>::empty() =~= Seq::<char>::empty().push(c));
    } else {
        let before = pieces(s.drop_last(), sep);
        lemma_pieces_nonempty(s.drop_last(), sep);
        lemma_pieces_prepend(c, s.drop_last(), sep);
        assert(t.drop_last() =~= seq![c] + s.drop_last());
        if s.last() != sep && before.len() == 1 {
            assert((seq![c] + before[0]).push(s.last()) =~= seq![c] + before[0].push(s.last()));
        }
    }
}

/// White space at the end goes when a text is trimmed.
proof fn lemma_trimmed_push(s: Seq<char>, c: char)
    requires
        is_white_space(c),
    ensures
        trimmed(s.push(c)) == trimmed(s),
{
    lemma_trimmed_start_push(s, c);
    let rest = trimmed_start(s);
    if rest.len() > 0 {
        assert(rest.push(c).drop_last() =~= rest);
    }
}

proof fn lemma_trimmed_start_push(s: Seq<char>, c: char)
    requires
        is_white_space(c),
    ensures
        trimmed_start(s.push(c)) == if trimmed_start(s).len() == 0 {
            Seq::empty()
        } else {
            trimmed_start(s).push(c)
        },
    decreases s.len(),
{
    if s.len() == 0 {
        assert(s.push(c).drop_first() =~= Seq::empty());
        assert(trimmed_start(Seq::empty()) =~= Seq::empty());
        assert(trimmed_start(s).len() == 0);
    } else {
        assert(s.push(c).drop_first() =~= s.drop_first().push(c));
        lemma_trimmed_start_push(s.drop_first(), c);
    }
}

/// Two lists of pieces that are the same up to white space around each.
pub open spec fn same_trimmed(a: Seq<Seq<char>>, b: Seq<Seq<char>>) -> bool {
    &&& a.len() == b.len()
    &&& forall|i: int| 0 <= i < a.len() ==> trimmed(#[trigger] a[i]) == trimmed(b[i])
}

/// Trimming a text changes only the white space around its pieces.
pub proof fn lemma_trimmed_pieces(s: Seq<char>, sep: char)
    requires
        !is_white_space(sep),
    ensures
        same_trimmed(pieces(trimmed(s), sep), pieces(s, sep)),
{
    lemma_trimmed_start_pieces(s, sep);
    lemma_trimmed_end_pieces(trimmed_start(s), sep);
}

proof fn lemma_trimmed_start_pieces(s: Seq<char>, sep: char)
    requires
        !is_white_space(sep),
    ensures
        same_trimmed(pieces(trimmed_start(s), sep), pieces(s, sep)),
    decreases s.len(),
{
    if s.len() > 0 && is_white_space(s[0]) {
        let rest = s.drop_first();
        lemma_trimmed_start_pieces(rest, sep);
        lemma_pieces_nonempty(rest, sep);
        lemma_pieces_prepend(s[0], rest, sep);
        assert(s =~= seq![s[0]] + rest);
        let first = pieces(rest, sep)[0];
        assert((seq![s[0]] + first).drop_first() =~= first);
    }
}

proof fn lemma_trimmed_end_pieces(s: Seq<char>, sep: char)
    requires
        !is_white_space(sep),
    ensures
        same_trimmed(pieces(trimmed_end(s), sep), pieces(s, sep)),
    decreases s.len(),
{
    if s.len() > 0 && is_white_space(s.last()) {
        let rest = s.drop_last();
        lemma_trimmed_end_pieces(rest, sep);
        lemma_pieces_nonempty(rest, sep);
        lemma_trimmed_push(pieces(rest, sep).last(), s.last());
    }
}

/// `str::split` at a character.
pub fn split<'a>(s: &'a str, sep: char) -> (r: Vec<&'a str>)
    ensures
        r@.map_values(|p: &'a str| p@) =~= pieces(s@, sep),
        r.len() > 0,
{
    let x: Vec<char> = chars_of(s);
    let mut out: Vec<&'a str> = Vec::new();
    let mut from: usize = 0;
    let mut i: usize = 0;
    assert(x@.take(0) =~= Seq::<char>::empty());
    while i < x.len()
        invariant
            x@ == s@,
            from <= i <= x.len(),
            pieces(s@.take(i as int), sep) =~= out@.map_values(|p: &'a str| p@).push(
                s@.subrange(from as int, i as int),
            ),
        decreases x.len() - i,
    {
        assert(s@.take(i + 1).drop_last() =~= s@.take(i as int));
        if x[i] == sep {
            let piece: &'a str = s.substring_char(from, i);
            let ghost before = out@.map_values(|p: &'a str| p@);
            out.push(piece);
            from = i + 1;
            assert(out@.map_values(|p: &'a str| p@) =~= before.push(piece@));
            assert(s@.subrange(from as int, i + 1) =~= Seq::<char>::empty());
        } else {
            assert(s@.subrange(from as int, i as int).push(x@[i as int]) =~= s@.subrange(
                from as int,
                i + 1,
            ));
        }
        i += 1;
    }
    assert(s@.take(i as int) =~= s@);
    let ghost before = out@.map_values(|p: &'a str| p@);
    out.push(s.substring_char(from, i));
    assert(out@.map_values(|p: &'a str| p@) =~= before.push(s@.subrange(from as int, i as int)));
    out
}

/// `needle` stands in `s` at position `i`.
pub open spec fn occurs_at(s: Seq<char>, needle: Seq<char>, i: int) -> bool {
    &&& 0 <= i
    &&& i + needle.len() <= s.len()
    &&& s.subrange(i, i + needle.len()) == needle
}

/// `needle` stands somewhere in `s`.
pub open spec fn occurs(s: Seq<char>, needle: Seq<char>) -> bool {
    exists|i: int| occurs_at(s, needle, i)
}

fn matches_at(x: &Vec<char>, n: &Vec<char>, i: usize) -> (r: bool)
    requires
        i <= x.len(),
    ensures
        r == occurs_at(x@, n@, i as int),
{
    if n.len() > x.len() - i {
        return false;
    }
    let mut k: usize = 0;
    while k < n.len()
        invariant
            k <= n.len(),
            i + n.len() <= x.len(),
            forall|j: int| 0 <= j < k ==> x@[i + j] == n@[j],
        decreases n.len() - k,
    {
        if x[i + k] != n[k] {
            assert(x@.subrange(i as int, i + n@.len())[k as int] != n@[k as int]);
            return false;
        }
        k += 1;
    }
    assert(x@.subrange(i as int, i + n@.len()) =~= n@);
    true
}

/// `str::starts_with`, for a text.
pub fn starts_with(s: &str, prefix: &str) -> (r: bool)
    ensures
        r == prefix@.is_prefix_of(s@),
{
    let x: Vec<char> = chars_of(s);
    let n: Vec<char> = chars_of(prefix);
    matches_at(&x, &n, 0)
}

/// `str::contains`, for a text.
pub fn contains(s: &str, needle: &str) -> (r: bool)
    ensures
        r == occurs(s@, needle@),
{
    let x: Vec<char> = chars_of(s);
    let n: Vec<char> = chars_of(needle);
    let mut i: usize = 0;
    loop
        invariant
            x@ == s@,
            n@ == needle@,
            i <= x.len(),
            forall|j: int| 0 <= j < i ==> !occurs_at(s@, needle@, j),
        decreases x.len() - i,
    {
        if matches_at(&x, &n, i) {
            return true;
        }
        if i == x.len() {
            return false;
        }
        i += 1;
    }
}

/// All characters are ASCII digits.
pub open spec fn all_digits(s: Seq<char>) -> bool {
    forall|i: int| 0 <= i < s.len() ==> is_digit(#[trigger] s[i])
}

/// Whether all characters from one position up to another are ASCII digits.
pub fn digits_between(x: &Vec<char>, from: usize, to: usize) -> (r: bool)
    requires
        from <= to <= x.len(),
    ensures
        r == all_digits(x@.subrange(from as int, to as int)),
{
    let ghost part = x@.subrange(from as int, to as int);
    let mut i: usize = from;
    while i < to
        invariant
            from <= i <= to <= x.len(),
            part == x@.subrange(from as int, to as int),
            forall|j: int| 0 <= j < i - from ==> is_digit(#[trigger] part[j]),
        decreases to - i,
    {
        assert(part[i - from] == x@[i as int]);
        if !('0' <= x[i] && x[i] <= '9') {
            return false;
        }
        i += 1;
    }
    true
}

/// The text with every occurrence of `from` exchanged for `to`, found from the
/// left and without overlap.
pub open spec fn replaced(s: Seq<char>, from: Seq<char>, to: Seq<char>) -> Seq<char>
    decreases s.len(),
{
    if s.len() == 0 || from.len() == 0 {
        s
    } else if from.is_prefix_of(s) {
        to + replaced(s.skip(from.len() as int), from, to)
    } else {
        seq![s[0]] + replaced(s.skip(1), from, to)
    }
}

/// A text without the first character of `from` stays as it is.
pub proof fn lemma_replaced_absent(s: Seq<char>, from: Seq<char>, to: Seq<char>)
    requires
        from.len() > 0,
        !s.contains(from[0]),
    ensures
        replaced(s, from, to) == s,
    decreases s.len(),
{
    if s.len() > 0 {
        assert(s.contains(s[0]));
        assert forall|c: char| s.skip(1).contains(c) implies s.contains(c) by {
            let i = choose|i: int| 0 <= i < s.skip(1).len() && s.skip(1)[i] == c;
            assert(s[i + 1] == c);
        }
        lemma_replaced_absent(s.skip(1), from, to);
        assert(seq![s[0]] + s.skip(1) =~= s);
    }
}

/// A part without the first character of `from` is passed over.
pub proof fn lemma_replaced_skips(s: Seq<char>, rest: Seq<char>, from: Seq<char>, to: Seq<char>)
    requires
        from.len() > 0,
        !s.contains(from[0]),
    ensures
        replaced(s + rest, from, to) == s + replaced(rest, from, to),
    decreases s.len(),
{
    if s.len() == 0 {
        assert(s + rest =~= rest);
        assert(s + replaced(rest, from, to) =~= replaced(rest, from, to));
    } else {
        let all = s + rest;
        assert(s.contains(s[0]));
        assert(all[0] == s[0]);
        assert forall|c: char| s.skip(1).contains(c) implies s.contains(c) by {
            let i = choose|i: int| 0 <= i < s.skip(1).len() && s.skip(1)[i] == c;
            assert(s[i + 1] == c);
        }
        assert(all.skip(1) =~= s.skip(1) + rest);
        lemma_replaced_skips(s.skip(1), rest, from, to);
        assert(seq![s[0]] + (s.skip(1) + replaced(rest, from, to)) =~= s + replaced(
            rest,
            from,
            to,
        ));
    }
}

/// An occurrence at the start is exchanged.
pub proof fn lemma_replaced_at(rest: Seq<char>, from: Seq<char>, to: Seq<char>)
    requires
        from.len() > 0,
    ensures
        replaced(from + rest, from, to) == to + replaced(rest, from, to),
{
    let all = from + rest;
    assert(all.subrange(0, from.len() as int) =~= from);
    assert(all.skip(from.len() as int) =~= rest);
}

/// `str::replace`.
pub fn replace(s: &str, from: &str, to: &str) -> (r: String)
    requires
        from@.len() > 0,
    ensures
        r@ == replaced(s@, from@, to@),
{
    let x: Vec<char> = chars_of(s);
    let n: Vec<char> = chars_of(from);
    let mut out: String = String::new();
    let mut i: usize = 0;
    assert(s@.skip(0) =~= s@);
    while i < x.len()
        invariant
            x@ == s@,
            n@ == from@,
            from@.len() > 0,
            i <= x.len(),
            replaced(s@, from@, to@) =~= out@ + replaced(s@.skip(i as int), from@, to@),
        decreases x.len() - i,
    {
        let ghost rest = s@.skip(i as int);
        if matches_at(&x, &n, i) {
            assert(rest.subrange(0, n@.len() as int) =~= n@);
            assert(rest.skip(n@.len() as int) =~= s@.skip(i + n@.len()));
            out.append(to);
            i += n.len();
        } else {
            assert(!from@.is_prefix_of(rest)) by {
                if from@.is_prefix_of(rest) {
                    assert(s@.subrange(i as int, i + n@.len()) =~= rest.subrange(
                        0,
                        n@.len() as int,
                    ));
                }
            }
            assert(rest.skip(1) =~= s@.skip(i + 1));
            out.push(x[i]);
            i += 1;
        }
    }
    out
}

// ---------------------------------------------------------------------------
// Numbers
// ---------------------------------------------------------------------------

/// The decimal digit for a number below ten.
pub open spec fn digit(n: nat) -> char {
    (n + 48) as char
}

/// The decimal notation of a number.
pub open spec fn decimal(n: nat) -> Seq<char>
    decreases n,
{
    if n < 10 {
        seq![digit(n)]
    } else {
        decimal(n / 10).push(digit(n % 10))
    }
}

/// The number that a row of decimal digits denotes.
pub open spec fn value(digits: Seq<char>) -> nat
    decreases digits.len(),
{
    if digits.len() == 0 {
        0
    } else {
        ((digits[0] as nat - 48) * pow(10, (digits.len() - 1) as nat) + value(
            digits.skip(1),
        )) as nat
    }
}

/// One more digit.
pub proof fn lemma_value_push(s: Seq<char>, c: char)
    requires
        all_digits(s.push(c)),
    ensures
        value(s.push(c)) == 10 * value(s) + (c as nat - 48),
    decreases s.len(),
{
    let t = s.push(c);
    assert(is_digit(t[s.len() as int]));
    if s.len() == 0 {
        lemma_pow0(10);
        assert(t.skip(1) =~= Seq::empty());
        let d = c as nat - 48;
        let p = pow(10, 0);
        assert(d * p == d) by (nonlinear_arith)
            requires
                p == 1,
        ;
        assert(value(t) == d * p + value(t.skip(1)));
    } else {
        assert forall|i: int| 0 <= i < s.len() implies is_digit(#[trigger] s[i]) by {
            assert(t[i] == s[i]);
        }
        assert(t.skip(1) =~= s.skip(1).push(c));
        assert forall|i: int| 0 <= i < t.skip(1).len() implies is_digit(
            #[trigger] t.skip(1)[i],
        ) by {
            assert(t.skip(1)[i] == t[i + 1]);
        }
        lemma_value_push(s.skip(1), c);
        let n = (s.len() - 1) as nat;
        let d = s[0] as nat - 48;
        assert(is_digit(s[0]));
        assert(pow(10, (n + 1) as nat) == 10 * pow(10, n)) by {
            reveal(pow);
        }
        let p = pow(10, n);
        lemma_pow_positive(10, n);
        assert(d * (10 * p) == 10 * (d * p)) by (nonlinear_arith);
        assert(d * p >= 0) by (nonlinear_arith)
            requires
                d >= 0,
                p > 0,
        ;
        assert(value(s) == d * p + value(s.skip(1)));
        assert(t[0] == s[0]);
        assert(value(t) == d * (10 * p) + value(t.skip(1)));
    }
}

/// `u64::to_string`.
pub fn number(n: u64) -> (r: String)
    ensures
        r@ == decimal(n as nat),
    decreases n,
{
    let last: char = ((n % 10) as u8 + 48) as char;
    let mut out: String = if n < 10 {
        String::new()
    } else {
        number(n / 10)
    };
    out.push(last);
    assert(n < 10 ==> out@ =~= seq![digit(n as nat)]);
    out
}

/// The digits of a number denote it.
pub proof fn lemma_decimal_value(n: nat)
    ensures
        all_digits(decimal(n)),
        value(decimal(n)) == n,
        decimal(n).len() > 0,
    decreases n,
{
    if n < 10 {
        let s = decimal(n);
        assert(s =~= Seq::empty().push(digit(n)));
        lemma_value_push(Seq::empty(), digit(n));
    } else {
        lemma_decimal_value(n / 10);
        let before = decimal(n / 10);
        let s = before.push(digit(n % 10));
        assert forall|i: int| 0 <= i < s.len() implies is_digit(#[trigger] s[i]) by {
            if i < before.len() {
                assert(s[i] == before[i]);
            }
        }
        lemma_value_push(before, digit(n % 10));
    }
}

/// The number that `str::parse` reads as a `u8`: digits after an optional `+`,
/// up to 255.
pub open spec fn u8_text(s: Seq<char>) -> Option<u8> {
    let digits = if s.len() > 0 && s[0] == '+' {
        s.skip(1)
    } else {
        s
    };
    if digits.len() > 0 && all_digits(digits) && value(digits) <= 255 {
        Some(value(digits) as u8)
    } else {
        None
    }
}

/// Reads a number up to 255.
pub fn parse_u8(s: &str) -> (r: Option<u8>)
    ensures
        r == u8_text(s@),
{
    let x: Vec<char> = chars_of(s);
    let from: usize = if x.len() > 0 && x[0] == '+' {
        1
    } else {
        0
    };
    let ghost all = x@.skip(from as int);
    assert(all =~= x@.subrange(from as int, x@.len() as int));
    assert(from == 0 ==> all =~= s@);
    if from == x.len() || !digits_between(&x, from, x.len()) {
        return None;
    }
    let mut r: u16 = 0;
    let mut i: usize = from;
    assert(all.take(0) =~= Seq::empty());
    while i < x.len()
        invariant
            from <= i <= x.len(),
            all == x@.skip(from as int),
            all_digits(all),
            r <= 256,
            r < 256 ==> value(all.take(i - from)) == r,
            r == 256 ==> value(all.take(i - from)) > 255,
        decreases x.len() - i,
    {
        proof {
            let k = i - from;
            assert(all[k] == x@[i as int]);
            assert(is_digit(all[k]));
            assert(all.take(k + 1) =~= all.take(k).push(all[k]));
            assert(all_digits(all.take(k + 1))) by {
                assert forall|j: int| 0 <= j < k + 1 implies is_digit(
                    #[trigger] all.take(k + 1)[j],
                ) by {
                    assert(all[j] == all.take(k + 1)[j]);
                }
            }
            lemma_value_push(all.take(k), all[k]);
        }
        let d: u16 = x[i] as u16 - 48;
        let next: u16 = r * 10 + d;
        r = if next > 255 {
            256
        } else {
            next
        };
        i += 1;
    }
    assert(all.take(i - from) =~= all);
    if r < 256 {
        Some(r as u8)
    } else {
        None
    }
}

// ---------------------------------------------------------------------------
// What the operations come to
// ---------------------------------------------------------------------------

/// Two texts are the same up to case exactly where each position holds one
/// character in both, or a capital letter here and its small letter there.
pub proof fn law_only_case_may_differ(a: Seq<char>, b: Seq<char>)
    ensures
        same_ignoring_case(a, b) <==> a.len() == b.len() && forall|i: int|
            0 <= i < a.len() ==> {
                let (x, y) = (#[trigger] a[i] as int, b[i] as int);
                ||| x == y
                ||| (65 <= x <= 90 && y == x + 32)
                ||| (65 <= y <= 90 && x == y + 32)
            },
{
    if same_ignoring_case(a, b) {
        assert(lower(a).len() == a.len() && lower(b).len() == b.len());
        assert forall|i: int| 0 <= i < a.len() implies ({
            let (x, y) = (#[trigger] a[i] as int, b[i] as int);
            ||| x == y
            ||| (65 <= x <= 90 && y == x + 32)
            ||| (65 <= y <= 90 && x == y + 32)
        }) by {
            assert(lower(a)[i] == lower(b)[i]);
        }
    }
    if a.len() == b.len() && forall|i: int|
        0 <= i < a.len() ==> {
            let (x, y) = (#[trigger] a[i] as int, b[i] as int);
            ||| x == y
            ||| (65 <= x <= 90 && y == x + 32)
            ||| (65 <= y <= 90 && x == y + 32)
        } {
        assert forall|i: int| 0 <= i < a.len() implies lower(a)[i] == lower(b)[i] by {
            let x = a[i] as int;
        }
        assert(lower(a) =~= lower(b));
    }
}

/// Lower case keeps the length and every character but the capital letters of
/// ASCII, each of which becomes its small letter.
pub proof fn law_lower_case(s: Seq<char>)
    ensures
        lower(s).len() == s.len(),
        forall|i: int|
            0 <= i < s.len() ==> {
                let (x, y) = (s[i] as int, #[trigger] lower(s)[i] as int);
                if 65 <= x <= 90 {
                    y == x + 32
                } else {
                    y == x
                }
            },
        same_ignoring_case(s, lower(s)),
{
    lemma_lower_twice(s);
}

/// The white space is what Unicode calls so.
pub proof fn law_white_space(c: char)
    ensures
        is_white_space(c) <==> {
            let n = c as int;
            ||| 9 <= n <= 13
            ||| n == 32
            ||| n == 133
            ||| n == 160
            ||| n == 5760
            ||| 8192 <= n <= 8202
            ||| n == 8232
            ||| n == 8233
            ||| n == 8239
            ||| n == 8287
            ||| n == 12288
        },
{
}

/// Trimming cuts a text out of what it is given: around it there was only white
/// space, and it neither starts nor ends with any.
pub proof fn law_trimmed(s: Seq<char>)
    ensures
        exists|i: int, j: int|
            0 <= i <= j <= s.len() && trimmed(s) == #[trigger] s.subrange(i, j) && (forall|k: int|
                (0 <= k < i || j <= k < s.len()) ==> is_white_space(#[trigger] s[k])) && (i < j
                ==> !is_white_space(s[i]) && !is_white_space(s[j - 1])),
{
    law_trimmed_start(s);
    let i = choose|i: int|
        0 <= i <= s.len() && trimmed_start(s) == #[trigger] s.skip(i) && (forall|k: int|
            0 <= k < i ==> is_white_space(#[trigger] s[k])) && (i < s.len()
            ==> !is_white_space(s[i]));
    let rest = s.skip(i);
    lemma_trimmed_end(rest);
    let n = choose|n: int|
        0 <= n <= rest.len() && trimmed_end(rest) == #[trigger] rest.take(n) && (forall|k: int|
            n <= k < rest.len() ==> is_white_space(#[trigger] rest[k])) && (n > 0
            ==> !is_white_space(rest[n - 1]));
    let j = i + n;
    assert(rest.take(n) =~= s.subrange(i, j));
    assert forall|k: int| (0 <= k < i || j <= k < s.len()) implies is_white_space(
        #[trigger] s[k],
    ) by {
        if k >= j {
            assert(rest[k - i] == s[k]);
        }
    }
    if i < j {
        assert(rest[n - 1] == s[j - 1]);
        assert(trimmed(s) == s.subrange(i, j));
    }
}

/// Trimming the start cuts leading white space, all of it and nothing else.
pub proof fn law_trimmed_start(s: Seq<char>)
    ensures
        exists|i: int|
            0 <= i <= s.len() && trimmed_start(s) == #[trigger] s.skip(i) && (forall|k: int|
                0 <= k < i ==> is_white_space(#[trigger] s[k])) && (i < s.len()
                ==> !is_white_space(s[i])),
    decreases s.len(),
{
    if s.len() > 0 && is_white_space(s[0]) {
        let t = s.drop_first();
        law_trimmed_start(t);
        let i = choose|i: int|
            0 <= i <= t.len() && trimmed_start(t) == #[trigger] t.skip(i) && (forall|k: int|
                0 <= k < i ==> is_white_space(#[trigger] t[k])) && (i < t.len()
                ==> !is_white_space(t[i]));
        assert(t.skip(i) =~= s.skip(i + 1));
        assert forall|k: int| 0 <= k < i + 1 implies is_white_space(#[trigger] s[k]) by {
            if k > 0 {
                assert(t[k - 1] == s[k]);
            }
        }
        if i + 1 < s.len() {
            assert(t[i] == s[i + 1]);
        }
    } else {
        assert(s.skip(0) =~= s);
    }
}

proof fn lemma_trimmed_end(s: Seq<char>)
    ensures
        exists|n: int|
            0 <= n <= s.len() && trimmed_end(s) == #[trigger] s.take(n) && (forall|k: int|
                n <= k < s.len() ==> is_white_space(#[trigger] s[k])) && (n > 0
                ==> !is_white_space(s[n - 1])),
    decreases s.len(),
{
    if s.len() > 0 && is_white_space(s.last()) {
        let t = s.drop_last();
        lemma_trimmed_end(t);
        let n = choose|n: int|
            0 <= n <= t.len() && trimmed_end(t) == #[trigger] t.take(n) && (forall|k: int|
                n <= k < t.len() ==> is_white_space(#[trigger] t[k])) && (n > 0
                ==> !is_white_space(t[n - 1]));
        assert(t.take(n) =~= s.take(n));
        assert forall|k: int| n <= k < s.len() implies is_white_space(#[trigger] s[k]) by {
            if k < t.len() {
                assert(t[k] == s[k]);
            }
        }
    } else {
        assert(s.take(s.len() as int) =~= s);
    }
}

/// A text that neither starts nor ends with white space is what trimming leaves.
pub proof fn lemma_trimmed_stays(s: Seq<char>)
    requires
        s.len() > 0 ==> !is_white_space(s[0]) && !is_white_space(s.last()),
    ensures
        trimmed(s) == s,
        trimmed_start(s) == s,
{
}

/// Texts with a separator between each two.
pub open spec fn joined(list: Seq<Seq<char>>, sep: char) -> Seq<char>
    decreases list.len(),
{
    if list.len() == 0 {
        Seq::empty()
    } else if list.len() == 1 {
        list[0]
    } else {
        joined(list.drop_last(), sep).push(sep) + list.last()
    }
}

/// The pieces of a text, joined, are the text; no piece holds the separator, and
/// there is always one.
pub proof fn law_pieces_make_up_the_text(s: Seq<char>, sep: char)
    ensures
        joined(pieces(s, sep), sep) == s,
        pieces(s, sep).len() > 0,
        forall|i: int|
            0 <= i < pieces(s, sep).len() ==> !(#[trigger] pieces(s, sep)[i]).contains(sep),
    decreases s.len(),
{
    let all = pieces(s, sep);
    if s.len() == 0 {
        assert(joined(all, sep) =~= s);
    } else {
        let t = s.drop_last();
        let before = pieces(t, sep);
        law_pieces_make_up_the_text(t, sep);
        assert(s =~= t.push(s.last()));
        if s.last() == sep {
            assert(all.drop_last() =~= before);
            assert(joined(all, sep) =~= s);
        } else {
            assert(all.drop_last() =~= before.drop_last());
            assert forall|i: int| 0 <= i < all.len() implies !(#[trigger] all[i]).contains(
                sep,
            ) by {
                if i < all.len() - 1 {
                    assert(all[i] == before[i]);
                } else {
                    let b = before.last();
                    assert(b == before[before.len() - 1]);
                    assert forall|k: int| 0 <= k < all[i].len() implies all[i][k] != sep by {
                        if k < b.len() {
                            assert(b.contains(b[k]));
                        }
                    }
                }
            }
            assert(joined(all, sep) =~= joined(before, sep).push(s.last()));
        }
    }
}

/// Joined texts come apart again, where none of them holds the separator.
pub proof fn law_joined_texts_come_apart(list: Seq<Seq<char>>, sep: char)
    requires
        list.len() > 0,
        forall|i: int| 0 <= i < list.len() ==> !(#[trigger] list[i]).contains(sep),
    ensures
        pieces(joined(list, sep), sep) == list,
    decreases list.len(),
{
    if list.len() == 1 {
        lemma_one_piece(list[0], sep);
        assert(list =~= seq![list[0]]);
    } else {
        let before = list.drop_last();
        law_joined_texts_come_apart(before, sep);
        assert(list.last() == list[list.len() - 1]);
        lemma_one_piece(list.last(), sep);
        lemma_pieces_join(joined(before, sep), sep, list.last());
        assert(before + seq![list.last()] =~= list);
    }
}

/// A text occurs in another exactly where the other is that text with something
/// before and after it.
pub proof fn law_occurs(s: Seq<char>, needle: Seq<char>)
    ensures
        occurs(s, needle) <==> exists|a: Seq<char>, b: Seq<char>| s == #[trigger] (a + needle + b),
{
    if occurs(s, needle) {
        let i = choose|i: int| occurs_at(s, needle, i);
        let (a, b) = (s.take(i), s.skip(i + needle.len()));
        assert(s =~= a + s.subrange(i, i + needle.len()) + b);
        assert(s == a + needle + b);
    }
    if exists|a: Seq<char>, b: Seq<char>| s == #[trigger] (a + needle + b) {
        let (a, b) = choose|a: Seq<char>, b: Seq<char>| s == #[trigger] (a + needle + b);
        let i = a.len() as int;
        assert(s.subrange(i, i + needle.len()) =~= needle);
        assert(occurs_at(s, needle, i));
    }
}

/// Replacement leaves a text alone in which nothing is to be replaced; otherwise
/// the first occurrence is exchanged, and what follows it is treated alike.
pub proof fn law_replaced(s: Seq<char>, from: Seq<char>, to: Seq<char>, i: int)
    requires
        from.len() > 0,
    ensures
        !occurs(s, from) ==> replaced(s, from, to) == s,
        occurs_at(s, from, i) && (forall|j: int| 0 <= j < i ==> !occurs_at(s, from, j))
            ==> replaced(s, from, to) == s.take(i) + to + replaced(
            s.skip(i + from.len()),
            from,
            to,
        ),
    decreases s.len(),
{
    if s.len() > 0 {
        let rest = s.skip(1);
        let prefix = from.is_prefix_of(s);
        assert(occurs_at(s, from, 0) <==> prefix) by {
            if s.len() >= from.len() {
                assert(s.subrange(0, from.len() as int) == s.take(from.len() as int));
            }
        }
        assert forall|j: int| 0 <= j implies occurs_at(rest, from, j) == #[trigger] occurs_at(
            s,
            from,
            j + 1,
        ) by {
            if j + 1 + from.len() <= s.len() {
                assert(rest.subrange(j, j + from.len()) =~= s.subrange(
                    j + 1,
                    j + 1 + from.len(),
                ));
            }
        }
        if !prefix {
            law_replaced(rest, from, to, i - 1);
            if !occurs(s, from) {
                if occurs(rest, from) {
                    let j = choose|j: int| occurs_at(rest, from, j);
                    assert(occurs_at(s, from, j + 1));
                }
                assert(seq![s[0]] + rest =~= s);
            }
            if occurs_at(s, from, i) && (forall|j: int| 0 <= j < i ==> !occurs_at(s, from, j)) {
                assert(i > 0);
                assert(occurs_at(s, from, (i - 1) + 1));
                assert forall|j: int| 0 <= j < i - 1 implies !occurs_at(rest, from, j) by {
                    assert(!occurs_at(s, from, j + 1));
                }
                assert(rest.skip(i - 1 + from.len()) =~= s.skip(i + from.len()));
                assert(seq![s[0]] + (rest.take(i - 1) + to + replaced(
                    s.skip(i + from.len()),
                    from,
                    to,
                )) =~= s.take(i) + to + replaced(s.skip(i + from.len()), from, to));
            }
        } else {
            if occurs_at(s, from, i) && (forall|j: int| 0 <= j < i ==> !occurs_at(s, from, j)) {
                assert(i == 0);
                assert(s.take(0) + to =~= to);
                assert(s.take(0) + to + replaced(s.skip(from.len() as int), from, to) =~= to
                    + replaced(s.skip(from.len() as int), from, to));
            }
        }
    }
}

/// The digits are those from 0 to 9, and a row of them denotes a number place by
/// place, ten for one.
pub proof fn law_digits_denote(s: Seq<char>, c: char)
    ensures
        is_digit(c) <==> 48 <= c as int <= 57,
        value(Seq::empty()) == 0,
        all_digits(s.push(c)) ==> value(s.push(c)) == 10 * value(s) + (c as int - 48),
{
    if all_digits(s.push(c)) {
        lemma_value_push(s, c);
    }
}

/// The decimal notation of a number is a row of digits that denotes it, without
/// a zero in front.
pub proof fn law_decimal_notation(n: nat)
    ensures
        decimal(n).len() > 0,
        forall|i: int| 0 <= i < decimal(n).len() ==> 48 <= #[trigger] decimal(n)[i] as int <= 57,
        value(decimal(n)) == n,
        n > 0 ==> decimal(n)[0] != '0',
        n < 10 ==> decimal(n).len() == 1,
    decreases n,
{
    lemma_decimal_value(n);
    assert forall|i: int| 0 <= i < decimal(n).len() implies 48 <= #[trigger] decimal(n)[i] as int
        <= 57 by {
        assert(is_digit(decimal(n)[i]));
    }
    if n >= 10 {
        law_decimal_notation(n / 10);
        assert(decimal(n)[0] == decimal(n / 10)[0]);
    }
}

/// A number up to 255 is read from its digits, with or without a `+` and with
/// any zeros in front; nothing else is read.
pub proof fn law_small_numbers(s: Seq<char>)
    ensures
        u8_text(s) is Some <==> ({
            ||| s.len() > 0 && all_digits(s) && value(s) <= 255
            ||| s.len() > 1 && s[0] == '+' && all_digits(s.skip(1)) && value(s.skip(1)) <= 255
        }),
        s.len() > 0 && all_digits(s) && value(s) <= 255 ==> u8_text(s) == Some(value(s) as u8),
        s.len() > 1 && s[0] == '+' && all_digits(s.skip(1)) && value(s.skip(1)) <= 255
            ==> u8_text(s) == Some(value(s.skip(1)) as u8),
{
    if s.len() > 0 && all_digits(s) {
        assert(is_digit(s[0]));
    }
}

} // verus!

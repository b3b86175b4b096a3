//! Parsing of claim declarations.
//!
//! A claim declaration is inscription content whose text, once decoded from
//! UTF-8 and trimmed, ends with the case-insensitive suffix `.pepemap` and
//! whose remaining prefix, trimmed again, is a plain decimal number between 1
//! and [`MAX_NUMBER`].

use vstd::prelude::*;

verus! {

/// Largest claim number that may ever be assigned.
pub const MAX_NUMBER: u32 = 5_000_000;

/// Inscription content: an optional content type and an optional body.
pub struct Inscription {
    pub content_type: Option<Vec<u8>>,
    pub body: Option<Vec<u8>>,
}

impl Inscription {
    /// Builds an inscription from its content type and body.
    pub fn new(content_type: Option<Vec<u8>>, body: Option<Vec<u8>>) -> (r: Self)
        ensures
            r.content_type == content_type,
            r.body == body,
    {
        Inscription { content_type, body }
    }
}

/// Whether `c` is one of the Unicode whitespace characters that trimming
/// removes.
pub open spec fn is_ws(c: char) -> bool {
    let u = c as u32;
    ||| (9 <= u && u <= 13)
    ||| u == 32
    ||| u == 0x85
    ||| u == 0xA0
    ||| u == 0x1680
    ||| (0x2000 <= u && u <= 0x200A)
    ||| u == 0x2028
    ||| u == 0x2029
    ||| u == 0x202F
    ||| u == 0x205F
    ||| u == 0x3000
}

/// Whether `c` is an ASCII decimal digit.
pub open spec fn is_digit(c: char) -> bool {
    48 <= c as u32 && c as u32 <= 57
}

/// The numeric value of the ASCII digit `c`.
pub open spec fn digit_val(c: char) -> nat {
    (c as u32 - 48) as nat
}

/// `s` without its leading whitespace.
pub open spec fn trim_start(s: Seq<char>) -> Seq<char>
    decreases s.len(),
{
    if s.len() > 0 && is_ws(s[0]) {
        trim_start(s.drop_first())
    } else {
        s
    }
}

/// `s` without its trailing whitespace.
pub open spec fn trim_end(s: Seq<char>) -> Seq<char>
    decreases s.len(),
{
    if s.len() > 0 && is_ws(s.last()) {
        trim_end(s.drop_last())
    } else {
        s
    }
}

/// `s` without leading and trailing whitespace.
pub open spec fn trim(s: Seq<char>) -> Seq<char> {
    trim_end(trim_start(s))
}

/// Whether `t` ends with the suffix `.pepemap`, letters in either case.
pub open spec fn has_claim_suffix(t: Seq<char>) -> bool {
    &&& t.len() >= 8
    &&& t[t.len() - 8] == '.'
    &&& (t[t.len() - 7] == 'p' || t[t.len() - 7] == 'P')
    &&& (t[t.len() - 6] == 'e' || t[t.len() - 6] == 'E')
    &&& (t[t.len() - 5] == 'p' || t[t.len() - 5] == 'P')
    &&& (t[t.len() - 4] == 'e' || t[t.len() - 4] == 'E')
    &&& (t[t.len() - 3] == 'm' || t[t.len() - 3] == 'M')
    &&& (t[t.len() - 2] == 'a' || t[t.len() - 2] == 'A')
    &&& (t[t.len() - 1] == 'p' || t[t.len() - 1] == 'P')
}

/// Whether every character of `s` is an ASCII decimal digit.
pub open spec fn all_digits(s: Seq<char>) -> bool {
    forall|i: int| 0 <= i < s.len() ==> is_digit(#[trigger] s[i])
}

/// The number written by the digit sequence `s`, read in base 10.
pub open spec fn digits_value(s: Seq<char>) -> nat
    decreases s.len(),
{
    if s.len() == 0 {
        0
    } else {
        digits_value(s.drop_last()) * 10 + digit_val(s.last())
    }
}

/// The claim number declared by the text `s`, if any: after trimming, `s`
/// must end with the case-insensitive suffix `.pepemap`, and the prefix
/// before the suffix, trimmed again, must be a nonempty digit sequence whose
/// value lies in `1 ..= MAX_NUMBER`.
pub open spec fn parse_claim(s: Seq<char>) -> Option<u32> {
    let t = trim(s);
    if !has_claim_suffix(t) {
        None
    } else {
        let p = trim(t.take(t.len() - 8));
        if p.len() == 0 || !all_digits(p) {
            None
        } else if 1 <= digits_value(p) && digits_value(p) <= MAX_NUMBER {
            Some(digits_value(p) as u32)
        } else {
            None
        }
    }
}

/// The characters of `bytes` decoded as UTF-8, or `None` where the bytes are
/// not valid UTF-8.
pub uninterp spec fn utf8_decode(bytes: Seq<u8>) -> Option<Seq<char>>;

/// The claim number declared by the inscription: its body must decode as
/// UTF-8 to a text that `parse_claim` accepts.
pub open spec fn spec_parse_number(i: Inscription) -> Option<u32> {
    match i.body {
        Option::Some(b) => match utf8_decode(b@) {
            Option::Some(cs) => parse_claim(cs),
            Option::None => Option::None,
        },
        Option::None => Option::None,
    }
}

/// Relies on std::str::from_utf8: whether a byte sequence is valid UTF-8, and
/// the characters it decodes to, depend on the bytes alone.
#[verifier::external_body]
fn decode_utf8(bytes: &Vec<u8>) -> (r: Option<String>)
    ensures
        match r {
            Option::Some(s) => utf8_decode(bytes@) == Option::Some(s@),
            Option::None => utf8_decode(bytes@) is None,
        },
{
    std::str::from_utf8(bytes.as_slice()).ok().map(|s| s.to_string())
}

/// Relies on str::chars: it yields the string's characters in order.
#[verifier::external_body]
fn string_chars(s: &String) -> (r: Vec<char>)
    ensures
        r@ == s@,
{
    s.chars().collect()
}

/// Whether `c` is a Unicode whitespace character.
fn is_whitespace_char(c: char) -> (r: bool)
    ensures
        r == is_ws(c),
{
    let u = c as u32;
    (9 <= u && u <= 13) || u == 32 || u == 0x85 || u == 0xA0 || u == 0x1680 || (0x2000 <= u && u
        <= 0x200A) || u == 0x2028 || u == 0x2029 || u == 0x202F || u == 0x205F || u == 0x3000
}

/// The value of `s.take(i)` never exceeds the value of the whole digit
/// sequence `s`.
proof fn lemma_digits_value_prefix(s: Seq<char>, i: int)
    requires
        0 <= i <= s.len(),
    ensures
        digits_value(s.take(i)) <= digits_value(s),
    decreases s.len() - i,
{
    if i == s.len() {
        assert(s.take(i) =~= s);
    } else {
        assert(s.take(i + 1).drop_last() =~= s.take(i));
        assert(digits_value(s.take(i)) * 10 >= digits_value(s.take(i))) by (nonlinear_arith);
        lemma_digits_value_prefix(s, i + 1);
    }
}

/// Parses a claim declaration out of a trimmed-and-checked character vector.
#[verifier::loop_isolation(false)]
#[verifier::rlimit(100)]
fn parse_claim_chars(chars: &Vec<char>) -> (r: Option<u32>)
    ensures
        r == parse_claim(chars@),
{
    let n = chars.len();
    proof {
        assert(chars@.skip(0) =~= chars@);
    }
    let mut start: usize = 0;
    while start < n && is_whitespace_char(chars[start])
        invariant
            start <= n,
            n == chars@.len(),
            trim_start(chars@) == trim_start(chars@.skip(start as int)),
        decreases n - start,
    {
        proof {
            assert(chars@.skip(start as int).drop_first() =~= chars@.skip(start as int + 1));
        }
        start += 1;
    }
    proof {
        assert(trim_start(chars@) == chars@.skip(start as int));
        assert(chars@.skip(start as int) =~= chars@.subrange(start as int, n as int));
    }
    let mut end: usize = n;
    while end > start && is_whitespace_char(chars[end - 1])
        invariant
            start <= end <= n,
            n == chars@.len(),
            trim(chars@) == trim_end(chars@.subrange(start as int, end as int)),
        decreases end,
    {
        proof {
            assert(chars@.subrange(start as int, end as int).drop_last() =~= chars@.subrange(
                start as int,
                end as int - 1,
            ));
        }
        end -= 1;
    }
    let ghost t = chars@.subrange(start as int, end as int);
    proof {
        assert(trim(chars@) == t);
    }
    if end - start < 8 {
        return None;
    }
    let dot = chars[end - 8];
    if !(dot == '.') {
        return None;
    }
    let c7 = chars[end - 7];
    if !(c7 == 'p' || c7 == 'P') {
        return None;
    }
    let c6 = chars[end - 6];
    if !(c6 == 'e' || c6 == 'E') {
        return None;
    }
    let c5 = chars[end - 5];
    if !(c5 == 'p' || c5 == 'P') {
        return None;
    }
    let c4 = chars[end - 4];
    if !(c4 == 'e' || c4 == 'E') {
        return None;
    }
    let c3 = chars[end - 3];
    if !(c3 == 'm' || c3 == 'M') {
        return None;
    }
    let c2 = chars[end - 2];
    if !(c2 == 'a' || c2 == 'A') {
        return None;
    }
    let c1 = chars[end - 1];
    if !(c1 == 'p' || c1 == 'P') {
        return None;
    }
    proof {
        assert(has_claim_suffix(t));
        assert(t.take(t.len() - 8) =~= chars@.subrange(start as int, end as int - 8));
    }
    let mut pend = end - 8;
    while pend > start && is_whitespace_char(chars[pend - 1])
        invariant
            start <= pend <= end - 8,
            end <= n == chars@.len(),
            trim_end(chars@.subrange(start as int, end as int - 8)) == trim_end(
                chars@.subrange(start as int, pend as int),
            ),
        decreases pend,
    {
        proof {
            assert(chars@.subrange(start as int, pend as int).drop_last() =~= chars@.subrange(
                start as int,
                pend as int - 1,
            ));
        }
        pend -= 1;
    }
    let ghost p0 = chars@.subrange(start as int, end as int - 8);
    let ghost p = chars@.subrange(start as int, pend as int);
    proof {
        assert(trim_end(p0) == p);
        if p0.len() > 0 {
            assert(p0[0] == chars@[start as int]);
            assert(!is_ws(p0[0]));
        }
        assert(trim_start(p0) == p0);
        assert(trim(t.take(t.len() - 8)) == p);
    }
    if pend == start {
        return None;
    }
    let mut i = start;
    while i < pend
        invariant
            start <= i <= pend <= n == chars@.len(),
            forall|j: int| start <= j < i ==> is_digit(#[trigger] chars@[j]),
        decreases pend - i,
    {
        let c = chars[i];
        let u = c as u32;
        if !(48 <= u && u <= 57) {
            proof {
                assert(p[i as int - start as int] == chars@[i as int]);
                assert(!all_digits(p));
            }
            return None;
        }
        i += 1;
    }
    proof {
        assert(all_digits(p)) by {
            assert(forall|j: int| 0 <= j < p.len() ==> #[trigger] p[j] == chars@[j + start]);
        }
    }
    let mut val: u32 = 0;
    let mut k = start;
    while k < pend
        invariant
            start <= k <= pend <= n == chars@.len(),
            p == chars@.subrange(start as int, pend as int),
            all_digits(p),
            forall|j: int| start <= j < pend ==> is_digit(#[trigger] chars@[j]),
            val == digits_value(chars@.subrange(start as int, k as int)),
            val <= MAX_NUMBER,
        decreases pend - k,
    {
        let c = chars[k];
        let d = (c as u32) - 48;
        let v2 = val * 10 + d;
        proof {
            assert(chars@.subrange(start as int, k as int + 1).drop_last() =~= chars@.subrange(
                start as int,
                k as int,
            ));
            assert(digits_value(chars@.subrange(start as int, k as int + 1)) == val * 10 + d);
        }
        if v2 > MAX_NUMBER {
            proof {
                assert(p.take(k as int + 1 - start) =~= chars@.subrange(start as int, k as int + 1));
                lemma_digits_value_prefix(p, k as int + 1 - start);
                assert(digits_value(p) > MAX_NUMBER);
            }
            return None;
        }
        val = v2;
        k += 1;
    }
    proof {
        assert(chars@.subrange(start as int, pend as int) =~= p);
        assert(val == digits_value(p));
    }
    if val == 0 {
        return None;
    }
    Some(val)
}

/// Extracts the claim number declared by an inscription, if its body is a
/// well-formed claim declaration.
pub fn parse_number(inscription: &Inscription) -> (r: Option<u32>)
    ensures
        r == spec_parse_number(*inscription),
{
    let body = match &inscription.body {
        Some(b) => b,
        None => {
            return None;
        },
    };
    let s = match decode_utf8(body) {
        Some(s) => s,
        None => {
            return None;
        },
    };
    let chars = string_chars(&s);
    parse_claim_chars(&chars)
}

/// A parsed claim number always lies between 1 and `MAX_NUMBER`: texts that
/// declare 0, or any number above the maximum, are rejected.
pub proof fn lemma_parse_claim_range(s: Seq<char>)
    ensures
        parse_claim(s) matches Some(n) ==> 1 <= n <= MAX_NUMBER,
{
}

} // verus!

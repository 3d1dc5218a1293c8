//! Character-level text handling: Unicode whitespace trimming, signed
//! integer literals and floating-point literals, as `str::parse` reads them.

use vstd::prelude::*;
use vstd::string::StringSliceAdditionalSpecFns;
use vstd::utf8::*;

verus! {

/// The Unicode `White_Space` property, which `char::is_whitespace` and
/// `str::trim` go by.
pub open spec fn is_white_space(c: char) -> bool {
    let u = c as u32;
    ||| 0x09 <= u <= 0x0d
    ||| u == 0x20
    ||| u == 0x85
    ||| u == 0xa0
    ||| u == 0x1680
    ||| 0x2000 <= u <= 0x200a
    ||| u == 0x2028
    ||| u == 0x2029
    ||| u == 0x202f
    ||| u == 0x205f
    ||| u == 0x3000
}

/// `s` with its leading whitespace removed.
pub open spec fn trim_start(s: Seq<char>) -> Seq<char>
    decreases s.len(),
{
    if s.len() > 0 && is_white_space(s[0]) {
        trim_start(s.drop_first())
    } else {
        s
    }
}

/// `s` with its trailing whitespace removed.
pub open spec fn trim_end(s: Seq<char>) -> Seq<char>
    decreases s.len(),
{
    if s.len() > 0 && is_white_space(s.last()) {
        trim_end(s.drop_last())
    } else {
        s
    }
}

/// `s` with leading and trailing whitespace removed.
pub open spec fn trim(s: Seq<char>) -> Seq<char> {
    trim_end(trim_start(s))
}

/// `s` with every leading `'+'` and `'-'` removed.
pub open spec fn strip_signs(s: Seq<char>) -> Seq<char>
    decreases s.len(),
{
    if s.len() > 0 && (s[0] == '+' || s[0] == '-') {
        strip_signs(s.drop_first())
    } else {
        s
    }
}

/// `str::trim`: leading and trailing `White_Space` characters removed.
#[verifier::external_body]
pub(crate) fn trim_str(s: &str) -> (r: &str)
    ensures
        r@ == trim(s@),
{
    s.trim()
}

/// `str::trim_start_matches` with the pattern `['+', '-']`: every leading
/// sign character removed.
#[verifier::external_body]
pub(crate) fn strip_signs_str(s: &str) -> (r: &str)
    ensures
        r@ == strip_signs(s@),
{
    s.trim_start_matches(['+', '-'])
}

/// The characters of `s`, in order.
pub fn chars_of(s: &str) -> (v: Vec<char>)
    ensures
        v@ == s@,
{
    let mut v: Vec<char> = Vec::new();
    for c in it: s.chars()
        invariant
            v@ == it.seq().take(it.index() as int),
            it.seq() == s@,
    {
        v.push(c);
    }
    v
}


/// An ASCII decimal digit, the only digits `str::parse` accepts.
pub open spec fn is_digit(c: char) -> bool {
    '0' <= c <= '9'
}

/// The value of an ASCII decimal digit.
pub open spec fn digit_value(c: char) -> int {
    c as int - '0' as int
}

/// Every character of `s` is a decimal digit.
pub open spec fn all_digits(s: Seq<char>) -> bool {
    forall|i: int| 0 <= i < s.len() ==> is_digit(#[trigger] s[i])
}

/// The number that a string of decimal digits denotes.
pub open spec fn digits_value(s: Seq<char>) -> int
    decreases s.len(),
{
    if s.len() == 0 {
        0
    } else {
        digits_value(s.drop_last()) * 10 + digit_value(s.last())
    }
}

/// `s` without a leading `'+'` or `'-'`, if it has one.
pub open spec fn without_sign(s: Seq<char>) -> Seq<char> {
    if s.len() > 0 && (s[0] == '+' || s[0] == '-') {
        s.drop_first()
    } else {
        s
    }
}

/// What `str::parse::<i32>` gives: an optional sign followed by at least one
/// digit, the value lying in the range of `i32`.
pub open spec fn spec_parse_i32(s: Seq<char>) -> Option<i32> {
    let body = without_sign(s);
    let negative = s.len() > 0 && s[0] == '-';
    let v = if negative {
        -digits_value(body)
    } else {
        digits_value(body)
    };
    if body.len() > 0 && all_digits(body) && i32::MIN <= v <= i32::MAX {
        Some(v as i32)
    } else {
        None
    }
}

proof fn lemma_digits_value_nonneg(s: Seq<char>)
    requires
        all_digits(s),
    ensures
        digits_value(s) >= 0,
    decreases s.len(),
{
    if s.len() > 0 {
        lemma_digits_value_nonneg(s.drop_last());
    }
}

proof fn lemma_digits_value_prefix(s: Seq<char>, k: int)
    requires
        all_digits(s),
        0 <= k <= s.len(),
    ensures
        digits_value(s.take(k)) <= digits_value(s),
    decreases s.len(),
{
    if k < s.len() {
        assert(s.drop_last().take(k) =~= s.take(k));
        lemma_digits_value_prefix(s.drop_last(), k);
        lemma_digits_value_nonneg(s.drop_last());
    } else {
        assert(s.take(k) =~= s);
    }
}

/// The value of `s` read as `str::parse::<i32>` reads it.
pub fn parse_i32(s: &Vec<char>) -> (r: Option<i32>)
    ensures
        r == spec_parse_i32(s@),
{
    let n = s.len();
    let negative = n > 0 && s[0] == '-';
    let start: usize = if n > 0 && (s[0] == '+' || s[0] == '-') {
        1
    } else {
        0
    };
    let ghost body = without_sign(s@);
    assert(body =~= s@.subrange(start as int, n as int));
    if start >= n {
        return None;
    }
    let mut acc: i64 = 0;
    let mut i = start;
    while i < n
        invariant
            start <= i <= n,
            n == s@.len(),
            body =~= s@.subrange(start as int, n as int),
            body == without_sign(s@),
            all_digits(body.take(i - start)),
            acc == digits_value(body.take(i - start)),
            0 <= acc <= 0x8000_0000,
        decreases n - i,
    {
        let c = s[i];
        if !('0' <= c && c <= '9') {
            assert(!is_digit(body[i - start]));
            return None;
        }
        let d = (c as u32 - '0' as u32) as i64;
        proof {
            let t = body.take(i + 1 - start);
            assert(t.drop_last() =~= body.take(i - start));
            assert(t.last() == c);
        }
        acc = acc * 10 + d;
        i = i + 1;
        if acc > 0x8000_0000 {
            proof {
                assert forall|j: int| 0 <= j < i - start implies is_digit(#[trigger] body.take(i - start)[j]) by {
                    if j < i - 1 - start {
                        assert(body.take(i - start)[j] == body.take(i - 1 - start)[j]);
                    }
                }
                if all_digits(body) {
                    lemma_digits_value_prefix(body, i - start);
                }
            }
            return None;
        }
        proof {
            assert forall|j: int| 0 <= j < i - start implies is_digit(#[trigger] body.take(i - start)[j]) by {
                if j < i - 1 - start {
                    assert(body.take(i - start)[j] == body.take(i - 1 - start)[j]);
                }
            }
        }
    }
    assert(body.take(n - start) =~= body);
    if negative {
        Some((-acc) as i32)
    } else if acc <= 0x7fff_ffff {
        Some(acc as i32)
    } else {
        None
    }
}


/// ASCII lower case of `c`; other characters are left as they are.
pub open spec fn to_lower(c: char) -> char {
    if 'A' <= c <= 'Z' {
        ((c as u32) + 32) as char
    } else {
        c
    }
}

/// `s` equals the lower-case word `w` when compared ignoring ASCII case.
pub open spec fn eq_ignore_case(s: Seq<char>, w: Seq<char>) -> bool {
    s.len() == w.len() && forall|i: int| 0 <= i < s.len() ==> to_lower(#[trigger] s[i]) == w[i]
}

/// The words `inf`, `infinity` and `nan`, in any case.
pub open spec fn is_special_float(b: Seq<char>) -> bool {
    ||| eq_ignore_case(b, seq!['i', 'n', 'f'])
    ||| eq_ignore_case(b, seq!['i', 'n', 'f', 'i', 'n', 'i', 't', 'y'])
    ||| eq_ignore_case(b, seq!['n', 'a', 'n'])
}

/// Digits with at most one decimal point, and at least one digit.
pub open spec fn is_mantissa(m: Seq<char>) -> bool {
    &&& forall|i: int| 0 <= i < m.len() ==> is_digit(#[trigger] m[i]) || m[i] == '.'
    &&& forall|i: int, j: int|
        0 <= i < m.len() && 0 <= j < m.len() && #[trigger] m[i] == '.' && #[trigger] m[j] == '.'
            ==> i == j
    &&& exists|i: int| 0 <= i < m.len() && is_digit(#[trigger] m[i])
}

/// An optional sign followed by at least one digit.
pub open spec fn is_exponent(e: Seq<char>) -> bool {
    let d = without_sign(e);
    d.len() > 0 && all_digits(d)
}

/// `c` introduces an exponent.
pub open spec fn is_exp_mark(c: char) -> bool {
    c == 'e' || c == 'E'
}

/// A decimal number with an optional exponent.
pub open spec fn is_number(b: Seq<char>) -> bool {
    ||| is_mantissa(b)
    ||| exists|p: int|
        0 <= p < b.len() && is_exp_mark(#[trigger] b[p]) && is_mantissa(b.take(p)) && is_exponent(
            b.skip(p + 1),
        )
}

/// The strings that `str::parse::<f64>` accepts, following the grammar of
/// its documentation: an optional sign, then `inf`, `infinity`, `nan` (in
/// any case) or a decimal number with an optional exponent. Whitespace is
/// not accepted anywhere.
pub open spec fn is_float_literal(s: Seq<char>) -> bool {
    let b = without_sign(s);
    is_special_float(b) || is_number(b)
}

fn word_matches(v: &Vec<char>, lo: usize, w: &[char]) -> (r: bool)
    requires
        lo <= v@.len(),
        forall|i: int| 0 <= i < w@.len() ==> to_lower(#[trigger] w@[i]) == w@[i],
    ensures
        r == eq_ignore_case(v@.skip(lo as int), w@),
{
    let ghost b = v@.skip(lo as int);
    if v.len() - lo != w.len() {
        return false;
    }
    let mut i: usize = 0;
    while i < w.len()
        invariant
            i <= w@.len(),
            lo <= v@.len(),
            w@.len() == v@.len() - lo,
            forall|k: int| 0 <= k < w@.len() ==> to_lower(#[trigger] w@[k]) == w@[k],
            b == v@.skip(lo as int),
            forall|k: int| 0 <= k < i ==> to_lower(#[trigger] b[k]) == w@[k],
        decreases w@.len() - i,
    {
        assert(lo + i < v.len());
        let c = v[lo + i];
        let wc = w[i];
        let same = if 'A' <= c && c <= 'Z' {
            (c as u32) + 32 == (wc as u32)
        } else {
            c == wc
        };
        assert(b[i as int] == c);
        proof {
            if 'A' <= c && c <= 'Z' {
                assert(same ==> to_lower(c) == wc) by {
                    if same {
                        assert(((c as u32) + 32) as char == (wc as u32) as char);
                    }
                }
                assert(to_lower(c) == wc ==> same);
            }
        }
        if !same {
            return false;
        }
        i = i + 1;
    }
    true
}

fn mantissa_ok(v: &Vec<char>, lo: usize, hi: usize) -> (r: bool)
    requires
        lo <= hi <= v@.len(),
    ensures
        r == is_mantissa(v@.subrange(lo as int, hi as int)),
{
    let ghost m = v@.subrange(lo as int, hi as int);
    let mut dot: Option<usize> = None;
    let mut digit: Option<usize> = None;
    let mut i = lo;
    while i < hi
        invariant
            lo <= i <= hi <= v@.len(),
            m == v@.subrange(lo as int, hi as int),
            forall|k: int| 0 <= k < i - lo ==> is_digit(#[trigger] m[k]) || m[k] == '.',
            dot matches Some(d) ==> lo <= d < i && m[d - lo] == '.',
            dot is None ==> forall|k: int| 0 <= k < i - lo ==> #[trigger] m[k] != '.',
            forall|k: int| 0 <= k < i - lo && #[trigger] m[k] == '.' ==> dot == Some((k + lo) as usize),
            digit matches Some(d) ==> lo <= d < i && is_digit(m[d - lo]),
            digit is None ==> forall|k: int| 0 <= k < i - lo ==> !is_digit(#[trigger] m[k]),
        decreases hi - i,
    {
        let c = v[i];
        assert(m[i - lo] == c);
        if '0' <= c && c <= '9' {
            digit = Some(i);
        } else if c == '.' {
            if dot.is_some() {
                let d = dot.unwrap();
                assert(m[d - lo] == '.' && m[i - lo] == '.');
                return false;
            }
            dot = Some(i);
        } else {
            assert(!(is_digit(m[i - lo]) || m[i - lo] == '.'));
            return false;
        }
        i = i + 1;
    }
    if digit.is_none() {
        assert(!exists|k: int| 0 <= k < m.len() && is_digit(#[trigger] m[k]));
        return false;
    }
    let d = digit.unwrap();
    assert(is_digit(m[d - lo]));
    true
}

fn exponent_ok(v: &Vec<char>, lo: usize, hi: usize) -> (r: bool)
    requires
        lo <= hi <= v@.len(),
    ensures
        r == is_exponent(v@.subrange(lo as int, hi as int)),
{
    let ghost e = v@.subrange(lo as int, hi as int);
    let start = if lo < hi && (v[lo] == '+' || v[lo] == '-') {
        lo + 1
    } else {
        lo
    };
    let ghost d = without_sign(e);
    assert(d =~= v@.subrange(start as int, hi as int));
    if start >= hi {
        return false;
    }
    let mut i = start;
    while i < hi
        invariant
            start <= i <= hi <= v@.len(),
            d == v@.subrange(start as int, hi as int),
            d == without_sign(v@.subrange(lo as int, hi as int)),
            forall|k: int| 0 <= k < i - start ==> is_digit(#[trigger] d[k]),
        decreases hi - i,
    {
        let c = v[i];
        assert(d[i - start] == c);
        if !('0' <= c && c <= '9') {
            assert(!is_digit(d[i - start]));
            return false;
        }
        i = i + 1;
    }
    true
}

proof fn lemma_number_without_exp_mark(b: Seq<char>)
    requires
        forall|k: int| 0 <= k < b.len() ==> !is_exp_mark(#[trigger] b[k]),
    ensures
        is_number(b) == is_mantissa(b),
{
    if exists|q: int|
        0 <= q < b.len() && is_exp_mark(#[trigger] b[q]) && is_mantissa(b.take(q)) && is_exponent(
            b.skip(q + 1),
        ) {
        let q = choose|q: int|
            0 <= q < b.len() && is_exp_mark(#[trigger] b[q]) && is_mantissa(b.take(q))
                && is_exponent(b.skip(q + 1));
        assert(!is_exp_mark(b[q]));
    }
}

proof fn lemma_number_first_exp_mark(b: Seq<char>, q: int)
    requires
        0 <= q < b.len(),
        is_exp_mark(b[q]),
        forall|k: int| 0 <= k < q ==> !is_exp_mark(#[trigger] b[k]),
    ensures
        is_number(b) == (is_mantissa(b.take(q)) && is_exponent(b.skip(q + 1))),
{
    if is_mantissa(b) {
        assert(!(is_digit(b[q]) || b[q] == '.'));
    }
    if exists|q2: int|
        0 <= q2 < b.len() && is_exp_mark(#[trigger] b[q2]) && is_mantissa(b.take(q2))
            && is_exponent(b.skip(q2 + 1)) {
        let q2 = choose|q2: int|
            0 <= q2 < b.len() && is_exp_mark(#[trigger] b[q2]) && is_mantissa(b.take(q2))
                && is_exponent(b.skip(q2 + 1));
        if q2 > q {
            let t = b.take(q2);
            assert(t[q] == b[q]);
            assert(!(is_digit(t[q]) || t[q] == '.'));
        }
    }
}

/// Whether `str::parse::<f64>` accepts the characters of `v`.
pub fn float_literal(v: &Vec<char>) -> (r: bool)
    ensures
        r == is_float_literal(v@),
{
    let n = v.len();
    let lo: usize = if n > 0 && (v[0] == '+' || v[0] == '-') {
        1
    } else {
        0
    };
    let ghost b = without_sign(v@);
    assert(b =~= v@.skip(lo as int));
    let inf = ['i', 'n', 'f'];
    let infinity = ['i', 'n', 'f', 'i', 'n', 'i', 't', 'y'];
    let nan = ['n', 'a', 'n'];
    assert(inf@ =~= seq!['i', 'n', 'f']);
    assert(infinity@ =~= seq!['i', 'n', 'f', 'i', 'n', 'i', 't', 'y']);
    assert(nan@ =~= seq!['n', 'a', 'n']);
    if word_matches(v, lo, &inf) || word_matches(v, lo, &infinity) || word_matches(v, lo, &nan) {
        return true;
    }
    let mut p = lo;
    while p < n && v[p] != 'e' && v[p] != 'E'
        invariant
            lo <= p <= n,
            n == v@.len(),
            forall|k: int| lo <= k < p ==> !is_exp_mark(#[trigger] v@[k]),
        decreases n - p,
    {
        p = p + 1;
    }
    proof {
        assert forall|k: int| 0 <= k < p - lo implies !is_exp_mark(#[trigger] b[k]) by {
            assert(b[k] == v@[k + lo]);
        }
    }
    if p == n {
        let r = mantissa_ok(v, lo, n);
        assert(v@.subrange(lo as int, n as int) =~= b);
        proof {
            lemma_number_without_exp_mark(b);
        }
        r
    } else {
        let m = mantissa_ok(v, lo, p);
        let e = exponent_ok(v, p + 1, n);
        let ghost q = p - lo;
        assert(v@.subrange(lo as int, p as int) =~= b.take(q));
        assert(v@.subrange(p + 1, n as int) =~= b.skip(q + 1));
        assert(b[q] == v@[p as int]);
        proof {
            lemma_number_first_exp_mark(b, q);
        }
        m && e
    }
}


/// The characters that the bytes `b[i..j]` encode.
pub open spec fn byte_range_chars(b: Seq<u8>, i: int, j: int) -> Seq<char> {
    decode_utf8(b.subrange(i, j))
}

pub proof fn lemma_boundary_in_suffix(b: Seq<u8>, i: int, j: int)
    requires
        valid_utf8(b),
        0 <= i <= j <= b.len(),
        is_char_boundary(b, i),
        is_char_boundary(b, j),
    ensures
        valid_utf8(b.subrange(i, b.len() as int)),
        is_char_boundary(b.subrange(i, b.len() as int), j - i),
{
    let rest = b.subrange(i, b.len() as int);
    valid_utf8_split(b, i);
    if j == b.len() {
        is_char_boundary_start_end_of_seq(rest);
    } else {
        is_char_boundary_iff_not_is_continuation_byte(b, j);
        is_char_boundary_iff_not_is_continuation_byte(rest, j - i);
        assert(rest[j - i] == b[j]);
    }
}

/// The view of a string slice is what its bytes decode to.
pub proof fn lemma_str_chars(s: &str)
    ensures
        valid_utf8(s.spec_bytes()),
        s@ == decode_utf8(s.spec_bytes()),
{
    encode_utf8_valid_utf8(s@);
    encode_utf8_decode_utf8(s@);
}

/// `&s[i..j]`, the byte range `i..j` of `s`, both ends on character
/// boundaries.
pub fn slice<'a>(s: &'a str, i: usize, j: usize) -> (r: &'a str)
    requires
        i <= j <= s.spec_bytes().len(),
        is_char_boundary(s.spec_bytes(), i as int),
        is_char_boundary(s.spec_bytes(), j as int),
    ensures
        r.spec_bytes() == s.spec_bytes().subrange(i as int, j as int),
        r@ == byte_range_chars(s.spec_bytes(), i as int, j as int),
{
    proof {
        lemma_str_chars(s);
        lemma_boundary_in_suffix(s.spec_bytes(), i as int, j as int);
    }
    let (_, rest) = s.split_at(i);
    let (r, _) = rest.split_at(j - i);
    proof {
        lemma_str_chars(r);
        assert(r.spec_bytes() =~= s.spec_bytes().subrange(i as int, j as int));
    }
    r
}

} // verus!

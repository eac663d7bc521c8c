use crate::tokenizer::{chars_of, is_num, is_num_char, push_char};
use crate::value::{Json, JsonVal, Num, Number};
use vstd::prelude::*;

verus! {

pub open spec fn is_digit(c: char) -> bool {
    '0' <= c && c <= '9'
}

pub open spec fn is_sign(c: char) -> bool {
    c == '+' || c == '-'
}

pub open spec fn all_digits_in(t: Seq<char>, lo: int, hi: int) -> bool {
    forall|k: int| lo <= k < hi ==> #[trigger] is_digit(t[k])
}

/// The first index in `lo..hi` holding `a` or `b`, else `hi`.
pub open spec fn first_in(t: Seq<char>, lo: int, hi: int, a: char, b: char) -> int
    decreases hi - lo,
{
    if lo >= hi {
        hi
    } else if t[lo] == a || t[lo] == b {
        lo
    } else {
        first_in(t, lo + 1, hi, a, b)
    }
}

/// The decimal value of the digits `t[lo..hi]`.
pub open spec fn value_in(t: Seq<char>, lo: int, hi: int) -> nat
    decreases hi - lo,
{
    if hi <= lo {
        0
    } else {
        value_in(t, lo, hi - 1) * 10 + ((t[hi - 1] as u32 - '0' as u32) as nat)
    }
}

/// Text that `u64`'s `FromStr` accepts: an optional `+`, then decimal digits
/// whose value fits.
pub open spec fn unsigned_text(t: Seq<char>) -> bool {
    let lo: int = if t.len() > 0 && t[0] == '+' { 1 } else { 0 };
    lo < t.len() && all_digits_in(t, lo, t.len() as int) && value_in(t, lo, t.len() as int)
        <= u64::MAX
}

pub open spec fn unsigned_value(t: Seq<char>) -> nat {
    let lo: int = if t.len() > 0 && t[0] == '+' { 1 } else { 0 };
    value_in(t, lo, t.len() as int)
}

/// Text that `i64`'s `FromStr` accepts when it starts with `-`.
pub open spec fn negative_text(t: Seq<char>) -> bool {
    1 < t.len() && t[0] == '-' && all_digits_in(t, 1, t.len() as int) && value_in(
        t,
        1,
        t.len() as int,
    ) <= 0x8000_0000_0000_0000
}

pub open spec fn negative_value(t: Seq<char>) -> int {
    -(value_in(t, 1, t.len() as int) as int)
}

/// Decimal floating-point text: an optional sign, digits with at most one
/// `.` and at least one digit, then an optional exponent: `e` or `E`, an
/// optional sign and at least one digit.
pub open spec fn float_text(t: Seq<char>) -> bool {
    let n = t.len() as int;
    let lo: int = if n > 0 && is_sign(t[0]) { 1 } else { 0 };
    let j = first_in(t, lo, n, 'e', 'E');
    let d = first_in(t, lo, j, '.', '.');
    let mantissa = if d < j {
        all_digits_in(t, lo, d) && all_digits_in(t, d + 1, j) && j - lo >= 2
    } else {
        j - lo >= 1 && all_digits_in(t, lo, j)
    };
    let e: int = if j + 1 < n && is_sign(t[j + 1]) { j + 2 } else { j + 1 };
    mantissa && (j == n || (e < n && all_digits_in(t, e, n)))
}

pub open spec fn all_num(t: Seq<char>) -> bool {
    forall|k: int| 0 <= k < t.len() ==> #[trigger] is_num(t[k])
}

pub open spec fn has_float_marker(t: Seq<char>) -> bool {
    exists|k: int| 0 <= k < t.len() && (#[trigger] t[k] == '.' || t[k] == 'e' || t[k] == 'E')
}

/// The value of a literal's raw text, or `None` where it has no valid shape.
pub open spec fn lit_value(t: Seq<char>) -> Option<Json> {
    if t.len() >= 2 && t[0] == '"' && t[t.len() - 1] == '"' {
        Some(Json::String(t.subrange(1, t.len() - 1)))
    } else if t.len() >= 1 && all_num(t) {
        if has_float_marker(t) {
            if float_text(t) {
                Some(Json::Number(Num::Float(t)))
            } else {
                None
            }
        } else if t[0] == '-' {
            if negative_text(t) {
                Some(Json::Number(Num::SignedInt(negative_value(t) as i64)))
            } else {
                None
            }
        } else if unsigned_text(t) {
            Some(Json::Number(Num::UnsignedInt(unsigned_value(t) as u64)))
        } else {
            None
        }
    } else if t == seq!['t', 'r', 'u', 'e'] {
        Some(Json::Boolean(true))
    } else if t == seq!['f', 'a', 'l', 's', 'e'] {
        Some(Json::Boolean(false))
    } else if t == seq!['n', 'u', 'l', 'l'] {
        Some(Json::Null)
    } else {
        None
    }
}

/// Relies on `u64`'s `FromStr`: an optional `+` and decimal digits whose
/// value fits are accepted, anything else is an error.
#[verifier::external_body]
fn parse_u64(s: &str) -> (r: Option<u64>)
    ensures
        r == (if unsigned_text(s@) {
            Some(unsigned_value(s@) as u64)
        } else {
            None::<u64>
        }),
{
    s.parse::<u64>().ok()
}

/// Relies on `i64`'s `FromStr`: after the `-`, decimal digits whose negated
/// value fits are accepted, anything else is an error.
#[verifier::external_body]
fn parse_negative_i64(s: &str) -> (r: Option<i64>)
    requires
        s@.len() > 0 && s@[0] == '-',
    ensures
        r == (if negative_text(s@) {
            Some(negative_value(s@) as i64)
        } else {
            None::<i64>
        }),
{
    s.parse::<i64>().ok()
}

fn digits_in(t: &Vec<char>, lo: usize, hi: usize) -> (r: bool)
    requires
        lo <= hi <= t@.len(),
    ensures
        r == all_digits_in(t@, lo as int, hi as int),
{
    let mut k = lo;
    while k < hi
        invariant
            lo <= k <= hi <= t@.len(),
            all_digits_in(t@, lo as int, k as int),
        decreases hi - k,
    {
        if !('0' <= t[k] && t[k] <= '9') {
            assert(!is_digit(t@[k as int]));
            return false;
        }
        k = k + 1;
    }
    true
}

fn find_in(t: &Vec<char>, lo: usize, hi: usize, a: char, b: char) -> (r: usize)
    requires
        lo <= hi <= t@.len(),
    ensures
        r == first_in(t@, lo as int, hi as int, a, b),
        lo <= r <= hi,
{
    let mut k = lo;
    while k < hi && t[k] != a && t[k] != b
        invariant
            lo <= k <= hi <= t@.len(),
            first_in(t@, k as int, hi as int, a, b) == first_in(t@, lo as int, hi as int, a, b),
        decreases hi - k,
    {
        k = k + 1;
    }
    k
}

fn is_sign_char(c: char) -> (r: bool)
    ensures
        r == is_sign(c),
{
    c == '+' || c == '-'
}

pub fn is_float_text(t: &Vec<char>) -> (r: bool)
    ensures
        r == float_text(t@),
{
    let n = t.len();
    let lo: usize = if n > 0 && is_sign_char(t[0]) {
        1
    } else {
        0
    };
    let j = find_in(t, lo, n, 'e', 'E');
    let d = find_in(t, lo, j, '.', '.');
    let mantissa = if d < j {
        digits_in(t, lo, d) && digits_in(t, d + 1, j) && j - lo >= 2
    } else {
        j - lo >= 1 && digits_in(t, lo, j)
    };
    if !mantissa {
        return false;
    }
    if j == n {
        return true;
    }
    let e: usize = if j + 1 < n && is_sign_char(t[j + 1]) {
        j + 2
    } else {
        j + 1
    };
    e < n && digits_in(t, e, n)
}

fn is_word(t: &Vec<char>, w: &str) -> (r: bool)
    ensures
        r == (t@ == w@),
{
    let wc = chars_of(w);
    if t.len() != wc.len() {
        return false;
    }
    let mut k: usize = 0;
    while k < t.len()
        invariant
            t@.len() == wc@.len(),
            wc@ == w@,
            k <= t@.len(),
            t@.subrange(0, k as int) == wc@.subrange(0, k as int),
        decreases t.len() - k,
    {
        if t[k] != wc[k] {
            return false;
        }
        assert(t@.subrange(0, k + 1) =~= t@.subrange(0, k as int).push(t@[k as int]));
        assert(wc@.subrange(0, k + 1) =~= wc@.subrange(0, k as int).push(wc@[k as int]));
        k = k + 1;
    }
    assert(t@ =~= t@.subrange(0, k as int));
    assert(wc@ =~= wc@.subrange(0, k as int));
    true
}

/// Classifies a literal's raw text: a quoted string, a number subtyped by
/// its shape, `true`, `false` or `null`.
pub fn literal_value(text: &String) -> (r: Option<JsonVal>)
    ensures
        match r {
            Some(v) => lit_value(text@) == Some(v@),
            None => lit_value(text@) is None,
        },
{
    let t = chars_of(text.as_str());
    let n = t.len();
    if n >= 2 && t[0] == '"' && t[n - 1] == '"' {
        let mut s = String::new();
        let mut k: usize = 1;
        while k < n - 1
            invariant
                t@ == text@,
                n == t@.len(),
                n >= 2,
                1 <= k <= n - 1,
                s@ == t@.subrange(1, k as int),
            decreases n - 1 - k,
        {
            push_char(&mut s, t[k]);
            assert(t@.subrange(1, k + 1) =~= t@.subrange(1, k as int).push(t@[k as int]));
            k = k + 1;
        }
        return Some(JsonVal::String(s));
    }
    let mut all = n >= 1;
    let mut marker = false;
    let mut k: usize = 0;
    while k < n
        invariant
            t@ == text@,
            n == t@.len(),
            k <= n,
            all == (n >= 1 && forall|i: int| 0 <= i < k ==> #[trigger] is_num(t@[i])),
            marker == (exists|i: int|
                0 <= i < k && (#[trigger] t@[i] == '.' || t@[i] == 'e' || t@[i] == 'E')),
        decreases n - k,
    {
        let c = t[k];
        if !is_num_char(&c) {
            all = false;
        }
        if c == '.' || c == 'e' || c == 'E' {
            marker = true;
        }
        k = k + 1;
    }
    if all {
        if marker {
            if is_float_text(&t) {
                return Some(JsonVal::Number(Number::Float(text.clone())));
            }
            return None;
        }
        if t[0] == '-' {
            return match parse_negative_i64(text.as_str()) {
                Some(v) => Some(JsonVal::Number(Number::SignedInt(v))),
                None => None,
            };
        }
        return match parse_u64(text.as_str()) {
            Some(v) => Some(JsonVal::Number(Number::UnsignedInt(v))),
            None => None,
        };
    }
    if is_word(&t, "true") {
        proof {
            reveal_strlit("true");
            assert(t@ =~= seq!['t', 'r', 'u', 'e']);
        }
        Some(JsonVal::Boolean(true))
    } else if is_word(&t, "false") {
        proof {
            reveal_strlit("false");
            assert(t@ =~= seq!['f', 'a', 'l', 's', 'e']);
        }
        Some(JsonVal::Boolean(false))
    } else if is_word(&t, "null") {
        proof {
            reveal_strlit("null");
            assert(t@ =~= seq!['n', 'u', 'l', 'l']);
        }
        Some(JsonVal::Null)
    } else {
        proof {
            reveal_strlit("true");
            reveal_strlit("false");
            reveal_strlit("null");
            assert("true"@ =~= seq!['t', 'r', 'u', 'e']);
            assert("false"@ =~= seq!['f', 'a', 'l', 's', 'e']);
            assert("null"@ =~= seq!['n', 'u', 'l', 'l']);
        }
        None
    }
}

} // verus!

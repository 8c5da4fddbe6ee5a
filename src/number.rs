//! The number grammar of literals: integers, unsigned ids and decimals.
use crate::text::{is_digit, lemma_run_len_bound, run_end, run_len, slice_of, CharClass};
use crate::types::Decimal;
use vstd::prelude::*;

verus! {

pub open spec fn all_digits(s: Seq<char>) -> bool {
    forall|i: int| 0 <= i < s.len() ==> is_digit(#[trigger] s[i])
}

/// The value of a string of decimal digits.
pub open spec fn digits_value(s: Seq<char>) -> int
    decreases s.len(),
{
    if s.len() == 0 {
        0
    } else {
        digits_value(s.drop_last()) * 10 + (s.last() as int - '0' as int)
    }
}

pub proof fn lemma_digits_value_prefix(s: Seq<char>, i: int)
    requires
        all_digits(s),
        0 <= i <= s.len(),
    ensures
        0 <= digits_value(s.take(i)) <= digits_value(s),
    decreases s.len(),
{
    if i == s.len() {
        assert(s.take(i) =~= s);
        lemma_digits_value_nonneg(s);
    } else {
        lemma_digits_value_prefix(s.drop_last(), i);
        assert(s.drop_last().take(i) =~= s.take(i));
        lemma_digits_value_nonneg(s.drop_last());
    }
}

pub proof fn lemma_digits_value_nonneg(s: Seq<char>)
    requires
        all_digits(s),
    ensures
        0 <= digits_value(s),
    decreases s.len(),
{
    if s.len() > 0 {
        lemma_digits_value_nonneg(s.drop_last());
    }
}

/// Reads the digits from `a` to `b`; `None` when their value passes `bound`.
pub fn read_digits(s: &Vec<char>, a: usize, b: usize, bound: u64) -> (r: Option<u64>)
    requires
        a <= b <= s@.len(),
        all_digits(s@.subrange(a as int, b as int)),
    ensures
        r is Some <==> digits_value(s@.subrange(a as int, b as int)) <= bound,
        r is Some ==> r->0 as int == digits_value(s@.subrange(a as int, b as int)),
{
    let ghost whole = s@.subrange(a as int, b as int);
    proof {
        lemma_digits_value_nonneg(whole);
    }
    let mut acc: u64 = 0;
    let mut i = a;
    while i < b
        invariant
            a <= i <= b <= s@.len(),
            whole == s@.subrange(a as int, b as int),
            all_digits(whole),
            acc as int == digits_value(s@.subrange(a as int, i as int)),
            acc <= bound,
        decreases b - i,
    {
        let ghost next = s@.subrange(a as int, i as int + 1);
        proof {
            assert(next.drop_last() =~= s@.subrange(a as int, i as int));
            assert(next =~= whole.take(i - a + 1));
            assert(is_digit(whole[i - a]));
        }
        let d = (s[i] as u32 - '0' as u32) as u64;
        if d > bound || acc > (bound - d) / 10 {
            proof {
                assert(acc * 10 + d > bound) by (nonlinear_arith)
                    requires
                        d > bound || acc > (bound - d) / 10,
                        0 <= d <= 9,
                        0 <= acc,
                ;
                lemma_digits_value_prefix(whole, i - a + 1);
            }
            return None;
        }
        assert(acc * 10 + d <= bound) by (nonlinear_arith)
            requires
                d <= bound,
                acc <= (bound - d) / 10,
                0 <= acc,
        ;
        acc = acc * 10 + d;
        i = i + 1;
    }
    proof {
        assert(s@.subrange(a as int, b as int) =~= whole);
    }
    Some(acc)
}

/// Length of an optional leading `+` or `-`.
pub open spec fn sign_len(s: Seq<char>) -> int {
    if s.len() > 0 && (s[0] == '+' || s[0] == '-') {
        1
    } else {
        0
    }
}

pub open spec fn negative(s: Seq<char>) -> bool {
    s.len() > 0 && s[0] == '-'
}

/// A signed integer: an optional sign and at least one digit, in the range of `isize`.
pub open spec fn int_lit(s: Seq<char>) -> Option<int> {
    let body = s.skip(sign_len(s));
    let v = if negative(s) {
        -digits_value(body)
    } else {
        digits_value(body)
    };
    if body.len() > 0 && all_digits(body) && isize::MIN <= v <= isize::MAX {
        Some(v)
    } else {
        None
    }
}

/// An unsigned id: at least one digit, in the range of `usize`.
pub open spec fn id_lit(s: Seq<char>) -> Option<int> {
    if s.len() > 0 && all_digits(s) && digits_value(s) <= usize::MAX {
        Some(digits_value(s))
    } else {
        None
    }
}

/// Number of digits before an optional `.`.
pub open spec fn int_digits(body: Seq<char>) -> int {
    run_len(body, CharClass::Digit) as int
}

pub open spec fn has_dot(body: Seq<char>) -> bool {
    let r1 = body.skip(int_digits(body));
    r1.len() > 0 && r1[0] == '.'
}

/// Number of digits after the `.`, if there is one.
pub open spec fn frac_digits(body: Seq<char>) -> int {
    if has_dot(body) {
        run_len(body.skip(int_digits(body) + 1), CharClass::Digit) as int
    } else {
        0
    }
}

/// Where the digits and the fraction end.
pub open spec fn mantissa_end(body: Seq<char>) -> int {
    if has_dot(body) {
        int_digits(body) + 1 + frac_digits(body)
    } else {
        int_digits(body)
    }
}

/// The digits before and after the `.`, together.
pub open spec fn mantissa_digits(body: Seq<char>) -> Seq<char> {
    let ip = int_digits(body);
    if has_dot(body) {
        body.take(ip) + body.subrange(ip + 1, ip + 1 + frac_digits(body))
    } else {
        body.take(ip)
    }
}

/// What follows the mantissa: nothing (`Some(0)`), or `e`/`E`, an optional sign and
/// digits whose value fits in `u32`.
pub open spec fn exponent_of(r: Seq<char>) -> Option<int> {
    let eb = r.skip(1);
    let ed = eb.skip(sign_len(eb));
    if r.len() == 0 {
        Some(0)
    } else if (r[0] == 'e' || r[0] == 'E') && ed.len() > 0 && all_digits(ed) && digits_value(ed)
        <= u32::MAX {
        Some(
            if negative(eb) {
                -digits_value(ed)
            } else {
                digits_value(ed)
            },
        )
    } else {
        None
    }
}

/// A decimal literal: an optional sign, digits with an optional fraction (at least one
/// digit in all), and an optional exponent `e` or `E` with an optional sign and digits.
/// It is kept exactly: all its digits form the mantissa, and the exponent is that of
/// the literal less the number of fraction digits. A mantissa beyond `i64`, an
/// exponent's digits beyond `u32`, or a resulting exponent beyond `i64` is no decimal.
pub open spec fn float_lit(s: Seq<char>) -> Option<Decimal> {
    let body = s.skip(sign_len(s));
    let m = digits_value(mantissa_digits(body));
    match exponent_of(body.skip(mantissa_end(body))) {
        None => None,
        Some(ev) => {
            let exponent = ev - frac_digits(body);
            if int_digits(body) + frac_digits(body) >= 1 && m <= i64::MAX && i64::MIN <= exponent
                <= i64::MAX {
                Some(
                    Decimal {
                        mantissa: (if negative(s) {
                            -m
                        } else {
                            m
                        }) as i64,
                        exponent: exponent as i64,
                    },
                )
            } else {
                None
            }
        },
    }
}

/// The plain form `-?D+(.D+)?` that a vector's components take.
pub open spec fn plain_decimal(s: Seq<char>) -> bool {
    let body = if s.len() > 0 && s[0] == '-' {
        s.skip(1)
    } else {
        s
    };
    let ip = run_len(body, CharClass::Digit) as int;
    let rest = body.skip(ip);
    ip >= 1 && (rest.len() == 0 || (rest.len() >= 2 && rest[0] == '.' && all_digits(rest.skip(1))))
}

/// Whether the characters from `a` to the end are all digits.
fn digits_to_end(s: &Vec<char>, a: usize) -> (r: bool)
    requires
        a <= s@.len(),
    ensures
        r == all_digits(s@.skip(a as int)),
{
    let e = run_end(s, a, CharClass::Digit);
    proof {
        lemma_run_len_bound(s@.skip(a as int), CharClass::Digit);
        if e < s@.len() {
            assert(s@.skip(a as int)[e - a] == s@[e as int]);
        }
    }
    e == s.len()
}

fn sign_at(s: &Vec<char>, a: usize) -> (r: (usize, bool))
    requires
        a <= s@.len(),
    ensures
        r.0 == sign_len(s@.skip(a as int)),
        r.1 == negative(s@.skip(a as int)),
{
    if a < s.len() && (s[a] == '+' || s[a] == '-') {
        (1, s[a] == '-')
    } else {
        (0, false)
    }
}

pub fn parse_int(s: &Vec<char>) -> (r: Option<isize>)
    ensures
        r is Some <==> int_lit(s@) is Some,
        r is Some ==> r->0 as int == int_lit(s@)->0,
{
    let (sl, neg) = sign_at(s, 0);
    assert(s@.skip(0) =~= s@);
    let ghost body = s@.skip(sl as int);
    if sl == s.len() || !digits_to_end(s, sl) {
        return None;
    }
    assert(s@.subrange(sl as int, s@.len() as int) =~= body);
    let m = read_digits(s, sl, s.len(), u64::MAX);
    match m {
        None => None,
        Some(v) => {
            let w: i128 = if neg {
                -(v as i128)
            } else {
                v as i128
            };
            if isize::MIN as i128 <= w && w <= isize::MAX as i128 {
                Some(w as isize)
            } else {
                None
            }
        },
    }
}

pub fn parse_id(s: &Vec<char>) -> (r: Option<usize>)
    ensures
        r is Some <==> id_lit(s@) is Some,
        r is Some ==> r->0 as int == id_lit(s@)->0,
{
    assert(s@.skip(0) =~= s@);
    if s.len() == 0 || !digits_to_end(s, 0) {
        return None;
    }
    assert(s@.subrange(0, s@.len() as int) =~= s@);
    match read_digits(s, 0, s.len(), usize::MAX as u64) {
        None => None,
        Some(v) => Some(v as usize),
    }
}

pub fn is_plain_decimal(s: &Vec<char>) -> (r: bool)
    ensures
        r == plain_decimal(s@),
{
    let a: usize = if s.len() > 0 && s[0] == '-' {
        1
    } else {
        0
    };
    let ghost body = if s@.len() > 0 && s@[0] == '-' {
        s@.skip(1)
    } else {
        s@
    };
    assert(body =~= s@.skip(a as int));
    let e = run_end(s, a, CharClass::Digit);
    assert(body.skip(e - a) =~= s@.skip(e as int));
    if e == a {
        return false;
    }
    if e == s.len() {
        return true;
    }
    if s.len() - e < 2 || s[e] != '.' {
        return false;
    }
    assert(s@.skip(e as int).skip(1) =~= s@.skip(e + 1));
    digits_to_end(s, e + 1)
}

/// Reads the mantissa of the literal body that starts at `a`: where it ends, the
/// number of fraction digits, and the value of its digits unless it passes `i64`.
fn read_mantissa(s: &Vec<char>, a: usize) -> (r: (usize, usize, usize, Option<u64>))
    requires
        a <= s@.len(),
    ensures
        r.0 == a + mantissa_end(s@.skip(a as int)),
        r.0 <= s@.len(),
        r.1 == int_digits(s@.skip(a as int)),
        r.2 == frac_digits(s@.skip(a as int)),
        r.3 is Some <==> digits_value(mantissa_digits(s@.skip(a as int))) <= i64::MAX,
        r.3 is Some ==> r.3->0 as int == digits_value(mantissa_digits(s@.skip(a as int))),
{
    let n = s.len();
    let ghost body = s@.skip(a as int);
    let ip_end = run_end(s, a, CharClass::Digit);
    let ghost ip = ip_end - a;
    assert(body.skip(ip) =~= s@.skip(ip_end as int));
    let mut digits = slice_of(s, a, ip_end);
    assert(digits@ =~= body.take(ip));
    let dot = ip_end < n && s[ip_end] == '.';
    let mut fp: usize = 0;
    let mut pos = ip_end;
    proof {
        lemma_run_len_bound(body, CharClass::Digit);
    }
    if dot {
        let fe = run_end(s, ip_end + 1, CharClass::Digit);
        assert(body.skip(ip + 1) =~= s@.skip(ip_end + 1));
        fp = fe - ip_end - 1;
        let mut frac = slice_of(s, ip_end + 1, fe);
        assert(frac@ =~= body.subrange(ip + 1, ip + 1 + fp));
        proof {
            lemma_run_len_bound(body.skip(ip + 1), CharClass::Digit);
            assert forall|i: int| 0 <= i < frac@.len() implies is_digit(#[trigger] frac@[i]) by {
                assert(frac@[i] == body.skip(ip + 1)[i]);
            }
        }
        digits.append(&mut frac);
        pos = fe;
    }
    proof {
        assert(digits@ =~= mantissa_digits(body));
        assert(digits@.subrange(0, digits@.len() as int) =~= digits@);
        assert forall|i: int| 0 <= i < digits@.len() implies is_digit(#[trigger] digits@[i]) by {
            if i >= ip {
                assert(digits@[i] == body.skip(ip + 1)[i - ip]);
            } else {
                assert(digits@[i] == body[i]);
            }
        }
    }
    (pos, ip_end - a, fp, read_digits(&digits, 0, digits.len(), i64::MAX as u64))
}

/// Reads the exponent part that starts at `pos`.
fn read_exponent(s: &Vec<char>, pos: usize) -> (r: Option<i64>)
    requires
        pos <= s@.len(),
    ensures
        r is Some <==> exponent_of(s@.skip(pos as int)) is Some,
        r is Some ==> r->0 as int == exponent_of(s@.skip(pos as int))->0,
{
    let n = s.len();
    let ghost r2 = s@.skip(pos as int);
    if pos == n {
        return Some(0);
    }
    if s[pos] != 'e' && s[pos] != 'E' {
        return None;
    }
    let (esl, eneg) = sign_at(s, pos + 1);
    assert(r2.skip(1) =~= s@.skip(pos + 1));
    let ed = pos + 1 + esl;
    assert(r2.skip(1).skip(esl as int) =~= s@.skip(ed as int));
    if ed == n || !digits_to_end(s, ed) {
        return None;
    }
    assert(s@.subrange(ed as int, n as int) =~= s@.skip(ed as int));
    match read_digits(s, ed, n, u32::MAX as u64) {
        None => None,
        Some(v) => Some(
            if eneg {
                -(v as i64)
            } else {
                v as i64
            },
        ),
    }
}

pub fn parse_decimal(s: &Vec<char>) -> (r: Option<Decimal>)
    ensures
        r == float_lit(s@),
{
    let (sl, neg) = sign_at(s, 0);
    assert(s@.skip(0) =~= s@);
    let (pos, ip, fp, m) = read_mantissa(s, sl);
    let ghost body = s@.skip(sl as int);
    assert(body.skip(mantissa_end(body)) =~= s@.skip(pos as int));
    let ev = match read_exponent(s, pos) {
        None => {
            return None;
        },
        Some(v) => v,
    };
    if ip + fp == 0 {
        return None;
    }
    let m = match m {
        None => {
            return None;
        },
        Some(v) => v,
    };
    let e: i128 = ev as i128 - fp as i128;
    if e < i64::MIN as i128 || e > i64::MAX as i128 {
        return None;
    }
    let mm: i64 = if neg {
        -(m as i64)
    } else {
        m as i64
    };
    Some(Decimal { mantissa: mm, exponent: e as i64 })
}

} // verus!

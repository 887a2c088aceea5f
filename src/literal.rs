//! Numeric literals: an optional sign, then decimal digits with at most one
//! point (at most 18 digits before the point and 18 after it), then an
//! optional exponent. A literal names a number when its value is a whole
//! number of 10^-18 units, at most 10^37 of them.
use vstd::prelude::*;
use crate::text::copy_range;
use crate::value::{Number, SCALE};

verus! {

pub open spec fn is_digit(c: char) -> bool {
    '0' <= c && c <= '9'
}

pub open spec fn all_digits(s: Seq<char>) -> bool {
    forall|i: int| 0 <= i < s.len() ==> is_digit(#[trigger] s[i])
}

/// The value of a string of decimal digits.
pub open spec fn digits_value(s: Seq<char>) -> int
    decreases s.len(),
{
    if s.len() == 0 {
        0
    } else {
        digits_value(s.drop_last()) * 10 + (s.last() as int - '0' as int)
    }
}

pub open spec fn pow10(n: nat) -> int
    decreases n,
{
    if n == 0 {
        1
    } else {
        10 * pow10((n - 1) as nat)
    }
}

/// The position of the first `.` in `s`, or its length if there is none.
pub open spec fn dot_index(s: Seq<char>) -> int
    decreases s.len(),
{
    if s.len() == 0 || s[0] == '.' {
        0
    } else {
        1 + dot_index(s.drop_first())
    }
}

/// The value, times 10^18, of an unsigned decimal such as `12`, `0.25`, `.5` or `3.`.
pub open spec fn unsigned_decimal(b: Seq<char>) -> Option<int> {
    let d = dot_index(b);
    let ip = b.subrange(0, d);
    let fp = if d < b.len() {
        b.subrange(d + 1, b.len() as int)
    } else {
        Seq::<char>::empty()
    };
    if all_digits(ip) && all_digits(fp) && ip.len() + fp.len() > 0 && ip.len() <= 18
        && fp.len() <= 18 {
        Some(digits_value(ip) * pow10(18) + digits_value(fp) * pow10((18 - fp.len()) as nat))
    } else {
        None
    }
}

/// The position of the first `e` or `E` in `s`, or its length if there is none.
pub open spec fn exp_index(s: Seq<char>) -> int
    decreases s.len(),
{
    if s.len() == 0 || s[0] == 'e' || s[0] == 'E' {
        0
    } else {
        1 + exp_index(s.drop_first())
    }
}

/// An exponent: an optional sign, then at least one digit.
pub open spec fn exponent_value(x: Seq<char>) -> Option<int> {
    let d = if x.len() > 0 && (x[0] == '-' || x[0] == '+') {
        x.drop_first()
    } else {
        x
    };
    if d.len() > 0 && all_digits(d) {
        Some(
            if x[0] == '-' {
                -digits_value(d)
            } else {
                digits_value(d)
            },
        )
    } else {
        None
    }
}

/// The largest number of 10^-18 units that a literal may name.
pub open spec fn number_bound() -> int {
    pow10(37)
}

/// `u` units times 10^e, if that is a whole number of units within the bound.
pub open spec fn scale_by(u: int, e: int) -> Option<int> {
    if e >= 0 {
        if u * pow10(e as nat) <= number_bound() {
            Some(u * pow10(e as nat))
        } else {
            None
        }
    } else if u % pow10((-e) as nat) == 0 {
        Some(u / pow10((-e) as nat))
    } else {
        None
    }
}

/// The value, times 10^18, of an unsigned literal: a decimal, then an
/// optional exponent.
pub open spec fn unsigned_number(b: Seq<char>) -> Option<int> {
    let ei = exp_index(b);
    if ei >= b.len() {
        unsigned_decimal(b)
    } else {
        match (unsigned_decimal(b.subrange(0, ei)), exponent_value(b.subrange(ei + 1, b.len() as int))) {
            (Some(u), Some(e)) => scale_by(u, e),
            _ => None,
        }
    }
}

/// The value, times 10^18, of a numeric literal, if `t` is one.
pub open spec fn parse_number(t: Seq<char>) -> Option<int> {
    if t.len() > 0 && t[0] == '-' {
        match unsigned_number(t.drop_first()) {
            Some(m) => Some(-m),
            None => None,
        }
    } else if t.len() > 0 && t[0] == '+' {
        unsigned_number(t.drop_first())
    } else {
        unsigned_number(t)
    }
}

pub proof fn lemma_digits_value_nonneg(s: Seq<char>)
    requires
        all_digits(s),
    ensures
        digits_value(s) >= 0,
    decreases s.len(),
{
    if s.len() > 0 {
        lemma_digits_value_nonneg(s.drop_last());
    }
}

proof fn lemma_exp_index(s: Seq<char>)
    ensures
        0 <= exp_index(s) <= s.len(),
        exp_index(s) < s.len() ==> (s[exp_index(s)] == 'e' || s[exp_index(s)] == 'E'),
        forall|i: int| 0 <= i < exp_index(s) ==> s[i] != 'e' && s[i] != 'E',
    decreases s.len(),
{
    if s.len() > 0 && s[0] != 'e' && s[0] != 'E' {
        lemma_exp_index(s.drop_first());
        assert forall|i: int| 0 <= i < exp_index(s) implies s[i] != 'e' && s[i] != 'E' by {
            if i > 0 {
                assert(s[i] == s.drop_first()[i - 1]);
            }
        }
    }
}

proof fn lemma_dot_index(s: Seq<char>)
    ensures
        0 <= dot_index(s) <= s.len(),
        dot_index(s) < s.len() ==> s[dot_index(s)] == '.',
        forall|i: int| 0 <= i < dot_index(s) ==> s[i] != '.',
    decreases s.len(),
{
    if s.len() > 0 && s[0] != '.' {
        lemma_dot_index(s.drop_first());
        assert forall|i: int| 0 <= i < dot_index(s) implies s[i] != '.' by {
            if i > 0 {
                assert(s[i] == s.drop_first()[i - 1]);
            }
        }
    }
}

/// The value of the digits `t[lo..hi]`, if there are at most 18 of them and
/// all are digits.
fn digits_in(t: &Vec<char>, lo: usize, hi: usize) -> (r: Option<i128>)
    requires
        lo <= hi <= t@.len(),
    ensures
        r matches Some(v) ==> all_digits(t@.subrange(lo as int, hi as int)) && hi - lo <= 18
            && v == digits_value(t@.subrange(lo as int, hi as int)) && 0 <= v < pow10(
            (hi - lo) as nat,
        ),
        r is None ==> !(all_digits(t@.subrange(lo as int, hi as int)) && hi - lo <= 18),
{
    if hi - lo > 18 {
        return None;
    }
    let mut v: i128 = 0;
    let mut i: usize = lo;
    proof {
        lemma_pow10_values();
        lemma_pow10_mono(0, 18);
        assert(t@.subrange(lo as int, lo as int) =~= Seq::<char>::empty());
    }
    while i < hi
        invariant
            lo <= i <= hi <= t@.len(),
            hi - lo <= 18,
            all_digits(t@.subrange(lo as int, i as int)),
            v == digits_value(t@.subrange(lo as int, i as int)),
            0 <= v < pow10((i - lo) as nat),
            pow10((i - lo) as nat) <= pow10(18),
            pow10(18) == 1000000000000000000,
        decreases hi - i,
    {
        let c = t[i];
        if !('0' <= c && c <= '9') {
            assert(t@.subrange(lo as int, hi as int)[i - lo] == c);
            return None;
        }
        let ghost pre = t@.subrange(lo as int, i + 1);
        assert(pre.drop_last() =~= t@.subrange(lo as int, i as int));
        assert(pre.last() == c);
        proof {
            let p = pow10((i - lo) as nat);
            assert(pow10((i + 1 - lo) as nat) == 10 * p);
            assert(v * 10 + 9 < 10 * p) by (nonlinear_arith)
                requires
                    v < p,
            ;
            if i + 1 - lo <= 18 {
                lemma_pow10_mono((i + 1 - lo) as nat, 18);
            }
        }
        v = v * 10 + (c as u32 - '0' as u32) as i128;
        i = i + 1;
    }
    Some(v)
}

proof fn lemma_pow10_values()
    ensures
        pow10(18) == 1000000000000000000,
        pow10(37) == 10000000000000000000000000000000000000,
        pow10(36) == 1000000000000000000000000000000000000,
{
    reveal_with_fuel(pow10, 38);
}

proof fn lemma_pow10_mono(a: nat, b: nat)
    requires
        a <= b,
    ensures
        1 <= pow10(a) <= pow10(b),
    decreases b,
{
    if b > a {
        lemma_pow10_mono(a, (b - 1) as nat);
    } else if a > 0 {
        lemma_pow10_mono((a - 1) as nat, (a - 1) as nat);
    }
}

/// Reads `t[lo..]` as an unsigned decimal.
fn unsigned_decimal_in(t: &Vec<char>, lo: usize) -> (r: Option<i128>)
    requires
        lo <= t@.len(),
    ensures
        r matches Some(v) ==> unsigned_decimal(t@.subrange(lo as int, t@.len() as int))
            == Some(v as int) && 0 <= v < 2 * pow10(36),
        r is None ==> unsigned_decimal(t@.subrange(lo as int, t@.len() as int)) is None,
{
    let ghost b = t@.subrange(lo as int, t@.len() as int);
    proof {
        lemma_dot_index(b);
        lemma_pow10_values();
    }
    let n = t.len();
    let mut d: usize = lo;
    while d < n && t[d] != '.'
        invariant
            lo <= d <= n == t@.len(),
            forall|i: int| lo <= i < d ==> t@[i] != '.',
        decreases n - d,
    {
        d = d + 1;
    }
    assert(dot_index(b) == d - lo) by {
        if dot_index(b) < d - lo {
            assert(b[dot_index(b)] == t@[lo + dot_index(b)]);
        }
        if dot_index(b) > d - lo {
            assert(b[d - lo] == t@[d as int]);
        }
    }
    assert(b.subrange(0, d - lo) =~= t@.subrange(lo as int, d as int));
    let ip = digits_in(t, lo, d);
    let fp_lo: usize = if d < n {
        d + 1
    } else {
        n
    };
    if d < n {
        assert(b.subrange(d - lo + 1, b.len() as int) =~= t@.subrange(fp_lo as int, n as int));
    } else {
        assert(Seq::<char>::empty() =~= t@.subrange(fp_lo as int, n as int));
    }
    let fp = digits_in(t, fp_lo, n);
    match (ip, fp) {
        (Some(iv), Some(fv)) => {
            if d - lo + (n - fp_lo) == 0 {
                return None;
            }
            let fl: usize = n - fp_lo;
            let mut f: i128 = fv;
            let mut k: usize = fl;
            proof {
                lemma_pow10_mono(fl as nat, 18);
                lemma_pow10_mono((d - lo) as nat, 18);
                assert(pow10(0) == 1);
            }
            while k < 18
                invariant
                    fl <= k <= 18,
                    f == fv * pow10((k - fl) as nat),
                    0 <= f < pow10(k as nat),
                    pow10(k as nat) <= pow10(18),
                    pow10(18) == 1000000000000000000,
                decreases 18 - k,
            {
                proof {
                    let p = pow10(k as nat);
                    assert(pow10((k + 1) as nat) == 10 * p);
                    assert(pow10((k + 1 - fl) as nat) == 10 * pow10((k - fl) as nat));
                    assert(f * 10 < 10 * p) by (nonlinear_arith)
                        requires
                            f < p,
                    ;
                    assert(fv * (10 * pow10((k - fl) as nat)) == 10 * (fv * pow10(
                        (k - fl) as nat,
                    ))) by (nonlinear_arith);
                    lemma_pow10_mono((k + 1) as nat, 18);
                }
                f = f * 10;
                k = k + 1;
            }
            assert(iv * pow10(18) < pow10(36)) by (nonlinear_arith)
                requires
                    iv < pow10(18),
                    pow10(18) == 1000000000000000000,
                    pow10(36) == 1000000000000000000000000000000000000,
            ;
            Some(iv * SCALE + f)
        },
        _ => None,
    }
}

/// Reads the exponent `t[lo..]`; magnitudes above 100 come back as 101.
fn exponent_in(t: &Vec<char>, lo: usize) -> (r: Option<i64>)
    requires
        lo <= t@.len(),
    ensures
        r matches Some(c) ==> exponent_value(t@.subrange(lo as int, t@.len() as int)) matches Some(
            e,
        ) && (if -100 <= e <= 100 {
            c == e
        } else if e > 100 {
            c == 101
        } else {
            c == -101
        }),
        r is None ==> exponent_value(t@.subrange(lo as int, t@.len() as int)) is None,
{
    let n = t.len();
    let ghost x = t@.subrange(lo as int, n as int);
    let neg = lo < n && t[lo] == '-';
    let start: usize = if lo < n && (t[lo] == '-' || t[lo] == '+') {
        lo + 1
    } else {
        lo
    };
    let ghost d = t@.subrange(start as int, n as int);
    assert(start == lo + 1 ==> x.drop_first() =~= d);
    assert(start == lo ==> x =~= d);
    if start == n {
        return None;
    }
    let mut v: i64 = 0;
    let mut i: usize = start;
    assert(t@.subrange(start as int, start as int) =~= Seq::<char>::empty());
    while i < n
        invariant
            start <= i <= n == t@.len(),
            d == t@.subrange(start as int, n as int),
            x == t@.subrange(lo as int, n as int),
            lo <= start <= lo + 1,
            start == lo + 1 ==> x.drop_first() == d,
            start == lo ==> x == d,
            (start == lo + 1) == (lo < n && (t@[lo as int] == '-' || t@[lo as int] == '+')),
            neg == (lo < n && t@[lo as int] == '-'),
            all_digits(t@.subrange(start as int, i as int)),
            digits_value(t@.subrange(start as int, i as int)) <= 100 ==> v == digits_value(
                t@.subrange(start as int, i as int),
            ),
            digits_value(t@.subrange(start as int, i as int)) > 100 ==> v == 101,
            0 <= v <= 101,
        decreases n - i,
    {
        let c = t[i];
        if !('0' <= c && c <= '9') {
            assert(d[i - start] == c);
            assert(!is_digit(d[i - start]));
            return None;
        }
        let ghost pre = t@.subrange(start as int, i + 1);
        assert(pre.drop_last() =~= t@.subrange(start as int, i as int));
        assert(pre.last() == c);
        proof {
            lemma_digits_value_nonneg(t@.subrange(start as int, i as int));
        }
        if v <= 100 {
            v = v * 10 + (c as u32 - '0' as u32) as i64;
            if v > 100 {
                v = 101;
            }
        }
        i = i + 1;
    }
    assert(t@.subrange(start as int, i as int) =~= d);
    proof {
        lemma_digits_value_nonneg(d);
    }
    Some(
        if neg {
            -v
        } else {
            v
        },
    )
}

/// 10^k.
fn pow10_exec(k: u32) -> (r: u128)
    requires
        k <= 37,
    ensures
        r == pow10(k as nat),
        1 <= r <= 10000000000000000000000000000000000000,
{
    let mut r: u128 = 1;
    let mut j: u32 = 0;
    proof {
        lemma_pow10_mono(0, 37);
        lemma_pow10_values();
    }
    while j < k
        invariant
            j <= k <= 37,
            r == pow10(j as nat),
            r >= 1,
            pow10(37) == 10000000000000000000000000000000000000,
            pow10(37) < 100000000000000000000000000000000000000,
        decreases k - j,
    {
        proof {
            lemma_pow10_mono((j + 1) as nat, 37);
        }
        r = r * 10;
        j = j + 1;
    }
    proof {
        lemma_pow10_mono(k as nat, 37);
    }
    r
}

/// `u` units times 10^e, where `c` is `e` with magnitudes above 100 capped.
fn scale_by_exec(u: i128, c: i64, Ghost(e): Ghost<int>) -> (r: Option<i128>)
    requires
        0 <= u < 2 * pow10(36),
        if -100 <= e <= 100 {
            c == e
        } else if e > 100 {
            c == 101
        } else {
            c == -101
        },
    ensures
        r matches Some(v) ==> scale_by(u as int, e) == Some(v as int) && 0 <= v <= number_bound(),
        r is None ==> scale_by(u as int, e) is None,
{
    proof {
        lemma_pow10_values();
        lemma_pow10_mono(36, 37);
    }
    if c >= 0 {
        if c > 37 {
            if u == 0 {
                assert(0 * pow10(e as nat) == 0);
                return Some(0);
            }
            proof {
                lemma_pow10_mono(38, e as nat);
                assert(pow10(38) == 10 * pow10(37));
                assert(u * pow10(e as nat) >= pow10(e as nat)) by (nonlinear_arith)
                    requires
                        u >= 1,
                        pow10(e as nat) >= 1,
                ;
            }
            return None;
        }
        let p = pow10_exec(c as u32);
        match (u as u128).checked_mul(p) {
            Some(m) => {
                if m <= 10000000000000000000000000000000000000u128 {
                    Some(m as i128)
                } else {
                    None
                }
            },
            None => None,
        }
    } else {
        if c < -37 {
            if u == 0 {
                proof {
                    lemma_pow10_mono(0, (-e) as nat);
                    vstd::arithmetic::div_mod::lemma_small_mod(0, pow10((-e) as nat) as nat);
                    vstd::arithmetic::div_mod::lemma_basic_div(0, pow10((-e) as nat));
                }
                return Some(0);
            }
            proof {
                lemma_pow10_mono(37, (-e) as nat);
                vstd::arithmetic::div_mod::lemma_small_mod(u as nat, pow10((-e) as nat) as nat);
            }
            return None;
        }
        let p = pow10_exec((-c) as u32) as i128;
        if u % p == 0 {
            assert(0 <= (u as int) / (p as int) <= u as int) by (nonlinear_arith)
                requires
                    u >= 0,
                    p >= 1,
            ;
            Some(u / p)
        } else {
            None
        }
    }
}

/// Reads `t[lo..]` as an unsigned literal.
fn unsigned_number_in(t: &Vec<char>, lo: usize) -> (r: Option<i128>)
    requires
        lo <= t@.len(),
    ensures
        r matches Some(v) ==> unsigned_number(t@.subrange(lo as int, t@.len() as int)) == Some(
            v as int,
        ) && 0 <= v <= number_bound(),
        r is None ==> unsigned_number(t@.subrange(lo as int, t@.len() as int)) is None,
{
    let ghost b = t@.subrange(lo as int, t@.len() as int);
    proof {
        lemma_exp_index(b);
        lemma_pow10_values();
    }
    let n = t.len();
    let mut ei: usize = lo;
    while ei < n && t[ei] != 'e' && t[ei] != 'E'
        invariant
            lo <= ei <= n == t@.len(),
            forall|i: int| lo <= i < ei ==> t@[i] != 'e' && t@[i] != 'E',
        decreases n - ei,
    {
        ei = ei + 1;
    }
    assert(exp_index(b) == ei - lo) by {
        if exp_index(b) < ei - lo {
            assert(b[exp_index(b)] == t@[lo + exp_index(b)]);
        }
        if exp_index(b) > ei - lo {
            assert(b[ei - lo] == t@[ei as int]);
        }
    }
    if ei == n {
        return unsigned_decimal_in(t, lo);
    }
    let mant = copy_range(t, lo, ei);
    assert(mant@.subrange(0, mant@.len() as int) =~= b.subrange(0, ei - lo));
    assert(t@.subrange(ei + 1, n as int) =~= b.subrange(ei - lo + 1, b.len() as int));
    let u = match unsigned_decimal_in(&mant, 0) {
        Some(u) => u,
        None => {
            return None;
        },
    };
    let c = match exponent_in(t, ei + 1) {
        Some(c) => c,
        None => {
            return None;
        },
    };
    let ghost e = exponent_value(b.subrange(ei - lo + 1, b.len() as int))->0;
    scale_by_exec(u, c, Ghost(e))
}

/// Reads `t` as a numeric literal.
pub fn parse_number_chars(t: &Vec<char>) -> (r: Option<Number>)
    ensures
        r matches Some(n) ==> parse_number(t@) == Some(n@),
        r is None ==> parse_number(t@) is None,
{
    if t.len() > 0 && (t[0] == '-' || t[0] == '+') {
        assert(t@.drop_first() =~= t@.subrange(1, t@.len() as int));
        match unsigned_number_in(t, 1) {
            Some(m) => Some(
                Number {
                    scaled: if t[0] == '-' {
                        -m
                    } else {
                        m
                    },
                },
            ),
            None => None,
        }
    } else {
        assert(t@ =~= t@.subrange(0, t@.len() as int));
        match unsigned_number_in(t, 0) {
            Some(m) => Some(Number { scaled: m }),
            None => None,
        }
    }
}

impl Number {
    /// Reads `s` as a numeric literal: an optional sign, decimal digits with
    /// at most one point (at most 18 digits on each side of it), and an
    /// optional exponent such as `e-3`. The value must be a whole number of
    /// 10^-18 units, at most 10^37 of them.
    pub fn parse(s: &str) -> (r: Option<Number>)
        ensures
            r matches Some(n) ==> parse_number(s@) == Some(n@),
            r is None ==> parse_number(s@) is None,
    {
        let cs = crate::text::chars_of(s);
        parse_number_chars(&cs)
    }
}

} // verus!

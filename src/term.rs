//! Terms, comparisons and membership: the leaves of a condition.
use vstd::prelude::*;
use crate::literal::{parse_number, parse_number_chars};
use crate::rollout::{rollout, rollout_spec};
use crate::text::{chars_of, copy_range, string_of, trim, trim_chars};
use crate::value::{Context, Number, Value, ValueModel};

verus! {

/// Why a condition could not be evaluated.
#[derive(Clone, Copy, Debug, PartialEq, Eq, Structural)]
pub enum EvalError {
    /// The text has no shape the grammar accepts, or a term does not parse.
    Malformed,
    /// The operator does not apply to the operands' types.
    UnsupportedOperator,
    /// The right-hand side of `in` is not a parenthesised list.
    InvalidInTarget,
}

/// A binary comparison operator.
#[derive(Clone, Copy, Debug, PartialEq, Eq, Structural)]
pub enum CompareOp {
    Eq,
    Ne,
    Lt,
    Le,
    Gt,
    Ge,
}

pub open spec fn is_quote(c: char) -> bool {
    c == '\'' || c == '"'
}

/// The text between the first and last character of `t`, if both are
/// quotes; the two quotes need not be the same character.
pub open spec fn quoted_content(t: Seq<char>) -> Option<Seq<char>> {
    if t.len() >= 2 && is_quote(t[0]) && is_quote(t.last()) {
        Some(t.subrange(1, t.len() - 1))
    } else {
        None
    }
}

pub open spec fn rollout_prefix() -> Seq<char> {
    seq!['r', 'o', 'l', 'l', 'o', 'u', 't', '(']
}

pub open spec fn user_id_key() -> Seq<char> {
    seq!['u', 's', 'e', 'r', 'I', 'd']
}

/// `t` equals the lower-case word `w` up to ASCII case.
pub open spec fn eq_ignore_case(t: Seq<char>, w: Seq<char>) -> bool {
    t.len() == w.len() && forall|i: int|
        0 <= i < t.len() ==> (#[trigger] t[i] == w[i] || (t[i] as u32) + 32 == (w[i] as u32))
}

/// The user id that rollout hashes: the context's `userId` if it is a
/// string, else the empty string.
pub open spec fn user_id_of(ctx: Map<Seq<char>, ValueModel>) -> Seq<char> {
    if ctx.contains_key(user_id_key()) && ctx[user_id_key()] is Str {
        ctx[user_id_key()]->Str_0
    } else {
        Seq::empty()
    }
}

/// The value of a term: a rollout call, a boolean or numeric literal, a
/// quoted string, or an identifier of the context (`Null` when unknown).
pub open spec fn resolve(key: Seq<char>, term: Seq<char>, ctx: Map<Seq<char>, ValueModel>) -> Result<
    ValueModel,
    EvalError,
> {
    let t = trim(term);
    if t.len() >= 9 && t.subrange(0, 8) == rollout_prefix() && t.last() == ')' {
        match parse_number(trim(t.subrange(8, t.len() - 1))) {
            Some(p) => Ok(ValueModel::Bool(rollout_spec(key, user_id_of(ctx), p))),
            None => Err(EvalError::Malformed),
        }
    } else if eq_ignore_case(t, seq!['t', 'r', 'u', 'e']) {
        Ok(ValueModel::Bool(true))
    } else if eq_ignore_case(t, seq!['f', 'a', 'l', 's', 'e']) {
        Ok(ValueModel::Bool(false))
    } else if parse_number(t) is Some {
        Ok(ValueModel::Num(parse_number(t)->0))
    } else if quoted_content(t) is Some {
        Ok(ValueModel::Str(quoted_content(t)->0))
    } else if ctx.contains_key(t) {
        Ok(ctx[t])
    } else {
        Ok(ValueModel::Null)
    }
}

/// Two numbers, given times 10^18, differ by less than 2^-52, the machine
/// epsilon of a 64-bit float.
pub open spec fn num_close(a: int, b: int) -> bool {
    let d = if a >= b {
        a - b
    } else {
        b - a
    };
    d * 0x10_0000_0000_0000 < 1000000000000000000
}

/// Strings and booleans compare by `==` and `!=` only; numbers by all six
/// operators, with equality up to machine epsilon; operands of different
/// types (or `Null`) are never equal, never ordered, and never an error.
pub open spec fn compare_spec(l: ValueModel, op: CompareOp, r: ValueModel) -> Result<bool, EvalError> {
    match (l, r) {
        (ValueModel::Str(a), ValueModel::Str(b)) => match op {
            CompareOp::Eq => Ok(a == b),
            CompareOp::Ne => Ok(a != b),
            _ => Err(EvalError::UnsupportedOperator),
        },
        (ValueModel::Num(a), ValueModel::Num(b)) => match op {
            CompareOp::Eq => Ok(num_close(a, b)),
            CompareOp::Ne => Ok(!num_close(a, b)),
            CompareOp::Lt => Ok(a < b),
            CompareOp::Le => Ok(a <= b),
            CompareOp::Gt => Ok(a > b),
            CompareOp::Ge => Ok(a >= b),
        },
        (ValueModel::Bool(a), ValueModel::Bool(b)) => match op {
            CompareOp::Eq => Ok(a == b),
            CompareOp::Ne => Ok(a != b),
            _ => Err(EvalError::UnsupportedOperator),
        },
        _ => Ok(false),
    }
}

/// `inner[a..b]` is one of the comma-separated items of `inner`.
pub open spec fn list_item(inner: Seq<char>, a: int, b: int) -> bool {
    &&& 0 <= a <= b <= inner.len()
    &&& (a == 0 || inner[a - 1] == ',')
    &&& (b == inner.len() || inner[b] == ',')
    &&& forall|k: int| a <= k < b ==> inner[k] != ','
}

/// Some item of the comma-separated `inner`, trimmed, is a quoted `s`.
pub open spec fn in_list(inner: Seq<char>, s: Seq<char>) -> bool {
    exists|a: int, b: int|
        #[trigger] list_item(inner, a, b) && quoted_content(trim(inner.subrange(a, b))) == Some(
            s,
        )
}

/// `left in rhs`: false unless `left` is a string; `rhs` must be a
/// parenthesised list, whose quoted items are matched exactly.
pub open spec fn contains_spec(l: ValueModel, rhs: Seq<char>) -> Result<bool, EvalError> {
    match l {
        ValueModel::Str(s) => {
            let t = trim(rhs);
            if t.len() >= 2 && t[0] == '(' && t.last() == ')' {
                Ok(in_list(t.subrange(1, t.len() - 1), s))
            } else {
                Err(EvalError::InvalidInTarget)
            }
        },
        _ => Ok(false),
    }
}

fn quoted_content_chars(t: &Vec<char>) -> (r: Option<Vec<char>>)
    ensures
        r matches Some(c) ==> quoted_content(t@) == Some(c@),
        r is None ==> quoted_content(t@) is None,
{
    let n = t.len();
    if n >= 2 && (t[0] == '\'' || t[0] == '"') && (t[n - 1] == '\'' || t[n - 1] == '"') {
        Some(copy_range(t, 1, n - 1))
    } else {
        None
    }
}

fn eq_ignore_case_chars(t: &Vec<char>, w: &Vec<char>) -> (r: bool)
    ensures
        r == eq_ignore_case(t@, w@),
{
    if t.len() != w.len() {
        return false;
    }
    let mut i: usize = 0;
    while i < t.len()
        invariant
            i <= t@.len() == w@.len(),
            forall|j: int|
                0 <= j < i ==> (#[trigger] t@[j] == w@[j] || (t@[j] as u32) + 32 == (
                w@[j] as u32)),
        decreases t@.len() - i,
    {
        let a = t[i];
        let b = w[i];
        if !(a == b || ((b as u32) >= 32 && (a as u32) == (b as u32) - 32)) {
            return false;
        }
        i = i + 1;
    }
    true
}

fn word_true() -> (r: Vec<char>)
    ensures
        r@ == seq!['t', 'r', 'u', 'e'],
{
    let mut r: Vec<char> = Vec::new();
    r.push('t');
    r.push('r');
    r.push('u');
    r.push('e');
    assert(r@ =~= seq!['t', 'r', 'u', 'e']);
    r
}

fn word_false() -> (r: Vec<char>)
    ensures
        r@ == seq!['f', 'a', 'l', 's', 'e'],
{
    let mut r: Vec<char> = Vec::new();
    r.push('f');
    r.push('a');
    r.push('l');
    r.push('s');
    r.push('e');
    assert(r@ =~= seq!['f', 'a', 'l', 's', 'e']);
    r
}

fn user_id_name() -> (r: Vec<char>)
    ensures
        r@ == user_id_key(),
{
    let mut r: Vec<char> = Vec::new();
    r.push('u');
    r.push('s');
    r.push('e');
    r.push('r');
    r.push('I');
    r.push('d');
    assert(r@ =~= user_id_key());
    r
}

fn starts_with_rollout(t: &Vec<char>) -> (r: bool)
    ensures
        r == (t@.len() >= 9 && t@.subrange(0, 8) == rollout_prefix() && t@.last() == ')'),
{
    let n = t.len();
    if n < 9 {
        return false;
    }
    let r = t[0] == 'r' && t[1] == 'o' && t[2] == 'l' && t[3] == 'l' && t[4] == 'o' && t[5]
        == 'u' && t[6] == 't' && t[7] == '(' && t[n - 1] == ')';
    proof {
        let p = t@.subrange(0, 8);
        if r {
            assert(p =~= rollout_prefix());
        } else if p == rollout_prefix() {
            assert(p[0] == t@[0] && p[1] == t@[1] && p[2] == t@[2] && p[3] == t@[3]);
            assert(p[4] == t@[4] && p[5] == t@[5] && p[6] == t@[6] && p[7] == t@[7]);
        }
    }
    r
}

/// Resolves the term `term` to a value; `key` is the flag key that a
/// rollout call hashes.
pub fn parse_term_as_value(term: &Vec<char>, ctx: &Context, key: &str) -> (r: Result<
    Value,
    EvalError,
>)
    ensures
        r matches Ok(v) ==> resolve(key@, term@, ctx@) == Ok::<ValueModel, EvalError>(v@),
        r matches Err(e) ==> resolve(key@, term@, ctx@) == Err::<ValueModel, EvalError>(e),
{
    let t = trim_chars(term);
    let n = t.len();
    if starts_with_rollout(&t) {
        let inner = trim_chars(&copy_range(&t, 8, n - 1));
        match parse_number_chars(&inner) {
            Some(p) => {
                let user = ctx.get(&string_of(&user_id_name()));
                let decision = match user {
                    Some(Value::Str(u)) => rollout(key, u.as_str(), p),
                    _ => {
                        let empty = String::new();
                        rollout(key, empty.as_str(), p)
                    },
                };
                return Ok(Value::Bool(decision));
            },
            None => {
                return Err(EvalError::Malformed);
            },
        }
    }
    if eq_ignore_case_chars(&t, &word_true()) {
        return Ok(Value::Bool(true));
    }
    if eq_ignore_case_chars(&t, &word_false()) {
        return Ok(Value::Bool(false));
    }
    if let Some(num) = parse_number_chars(&t) {
        return Ok(Value::Num(num));
    }
    if let Some(content) = quoted_content_chars(&t) {
        return Ok(Value::Str(string_of(&content)));
    }
    match ctx.get(&string_of(&t)) {
        Some(v) => Ok(v),
        None => Ok(Value::Null),
    }
}

/// `a` and `b` differ by at most 222 units of 10^-18, which is to say by less
/// than 2^-52.
fn close(a: i128, b: i128) -> (r: bool)
    ensures
        r == num_close(a as int, b as int),
{
    let r = if a >= b {
        b > i128::MAX - 222 || a <= b + 222
    } else {
        a > i128::MAX - 222 || b <= a + 222
    };
    proof {
        let d = if a >= b {
            a - b
        } else {
            b - a
        };
        assert(r == (d <= 222));
        if d <= 222 {
            assert(d * 0x10_0000_0000_0000 < 1000000000000000000) by (nonlinear_arith)
                requires
                    0 <= d <= 222,
            ;
        } else {
            assert(d * 0x10_0000_0000_0000 >= 1000000000000000000) by (nonlinear_arith)
                requires
                    d >= 223,
            ;
        }
    }
    r
}

/// Compares two values. Operands of different types are simply not equal:
/// that is `Ok(false)`, never an error.
pub fn eval_comparison(left: &Value, op: CompareOp, right: &Value) -> (r: Result<bool, EvalError>)
    ensures
        r == compare_spec(left@, op, right@),
        !(left@ is Str && right@ is Str) && !(left@ is Num && right@ is Num) && !(left@ is Bool
            && right@ is Bool) ==> r == Ok::<bool, EvalError>(false),
{
    match (left, right) {
        (Value::Str(a), Value::Str(b)) => match op {
            CompareOp::Eq => Ok(*a == *b),
            CompareOp::Ne => Ok(!(*a == *b)),
            _ => Err(EvalError::UnsupportedOperator),
        },
        (Value::Num(a), Value::Num(b)) => match op {
            CompareOp::Eq => Ok(close(a.scaled, b.scaled)),
            CompareOp::Ne => Ok(!close(a.scaled, b.scaled)),
            CompareOp::Lt => Ok(a.scaled < b.scaled),
            CompareOp::Le => Ok(a.scaled <= b.scaled),
            CompareOp::Gt => Ok(a.scaled > b.scaled),
            CompareOp::Ge => Ok(a.scaled >= b.scaled),
        },
        (Value::Bool(a), Value::Bool(b)) => match op {
            CompareOp::Eq => Ok(*a == *b),
            CompareOp::Ne => Ok(*a != *b),
            _ => Err(EvalError::UnsupportedOperator),
        },
        _ => Ok(false),
    }
}

/// Whether some comma-separated item of `inner`, trimmed, is a quoted `s`.
fn in_list_chars(inner: &Vec<char>, s: &Vec<char>) -> (r: bool)
    ensures
        r == in_list(inner@, s@),
{
    let n = inner.len();
    let mut start: usize = 0;
    let mut i: usize = 0;
    while i < n
        invariant
            n == inner@.len(),
            start <= i <= n,
            start == 0 || inner@[start - 1] == ',',
            forall|k: int| start <= k < i ==> inner@[k] != ',',
            forall|a: int, b: int|
                #[trigger] list_item(inner@, a, b) && b < i ==> quoted_content(
                    trim(inner@.subrange(a, b)),
                ) != Some(s@),
        decreases n - i,
    {
        if inner[i] == ',' {
            let item = trim_chars(&copy_range(inner, start, i));
            let q = quoted_content_chars(&item);
            if let Some(c) = q {
                if vec_eq(&c, s) {
                    assert(list_item(inner@, start as int, i as int));
                    return true;
                }
            }
            proof {
                assert forall|a: int, b: int|
                    #[trigger] list_item(inner@, a, b) && b < i + 1 implies quoted_content(
                        trim(inner@.subrange(a, b)),
                    ) != Some(s@) by {
                    if b == i {
                        if a < start {
                            assert(inner@[start - 1] == ',');
                        }
                        if a > start {
                            assert(inner@[a - 1] == ',');
                        }
                    }
                }
            }
            start = i + 1;
        }
        i = i + 1;
    }
    let item = trim_chars(&copy_range(inner, start, n));
    let found = match quoted_content_chars(&item) {
        Some(c) => vec_eq(&c, s),
        None => false,
    };
    if found {
        assert(list_item(inner@, start as int, n as int));
    } else {
        assert forall|a: int, b: int| #[trigger]
            list_item(inner@, a, b) implies quoted_content(trim(inner@.subrange(a, b))) != Some(
            s@,
        ) by {
            if b == n {
                if a < start {
                    assert(inner@[start - 1] == ',');
                }
                if a > start {
                    assert(inner@[a - 1] == ',');
                }
            }
        }
    }
    found
}

fn vec_eq(a: &Vec<char>, b: &Vec<char>) -> (r: bool)
    ensures
        r == (a@ == b@),
{
    if a.len() != b.len() {
        return false;
    }
    let mut i: usize = 0;
    while i < a.len()
        invariant
            i <= a@.len() == b@.len(),
            forall|j: int| 0 <= j < i ==> a@[j] == b@[j],
        decreases a@.len() - i,
    {
        if a[i] != b[i] {
            return false;
        }
        i = i + 1;
    }
    assert(a@ =~= b@);
    true
}

/// `left in rhs` on the characters of `rhs`.
pub fn eval_in_chars(left: &Value, rhs: &Vec<char>) -> (r: Result<bool, EvalError>)
    ensures
        r == contains_spec(left@, rhs@),
{
    match left {
        Value::Str(s) => {
            let t = trim_chars(rhs);
            let n = t.len();
            if n >= 2 && t[0] == '(' && t[n - 1] == ')' {
                let inner = copy_range(&t, 1, n - 1);
                let sc = chars_of(s.as_str());
                Ok(in_list_chars(&inner, &sc))
            } else {
                Err(EvalError::InvalidInTarget)
            }
        },
        _ => Ok(false),
    }
}

/// `left in rhs`: whether the string `left` equals the content of one of the
/// quoted items of the parenthesised, comma-separated list `rhs`. A left
/// operand that is not a string is in no list.
pub fn eval_in(left: &Value, rhs: &str) -> (r: Result<bool, EvalError>)
    ensures
        r == contains_spec(left@, rhs@),
        !(left@ is Str) ==> r == Ok::<bool, EvalError>(false),
{
    let cs = chars_of(rhs);
    eval_in_chars(left, &cs)
}

} // verus!

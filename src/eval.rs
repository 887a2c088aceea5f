//! The expression evaluator: `||` over `&&` over one comparison, split at
//! top-level separators, with short-circuit evaluation.
use vstd::prelude::*;
use crate::term::{
    compare_spec, contains_spec, eval_comparison, eval_in_chars, parse_term_as_value, resolve,
    CompareOp, EvalError,
};
use crate::text::{
    chars_of, copy_range, find_top_level, find_top_level_chars, lemma_find_top_level_from,
    lemma_trim_len, trim, trim_chars,
};
use crate::value::{Context, ValueModel};

verus! {

pub open spec fn or_sep() -> Seq<char> {
    seq!['|', '|']
}

pub open spec fn and_sep() -> Seq<char> {
    seq!['&', '&']
}

/// The comparison operators in the order they are tried.
pub open spec fn op_text(k: int) -> Seq<char> {
    if k == 0 {
        seq![' ', 'i', 'n', ' ']
    } else if k == 1 {
        seq!['<', '=']
    } else if k == 2 {
        seq!['>', '=']
    } else if k == 3 {
        seq!['=', '=']
    } else if k == 4 {
        seq!['!', '=']
    } else if k == 5 {
        seq!['<']
    } else {
        seq!['>']
    }
}

pub open spec fn op_of(k: int) -> CompareOp {
    if k == 1 {
        CompareOp::Le
    } else if k == 2 {
        CompareOp::Ge
    } else if k == 3 {
        CompareOp::Eq
    } else if k == 4 {
        CompareOp::Ne
    } else if k == 5 {
        CompareOp::Lt
    } else {
        CompareOp::Gt
    }
}

/// The first operator, from the `k`-th on, that occurs at top level in
/// `s`, with its position.
pub open spec fn first_op(s: Seq<char>, k: int) -> Option<(int, int)>
    decreases 7 - k,
{
    if k < 0 || k >= 7 {
        None
    } else {
        match find_top_level(s, op_text(k)) {
            Some(i) => Some((k, i)),
            None => first_op(s, k + 1),
        }
    }
}

/// A comparison, a membership test, or a lone term that must be a boolean.
pub open spec fn eval_cmp_spec(key: Seq<char>, s: Seq<char>, ctx: Map<Seq<char>, ValueModel>) -> Result<
    bool,
    EvalError,
> {
    match first_op(s, 0) {
        Some((k, i)) => {
            let lhs = trim(s.subrange(0, i));
            let rhs = trim(s.subrange(i + op_text(k).len(), s.len() as int));
            match resolve(key, lhs, ctx) {
                Err(e) => Err(e),
                Ok(l) => if k == 0 {
                    contains_spec(l, rhs)
                } else {
                    match resolve(key, rhs, ctx) {
                        Err(e) => Err(e),
                        Ok(r) => compare_spec(l, op_of(k), r),
                    }
                },
            }
        },
        None => match resolve(key, s, ctx) {
            Ok(ValueModel::Bool(b)) => Ok(b),
            Ok(_) => Err(EvalError::Malformed),
            Err(e) => Err(e),
        },
    }
}

/// The meaning of the condition `s` of the flag `key` in the context `ctx`.
pub open spec fn eval_spec(key: Seq<char>, s: Seq<char>, ctx: Map<Seq<char>, ValueModel>) -> Result<
    bool,
    EvalError,
>
    decreases s.len(),
    via eval_spec_decreases
{
    match find_top_level(s, or_sep()) {
        Some(i) => match eval_spec(key, trim(s.subrange(0, i)), ctx) {
            Err(e) => Err(e),
            Ok(true) => Ok(true),
            Ok(false) => eval_spec(key, trim(s.subrange(i + 2, s.len() as int)), ctx),
        },
        None => match find_top_level(s, and_sep()) {
            Some(i) => match eval_spec(key, trim(s.subrange(0, i)), ctx) {
                Err(e) => Err(e),
                Ok(false) => Ok(false),
                Ok(true) => eval_spec(key, trim(s.subrange(i + 2, s.len() as int)), ctx),
            },
            None => eval_cmp_spec(key, s, ctx),
        },
    }
}

#[via_fn]
proof fn eval_spec_decreases(key: Seq<char>, s: Seq<char>, ctx: Map<Seq<char>, ValueModel>) {
    lemma_find_top_level_from(s, or_sep(), 0);
    lemma_find_top_level_from(s, and_sep(), 0);
    match find_top_level(s, or_sep()) {
        Some(i) => {
            lemma_trim_len(s.subrange(0, i));
            lemma_trim_len(s.subrange(i + 2, s.len() as int));
        },
        None => match find_top_level(s, and_sep()) {
            Some(i) => {
                lemma_trim_len(s.subrange(0, i));
                lemma_trim_len(s.subrange(i + 2, s.len() as int));
            },
            None => {},
        },
    }
}

fn sep_chars(a: char, b: char) -> (r: Vec<char>)
    ensures
        r@ == seq![a, b],
{
    let mut r: Vec<char> = Vec::new();
    r.push(a);
    r.push(b);
    assert(r@ =~= seq![a, b]);
    r
}

fn op_chars(k: usize) -> (r: Vec<char>)
    requires
        k < 7,
    ensures
        r@ == op_text(k as int),
{
    let mut r: Vec<char> = Vec::new();
    if k == 0 {
        r.push(' ');
        r.push('i');
        r.push('n');
        r.push(' ');
        assert(r@ =~= op_text(0));
    } else if k == 5 {
        r.push('<');
        assert(r@ =~= op_text(5));
    } else if k == 6 {
        r.push('>');
        assert(r@ =~= op_text(6));
    } else {
        r = if k == 1 {
            sep_chars('<', '=')
        } else if k == 2 {
            sep_chars('>', '=')
        } else if k == 3 {
            sep_chars('=', '=')
        } else {
            sep_chars('!', '=')
        };
    }
    r
}

fn op_at(k: usize) -> (r: CompareOp)
    ensures
        r == op_of(k as int),
{
    if k == 1 {
        CompareOp::Le
    } else if k == 2 {
        CompareOp::Ge
    } else if k == 3 {
        CompareOp::Eq
    } else if k == 4 {
        CompareOp::Ne
    } else if k == 5 {
        CompareOp::Lt
    } else {
        CompareOp::Gt
    }
}

fn eval_cmp(key: &str, s: &Vec<char>, ctx: &Context) -> (r: Result<bool, EvalError>)
    ensures
        r == eval_cmp_spec(key@, s@, ctx@),
{
    let mut k: usize = 0;
    while k < 7
        invariant
            k <= 7,
            first_op(s@, 0) == first_op(s@, k as int),
        decreases 7 - k,
    {
        let op = op_chars(k);
        if let Some(i) = find_top_level_chars(s, &op) {
            proof {
                lemma_find_top_level_from(s@, op@, 0);
            }
            let lhs = trim_chars(&copy_range(s, 0, i));
            let n = s.len();
            assert(i + op@.len() <= n);
            let rhs = trim_chars(&copy_range(s, i + op.len(), n));
            let left = match parse_term_as_value(&lhs, ctx, key) {
                Ok(v) => v,
                Err(e) => {
                    return Err(e);
                },
            };
            if k == 0 {
                return eval_in_chars(&left, &rhs);
            }
            let right = match parse_term_as_value(&rhs, ctx, key) {
                Ok(v) => v,
                Err(e) => {
                    return Err(e);
                },
            };
            return eval_comparison(&left, op_at(k), &right);
        }
        k = k + 1;
    }
    match parse_term_as_value(s, ctx, key) {
        Ok(crate::value::Value::Bool(b)) => Ok(b),
        Ok(_) => Err(EvalError::Malformed),
        Err(e) => Err(e),
    }
}

/// Evaluates the condition `s` of the flag `key`.
fn eval_expr(key: &str, s: &Vec<char>, ctx: &Context) -> (r: Result<bool, EvalError>)
    ensures
        r == eval_spec(key@, s@, ctx@),
    decreases s@.len(),
{
    let or = sep_chars('|', '|');
    if let Some(i) = find_top_level_chars(s, &or) {
        proof {
            lemma_find_top_level_from(s@, or_sep(), 0);
            lemma_trim_len(s@.subrange(0, i as int));
            lemma_trim_len(s@.subrange(i + 2, s@.len() as int));
        }
        let left = trim_chars(&copy_range(s, 0, i));
        match eval_expr(key, &left, ctx) {
            Err(e) => {
                return Err(e);
            },
            Ok(true) => {
                return Ok(true);
            },
            Ok(false) => {},
        }
        let n = s.len();
        assert(i + 2 <= n);
        let right = trim_chars(&copy_range(s, i + 2, n));
        return eval_expr(key, &right, ctx);
    }
    let and = sep_chars('&', '&');
    if let Some(i) = find_top_level_chars(s, &and) {
        proof {
            lemma_find_top_level_from(s@, and_sep(), 0);
            lemma_trim_len(s@.subrange(0, i as int));
            lemma_trim_len(s@.subrange(i + 2, s@.len() as int));
        }
        let left = trim_chars(&copy_range(s, 0, i));
        match eval_expr(key, &left, ctx) {
            Err(e) => {
                return Err(e);
            },
            Ok(false) => {
                return Ok(false);
            },
            Ok(true) => {},
        }
        let n = s.len();
        assert(i + 2 <= n);
        let right = trim_chars(&copy_range(s, i + 2, n));
        return eval_expr(key, &right, ctx);
    }
    eval_cmp(key, s, ctx)
}

/// Evaluates the condition `expr` of the flag `flag_key` against `ctx`.
/// `Err` says that the condition is malformed or applies an operator to
/// operands it does not support.
pub fn eval_rule_expr(flag_key: &str, expr: &str, ctx: &Context) -> (r: Result<bool, EvalError>)
    ensures
        r == eval_spec(flag_key@, trim(expr@), ctx@),
{
    let cs = chars_of(expr);
    let t = trim_chars(&cs);
    eval_expr(flag_key, &t, ctx)
}

} // verus!

use ff_eval_core::{
    eval_comparison, eval_in, eval_rule_expr, rollout, split_top_level, CompareOp, Context,
    EvalError, Number, Value,
};

fn num(n: i64) -> Value {
    Value::Num(Number::from_int(n))
}

fn s(t: &str) -> Value {
    Value::Str(t.to_string())
}

#[test]
fn scanner_ignores_quoted_separator() {
    assert_eq!(split_top_level("a == 'x && y'", "&&"), None);
    assert_eq!(split_top_level("a == \"x || y\"", "||"), None);
}

#[test]
fn scanner_returns_byte_offsets() {
    let s = "\u{e9}||x";
    let i = split_top_level(s, "||").unwrap();
    assert_eq!(i, 2);
    assert!(s.is_char_boundary(i));
    assert_eq!(&s[i..i + 2], "||");
    assert_eq!(split_top_level("'\u{e9}' == '\u{e9}' && b", "&&"), Some(13));
}

#[test]
fn scanner_skips_parenthesised_separator() {
    assert_eq!(split_top_level("(a && b) || c", "||"), Some(9));
    assert_eq!(split_top_level("(a && b) || c", "&&"), None);
    assert_eq!(split_top_level("a <= b", "<"), Some(2));
}

#[test]
fn mismatched_types_compare_false() {
    assert_eq!(eval_comparison(&s("a"), CompareOp::Eq, &num(1)), Ok(false));
    assert_eq!(eval_comparison(&s("a"), CompareOp::Ne, &num(1)), Ok(false));
    assert_eq!(eval_comparison(&Value::Null, CompareOp::Lt, &num(1)), Ok(false));
    assert_eq!(eval_comparison(&Value::Bool(true), CompareOp::Eq, &s("true")), Ok(false));
}

#[test]
fn unsupported_operator_is_an_error() {
    assert_eq!(eval_comparison(&s("a"), CompareOp::Lt, &s("b")), Err(EvalError::UnsupportedOperator));
    assert_eq!(
        eval_comparison(&Value::Bool(true), CompareOp::Ge, &Value::Bool(false)),
        Err(EvalError::UnsupportedOperator)
    );
    assert_eq!(eval_rule_expr("k", "'a' < 'b'", &Context::new()), Err(EvalError::UnsupportedOperator));
}

#[test]
fn numbers_compare_exactly_and_within_epsilon() {
    assert_eq!(eval_comparison(&num(2), CompareOp::Ge, &num(2)), Ok(true));
    assert_eq!(eval_comparison(&num(2), CompareOp::Lt, &num(3)), Ok(true));
    assert_eq!(eval_comparison(&num(3), CompareOp::Le, &num(2)), Ok(false));
    assert_eq!(eval_comparison(&num(2), CompareOp::Ne, &num(2)), Ok(false));
    let a = Value::Num(Number { scaled: 1_000_000_000_000_000_000 });
    let b = Value::Num(Number { scaled: 1_000_000_000_000_000_222 });
    let c = Value::Num(Number { scaled: 1_000_000_000_000_000_223 });
    assert_eq!(eval_comparison(&a, CompareOp::Eq, &b), Ok(true));
    assert_eq!(eval_comparison(&a, CompareOp::Eq, &c), Ok(false));
    assert_eq!(eval_comparison(&a, CompareOp::Ne, &c), Ok(true));
}

#[test]
fn membership_is_exact_and_string_only() {
    assert_eq!(eval_in(&s("EU"), "('EU','APAC')"), Ok(true));
    assert_eq!(eval_in(&s("APAC"), " ( 'EU' , \"APAC\" ) "), Ok(true));
    assert_eq!(eval_in(&s("NA"), "('EU','APAC')"), Ok(false));
    assert_eq!(eval_in(&s("E"), "('EU','APAC')"), Ok(false));
    assert_eq!(eval_in(&num(1), "('1')"), Ok(false));
    assert_eq!(eval_in(&s("1"), "(1, '1')"), Ok(true));
    assert_eq!(eval_in(&s("EU"), "'EU'"), Err(EvalError::InvalidInTarget));
    assert_eq!(eval_in(&num(1), "'EU'"), Ok(false));
}

#[test]
fn membership_in_rule_text() {
    let mut c = Context::new();
    c.insert("region".to_string(), s("EU"));
    assert_eq!(eval_rule_expr("k", "region in ('EU','APAC')", &c), Ok(true));
    assert_eq!(eval_rule_expr("k", "region in 'EU'", &c), Err(EvalError::InvalidInTarget));
}

#[test]
fn rollout_buckets() {
    // FNV-1a of "paywall:u20" is 359950222, bucket 0.0838
    assert!(rollout("paywall", "u20", Number::parse("0.20").unwrap()));
    assert!(!rollout("paywall", "u20", Number::parse("0.08").unwrap()));
    assert!(rollout("paywall", "u20", Number::parse("0.084").unwrap()));
    // "paywall:u123" lands at 0.5836
    assert!(!rollout("paywall", "u123", Number::parse("0.20").unwrap()));
    assert!(!rollout("paywall", "u999", Number::parse("0.00").unwrap()));
    assert!(rollout("paywall", "u999", Number::from_int(1)));
}

#[test]
fn rollout_is_deterministic_and_monotone() {
    let p = Number::parse("0.5").unwrap();
    assert_eq!(rollout("k", "u1", p), rollout("k", "u1", p));
    let mut last = false;
    for tenth in 0..=10 {
        let q = Number { scaled: tenth * 100_000_000_000_000_000 };
        let now = rollout("k", "u1", q);
        assert!(!last || now);
        last = now;
    }
    // "k:u1" lands at 0.8756
    assert!(!rollout("k", "u1", Number::parse("0.8").unwrap()));
    assert!(rollout("k", "u1", Number::parse("0.9").unwrap()));
}

#[test]
fn rollout_uses_empty_user_when_absent() {
    // "paywall:" lands at 0.9501
    let c = Context::new();
    assert_eq!(eval_rule_expr("paywall", "rollout(0.95)", &c), Ok(false));
    assert_eq!(eval_rule_expr("paywall", "rollout(0.96)", &c), Ok(true));
    assert_eq!(eval_rule_expr("paywall", "rollout(x)", &c), Err(EvalError::Malformed));
}

#[test]
fn numeric_literals() {
    assert_eq!(Number::parse("2").map(|n| n.scaled), Some(2_000_000_000_000_000_000));
    assert_eq!(Number::parse("-0.5").map(|n| n.scaled), Some(-500_000_000_000_000_000));
    assert_eq!(Number::parse("+.25").map(|n| n.scaled), Some(250_000_000_000_000_000));
    assert_eq!(Number::parse("3.").map(|n| n.scaled), Some(3_000_000_000_000_000_000));
    assert!(Number::parse(".").is_none());
    assert!(Number::parse("").is_none());
    assert!(Number::parse("1.2.3").is_none());
    assert!(Number::parse("abc").is_none());
}

#[test]
fn numeric_literals_with_exponents() {
    assert_eq!(Number::parse("2e-1").map(|n| n.scaled), Some(200_000_000_000_000_000));
    assert_eq!(Number::parse("1E3").map(|n| n.scaled), Some(1_000 * 1_000_000_000_000_000_000));
    assert_eq!(Number::parse("-1.5e+2").map(|n| n.scaled), Some(-150 * 1_000_000_000_000_000_000));
    assert_eq!(Number::parse("1e-18").map(|n| n.scaled), Some(1));
    assert_eq!(Number::parse("1e19").map(|n| n.scaled), Some(10_000_000_000_000_000_000 * 1_000_000_000_000_000_000));
    assert_eq!(Number::parse("0e-500").map(|n| n.scaled), Some(0));
    assert_eq!(Number::parse("0e99999999999999999999").map(|n| n.scaled), Some(0));
    // not a whole number of 10^-18 units, or beyond 10^37 of them
    assert!(Number::parse("1e-19").is_none());
    assert!(Number::parse("1e20").is_none());
    assert!(Number::parse("5e-500").is_none());
    assert!(Number::parse("1e").is_none());
    assert!(Number::parse("1e+").is_none());
    assert!(Number::parse("e3").is_none());
    assert!(Number::parse("1e2.5").is_none());
}

#[test]
fn exponent_literals_in_rules() {
    let mut c = Context::new();
    c.insert("ver".to_string(), num(1500));
    assert_eq!(eval_rule_expr("k", "ver >= 1e3", &c), Ok(true));
    assert_eq!(eval_rule_expr("k", "ver == 1.5e3", &c), Ok(true));
    // "paywall:u20" lands at 0.0838
    c.insert("userId".to_string(), s("u20"));
    assert_eq!(eval_rule_expr("paywall", "rollout(2e-1)", &c), Ok(true));
    assert_eq!(eval_rule_expr("paywall", "rollout(8e-2)", &c), Ok(false));
}

#[test]
fn terms_resolve_in_order() {
    let mut c = Context::new();
    c.insert("flag".to_string(), Value::Bool(true));
    c.insert("name".to_string(), s("bob"));
    assert_eq!(eval_rule_expr("k", "flag", &c), Ok(true));
    assert_eq!(eval_rule_expr("k", "False", &c), Ok(false));
    assert_eq!(eval_rule_expr("k", "name == 'bob'", &c), Ok(true));
    assert_eq!(eval_rule_expr("k", "name == 'bob\"", &c), Ok(true));
    assert_eq!(eval_rule_expr("k", "missing == 'bob'", &c), Ok(false));
    assert_eq!(eval_rule_expr("k", "name", &c), Err(EvalError::Malformed));
    assert_eq!(eval_rule_expr("k", "", &c), Err(EvalError::Malformed));
}

#[test]
fn logical_operators_short_circuit() {
    let c = Context::new();
    assert_eq!(eval_rule_expr("k", "true || rollout(x)", &c), Ok(true));
    assert_eq!(eval_rule_expr("k", "false && rollout(x)", &c), Ok(false));
    assert_eq!(eval_rule_expr("k", "false || rollout(x)", &c), Err(EvalError::Malformed));
    assert_eq!(eval_rule_expr("k", "false || false || true", &c), Ok(true));
    assert_eq!(eval_rule_expr("k", "true && (1 == 1)", &c), Err(EvalError::Malformed));
}

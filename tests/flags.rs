use ff_eval_core::{eval_flag, eval_rules, Context, EvalResult, Flag, Number, Rule, Value};

fn ctx(pairs: &[(&str, &str)]) -> Context {
    let mut m = Context::new();
    for (k, v) in pairs {
        m.insert((*k).to_string(), Value::Str((*v).to_string()));
    }
    m
}

fn paywall(rollout_cond: &str) -> Flag {
    Flag {
        key: "paywall".to_string(),
        rules: vec![
            Rule { cond: "country == 'CA'".to_string(), then_value: true },
            Rule { cond: rollout_cond.to_string(), then_value: true },
        ],
        default: false,
    }
}

#[test]
fn test_eval_flag_ca_rollout() {
    let flag = paywall("rollout(0.20)");
    let ctx_map = ctx(&[("userId", "u123"), ("country", "CA")]);
    let res = eval_flag(&flag, &ctx_map);
    assert!(res.enabled);
    assert_eq!(res.matched_rule, Some(0));
}

#[test]
fn test_eval_flag_rollout() {
    let flag = paywall("rollout(0.20)");
    // "u20" falls in bucket 0.0838
    let ctx_map = ctx(&[("userId", "u20"), ("country", "US")]);
    let res = eval_flag(&flag, &ctx_map);
    assert!(res.enabled);
    assert_eq!(res.matched_rule, Some(1));
}

#[test]
fn test_eval_flag_default() {
    let flag = paywall("rollout(0.00)");
    let ctx_map = ctx(&[("userId", "u999"), ("country", "US")]);
    let res = eval_flag(&flag, &ctx_map);
    assert!(!res.enabled);
    assert_eq!(res.matched_rule, None);
}

#[test]
fn test_string_in_operator() {
    let flag = Flag {
        key: "region_test".to_string(),
        rules: vec![Rule { cond: "region in ('EU','APAC')".to_string(), then_value: true }],
        default: false,
    };
    let ctx_map = ctx(&[("userId", "u1"), ("region", "EU")]);
    let res = eval_flag(&flag, &ctx_map);
    assert!(res.enabled);
    assert_eq!(res.matched_rule, Some(0));
    let ctx_map2 = ctx(&[("userId", "u2"), ("region", "NA")]);
    let res2 = eval_flag(&flag, &ctx_map2);
    assert!(!res2.enabled);
    assert_eq!(res2.matched_rule, None);
}

#[test]
fn test_numeric_comparisons() {
    let flag = Flag {
        key: "version_test".to_string(),
        rules: vec![
            Rule { cond: "ver >= 2".to_string(), then_value: true },
            Rule { cond: "ver < 2".to_string(), then_value: false },
        ],
        default: false,
    };
    let mut ctx_map: Context = Context::new();
    ctx_map.insert("userId".to_string(), Value::Str("u3".to_string()));
    ctx_map.insert("ver".to_string(), Value::Num(Number::from_int(3)));
    let res = eval_flag(&flag, &ctx_map);
    assert!(res.enabled);
    assert_eq!(res.matched_rule, Some(0));
    let mut ctx_map2: Context = Context::new();
    ctx_map2.insert("userId".to_string(), Value::Str("u4".to_string()));
    ctx_map2.insert("ver".to_string(), Value::Num(Number::from_int(1)));
    let res2 = eval_flag(&flag, &ctx_map2);
    assert!(!res2.enabled);
    assert_eq!(res2.matched_rule, Some(1));
}

#[test]
fn test_logical_operators() {
    let flag = Flag {
        key: "logic_test".to_string(),
        rules: vec![
            Rule { cond: "country == 'CA' && ver >= 2".to_string(), then_value: true },
            Rule { cond: "country == 'US' || country == 'MX'".to_string(), then_value: true },
        ],
        default: false,
    };
    let mut ctx_map: Context = Context::new();
    ctx_map.insert("userId".to_string(), Value::Str("u5".to_string()));
    ctx_map.insert("country".to_string(), Value::Str("CA".to_string()));
    ctx_map.insert("ver".to_string(), Value::Num(Number::from_int(2)));
    let res = eval_flag(&flag, &ctx_map);
    assert!(res.enabled);
    assert_eq!(res.matched_rule, Some(0));
    let mut ctx_map2: Context = Context::new();
    ctx_map2.insert("userId".to_string(), Value::Str("u6".to_string()));
    ctx_map2.insert("country".to_string(), Value::Str("US".to_string()));
    let res2 = eval_flag(&flag, &ctx_map2);
    assert!(res2.enabled);
    assert_eq!(res2.matched_rule, Some(1));
    let mut ctx_map3: Context = Context::new();
    ctx_map3.insert("userId".to_string(), Value::Str("u7".to_string()));
    ctx_map3.insert("country".to_string(), Value::Str("BR".to_string()));
    ctx_map3.insert("ver".to_string(), Value::Num(Number::from_int(5)));
    let res3 = eval_flag(&flag, &ctx_map3);
    assert!(!res3.enabled);
    assert_eq!(res3.matched_rule, None);
}

#[test]
fn empty_rules_take_default() {
    for default in [false, true] {
        let flag = Flag { key: "f".to_string(), rules: vec![], default };
        let res: EvalResult = eval_flag(&flag, &Context::new());
        assert_eq!(res.key, "f");
        assert_eq!(res.enabled, default);
        assert_eq!(res.matched_rule, None);
    }
}

#[test]
fn first_true_rule_wins() {
    let flag = Flag {
        key: "f".to_string(),
        rules: vec![
            Rule { cond: "x == 2".to_string(), then_value: true },
            Rule { cond: "x == 1".to_string(), then_value: false },
            Rule { cond: "x >= 1".to_string(), then_value: true },
        ],
        default: true,
    };
    let mut c = Context::new();
    c.insert("x".to_string(), Value::Num(Number::from_int(1)));
    let res = eval_flag(&flag, &c);
    assert!(!res.enabled);
    assert_eq!(res.matched_rule, Some(1));
    assert_eq!(eval_rules(&flag, &c), Some((1, false)));
}

#[test]
fn malformed_rules_are_skipped() {
    let flag = Flag {
        key: "f".to_string(),
        rules: vec![
            Rule { cond: "rollout(abc)".to_string(), then_value: false },
            Rule { cond: "'a' < 'b'".to_string(), then_value: false },
            Rule { cond: "country".to_string(), then_value: false },
            Rule { cond: "TRUE".to_string(), then_value: true },
        ],
        default: false,
    };
    let res = eval_flag(&flag, &ctx(&[("country", "CA")]));
    assert!(res.enabled);
    assert_eq!(res.matched_rule, Some(3));
}

#[test]
fn scenario_and_falls_through_when_version_low() {
    let flag = Flag {
        key: "f".to_string(),
        rules: vec![Rule { cond: "country == 'CA' && ver >= 2".to_string(), then_value: true }],
        default: false,
    };
    let mut c = ctx(&[("country", "CA")]);
    c.insert("ver".to_string(), Value::Num(Number::from_int(1)));
    let res = eval_flag(&flag, &c);
    assert!(!res.enabled);
    assert_eq!(res.matched_rule, None);
}

#[test]
fn context_insert_replaces() {
    let mut c = ctx(&[("country", "CA")]);
    c.insert("country".to_string(), Value::Str("US".to_string()));
    match c.get(&"country".to_string()) {
        Some(Value::Str(s)) => assert_eq!(s, "US"),
        other => panic!("unexpected {:?}", other),
    }
    assert!(c.get(&"region".to_string()).is_none());
}

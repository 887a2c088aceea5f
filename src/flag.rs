//! Flags: ordered rules, first match wins, the default when none matches.
use vstd::prelude::*;
use crate::eval::{eval_rule_expr, eval_spec};
use crate::term::EvalError;
use crate::text::trim;
use crate::value::{Context, ValueModel};

verus! {

/// A condition and the value a flag takes when it holds.
#[derive(Clone, Debug)]
pub struct Rule {
    pub cond: String,
    pub then_value: bool,
}

/// A flag: its key, its ordered rules, and its value when no rule matches.
#[derive(Clone, Debug)]
pub struct Flag {
    pub key: String,
    pub rules: Vec<Rule>,
    pub default: bool,
}

/// The outcome of evaluating a flag.
#[derive(Clone, Debug)]
pub struct EvalResult {
    pub key: String,
    pub enabled: bool,
    /// The position of the first rule whose condition held, if any.
    pub matched_rule: Option<usize>,
}

/// The condition of `rule` holds; a malformed condition does not.
pub open spec fn rule_matches(key: Seq<char>, rule: Rule, ctx: Map<Seq<char>, ValueModel>) -> bool {
    eval_spec(key, trim(rule.cond@), ctx) == Ok::<bool, EvalError>(true)
}

/// The first rule, from the `i`-th on, whose condition holds.
pub open spec fn first_match_from(
    key: Seq<char>,
    rules: Seq<Rule>,
    ctx: Map<Seq<char>, ValueModel>,
    i: int,
) -> Option<int>
    decreases rules.len() - i,
{
    if i < 0 || i >= rules.len() {
        None
    } else if rule_matches(key, rules[i], ctx) {
        Some(i)
    } else {
        first_match_from(key, rules, ctx, i + 1)
    }
}

/// The first rule of `flag` whose condition holds in `ctx`.
pub open spec fn first_match(flag: Flag, ctx: Map<Seq<char>, ValueModel>) -> Option<int> {
    first_match_from(flag.key@, flag.rules@, ctx, 0)
}

/// Whether `flag` is enabled in `ctx`.
pub open spec fn flag_enabled(flag: Flag, ctx: Map<Seq<char>, ValueModel>) -> bool {
    match first_match(flag, ctx) {
        Some(i) => flag.rules@[i].then_value,
        None => flag.default,
    }
}

proof fn lemma_first_match_from(
    key: Seq<char>,
    rules: Seq<Rule>,
    ctx: Map<Seq<char>, ValueModel>,
    i: int,
)
    requires
        0 <= i,
    ensures
        first_match_from(key, rules, ctx, i) matches Some(m) ==> i <= m < rules.len()
            && rule_matches(key, rules[m], ctx) && forall|k: int|
            i <= k < m ==> !rule_matches(key, #[trigger] rules[k], ctx),
        first_match_from(key, rules, ctx, i) is None ==> forall|k: int|
            i <= k < rules.len() ==> !rule_matches(key, #[trigger] rules[k], ctx),
    decreases rules.len() - i,
{
    if i < rules.len() && !rule_matches(key, rules[i], ctx) {
        lemma_first_match_from(key, rules, ctx, i + 1);
    }
}

/// The position and value of the first rule of `flag` whose condition holds
/// in `ctx`, or `None` when no condition holds. Malformed conditions are
/// skipped.
pub fn eval_rules(flag: &Flag, ctx: &Context) -> (r: Option<(usize, bool)>)
    ensures
        r matches Some((i, v)) ==> first_match(*flag, ctx@) == Some(i as int) && v
            == flag.rules@[i as int].then_value,
        r is None ==> first_match(*flag, ctx@) is None,
{
    let mut i: usize = 0;
    while i < flag.rules.len()
        invariant
            i <= flag.rules@.len(),
            first_match(*flag, ctx@) == first_match_from(flag.key@, flag.rules@, ctx@, i as int),
        decreases flag.rules@.len() - i,
    {
        let rule = &flag.rules[i];
        match eval_rule_expr(flag.key.as_str(), rule.cond.as_str(), ctx) {
            Ok(true) => {
                return Some((i, rule.then_value));
            },
            _ => {},
        }
        i = i + 1;
    }
    None
}

/// Evaluates `flag` in `ctx`: the first rule whose condition holds decides
/// the value; when none holds, the flag takes its default. Never fails.
pub fn eval_flag(flag: &Flag, ctx: &Context) -> (r: EvalResult)
    ensures
        r.key@ == flag.key@,
        r.enabled == flag_enabled(*flag, ctx@),
        r.matched_rule matches Some(i) ==> first_match(*flag, ctx@) == Some(i as int),
        r.matched_rule is None ==> first_match(*flag, ctx@) is None,
{
    match eval_rules(flag, ctx) {
        Some((i, v)) => EvalResult { key: flag.key.clone(), enabled: v, matched_rule: Some(i) },
        None => EvalResult { key: flag.key.clone(), enabled: flag.default, matched_rule: None },
    }
}

/// A flag without rules takes its default, and no rule matches.
pub proof fn no_rules_gives_default(flag: Flag, ctx: Map<Seq<char>, ValueModel>)
    requires
        flag.rules@.len() == 0,
    ensures
        first_match(flag, ctx) is None,
        flag_enabled(flag, ctx) == flag.default,
{
}

/// First match wins: when rules `i < j` both hold, the matched rule comes no
/// later than `i`, so it is never `j`; it is `i` when no earlier rule holds.
pub proof fn first_match_wins(flag: Flag, ctx: Map<Seq<char>, ValueModel>, i: int, j: int)
    requires
        0 <= i < j < flag.rules@.len(),
        rule_matches(flag.key@, flag.rules@[i], ctx),
        rule_matches(flag.key@, flag.rules@[j], ctx),
    ensures
        first_match(flag, ctx) matches Some(m) && m <= i && m != j,
        (forall|k: int| 0 <= k < i ==> !rule_matches(flag.key@, #[trigger] flag.rules@[k], ctx))
            ==> first_match(flag, ctx) == Some(i),
        flag_enabled(flag, ctx) == flag.rules@[first_match(flag, ctx)->0].then_value,
{
    lemma_first_match_from(flag.key@, flag.rules@, ctx, 0);
}

} // verus!

//! Semantic validation of a grammar model.

use crate::calls::{
    first_error, group_calls, lemma_first_error_concat, pattern_calls, rule_calls, sequence_calls,
    CallSite,
};
use crate::error::{texts, GrammarError, GrammarErrorView};
use crate::graph::{as_ints, distinct};
use crate::model::{Backend, BuiltIn, GrammarDefinition, Identifier, ModelPattern, Rule};
use crate::recursion::{
    find_indirect_cycle, has_indirect_left_recursion, is_indirect_cycle, left_calls,
    lemma_mutual_left_calls_are_a_cycle,
};
use crate::shadowing::{
    check_shadowing, lemma_prefix_alternative_is_reported, shadow_upto, shadows,
};
use vstd::prelude::*;

verus! {

/// Some rule of `grammar` is called `name`.
pub open spec fn is_rule_name(grammar: &GrammarDefinition, name: Seq<char>) -> bool {
    exists|i: int| 0 <= i < grammar.rules@.len() && (#[trigger] grammar.rules@[i]).name@ == name
}

/// Some built-in of the catalog is called `name`.
pub open spec fn is_builtin_name(builtins: Seq<BuiltIn>, name: Seq<char>) -> bool {
    exists|i: int| 0 <= i < builtins.len() && (#[trigger] builtins[i]).name@ == name
}

/// Some parameter of the list is called `name`.
pub open spec fn is_param_name(params: Seq<(Identifier, Option<String>)>, name: Seq<char>) -> bool {
    exists|i: int| 0 <= i < params.len() && (#[trigger] params[i]).0@ == name
}

/// The verdict on one call inside a rule with parameters `params`: an error
/// when the name called is neither a rule, nor a built-in, nor a parameter.
pub open spec fn undefined_check(
    grammar: &GrammarDefinition,
    builtins: Seq<BuiltIn>,
    params: Seq<(Identifier, Option<String>)>,
) -> spec_fn(CallSite) -> Option<GrammarErrorView> {
    |s: CallSite|
        if !is_rule_name(grammar, s.name) && !is_builtin_name(builtins, s.name) && !is_param_name(
            params,
            s.name,
        ) {
            Some(GrammarErrorView::UndefinedRule { name: s.name, span: s.span })
        } else {
            None
        }
}

/// `r` is `Ok` when `e` is `None`, and else the error with content `e`.
pub open spec fn outcome_is(r: Result<(), GrammarError>, e: Option<GrammarErrorView>) -> bool {
    match r {
        Ok(_) => e is None,
        Err(err) => e == Some(err@),
    }
}

/// Looks `name` up among the rules of `grammar`.
pub fn defines_rule(grammar: &GrammarDefinition, name: &String) -> (b: bool)
    ensures
        b == is_rule_name(grammar, name@),
{
    let mut i: usize = 0;
    while i < grammar.rules.len()
        invariant
            i <= grammar.rules@.len(),
            forall|j: int| 0 <= j < i ==> (#[trigger] grammar.rules@[j]).name@ != name@,
        decreases grammar.rules@.len() - i,
    {
        if grammar.rules[i].name.text == *name {
            return true;
        }
        i += 1;
    }
    false
}

/// Looks `name` up in a catalog of built-ins.
pub fn names_builtin(builtins: &Vec<BuiltIn>, name: &String) -> (b: bool)
    ensures
        b == is_builtin_name(builtins@, name@),
{
    let mut i: usize = 0;
    while i < builtins.len()
        invariant
            i <= builtins@.len(),
            forall|j: int| 0 <= j < i ==> (#[trigger] builtins@[j]).name@ != name@,
        decreases builtins@.len() - i,
    {
        let candidate = String::from_str(builtins[i].name);
        if candidate == *name {
            return true;
        }
        i += 1;
    }
    false
}

fn names_param(params: &Vec<(Identifier, Option<String>)>, name: &String) -> (b: bool)
    ensures
        b == is_param_name(params@, name@),
{
    let mut i: usize = 0;
    while i < params.len()
        invariant
            i <= params@.len(),
            forall|j: int| 0 <= j < i ==> (#[trigger] params@[j]).0@ != name@,
        decreases params@.len() - i,
    {
        if params[i].0.text == *name {
            return true;
        }
        i += 1;
    }
    false
}

/// Checks every call inside `pattern`, arguments excepted, and reports the
/// first that names nothing known.
pub fn validate_pattern(
    pattern: &ModelPattern,
    grammar: &GrammarDefinition,
    builtins: &Vec<BuiltIn>,
    params: &Vec<(Identifier, Option<String>)>,
) -> (r: Result<(), GrammarError>)
    ensures
        outcome_is(
            r,
            first_error(
                pattern_calls(*pattern, false),
                undefined_check(grammar, builtins@, params@),
            ),
        ),
    decreases pattern, 0nat,
{
    let ghost check = undefined_check(grammar, builtins@, params@);
    match pattern {
        ModelPattern::RuleCall { rule_name, .. } => {
            let known = defines_rule(grammar, &rule_name.text) || names_builtin(
                builtins,
                &rule_name.text,
            ) || names_param(params, &rule_name.text);
            proof {
                lemma_first_error_single(
                    CallSite { name: rule_name@, span: rule_name.span, args: pattern->args@.len() },
                    check,
                );
            }
            if !known {
                return Err(
                    GrammarError::UndefinedRule { name: rule_name.text.clone(), span: rule_name.span },
                );
            }
            Ok(())
        },
        ModelPattern::Repeat(inner, _)
        | ModelPattern::Plus(inner, _)
        | ModelPattern::Optional(inner, _)
        | ModelPattern::SpanBinding(inner, _, _)
        | ModelPattern::Peek(inner, _) => validate_pattern(inner, grammar, builtins, params),
        ModelPattern::Not(inner, _) => validate_pattern(inner, grammar, builtins, params),
        ModelPattern::Group(variants, _) => {
            let mut k: usize = 0;
            while k < variants.len()
                invariant
                    k <= variants@.len(),
                    check == undefined_check(grammar, builtins@, params@),
                    *pattern matches ModelPattern::Group(alts, _) && alts == *variants,
                    first_error(group_calls(variants@, k as nat, false), check) is None,
                decreases variants@.len() - k,
            {
                let r = validate_pattern_sequence(&variants[k], grammar, builtins, params);
                proof {
                    lemma_first_error_concat(
                        group_calls(variants@, k as nat, false),
                        sequence_calls(variants@[k as int]@, variants@[k as int]@.len(), false),
                        check,
                    );
                }
                if r.is_err() {
                    proof {
                        lemma_group_stops(variants@, (k + 1) as nat, false, check);
                    }
                    return r;
                }
                k += 1;
            }
            Ok(())
        },
        ModelPattern::Bracketed(seq, _)
        | ModelPattern::Braced(seq, _)
        | ModelPattern::Parenthesized(seq, _) => validate_pattern_sequence(
            seq,
            grammar,
            builtins,
            params,
        ),
        ModelPattern::Recover { body, sync, .. } => {
            proof {
                lemma_first_error_concat(
                    pattern_calls(**body, false),
                    pattern_calls(**sync, false),
                    check,
                );
            }
            let r = validate_pattern(body, grammar, builtins, params);
            if r.is_err() {
                return r;
            }
            validate_pattern(sync, grammar, builtins, params)
        },
        _ => Ok(()),
    }
}

/// Over a single call the first error is what `check` says of that call.
pub proof fn lemma_first_error_single(
    s: CallSite,
    check: spec_fn(CallSite) -> Option<GrammarErrorView>,
)
    ensures
        first_error(seq![s], check) == check(s),
{
    let sites = seq![s];
    assert(sites[0] == s);
    assert(sites.skip(1).len() == 0);
    assert(first_error(sites.skip(1), check) is None);
}

/// Once the first `n` alternatives of a group hold an error, so does the whole
/// group, and it is the same error.
pub proof fn lemma_group_stops(
    alts: Seq<Vec<ModelPattern>>,
    n: nat,
    deep: bool,
    check: spec_fn(CallSite) -> Option<GrammarErrorView>,
)
    requires
        n <= alts.len(),
        first_error(group_calls(alts, n, deep), check) is Some,
    ensures
        first_error(group_calls(alts, alts.len(), deep), check) == first_error(
            group_calls(alts, n, deep),
            check,
        ),
    decreases alts.len() - n,
{
    if n < alts.len() {
        lemma_first_error_concat(
            group_calls(alts, n, deep),
            sequence_calls(alts[n as int]@, alts[n as int]@.len(), deep),
            check,
        );
        lemma_group_stops(alts, n + 1, deep, check);
    }
}

/// Once the first `n` patterns of a sequence hold an error, so does the whole
/// sequence, and it is the same error.
pub proof fn lemma_sequence_stops(
    ps: Seq<ModelPattern>,
    n: nat,
    deep: bool,
    check: spec_fn(CallSite) -> Option<GrammarErrorView>,
)
    requires
        n <= ps.len(),
        first_error(sequence_calls(ps, n, deep), check) is Some,
    ensures
        first_error(sequence_calls(ps, ps.len(), deep), check) == first_error(
            sequence_calls(ps, n, deep),
            check,
        ),
    decreases ps.len() - n,
{
    if n < ps.len() {
        lemma_first_error_concat(
            sequence_calls(ps, n, deep),
            pattern_calls(ps[n as int], deep),
            check,
        );
        lemma_sequence_stops(ps, n + 1, deep, check);
    }
}

/// Checks the patterns of a sequence in order, as [`validate_pattern`] does
/// each, and stops at the first error.
pub fn validate_pattern_sequence(
    patterns: &Vec<ModelPattern>,
    grammar: &GrammarDefinition,
    builtins: &Vec<BuiltIn>,
    params: &Vec<(Identifier, Option<String>)>,
) -> (r: Result<(), GrammarError>)
    ensures
        outcome_is(
            r,
            first_error(
                sequence_calls(patterns@, patterns@.len(), false),
                undefined_check(grammar, builtins@, params@),
            ),
        ),
    decreases patterns, 1nat,
{
    let ghost check = undefined_check(grammar, builtins@, params@);
    let mut i: usize = 0;
    while i < patterns.len()
        invariant
            i <= patterns@.len(),
            check == undefined_check(grammar, builtins@, params@),
            first_error(sequence_calls(patterns@, i as nat, false), check) is None,
        decreases patterns@.len() - i,
    {
        let r = validate_pattern(&patterns[i], grammar, builtins, params);
        proof {
            lemma_first_error_concat(
                sequence_calls(patterns@, i as nat, false),
                pattern_calls(patterns@[i as int], false),
                check,
            );
        }
        if r.is_err() {
            proof {
                lemma_sequence_stops(patterns@, (i + 1) as nat, false, check);
            }
            return r;
        }
        i += 1;
    }
    Ok(())
}

/// Once the first `n` alternatives of a rule hold an error, so does the whole
/// rule, and it is the same error.
pub proof fn lemma_rule_stops(
    rule: &Rule,
    n: nat,
    deep: bool,
    check: spec_fn(CallSite) -> Option<GrammarErrorView>,
)
    requires
        n <= rule.variants@.len(),
        first_error(rule_calls(rule, n, deep), check) is Some,
    ensures
        first_error(rule_calls(rule, rule.variants@.len(), deep), check) == first_error(
            rule_calls(rule, n, deep),
            check,
        ),
    decreases rule.variants@.len() - n,
{
    if n < rule.variants@.len() {
        lemma_first_error_concat(
            rule_calls(rule, n, deep),
            sequence_calls(
                rule.variants@[n as int].pattern@,
                rule.variants@[n as int].pattern@.len(),
                deep,
            ),
            check,
        );
        lemma_rule_stops(rule, n + 1, deep, check);
    }
}

/// The first call of `rule`, arguments excepted, that names nothing known.
pub open spec fn rule_undefined(
    grammar: &GrammarDefinition,
    builtins: Seq<BuiltIn>,
    rule: &Rule,
) -> Option<GrammarErrorView> {
    first_error(
        rule_calls(rule, rule.variants@.len(), false),
        undefined_check(grammar, builtins, rule.params@),
    )
}

/// Checks the alternatives of `rule` in order and reports the first call,
/// arguments excepted, that names neither a rule, nor a built-in, nor a
/// parameter of `rule`.
pub fn validate_rule(
    rule: &Rule,
    grammar: &GrammarDefinition,
    builtins: &Vec<BuiltIn>,
) -> (r: Result<
    (),
    GrammarError,
>)
    ensures
        outcome_is(r, rule_undefined(grammar, builtins@, rule)),
{
    let ghost check = undefined_check(grammar, builtins@, rule.params@);
    let mut v: usize = 0;
    while v < rule.variants.len()
        invariant
            v <= rule.variants@.len(),
            check == undefined_check(grammar, builtins@, rule.params@),
            first_error(rule_calls(rule, v as nat, false), check) is None,
        decreases rule.variants@.len() - v,
    {
        let r = validate_pattern_sequence(
            &rule.variants[v].pattern,
            grammar,
            builtins,
            &rule.params,
        );
        proof {
            lemma_first_error_concat(
                rule_calls(rule, v as nat, false),
                sequence_calls(
                    rule.variants@[v as int].pattern@,
                    rule.variants@[v as int].pattern@.len(),
                    false,
                ),
                check,
            );
        }
        if r.is_err() {
            proof {
                lemma_rule_stops(rule, (v + 1) as nat, false, check);
            }
            return r;
        }
        v += 1;
    }
    Ok(())
}

/// Rule `i` is the first rule of `grammar` called `name`.
pub open spec fn is_first_rule_named(grammar: &GrammarDefinition, name: Seq<char>, i: int) -> bool {
    &&& 0 <= i < grammar.rules@.len()
    &&& grammar.rules@[i].name@ == name
    &&& forall|j: int| 0 <= j < i ==> (#[trigger] grammar.rules@[j]).name@ != name
}

/// The verdict on the number of arguments of one call: a call of a rule must
/// pass as many arguments as the rule has parameters, and a call of a built-in
/// none. A name that is neither is not judged.
pub open spec fn arity_check(grammar: &GrammarDefinition, builtins: Seq<BuiltIn>) -> spec_fn(
    CallSite,
) -> Option<GrammarErrorView> {
    |s: CallSite|
        if is_rule_name(grammar, s.name) {
            let target = choose|i: int| is_first_rule_named(grammar, s.name, i);
            let expected = grammar.rules@[target].params@.len();
            if expected != s.args {
                Some(
                    GrammarErrorView::ArgumentCount {
                        name: s.name,
                        expected,
                        found: s.args,
                        span: s.span,
                    },
                )
            } else {
                None
            }
        } else if is_builtin_name(builtins, s.name) && s.args != 0 {
            Some(GrammarErrorView::BuiltinArguments { name: s.name, span: s.span })
        } else {
            None
        }
}

/// The index of the first rule called `name`, if there is one.
pub fn find_rule(grammar: &GrammarDefinition, name: &String) -> (r: Option<usize>)
    ensures
        match r {
            Some(i) => is_first_rule_named(grammar, name@, i as int),
            None => !is_rule_name(grammar, name@),
        },
{
    let mut i: usize = 0;
    while i < grammar.rules.len()
        invariant
            i <= grammar.rules@.len(),
            forall|j: int| 0 <= j < i ==> (#[trigger] grammar.rules@[j]).name@ != name@,
        decreases grammar.rules@.len() - i,
    {
        if grammar.rules[i].name.text == *name {
            return Some(i);
        }
        i += 1;
    }
    None
}

fn check_call_arity(
    rule_name: &Identifier,
    found: usize,
    grammar: &GrammarDefinition,
    builtins: &Vec<BuiltIn>,
) -> (r: Result<(), GrammarError>)
    ensures
        outcome_is(
            r,
            arity_check(grammar, builtins@)(
                CallSite { name: rule_name@, span: rule_name.span, args: found as nat },
            ),
        ),
{
    match find_rule(grammar, &rule_name.text) {
        Some(target) => {
            proof {
                let t = choose|i: int| is_first_rule_named(grammar, rule_name@, i);
                assert(is_first_rule_named(grammar, rule_name@, target as int));
                assert(is_first_rule_named(grammar, rule_name@, t));
                assert(t == target);
            }
            let expected = grammar.rules[target].params.len();
            if expected != found {
                Err(
                    GrammarError::ArgumentCount {
                        name: rule_name.text.clone(),
                        expected,
                        found,
                        span: rule_name.span,
                    },
                )
            } else {
                Ok(())
            }
        },
        None => {
            if names_builtin(builtins, &rule_name.text) && found != 0 {
                Err(
                    GrammarError::BuiltinArguments {
                        name: rule_name.text.clone(),
                        span: rule_name.span,
                    },
                )
            } else {
                Ok(())
            }
        },
    }
}

/// Checks the number of arguments of every call inside `pattern`, the calls
/// inside arguments included, and reports the first mismatch.
pub fn validate_args_pattern(
    pattern: &ModelPattern,
    grammar: &GrammarDefinition,
    builtins: &Vec<BuiltIn>,
) -> (r: Result<(), GrammarError>)
    ensures
        outcome_is(r, first_error(pattern_calls(*pattern, true), arity_check(grammar, builtins@))),
    decreases pattern, 0nat,
{
    let ghost check = arity_check(grammar, builtins@);
    match pattern {
        ModelPattern::RuleCall { rule_name, args, .. } => {
            let ghost here = CallSite { name: rule_name@, span: rule_name.span, args: args@.len() };
            proof {
                lemma_first_error_single(here, check);
                lemma_first_error_concat(
                    seq![here],
                    sequence_calls(args@, args@.len(), true),
                    check,
                );
            }
            let r = check_call_arity(rule_name, args.len(), grammar, builtins);
            if r.is_err() {
                return r;
            }
            validate_args_recursive(args, grammar, builtins)
        },
        ModelPattern::Repeat(inner, _)
        | ModelPattern::Plus(inner, _)
        | ModelPattern::Optional(inner, _)
        | ModelPattern::SpanBinding(inner, _, _)
        | ModelPattern::Peek(inner, _) => validate_args_pattern(inner, grammar, builtins),
        ModelPattern::Not(inner, _) => validate_args_pattern(inner, grammar, builtins),
        ModelPattern::Group(variants, _) => {
            let mut k: usize = 0;
            while k < variants.len()
                invariant
                    k <= variants@.len(),
                    check == arity_check(grammar, builtins@),
                    *pattern matches ModelPattern::Group(alts, _) && alts == *variants,
                    first_error(group_calls(variants@, k as nat, true), check) is None,
                decreases variants@.len() - k,
            {
                let r = validate_args_recursive(&variants[k], grammar, builtins);
                proof {
                    lemma_first_error_concat(
                        group_calls(variants@, k as nat, true),
                        sequence_calls(variants@[k as int]@, variants@[k as int]@.len(), true),
                        check,
                    );
                }
                if r.is_err() {
                    proof {
                        lemma_group_stops(variants@, (k + 1) as nat, true, check);
                    }
                    return r;
                }
                k += 1;
            }
            Ok(())
        },
        ModelPattern::Bracketed(seq, _)
        | ModelPattern::Braced(seq, _)
        | ModelPattern::Parenthesized(seq, _) => validate_args_recursive(seq, grammar, builtins),
        ModelPattern::Recover { body, sync, .. } => {
            proof {
                lemma_first_error_concat(
                    pattern_calls(**body, true),
                    pattern_calls(**sync, true),
                    check,
                );
            }
            let r = validate_args_pattern(body, grammar, builtins);
            if r.is_err() {
                return r;
            }
            validate_args_pattern(sync, grammar, builtins)
        },
        _ => Ok(()),
    }
}

/// Checks the number of arguments of every call inside a sequence, in order,
/// and stops at the first mismatch.
pub fn validate_args_recursive(
    patterns: &Vec<ModelPattern>,
    grammar: &GrammarDefinition,
    builtins: &Vec<BuiltIn>,
) -> (r: Result<(), GrammarError>)
    ensures
        outcome_is(
            r,
            first_error(
                sequence_calls(patterns@, patterns@.len(), true),
                arity_check(grammar, builtins@),
            ),
        ),
    decreases patterns, 1nat,
{
    let ghost check = arity_check(grammar, builtins@);
    let mut i: usize = 0;
    while i < patterns.len()
        invariant
            i <= patterns@.len(),
            check == arity_check(grammar, builtins@),
            first_error(sequence_calls(patterns@, i as nat, true), check) is None,
        decreases patterns@.len() - i,
    {
        let r = validate_args_pattern(&patterns[i], grammar, builtins);
        proof {
            lemma_first_error_concat(
                sequence_calls(patterns@, i as nat, true),
                pattern_calls(patterns@[i as int], true),
                check,
            );
        }
        if r.is_err() {
            proof {
                lemma_sequence_stops(patterns@, (i + 1) as nat, true, check);
            }
            return r;
        }
        i += 1;
    }
    Ok(())
}

/// The first call of `rule`, arguments included, with a wrong number of arguments.
pub open spec fn rule_arity(
    grammar: &GrammarDefinition,
    builtins: Seq<BuiltIn>,
    rule: &Rule,
) -> Option<
    GrammarErrorView,
> {
    first_error(rule_calls(rule, rule.variants@.len(), true), arity_check(grammar, builtins))
}

/// The first undefined call among the first `n` rules of `grammar`.
pub open spec fn undefined_upto(
    grammar: &GrammarDefinition,
    builtins: Seq<BuiltIn>,
    n: nat,
) -> Option<
    GrammarErrorView,
>
    decreases n,
{
    if n == 0 || n > grammar.rules@.len() {
        None
    } else if undefined_upto(grammar, builtins, (n - 1) as nat) is Some {
        undefined_upto(grammar, builtins, (n - 1) as nat)
    } else {
        rule_undefined(grammar, builtins, &grammar.rules@[n - 1])
    }
}

/// The first call with a wrong number of arguments among the first `n` rules.
pub open spec fn arity_upto(grammar: &GrammarDefinition, builtins: Seq<BuiltIn>, n: nat) -> Option<
    GrammarErrorView,
>
    decreases n,
{
    if n == 0 || n > grammar.rules@.len() {
        None
    } else if arity_upto(grammar, builtins, (n - 1) as nat) is Some {
        arity_upto(grammar, builtins, (n - 1) as nat)
    } else {
        rule_arity(grammar, builtins, &grammar.rules@[n - 1])
    }
}

proof fn lemma_undefined_stops(grammar: &GrammarDefinition, builtins: Seq<BuiltIn>, n: nat)
    requires
        n <= grammar.rules@.len(),
        undefined_upto(grammar, builtins, n) is Some,
    ensures
        undefined_upto(grammar, builtins, grammar.rules@.len()) == undefined_upto(
            grammar,
            builtins,
            n,
        ),
    decreases grammar.rules@.len() - n,
{
    if n < grammar.rules@.len() {
        lemma_undefined_stops(grammar, builtins, n + 1);
    }
}

proof fn lemma_arity_stops(grammar: &GrammarDefinition, builtins: Seq<BuiltIn>, n: nat)
    requires
        n <= grammar.rules@.len(),
        arity_upto(grammar, builtins, n) is Some,
    ensures
        arity_upto(grammar, builtins, grammar.rules@.len()) == arity_upto(grammar, builtins, n),
    decreases grammar.rules@.len() - n,
{
    if n < grammar.rules@.len() {
        lemma_arity_stops(grammar, builtins, n + 1);
    }
}

/// Checks the calls of every rule, in order, against the names that are
/// defined, and reports the first that names nothing known.
pub fn validate_rule_calls(grammar: &GrammarDefinition, builtins: &Vec<BuiltIn>) -> (r: Result<
    (),
    GrammarError,
>)
    ensures
        outcome_is(r, undefined_upto(grammar, builtins@, grammar.rules@.len())),
{
    let mut n: usize = 0;
    while n < grammar.rules.len()
        invariant
            n <= grammar.rules@.len(),
            undefined_upto(grammar, builtins@, n as nat) is None,
        decreases grammar.rules@.len() - n,
    {
        let r = validate_rule(&grammar.rules[n], grammar, builtins);
        if r.is_err() {
            proof {
                lemma_undefined_stops(grammar, builtins@, (n + 1) as nat);
            }
            return r;
        }
        n += 1;
    }
    Ok(())
}

/// Checks the number of arguments of every call of every rule, in order, and
/// reports the first mismatch.
pub fn validate_argument_counts(grammar: &GrammarDefinition, builtins: &Vec<BuiltIn>) -> (r: Result<
    (),
    GrammarError,
>)
    ensures
        outcome_is(r, arity_upto(grammar, builtins@, grammar.rules@.len())),
{
    let ghost check = arity_check(grammar, builtins@);
    let mut n: usize = 0;
    while n < grammar.rules.len()
        invariant
            n <= grammar.rules@.len(),
            check == arity_check(grammar, builtins@),
            arity_upto(grammar, builtins@, n as nat) is None,
        decreases grammar.rules@.len() - n,
    {
        let rule = &grammar.rules[n];
        let mut v: usize = 0;
        while v < rule.variants.len()
            invariant
                n < grammar.rules@.len(),
                rule == &grammar.rules@[n as int],
                v <= rule.variants@.len(),
                check == arity_check(grammar, builtins@),
                arity_upto(grammar, builtins@, n as nat) is None,
                first_error(rule_calls(rule, v as nat, true), check) is None,
            decreases rule.variants@.len() - v,
        {
            let r = validate_args_recursive(&rule.variants[v].pattern, grammar, builtins);
            proof {
                lemma_first_error_concat(
                    rule_calls(rule, v as nat, true),
                    sequence_calls(
                        rule.variants@[v as int].pattern@,
                        rule.variants@[v as int].pattern@.len(),
                        true,
                    ),
                    check,
                );
            }
            if r.is_err() {
                proof {
                    lemma_rule_stops(rule, (v + 1) as nat, true, check);
                    lemma_arity_stops(grammar, builtins@, (n + 1) as nat);
                }
                return r;
            }
            v += 1;
        }
        n += 1;
    }
    Ok(())
}

/// Rule `j` bears a name that an earlier rule bears already.
pub open spec fn is_duplicate_at(grammar: &GrammarDefinition, j: int) -> bool {
    &&& 0 <= j < grammar.rules@.len()
    &&& exists|i: int| 0 <= i < j && (#[trigger] grammar.rules@[i]).name@ == grammar.rules@[j].name@
}

/// The error for the first rule among the first `n` whose name was taken
/// before. It points at that rule's name, the second definition.
pub open spec fn duplicate_upto(grammar: &GrammarDefinition, n: nat) -> Option<GrammarErrorView>
    decreases n,
{
    if n == 0 || n > grammar.rules@.len() {
        None
    } else if duplicate_upto(grammar, (n - 1) as nat) is Some {
        duplicate_upto(grammar, (n - 1) as nat)
    } else if is_duplicate_at(grammar, n - 1) {
        Some(
            GrammarErrorView::DuplicateRule {
                name: grammar.rules@[n - 1].name@,
                span: grammar.rules@[n - 1].name.span,
            },
        )
    } else {
        None
    }
}

proof fn lemma_duplicate_stops(grammar: &GrammarDefinition, n: nat)
    requires
        n <= grammar.rules@.len(),
        duplicate_upto(grammar, n) is Some,
    ensures
        duplicate_upto(grammar, grammar.rules@.len()) == duplicate_upto(grammar, n),
    decreases grammar.rules@.len() - n,
{
    if n < grammar.rules@.len() {
        lemma_duplicate_stops(grammar, n + 1);
    }
}

/// No two rules of a grammar without a duplicate error bear the same name.
pub proof fn lemma_no_duplicate_means_unique(grammar: &GrammarDefinition, n: nat)
    requires
        n <= grammar.rules@.len(),
        duplicate_upto(grammar, n) is None,
    ensures
        forall|i: int, j: int|
            0 <= i < j < n ==> (#[trigger] grammar.rules@[i]).name@ != (
                #[trigger] grammar.rules@[j]
            ).name@,
    decreases n,
{
    if n > 0 {
        lemma_no_duplicate_means_unique(grammar, (n - 1) as nat);
        assert(!is_duplicate_at(grammar, n - 1));
    }
}

/// Reports the first rule whose name an earlier rule bears already.
pub fn check_duplicates(grammar: &GrammarDefinition) -> (r: Result<(), GrammarError>)
    ensures
        outcome_is(r, duplicate_upto(grammar, grammar.rules@.len())),
{
    let mut j: usize = 0;
    while j < grammar.rules.len()
        invariant
            j <= grammar.rules@.len(),
            duplicate_upto(grammar, j as nat) is None,
        decreases grammar.rules@.len() - j,
    {
        let name = &grammar.rules[j].name;
        let mut i: usize = 0;
        while i < j
            invariant
                j < grammar.rules@.len(),
                i <= j,
                name == &grammar.rules@[j as int].name,
                duplicate_upto(grammar, j as nat) is None,
                forall|k: int| 0 <= k < i ==> (#[trigger] grammar.rules@[k]).name@ != name@,
            decreases j - i,
        {
            if grammar.rules[i].name.text == name.text {
                proof {
                    assert(is_duplicate_at(grammar, j as int));
                    lemma_duplicate_stops(grammar, (j + 1) as nat);
                }
                return Err(
                    GrammarError::DuplicateRule { name: name.text.clone(), span: name.span },
                );
            }
            i += 1;
        }
        j += 1;
    }
    Ok(())
}

/// The names of the rules that `c` lists by index.
pub open spec fn cycle_names(grammar: &GrammarDefinition, c: Seq<int>) -> Seq<Seq<char>> {
    Seq::new(c.len(), |k: int| grammar.rules@[c[k]].name@)
}

/// `e` reports some indirect left recursion of `grammar`: it names the rules
/// of a circle of first-position calls, each once and in call order, and
/// points at the name of the first of them.
pub open spec fn reports_cycle(grammar: &GrammarDefinition, e: GrammarErrorView) -> bool {
    e matches GrammarErrorView::IndirectLeftRecursion { cycle, span } && exists|c: Seq<int>|
        #![trigger is_indirect_cycle(grammar, c)]
        {
            &&& is_indirect_cycle(grammar, c)
            &&& distinct(c)
            &&& cycle == cycle_names(grammar, c)
            &&& span == grammar.rules@[c[0]].name.span
        }
}

/// What validation of `grammar` against the catalog `builtins` ends in.
///
/// The checks run in a fixed order and the first error found is the result:
/// duplicate rule names; calls of undefined names, unless the grammar inherits
/// from a parent; wrong numbers of arguments; indirect left recursion;
/// shadowed alternatives. A parent excuses calls of names that are not
/// defined here and nothing else.
pub open spec fn validation_outcome(
    grammar: &GrammarDefinition,
    builtins: Seq<BuiltIn>,
    r: Result<(), GrammarError>,
) -> bool {
    let n = grammar.rules@.len();
    if duplicate_upto(grammar, n) is Some {
        outcome_is(r, duplicate_upto(grammar, n))
    } else if grammar.inherits is None && undefined_upto(grammar, builtins, n) is Some {
        outcome_is(r, undefined_upto(grammar, builtins, n))
    } else if arity_upto(grammar, builtins, n) is Some {
        outcome_is(r, arity_upto(grammar, builtins, n))
    } else if has_indirect_left_recursion(grammar) {
        r matches Err(e) && reports_cycle(grammar, e@)
    } else {
        outcome_is(r, shadow_upto(grammar, n))
    }
}

fn check_left_recursion(grammar: &GrammarDefinition) -> (r: Result<(), GrammarError>)
    ensures
        match r {
            Ok(_) => !has_indirect_left_recursion(grammar),
            Err(e) => has_indirect_left_recursion(grammar) && reports_cycle(grammar, e@),
        },
{
    match find_indirect_cycle(grammar) {
        None => Ok(()),
        Some(c) => {
            let ghost ci = as_ints(c@);
            let mut names: Vec<String> = Vec::new();
            let mut k: usize = 0;
            while k < c.len()
                invariant
                    k <= c@.len(),
                    ci == as_ints(c@),
                    is_indirect_cycle(grammar, ci),
                    names@.len() == k,
                    forall|q: int| 0 <= q < k ==> (
                        #[trigger] names@[q]
                    )@ == grammar.rules@[ci[q]].name@,
                decreases c@.len() - k,
            {
                proof {
                    lemma_cycle_nodes_are_rules(grammar, ci, k as int);
                }
                names.push(grammar.rules[c[k]].name.text.clone());
                k += 1;
            }
            proof {
                lemma_cycle_nodes_are_rules(grammar, ci, 0);
                assert(texts(names@) =~= cycle_names(grammar, ci));
            }
            let span = grammar.rules[c[0]].name.span;
            Err(GrammarError::IndirectLeftRecursion { cycle: names, span })
        },
    }
}

proof fn lemma_cycle_nodes_are_rules(grammar: &GrammarDefinition, c: Seq<int>, k: int)
    requires
        is_indirect_cycle(grammar, c),
        0 <= k < c.len(),
    ensures
        0 <= c[k] < grammar.rules@.len(),
{
    if k < c.len() - 1 {
        assert(left_calls(grammar, c[k], c[k + 1]));
    } else {
        assert(left_calls(grammar, c[c.len() - 1], c[0]));
    }
}

/// Validates `grammar` against a catalog of built-ins.
///
/// Returns the first error found, in the order that [`validation_outcome`]
/// lays down, or `Ok` when there is none.
pub fn validate_with_builtins(grammar: &GrammarDefinition, builtins: &Vec<BuiltIn>) -> (r: Result<
    (),
    GrammarError,
>)
    ensures
        validation_outcome(grammar, builtins@, r),
{
    let r = check_duplicates(grammar);
    if r.is_err() {
        return r;
    }
    let should_validate_rule_calls = grammar.inherits.is_none();
    if should_validate_rule_calls {
        let r = validate_rule_calls(grammar, builtins);
        if r.is_err() {
            return r;
        }
    }
    let r = validate_argument_counts(grammar, builtins);
    if r.is_err() {
        return r;
    }
    let r = check_left_recursion(grammar);
    if r.is_err() {
        return r;
    }
    check_shadowing(grammar)
}

/// Validates `grammar` against the built-ins that the backend `B` declares.
///
/// The result is what [`validate_with_builtins`] gives for a catalog that
/// `B::get_builtins` hands out. For a backend whose `get_builtins` states its
/// catalog, as [`crate::backend::WinnowBackend`] does, that pins the result.
pub fn validate<B: Backend>(grammar: &GrammarDefinition) -> (r: Result<(), GrammarError>)
    ensures
        exists|builtins: Vec<BuiltIn>|
            call_ensures(B::get_builtins, (), builtins) && validation_outcome(
                grammar,
                builtins@,
                r,
            ),
        duplicate_upto(grammar, grammar.rules@.len()) is Some ==> outcome_is(
            r,
            duplicate_upto(grammar, grammar.rules@.len()),
        ),
        r is Ok ==> duplicate_upto(grammar, grammar.rules@.len()) is None
            && !has_indirect_left_recursion(grammar) && shadow_upto(
            grammar,
            grammar.rules@.len(),
        ) is None,
{
    let builtins = B::get_builtins();
    let r = validate_with_builtins(grammar, &builtins);
    assert(validation_outcome(grammar, builtins@, r));
    r
}

/// A grammar in which two rules call each other in first position is never
/// accepted, whatever other alternatives the two rules have: validation ends
/// in an error, and where no earlier check fails, in one that names a circle
/// of such calls in full.
pub proof fn lemma_mutual_left_recursion_is_rejected(
    grammar: &GrammarDefinition,
    builtins: Seq<BuiltIn>,
    r: Result<(), GrammarError>,
    a: int,
    b: int,
)
    requires
        validation_outcome(grammar, builtins, r),
        left_calls(grammar, a, b),
        left_calls(grammar, b, a),
    ensures
        r is Err,
        duplicate_upto(grammar, grammar.rules@.len()) is None && (grammar.inherits is Some
            || undefined_upto(grammar, builtins, grammar.rules@.len()) is None) && arity_upto(
            grammar,
            builtins,
            grammar.rules@.len(),
        ) is None ==> reports_cycle(grammar, r->Err_0@),
{
    lemma_mutual_left_calls_are_a_cycle(grammar, a, b);
}

/// A grammar in which an alternative of a rule is the beginning, or the
/// whole, of a later alternative of that rule is never accepted, with or
/// without a parent.
pub proof fn lemma_shadowed_alternative_is_rejected(
    grammar: &GrammarDefinition,
    builtins: Seq<BuiltIn>,
    r: Result<(), GrammarError>,
    rule: int,
    i: int,
    j: int,
)
    requires
        validation_outcome(grammar, builtins, r),
        0 <= rule < grammar.rules@.len(),
        shadows(&grammar.rules@[rule], i, j),
    ensures
        r is Err,
{
    lemma_shadow_is_found(grammar, grammar.rules@.len(), rule, i, j);
}

proof fn lemma_shadow_is_found(grammar: &GrammarDefinition, n: nat, rule: int, i: int, j: int)
    requires
        0 <= rule < n <= grammar.rules@.len(),
        shadows(&grammar.rules@[rule], i, j),
    ensures
        shadow_upto(grammar, n) is Some,
    decreases n,
{
    if rule < n - 1 {
        lemma_shadow_is_found(grammar, (n - 1) as nat, rule, i, j);
    } else {
        lemma_prefix_alternative_is_reported(&grammar.rules@[rule], i, j);
    }
}

/// A grammar that validation accepts has no two rules of one name, no
/// indirect left recursion, no call with a wrong number of arguments and no
/// shadowed alternative; without a parent it has no call of an undefined
/// name either.
pub proof fn lemma_accepted_grammar_is_sound(
    grammar: &GrammarDefinition,
    builtins: Seq<BuiltIn>,
    r: Result<(), GrammarError>,
)
    requires
        validation_outcome(grammar, builtins, r),
        r is Ok,
    ensures
        forall|i: int, j: int|
            0 <= i < j < grammar.rules@.len() ==> (#[trigger] grammar.rules@[i]).name@ != (
            #[trigger] grammar.rules@[j]).name@,
        !has_indirect_left_recursion(grammar),
        arity_upto(grammar, builtins, grammar.rules@.len()) is None,
        shadow_upto(grammar, grammar.rules@.len()) is None,
        grammar.inherits is None ==> undefined_upto(grammar, builtins, grammar.rules@.len()) is None,
{
    lemma_no_duplicate_means_unique(grammar, grammar.rules@.len());
}

} // verus!

//! Alternatives that can never be reached because an earlier alternative of
//! the same rule matches whatever they match.

use crate::error::{GrammarError, GrammarErrorView};
use crate::model::{GrammarDefinition, ModelPattern, Rule};
use crate::span::Span;
use vstd::prelude::*;

verus! {

/// `p` and `q` match the same input: they are built alike from the same
/// literals and the same rule names. Spans and the names of bindings take no part.
pub open spec fn same_shape(p: ModelPattern, q: ModelPattern) -> bool
    decreases p, 0nat,
{
    match p {
        ModelPattern::Cut(_) => q is Cut,
        ModelPattern::Lit(l) => q matches ModelPattern::Lit(m) && l@ == m@,
        ModelPattern::RuleCall { rule_name, args, .. } => q matches ModelPattern::RuleCall {
            rule_name: other,
            args: other_args,
            ..
        } && rule_name@ == other@ && args@.len() == other_args@.len() && same_prefix(
            args@,
            other_args@,
            args@.len(),
        ),
        ModelPattern::Group(a, _) => q matches ModelPattern::Group(b, _) && a@.len() == b@.len()
            && same_alternatives(a@, b@, a@.len()),
        ModelPattern::Bracketed(a, _) => q matches ModelPattern::Bracketed(b, _) && a@.len()
            == b@.len() && same_prefix(a@, b@, a@.len()),
        ModelPattern::Braced(a, _) => q matches ModelPattern::Braced(b, _) && a@.len() == b@.len()
            && same_prefix(a@, b@, a@.len()),
        ModelPattern::Parenthesized(a, _) => q matches ModelPattern::Parenthesized(b, _) && a@.len()
            == b@.len() && same_prefix(a@, b@, a@.len()),
        ModelPattern::Optional(a, _) => q matches ModelPattern::Optional(
            b,
            _,
        ) && same_shape(*a, *b),
        ModelPattern::Repeat(a, _) => q matches ModelPattern::Repeat(b, _) && same_shape(*a, *b),
        ModelPattern::Plus(a, _) => q matches ModelPattern::Plus(b, _) && same_shape(*a, *b),
        ModelPattern::SpanBinding(a, _, _) => q matches ModelPattern::SpanBinding(b, _, _)
            && same_shape(*a, *b),
        ModelPattern::Recover { body, sync, .. } => q matches ModelPattern::Recover {
            body: other_body,
            sync: other_sync,
            ..
        } && same_shape(*body, *other_body) && same_shape(*sync, *other_sync),
        ModelPattern::Peek(a, _) => q matches ModelPattern::Peek(b, _) && same_shape(*a, *b),
        ModelPattern::Not(a, _) => q matches ModelPattern::Not(b, _) && same_shape(*a, *b),
    }
}

/// The first `n` patterns of `a` and of `b` have pairwise the same shape.
pub open spec fn same_prefix(a: Seq<ModelPattern>, b: Seq<ModelPattern>, n: nat) -> bool
    decreases a, n,
{
    if n == 0 {
        true
    } else if n > a.len() || n > b.len() {
        false
    } else {
        same_prefix(a, b, (n - 1) as nat) && same_shape(a[n - 1], b[n - 1])
    }
}

/// The first `n` sequences of `a` and of `b` are pairwise of one length and shape.
pub open spec fn same_alternatives(
    a: Seq<Vec<ModelPattern>>,
    b: Seq<Vec<ModelPattern>>,
    n: nat,
) -> bool
    decreases a, n,
{
    if n == 0 {
        true
    } else if n > a.len() || n > b.len() {
        false
    } else {
        same_alternatives(a, b, (n - 1) as nat) && a[n - 1]@.len() == b[n - 1]@.len() && same_prefix(
            a[n - 1]@,
            b[n - 1]@,
            a[n - 1]@.len(),
        )
    }
}

/// Sequence `a` is the beginning of sequence `b`, or all of it.
pub open spec fn is_prefix_of(a: Seq<ModelPattern>, b: Seq<ModelPattern>) -> bool {
    a.len() <= b.len() && same_prefix(a, b, a.len())
}

proof fn lemma_same_prefix_shrinks(a: Seq<ModelPattern>, b: Seq<ModelPattern>, n: nat, k: nat)
    requires
        same_prefix(a, b, n),
        k <= n,
    ensures
        same_prefix(a, b, k),
    decreases n,
{
    if k < n {
        lemma_same_prefix_shrinks(a, b, (n - 1) as nat, k);
    }
}

proof fn lemma_same_alternatives_shrinks(
    a: Seq<Vec<ModelPattern>>,
    b: Seq<Vec<ModelPattern>>,
    n: nat,
    k: nat,
)
    requires
        same_alternatives(a, b, n),
        k <= n,
    ensures
        same_alternatives(a, b, k),
    decreases n,
{
    if k < n {
        lemma_same_alternatives_shrinks(a, b, (n - 1) as nat, k);
    }
}

/// Tells whether two patterns have the same shape.
pub fn patterns_agree(p: &ModelPattern, q: &ModelPattern) -> (b: bool)
    ensures
        b == same_shape(*p, *q),
    decreases p, 0nat,
{
    match (p, q) {
        (ModelPattern::Cut(_), ModelPattern::Cut(_)) => true,
        (ModelPattern::Lit(l), ModelPattern::Lit(m)) => l.value == m.value,
        (
            ModelPattern::RuleCall { rule_name, args, .. },
            ModelPattern::RuleCall { rule_name: other, args: other_args, .. },
        ) => {
            rule_name.text == other.text && args.len() == other_args.len() && sequences_agree(
                args,
                other_args,
                args.len(),
            )
        },
        (ModelPattern::Group(a, _), ModelPattern::Group(b, _)) => {
            if a.len() != b.len() {
                return false;
            }
            let mut k: usize = 0;
            while k < a.len()
                invariant
                    k <= a@.len(),
                    a@.len() == b@.len(),
                    *p matches ModelPattern::Group(alts, _) && alts == *a,
                    *q matches ModelPattern::Group(alts, _) && alts == *b,
                    same_alternatives(a@, b@, k as nat),
                decreases a@.len() - k,
            {
                if a[k].len() != b[k].len() || !sequences_agree(&a[k], &b[k], a[k].len()) {
                    proof {
                        if same_alternatives(a@, b@, a@.len()) {
                            lemma_same_alternatives_shrinks(a@, b@, a@.len(), (k + 1) as nat);
                            assert(same_alternatives(a@, b@, (k + 1) as nat));
                            assert(((k + 1) as nat - 1) as nat == k as nat);
                            assert(same_prefix(a@[k as int]@, b@[k as int]@, a@[k as int]@.len()));
                        }
                        assert(!same_alternatives(a@, b@, a@.len()));
                    }
                    return false;
                }
                k += 1;
            }
            true
        },
        (ModelPattern::Bracketed(a, _), ModelPattern::Bracketed(b, _)) => a.len() == b.len()
            && sequences_agree(a, b, a.len()),
        (ModelPattern::Braced(a, _), ModelPattern::Braced(b, _)) => a.len() == b.len()
            && sequences_agree(a, b, a.len()),
        (ModelPattern::Parenthesized(a, _), ModelPattern::Parenthesized(b, _)) => a.len() == b.len()
            && sequences_agree(a, b, a.len()),
        (ModelPattern::Optional(a, _), ModelPattern::Optional(b, _)) => patterns_agree(a, b),
        (ModelPattern::Repeat(a, _), ModelPattern::Repeat(b, _)) => patterns_agree(a, b),
        (ModelPattern::Plus(a, _), ModelPattern::Plus(b, _)) => patterns_agree(a, b),
        (ModelPattern::SpanBinding(a, _, _), ModelPattern::SpanBinding(b, _, _)) => patterns_agree(
            a,
            b,
        ),
        (
            ModelPattern::Recover { body, sync, .. },
            ModelPattern::Recover { body: other_body, sync: other_sync, .. },
        ) => patterns_agree(body, other_body) && patterns_agree(sync, other_sync),
        (ModelPattern::Peek(a, _), ModelPattern::Peek(b, _)) => patterns_agree(a, b),
        (ModelPattern::Not(a, _), ModelPattern::Not(b, _)) => patterns_agree(a, b),
        _ => false,
    }
}

/// Tells whether the first `n` patterns of two sequences agree pairwise.
pub fn sequences_agree(a: &Vec<ModelPattern>, b: &Vec<ModelPattern>, n: usize) -> (r: bool)
    ensures
        r == same_prefix(a@, b@, n as nat),
    decreases a, 1nat,
{
    if n > a.len() || n > b.len() {
        proof {
            if n > 0 && same_prefix(a@, b@, n as nat) {
            }
        }
        return false;
    }
    let mut k: usize = 0;
    while k < n
        invariant
            k <= n,
            n <= a@.len(),
            n <= b@.len(),
            same_prefix(a@, b@, k as nat),
        decreases n - k,
    {
        if !patterns_agree(&a[k], &b[k]) {
            proof {
                if same_prefix(a@, b@, n as nat) {
                    lemma_same_prefix_shrinks(a@, b@, n as nat, (k + 1) as nat);
                }
            }
            return false;
        }
        k += 1;
    }
    true
}

/// Alternative `i` of `rule`, the earlier one, is the beginning or the whole
/// of alternative `j`, so that `j` is never reached.
pub open spec fn shadows(rule: &Rule, i: int, j: int) -> bool {
    &&& 0 <= i < j < rule.variants@.len()
    &&& is_prefix_of(rule.variants@[i].pattern@, rule.variants@[j].pattern@)
}

/// `(i, j)` is the first shadowing pair of `rule`: no other has a smaller
/// `i`, and none with this `i` a smaller `j`.
pub open spec fn is_first_shadow(rule: &Rule, i: int, j: int) -> bool {
    &&& shadows(rule, i, j)
    &&& forall|a: int, b: int| #[trigger] shadows(rule, a, b) ==> i < a || (i == a && j <= b)
}

/// Where an error about alternative `j` of `rule` points: at its first
/// pattern, or at the rule's name when the alternative is empty.
pub open spec fn variant_span(rule: &Rule, j: int) -> Span {
    if rule.variants@[j].pattern@.len() > 0 {
        rule.variants@[j].pattern@[0].spec_span()
    } else {
        rule.name.span
    }
}

/// The error that the shadowing pair `(i, j)` of `rule` is reported as.
pub open spec fn shadow_error(rule: &Rule, i: int, j: int) -> GrammarErrorView {
    GrammarErrorView::Shadowing {
        rule: rule.name@,
        first: (i + 1) as nat,
        second: (j + 1) as nat,
        identical: rule.variants@[i].pattern@.len() == rule.variants@[j].pattern@.len(),
        span: variant_span(rule, j),
    }
}

/// The error for the first shadowing pair of `rule`, if it has any such pair.
pub open spec fn rule_shadow(rule: &Rule) -> Option<GrammarErrorView> {
    if exists|i: int, j: int| shadows(rule, i, j) {
        let p = choose|p: (int, int)| is_first_shadow(rule, p.0, p.1);
        Some(shadow_error(rule, p.0, p.1))
    } else {
        None
    }
}

/// The first shadowing error among the first `n` rules of `grammar`.
pub open spec fn shadow_upto(grammar: &GrammarDefinition, n: nat) -> Option<GrammarErrorView>
    decreases n,
{
    if n == 0 || n > grammar.rules@.len() {
        None
    } else if shadow_upto(grammar, (n - 1) as nat) is Some {
        shadow_upto(grammar, (n - 1) as nat)
    } else {
        rule_shadow(&grammar.rules@[n - 1])
    }
}

/// Compares every pair of alternatives of `rule`, the earlier against the
/// later, and returns the first pair of which the earlier shadows the later.
pub fn find_shadow(rule: &Rule) -> (r: Option<(usize, usize)>)
    ensures
        match r {
            Some((i, j)) => is_first_shadow(rule, i as int, j as int),
            None => forall|i: int, j: int| !shadows(rule, i, j),
        },
{
    let n = rule.variants.len();
    let mut i: usize = 0;
    while i < n
        invariant
            n == rule.variants@.len(),
            i <= n,
            forall|a: int, b: int| 0 <= a < i ==> !#[trigger] shadows(rule, a, b),
        decreases n - i,
    {
        let first = &rule.variants[i].pattern;
        let mut j: usize = i + 1;
        while j < n
            invariant
                n == rule.variants@.len(),
                i < n,
                i < j <= n,
                first == &rule.variants@[i as int].pattern,
                forall|a: int, b: int| 0 <= a < i ==> !#[trigger] shadows(rule, a, b),
                forall|b: int| i < b < j ==> !#[trigger] shadows(rule, i as int, b),
            decreases n - j,
        {
            let second = &rule.variants[j].pattern;
            if first.len() <= second.len() && sequences_agree(first, second, first.len()) {
                return Some((i, j));
            }
            j += 1;
        }
        i += 1;
    }
    None
}

/// The shadowing error of `rule`, if one of its alternatives shadows a later one.
pub fn check_rule_shadowing(rule: &Rule) -> (r: Result<(), GrammarError>)
    ensures
        match r {
            Ok(_) => rule_shadow(rule) is None,
            Err(e) => rule_shadow(rule) == Some(e@),
        },
{
    match find_shadow(rule) {
        None => Ok(()),
        Some((i, j)) => {
            proof {
                assert(shadows(rule, i as int, j as int));
                let p = choose|p: (int, int)| is_first_shadow(rule, p.0, p.1);
                assert(is_first_shadow(rule, (i as int, j as int).0, (i as int, j as int).1));
                assert(is_first_shadow(rule, p.0, p.1));
                assert(shadows(rule, p.0, p.1));
                assert(p.0 == i && p.1 == j);
            }
            let n = rule.variants.len();
            assert(i < j && j < n);
            let second = &rule.variants[j].pattern;
            let span = if second.len() > 0 {
                second[0].span()
            } else {
                rule.name.span
            };
            Err(
                GrammarError::Shadowing {
                    rule: rule.name.text.clone(),
                    first: i + 1,
                    second: j + 1,
                    identical: rule.variants[i].pattern.len() == second.len(),
                    span,
                },
            )
        },
    }
}

proof fn lemma_shadow_stops(grammar: &GrammarDefinition, n: nat)
    requires
        n <= grammar.rules@.len(),
        shadow_upto(grammar, n) is Some,
    ensures
        shadow_upto(grammar, grammar.rules@.len()) == shadow_upto(grammar, n),
    decreases grammar.rules@.len() - n,
{
    if n < grammar.rules@.len() {
        lemma_shadow_stops(grammar, n + 1);
    }
}

/// Checks the rules of `grammar` in order for shadowed alternatives and
/// reports the first found.
pub fn check_shadowing(grammar: &GrammarDefinition) -> (r: Result<(), GrammarError>)
    ensures
        match r {
            Ok(_) => shadow_upto(grammar, grammar.rules@.len()) is None,
            Err(e) => shadow_upto(grammar, grammar.rules@.len()) == Some(e@),
        },
{
    let mut n: usize = 0;
    while n < grammar.rules.len()
        invariant
            n <= grammar.rules@.len(),
            shadow_upto(grammar, n as nat) is None,
        decreases grammar.rules@.len() - n,
    {
        let r = check_rule_shadowing(&grammar.rules[n]);
        if r.is_err() {
            proof {
                lemma_shadow_stops(grammar, (n + 1) as nat);
            }
            return r;
        }
        n += 1;
    }
    Ok(())
}

/// An alternative that is the beginning, or the whole, of a later alternative
/// of its rule always gets the rule rejected.
pub proof fn lemma_prefix_alternative_is_reported(rule: &Rule, i: int, j: int)
    requires
        shadows(rule, i, j),
    ensures
        rule_shadow(rule) is Some,
{
}

/// A rule is free of shadowing errors exactly when none of its alternatives is
/// the beginning, or the whole, of a later one. In particular a longer
/// alternative may stand before a shorter one that it begins with.
pub proof fn lemma_no_shadow_means_no_prefix(rule: &Rule)
    ensures
        rule_shadow(rule) is None <==> forall|i: int, j: int|
            0 <= i < j < rule.variants@.len() ==> !is_prefix_of(
                #[trigger] rule.variants@[i].pattern@,
                #[trigger] rule.variants@[j].pattern@,
            ),
{
    if rule_shadow(rule) is None {
        assert forall|i: int, j: int| 0 <= i < j < rule.variants@.len() implies !is_prefix_of(
            #[trigger] rule.variants@[i].pattern@,
            #[trigger] rule.variants@[j].pattern@,
        ) by {
            assert(!shadows(rule, i, j));
        }
    }
}

} // verus!

//! Left recursion: which rules call which in first position, and whether such
//! calls lead around in a circle.

use crate::graph::{arc, as_ints, distinct, find_cycle, is_cycle, square};
use crate::model::{GrammarDefinition, ModelPattern, Rule, RuleVariant};
use vstd::prelude::*;

verus! {

/// The very first pattern of `variant` is a call of the rule `name`.
pub open spec fn variant_starts_with_call(variant: RuleVariant, name: Seq<char>) -> bool {
    &&& variant.pattern@.len() > 0
    &&& variant.pattern@[0] matches ModelPattern::RuleCall { rule_name, .. }
    &&& rule_name@ == name
}

/// Some alternative of `rule` starts with a call of the rule `name`.
pub open spec fn starts_with_call(rule: &Rule, name: Seq<char>) -> bool {
    exists|v: int|
        0 <= v < rule.variants@.len() && variant_starts_with_call(
            #[trigger] rule.variants@[v],
            name,
        )
}

/// Rule `i` calls rule `j`, a rule of another name, in first position.
pub open spec fn left_calls(grammar: &GrammarDefinition, i: int, j: int) -> bool {
    &&& 0 <= i < grammar.rules@.len()
    &&& 0 <= j < grammar.rules@.len()
    &&& grammar.rules@[i].name@ != grammar.rules@[j].name@
    &&& starts_with_call(&grammar.rules@[i], grammar.rules@[j].name@)
}

/// `c` lists rules each of which calls the next in first position, and the
/// last the first: indirect left recursion.
pub open spec fn is_indirect_cycle(grammar: &GrammarDefinition, c: Seq<int>) -> bool {
    &&& c.len() >= 2
    &&& forall|k: int| 0 <= k < c.len() - 1 ==> left_calls(grammar, #[trigger] c[k], c[k + 1])
    &&& left_calls(grammar, c[c.len() - 1], c[0])
}

/// The grammar has indirect left recursion somewhere.
pub open spec fn has_indirect_left_recursion(grammar: &GrammarDefinition) -> bool {
    exists|c: Seq<int>| is_indirect_cycle(grammar, c)
}

/// Tells whether `variant` starts with a call of the rule `name`.
pub fn variant_is_left_call(variant: &RuleVariant, name: &String) -> (b: bool)
    ensures
        b == variant_starts_with_call(*variant, name@),
{
    if variant.pattern.len() == 0 {
        return false;
    }
    match &variant.pattern[0] {
        ModelPattern::RuleCall { rule_name, .. } => rule_name.text == *name,
        _ => false,
    }
}

/// Tells whether some alternative of `rule` starts with a call of the rule `name`.
pub fn rule_is_left_call(rule: &Rule, name: &String) -> (b: bool)
    ensures
        b == starts_with_call(rule, name@),
{
    let mut v: usize = 0;
    while v < rule.variants.len()
        invariant
            v <= rule.variants@.len(),
            forall|k: int| 0 <= k < v ==> !variant_starts_with_call(
                #[trigger] rule.variants@[k],
                name@,
            ),
        decreases rule.variants@.len() - v,
    {
        if variant_is_left_call(&rule.variants[v], name) {
            return true;
        }
        v += 1;
    }
    false
}

/// The table of first-position calls between the rules of `grammar`: entry
/// `j` of row `i` says whether rule `i` calls rule `j` in first position.
pub fn left_call_matrix(grammar: &GrammarDefinition) -> (m: Vec<Vec<bool>>)
    ensures
        m@.len() == grammar.rules@.len(),
        square(m@),
        forall|i: int, j: int|
            0 <= i < m@.len() && 0 <= j < m@.len() ==> m@[i]@[j] == #[trigger] left_calls(
                grammar,
                i,
                j,
            ),
{
    let n = grammar.rules.len();
    let mut m: Vec<Vec<bool>> = Vec::new();
    let mut i: usize = 0;
    while i < n
        invariant
            n == grammar.rules@.len(),
            i <= n,
            m@.len() == i,
            forall|a: int| 0 <= a < i ==> (#[trigger] m@[a])@.len() == n,
            forall|a: int, b: int|
                0 <= a < i && 0 <= b < n ==> m@[a]@[b] == #[trigger] left_calls(grammar, a, b),
        decreases n - i,
    {
        let mut row: Vec<bool> = Vec::new();
        let mut j: usize = 0;
        while j < n
            invariant
                n == grammar.rules@.len(),
                i < n,
                j <= n,
                row@.len() == j,
                forall|b: int| 0 <= b < j ==> row@[b] == #[trigger] left_calls(
                    grammar,
                    i as int,
                    b,
                ),
            decreases n - j,
        {
            let other = &grammar.rules[j].name.text;
            let differ = !(grammar.rules[i].name.text == *other);
            let calls = differ && rule_is_left_call(&grammar.rules[i], other);
            row.push(calls);
            j += 1;
        }
        m.push(row);
        i += 1;
    }
    m
}

/// Searches the grammar for indirect left recursion.
///
/// Returns the indices of rules that call each other in a circle, each rule
/// once and in call order, or `None` when no such circle exists. A rule that
/// calls itself in first position forms no circle by that alone.
pub fn find_indirect_cycle(grammar: &GrammarDefinition) -> (r: Option<Vec<usize>>)
    ensures
        match r {
            Some(c) => is_indirect_cycle(grammar, as_ints(c@)) && distinct(as_ints(c@)),
            None => !has_indirect_left_recursion(grammar),
        },
{
    let m = left_call_matrix(grammar);
    proof {
        assert forall|i: int, j: int| arc(m@, i, j) == left_calls(grammar, i, j) by {}
    }
    let r = find_cycle(&m);
    proof {
        match &r {
            Some(c) => {
                let ci = as_ints(c@);
                assert(is_cycle(m@, ci));
                assert forall|k: int| 0 <= k < ci.len() - 1 implies left_calls(
                    grammar,
                    #[trigger] ci[k],
                    ci[k + 1],
                ) by {
                    assert(arc(m@, ci[k], ci[k + 1]));
                }
                assert(arc(m@, ci[ci.len() - 1], ci[0]));
            },
            None => {
                assert forall|c: Seq<int>| !is_indirect_cycle(grammar, c) by {
                    if is_indirect_cycle(grammar, c) {
                        assert forall|k: int| 0 <= k < c.len() - 1 implies arc(
                            m@,
                            #[trigger] c[k],
                            c[k + 1],
                        ) by {
                            assert(left_calls(grammar, c[k], c[k + 1]));
                        }
                        assert(left_calls(grammar, c[c.len() - 1], c[0]));
                        assert(is_cycle(m@, c));
                    }
                }
            },
        }
    }
    r
}

/// Two rules that call each other in first position are indirect left
/// recursion, whatever other alternatives either of them has.
pub proof fn lemma_mutual_left_calls_are_a_cycle(grammar: &GrammarDefinition, a: int, b: int)
    requires
        left_calls(grammar, a, b),
        left_calls(grammar, b, a),
    ensures
        is_indirect_cycle(grammar, seq![a, b]),
        has_indirect_left_recursion(grammar),
{
    let c = seq![a, b];
    assert(c[0] == a && c[1] == b);
    assert(is_indirect_cycle(grammar, c));
}

} // verus!

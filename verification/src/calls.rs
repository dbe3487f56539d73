//! The rule calls of a grammar in the order in which they are written.

use crate::error::GrammarErrorView;
use crate::model::{ModelPattern, Rule};
use crate::span::Span;
use vstd::prelude::*;

verus! {

/// One written call of a rule: the name called, where the name stands, and how
/// many arguments are passed.
pub struct CallSite {
    pub name: Seq<char>,
    pub span: Span,
    pub args: nat,
}

/// The calls inside `p`, in the order in which they are written. With `deep`
/// the arguments of a call are searched too, right after the call itself.
pub open spec fn pattern_calls(p: ModelPattern, deep: bool) -> Seq<CallSite>
    decreases p, 0nat,
{
    match p {
        ModelPattern::RuleCall { rule_name, args, .. } => {
            let here = seq![CallSite { name: rule_name@, span: rule_name.span, args: args@.len() }];
            if deep {
                here + sequence_calls(args@, args@.len(), deep)
            } else {
                here
            }
        },
        ModelPattern::Repeat(inner, _) => pattern_calls(*inner, deep),
        ModelPattern::Plus(inner, _) => pattern_calls(*inner, deep),
        ModelPattern::Optional(inner, _) => pattern_calls(*inner, deep),
        ModelPattern::SpanBinding(inner, _, _) => pattern_calls(*inner, deep),
        ModelPattern::Peek(inner, _) => pattern_calls(*inner, deep),
        ModelPattern::Not(inner, _) => pattern_calls(*inner, deep),
        ModelPattern::Group(alts, _) => group_calls(alts@, alts@.len(), deep),
        ModelPattern::Bracketed(seq, _) => sequence_calls(seq@, seq@.len(), deep),
        ModelPattern::Braced(seq, _) => sequence_calls(seq@, seq@.len(), deep),
        ModelPattern::Parenthesized(seq, _) => sequence_calls(seq@, seq@.len(), deep),
        ModelPattern::Recover { body, sync, .. } => pattern_calls(*body, deep) + pattern_calls(
            *sync,
            deep,
        ),
        ModelPattern::Cut(_) => Seq::empty(),
        ModelPattern::Lit(_) => Seq::empty(),
    }
}

/// The calls inside the first `n` patterns of `ps`.
pub open spec fn sequence_calls(ps: Seq<ModelPattern>, n: nat, deep: bool) -> Seq<CallSite>
    decreases ps, n,
{
    if n == 0 || n > ps.len() {
        Seq::empty()
    } else {
        sequence_calls(ps, (n - 1) as nat, deep) + pattern_calls(ps[n - 1], deep)
    }
}

/// The calls inside the first `n` alternatives of a group.
pub open spec fn group_calls(alts: Seq<Vec<ModelPattern>>, n: nat, deep: bool) -> Seq<CallSite>
    decreases alts, n,
{
    if n == 0 || n > alts.len() {
        Seq::empty()
    } else {
        group_calls(alts, (n - 1) as nat, deep) + sequence_calls(
            alts[n - 1]@,
            alts[n - 1]@.len(),
            deep,
        )
    }
}

/// The calls inside the first `n` alternatives of `rule`.
pub open spec fn rule_calls(rule: &Rule, n: nat, deep: bool) -> Seq<CallSite>
    decreases n,
{
    if n == 0 || n > rule.variants@.len() {
        Seq::empty()
    } else {
        rule_calls(rule, (n - 1) as nat, deep) + sequence_calls(
            rule.variants@[n - 1].pattern@,
            rule.variants@[n - 1].pattern@.len(),
            deep,
        )
    }
}

/// What `check` says of the first call in `sites` of which it says anything.
pub open spec fn first_error(
    sites: Seq<CallSite>,
    check: spec_fn(CallSite) -> Option<GrammarErrorView>,
) -> Option<GrammarErrorView>
    decreases sites.len(),
{
    if sites.len() == 0 {
        None
    } else if check(sites[0]) is Some {
        check(sites[0])
    } else {
        first_error(sites.skip(1), check)
    }
}

/// Over two lists written one after the other, the first error is that of the
/// first list where it has one, and else that of the second.
pub proof fn lemma_first_error_concat(
    a: Seq<CallSite>,
    b: Seq<CallSite>,
    check: spec_fn(CallSite) -> Option<GrammarErrorView>,
)
    ensures
        first_error(a + b, check) == (if first_error(a, check) is Some {
            first_error(a, check)
        } else {
            first_error(b, check)
        }),
    decreases a.len(),
{
    if a.len() == 0 {
        assert(a + b =~= b);
    } else {
        assert((a + b)[0] == a[0]);
        assert((a + b).skip(1) =~= a.skip(1) + b);
        lemma_first_error_concat(a.skip(1), b, check);
    }
}

/// `first_error` finds nothing exactly when `check` accepts every call, and
/// what it finds is what `check` says of some call before which all are accepted.
pub proof fn lemma_first_error_is_first(
    sites: Seq<CallSite>,
    check: spec_fn(CallSite) -> Option<GrammarErrorView>,
)
    ensures
        first_error(sites, check) is None <==> forall|i: int|
            0 <= i < sites.len() ==> check(#[trigger] sites[i]) is None,
        first_error(sites, check) is Some ==> exists|i: int|
            0 <= i < sites.len() && first_error(sites, check) == check(
                #[trigger] sites[i],
            ) && forall|j: int|
                0 <= j < i ==> check(#[trigger] sites[j]) is None,
    decreases sites.len(),
{
    if sites.len() == 0 {
    } else if check(sites[0]) is Some {
        assert(first_error(sites, check) == check(sites[0]));
    } else {
        let rest = sites.skip(1);
        lemma_first_error_is_first(rest, check);
        assert forall|i: int| 0 <= i < rest.len() implies rest[i] == sites[i + 1] by {}
        if first_error(rest, check) is None {
            assert forall|i: int| 0 <= i < sites.len() implies check(
                #[trigger] sites[i],
            ) is None by {
                if i > 0 {
                    assert(rest[i - 1] == sites[i]);
                }
            }
        } else {
            let k = choose|i: int|
                0 <= i < rest.len() && first_error(rest, check) == check(
                    #[trigger] rest[i],
                ) && forall|j: int|
                    0 <= j < i ==> check(#[trigger] rest[j]) is None;
            assert(rest[k] == sites[k + 1]);
            assert forall|j: int| 0 <= j < k + 1 implies check(#[trigger] sites[j]) is None by {
                if j > 0 {
                    assert(rest[j - 1] == sites[j]);
                }
            }
            assert(first_error(sites, check) == check(sites[k + 1]));
        }
    }
}

} // verus!

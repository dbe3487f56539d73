//! Read-only analyses of the grammar model: commit points, left-recursive
//! alternatives, exposed bindings, nullability and first-token keys.

use crate::model::{Identifier, ModelPattern, RuleVariant};
use crate::recursion::{variant_is_left_call, variant_starts_with_call};
use vstd::prelude::*;
use vstd::slice::slice_subrange;

verus! {

/// A pattern sequence split at its first commit point.
pub struct CutAnalysis<'a> {
    /// How many patterns stand before the commit point.
    pub index: usize,
    /// The patterns before the commit point.
    pub pre_cut: &'a [ModelPattern],
    /// The patterns after the commit point.
    pub post_cut: &'a [ModelPattern],
}

/// Position `i` is the first commit point of `ps`.
pub open spec fn is_first_cut(ps: Seq<ModelPattern>, i: int) -> bool {
    &&& 0 <= i < ps.len()
    &&& ps[i] is Cut
    &&& forall|k: int| 0 <= k < i ==> !((#[trigger] ps[k]) is Cut)
}

/// `ps` holds a commit point.
pub open spec fn has_cut(ps: Seq<ModelPattern>) -> bool {
    exists|i: int| 0 <= i < ps.len() && (#[trigger] ps[i]) is Cut
}

/// Looks for the first commit point of a sequence and splits the sequence there.
///
/// Returns `None` exactly when the sequence holds no commit point. The commit
/// point itself belongs to neither part.
pub fn find_cut<'a>(patterns: &'a Vec<ModelPattern>) -> (r: Option<CutAnalysis<'a>>)
    ensures
        match r {
            Some(cut) => {
                &&& is_first_cut(patterns@, cut.index as int)
                &&& cut.pre_cut@ == patterns@.subrange(0, cut.index as int)
                &&& cut.post_cut@ == patterns@.subrange(cut.index + 1, patterns@.len() as int)
            },
            None => !has_cut(patterns@),
        },
{
    let mut idx: usize = 0;
    while idx < patterns.len()
        invariant
            idx <= patterns@.len(),
            forall|k: int| 0 <= k < idx ==> !((#[trigger] patterns@[k]) is Cut),
        decreases patterns@.len() - idx,
    {
        if let ModelPattern::Cut(_) = &patterns[idx] {
            let all = patterns.as_slice();
            return Some(
                CutAnalysis {
                    index: idx,
                    pre_cut: slice_subrange(all, 0, idx),
                    post_cut: slice_subrange(all, idx + 1, patterns.len()),
                },
            );
        }
        idx += 1;
    }
    None
}

/// The alternatives that `refs` points at.
pub open spec fn pointees(refs: Seq<&RuleVariant>) -> Seq<RuleVariant> {
    Seq::new(refs.len(), |k: int| *refs[k])
}

/// Splits the alternatives of the rule `rule_name` into those that start with
/// a call of the rule itself and the others, the base cases. Both lists keep
/// the order of declaration.
pub fn split_left_recursive<'a>(rule_name: &Identifier, variants: &'a Vec<RuleVariant>) -> (r: (
    Vec<&'a RuleVariant>,
    Vec<&'a RuleVariant>,
))
    ensures
        pointees(r.0@) == variants@.filter(
            |v: RuleVariant| variant_starts_with_call(v, rule_name@),
        ),
        pointees(r.1@) == variants@.filter(
            |v: RuleVariant| !variant_starts_with_call(v, rule_name@),
        ),
{
    let ghost rec = |v: RuleVariant| variant_starts_with_call(v, rule_name@);
    let ghost base = |v: RuleVariant| !variant_starts_with_call(v, rule_name@);
    let mut recursive: Vec<&'a RuleVariant> = Vec::new();
    let mut others: Vec<&'a RuleVariant> = Vec::new();
    let mut i: usize = 0;
    proof {
        reveal(Seq::filter);
        assert(variants@.take(0).filter(rec) =~= Seq::empty());
        assert(variants@.take(0).filter(base) =~= Seq::empty());
    }
    while i < variants.len()
        invariant
            i <= variants@.len(),
            rec == |v: RuleVariant| variant_starts_with_call(v, rule_name@),
            base == |v: RuleVariant| !variant_starts_with_call(v, rule_name@),
            pointees(recursive@) =~= variants@.take(i as int).filter(rec),
            pointees(others@) =~= variants@.take(i as int).filter(base),
        decreases variants@.len() - i,
    {
        let v = &variants[i];
        proof {
            reveal(Seq::filter);
            let next = variants@.take(i + 1);
            assert(next.drop_last() =~= variants@.take(i as int));
            assert(next.last() == variants@[i as int]);
        }
        if variant_is_left_call(v, &rule_name.text) {
            recursive.push(v);
        } else {
            others.push(v);
        }
        i += 1;
    }
    proof {
        assert(variants@.take(variants@.len() as int) =~= variants@);
    }
    (recursive, others)
}

/// The names that `p` exposes to the sequence around it, in the order in
/// which they are bound. Negative lookahead exposes nothing; a recovery region
/// with a binding of its own exposes that one alone.
pub open spec fn pattern_bindings(p: ModelPattern) -> Seq<Identifier>
    decreases p, 0nat,
{
    match p {
        ModelPattern::RuleCall { binding, .. } => match binding {
            Some(b) => seq![b],
            None => Seq::empty(),
        },
        ModelPattern::Repeat(inner, _) => pattern_bindings(*inner),
        ModelPattern::Plus(inner, _) => pattern_bindings(*inner),
        ModelPattern::Optional(inner, _) => pattern_bindings(*inner),
        ModelPattern::Parenthesized(s, _) => sequence_bindings(s@, s@.len()),
        ModelPattern::Bracketed(s, _) => sequence_bindings(s@, s@.len()),
        ModelPattern::Braced(s, _) => sequence_bindings(s@, s@.len()),
        ModelPattern::SpanBinding(inner, ident, _) => seq![ident] + pattern_bindings(*inner),
        ModelPattern::Recover { binding, body, .. } => match binding {
            Some(b) => seq![b],
            None => pattern_bindings(*body),
        },
        ModelPattern::Peek(inner, _) => pattern_bindings(*inner),
        ModelPattern::Group(alts, _) => group_bindings(alts@, alts@.len()),
        ModelPattern::Not(_, _) => Seq::empty(),
        ModelPattern::Cut(_) => Seq::empty(),
        ModelPattern::Lit(_) => Seq::empty(),
    }
}

/// The names that the first `n` patterns of `ps` expose.
pub open spec fn sequence_bindings(ps: Seq<ModelPattern>, n: nat) -> Seq<Identifier>
    decreases ps, n,
{
    if n == 0 || n > ps.len() {
        Seq::empty()
    } else {
        sequence_bindings(ps, (n - 1) as nat) + pattern_bindings(ps[n - 1])
    }
}

/// The names that the first `n` alternatives of a group expose.
pub open spec fn group_bindings(alts: Seq<Vec<ModelPattern>>, n: nat) -> Seq<Identifier>
    decreases alts, n,
{
    if n == 0 || n > alts.len() {
        Seq::empty()
    } else {
        group_bindings(alts, (n - 1) as nat) + sequence_bindings(alts[n - 1]@, alts[n - 1]@.len())
    }
}

fn collect_pattern(p: &ModelPattern, bindings: &mut Vec<Identifier>)
    ensures
        final(bindings)@ == old(bindings)@ + pattern_bindings(*p),
    decreases p, 0nat,
{
    match p {
        ModelPattern::RuleCall { binding: Some(b), .. } => {
            bindings.push(b.clone());
            assert(bindings@ =~= old(bindings)@ + seq![*b]);
        },
        ModelPattern::Repeat(inner, _)
        | ModelPattern::Plus(inner, _)
        | ModelPattern::Optional(inner, _) => {
            collect_pattern(inner, bindings);
        },
        ModelPattern::Parenthesized(s, _)
        | ModelPattern::Bracketed(s, _)
        | ModelPattern::Braced(s, _) => {
            collect_sequence(s, bindings);
        },
        ModelPattern::SpanBinding(inner, ident, _) => {
            bindings.push(ident.clone());
            collect_pattern(inner, bindings);
            assert(bindings@ =~= old(bindings)@ + (seq![*ident] + pattern_bindings(**inner)));
        },
        ModelPattern::Recover { binding, body, .. } => {
            if let Some(b) = binding {
                bindings.push(b.clone());
                assert(bindings@ =~= old(bindings)@ + seq![*b]);
            } else {
                collect_pattern(body, bindings);
            }
        },
        ModelPattern::Peek(inner, _) => {
            collect_pattern(inner, bindings);
        },
        ModelPattern::Group(alts, _) => {
            let mut k: usize = 0;
            assert(bindings@ =~= old(bindings)@ + group_bindings(alts@, 0));
            while k < alts.len()
                invariant
                    k <= alts@.len(),
                    *p matches ModelPattern::Group(a, _) && a == *alts,
                    bindings@ == old(bindings)@ + group_bindings(alts@, k as nat),
                decreases alts@.len() - k,
            {
                collect_sequence(&alts[k], bindings);
                assert(bindings@ =~= old(bindings)@ + group_bindings(alts@, (k + 1) as nat));
                k += 1;
            }
        },
        _ => {
            assert(bindings@ =~= old(bindings)@ + Seq::<Identifier>::empty());
        },
    }
}

fn collect_sequence(patterns: &Vec<ModelPattern>, bindings: &mut Vec<Identifier>)
    ensures
        final(bindings)@ == old(bindings)@ + sequence_bindings(patterns@, patterns@.len()),
    decreases patterns, 1nat,
{
    let mut i: usize = 0;
    assert(bindings@ =~= old(bindings)@ + sequence_bindings(patterns@, 0));
    while i < patterns.len()
        invariant
            i <= patterns@.len(),
            bindings@ == old(bindings)@ + sequence_bindings(patterns@, i as nat),
        decreases patterns@.len() - i,
    {
        collect_pattern(&patterns[i], bindings);
        assert(bindings@ =~= old(bindings)@ + sequence_bindings(patterns@, (i + 1) as nat));
        i += 1;
    }
}

/// Lists the names that a sequence exposes to whatever encloses it, in the
/// order in which they are bound.
pub fn collect_bindings(patterns: &Vec<ModelPattern>) -> (bindings: Vec<Identifier>)
    ensures
        bindings@ == sequence_bindings(patterns@, patterns@.len()),
{
    let mut bindings: Vec<Identifier> = Vec::new();
    collect_sequence(patterns, &mut bindings);
    assert(bindings@ =~= sequence_bindings(patterns@, patterns@.len()));
    bindings
}

/// Lists the names that a single pattern exposes.
pub fn collect_pattern_bindings(pattern: &ModelPattern) -> (bindings: Vec<Identifier>)
    ensures
        bindings@ == pattern_bindings(*pattern),
{
    let mut bindings: Vec<Identifier> = Vec::new();
    collect_pattern(pattern, &mut bindings);
    assert(bindings@ =~= pattern_bindings(*pattern));
    bindings
}

/// `p` can match without consuming any input.
///
/// Literals and delimited regions never can. A rule call is taken to be able
/// to, whatever the rule: what it expands to is not looked at. Optional and
/// repeated patterns, lookahead, recovery regions and commit points always
/// can; a group can when one of its alternatives consists of such patterns only.
pub open spec fn nullable(p: ModelPattern) -> bool
    decreases p,
{
    match p {
        ModelPattern::Cut(_) => true,
        ModelPattern::Lit(_) => false,
        ModelPattern::RuleCall { .. } => true,
        ModelPattern::Group(alts, _) => exists|k: int|
            0 <= k < alts@.len() && all_nullable(#[trigger] alts@[k]@),
        ModelPattern::Bracketed(_, _) => false,
        ModelPattern::Braced(_, _) => false,
        ModelPattern::Parenthesized(_, _) => false,
        ModelPattern::Optional(_, _) => true,
        ModelPattern::Repeat(_, _) => true,
        ModelPattern::Plus(inner, _) => nullable(*inner),
        ModelPattern::SpanBinding(inner, _, _) => nullable(*inner),
        ModelPattern::Recover { .. } => true,
        ModelPattern::Peek(_, _) => true,
        ModelPattern::Not(_, _) => true,
    }
}

/// Every pattern of `ps` can match without consuming any input.
pub open spec fn all_nullable(ps: Seq<ModelPattern>) -> bool
    decreases ps,
{
    forall|i: int| 0 <= i < ps.len() ==> nullable(#[trigger] ps[i])
}

/// Tells whether a pattern can match the empty input.
pub fn is_nullable(pattern: &ModelPattern) -> (b: bool)
    ensures
        b == nullable(*pattern),
    decreases pattern, 0nat,
{
    match pattern {
        ModelPattern::Cut(_) => true,
        ModelPattern::Lit(_) => false,
        ModelPattern::RuleCall { .. } => true,
        ModelPattern::Group(alts, _) => {
            let mut k: usize = 0;
            while k < alts.len()
                invariant
                    k <= alts@.len(),
                    *pattern matches ModelPattern::Group(a, _) && a == *alts,
                    forall|q: int| 0 <= q < k ==> !all_nullable(#[trigger] alts@[q]@),
                decreases alts@.len() - k,
            {
                if is_nullable_sequence(&alts[k]) {
                    return true;
                }
                k += 1;
            }
            false
        },
        ModelPattern::Bracketed(_, _)
        | ModelPattern::Braced(_, _)
        | ModelPattern::Parenthesized(_, _) => false,
        ModelPattern::Optional(_, _) => true,
        ModelPattern::Repeat(_, _) => true,
        ModelPattern::Plus(inner, _) => is_nullable(inner),
        ModelPattern::SpanBinding(inner, _, _) => is_nullable(inner),
        ModelPattern::Recover { .. } => true,
        ModelPattern::Peek(_, _) => true,
        ModelPattern::Not(_, _) => true,
    }
}

/// Tells whether every pattern of a sequence can match the empty input.
pub fn is_nullable_sequence(patterns: &Vec<ModelPattern>) -> (b: bool)
    ensures
        b == all_nullable(patterns@),
    decreases patterns, 1nat,
{
    let mut i: usize = 0;
    while i < patterns.len()
        invariant
            i <= patterns@.len(),
            forall|q: int| 0 <= q < i ==> nullable(#[trigger] patterns@[q]),
        decreases patterns@.len() - i,
    {
        if !is_nullable(&patterns[i]) {
            return false;
        }
        i += 1;
    }
    true
}

/// The key of the token that a match of `p` must begin with, where `p` alone
/// decides it: the text of a literal, the kind of a delimited region, and for
/// a pattern wrapped around a single other the key of that one. A group of
/// several alternatives, a negative lookahead, a rule call and a commit point
/// have none.
pub open spec fn pattern_key(p: ModelPattern) -> Option<Seq<char>>
    decreases p, 0nat,
{
    match p {
        ModelPattern::Lit(l) => Some(l@),
        ModelPattern::Bracketed(_, _) => Some("Bracket"@),
        ModelPattern::Braced(_, _) => Some("Brace"@),
        ModelPattern::Parenthesized(_, _) => Some("Paren"@),
        ModelPattern::Optional(inner, _) => pattern_key(*inner),
        ModelPattern::Repeat(inner, _) => pattern_key(*inner),
        ModelPattern::Plus(inner, _) => pattern_key(*inner),
        ModelPattern::SpanBinding(inner, _, _) => pattern_key(*inner),
        ModelPattern::Recover { body, .. } => pattern_key(*body),
        ModelPattern::Group(alts, _) => if alts@.len() == 1 {
            sequence_key(alts@[0]@)
        } else {
            None
        },
        ModelPattern::Peek(inner, _) => pattern_key(*inner),
        ModelPattern::Not(_, _) => None,
        ModelPattern::Cut(_) => None,
        ModelPattern::RuleCall { .. } => None,
    }
}

/// The first-token key of a sequence: that of its first pattern.
pub open spec fn sequence_key(ps: Seq<ModelPattern>) -> Option<Seq<char>>
    decreases ps, 1nat,
{
    if ps.len() == 0 {
        None
    } else {
        pattern_key(ps[0])
    }
}

/// The first-token key of a single pattern, as text.
pub fn get_pattern_key(pattern: &ModelPattern) -> (r: Option<String>)
    ensures
        match r {
            Some(key) => pattern_key(*pattern) == Some(key@),
            None => pattern_key(*pattern) is None,
        },
    decreases pattern, 0nat,
{
    match pattern {
        ModelPattern::Lit(l) => Some(l.value.clone()),
        ModelPattern::Bracketed(_, _) => Some(String::from_str("Bracket")),
        ModelPattern::Braced(_, _) => Some(String::from_str("Brace")),
        ModelPattern::Parenthesized(_, _) => Some(String::from_str("Paren")),
        ModelPattern::Optional(inner, _)
        | ModelPattern::Repeat(inner, _)
        | ModelPattern::Plus(inner, _) => get_pattern_key(inner),
        ModelPattern::SpanBinding(inner, _, _) => get_pattern_key(inner),
        ModelPattern::Recover { body, .. } => get_pattern_key(body),
        ModelPattern::Group(alts, _) => {
            if alts.len() == 1 {
                get_peek_token_string(&alts[0])
            } else {
                None
            }
        },
        ModelPattern::Peek(inner, _) => get_pattern_key(inner),
        ModelPattern::Not(_, _) => None,
        _ => None,
    }
}

/// The key of the token that a match of the sequence must begin with, if the
/// first pattern of the sequence decides one.
pub fn get_peek_token_string(patterns: &Vec<ModelPattern>) -> (r: Option<String>)
    ensures
        match r {
            Some(key) => sequence_key(patterns@) == Some(key@),
            None => sequence_key(patterns@) is None,
        },
    decreases patterns, 1nat,
{
    if patterns.len() == 0 {
        None
    } else {
        get_pattern_key(&patterns[0])
    }
}

/// The key under which an alternative takes part in the count of first
/// tokens: its first-token key, provided the alternative is not empty and its
/// first pattern cannot match the empty input.
pub open spec fn dispatch_key(ps: Seq<ModelPattern>) -> Option<Seq<char>> {
    if ps.len() == 0 || nullable(ps[0]) {
        None
    } else {
        sequence_key(ps)
    }
}

/// How many of the first `n` alternatives take part in the count under `key`.
pub open spec fn key_count(alts: Seq<Seq<ModelPattern>>, key: Seq<char>, n: nat) -> nat
    decreases n,
{
    if n == 0 || n > alts.len() {
        0
    } else {
        key_count(alts, key, (n - 1) as nat) + (if dispatch_key(alts[n - 1]) == Some(key) {
            1nat
        } else {
            0nat
        })
    }
}

/// Alternative `i` can be chosen by its first token alone: it has a dispatch
/// key, and no sibling has the same.
pub open spec fn is_unique_alternative(alts: Seq<Seq<ModelPattern>>, i: int) -> bool {
    &&& 0 <= i < alts.len()
    &&& dispatch_key(alts[i]) matches Some(key)
    &&& key_count(alts, key, alts.len()) == 1
}

/// The dispatch key of an alternative, as text.
pub fn get_dispatch_key(patterns: &Vec<ModelPattern>) -> (r: Option<String>)
    ensures
        match r {
            Some(key) => dispatch_key(patterns@) == Some(key@),
            None => dispatch_key(patterns@) is None,
        },
{
    if patterns.len() == 0 || is_nullable(&patterns[0]) {
        None
    } else {
        get_peek_token_string(patterns)
    }
}

/// No sibling of an alternative that can be chosen by its first token alone
/// has the same dispatch key.
pub proof fn lemma_unique_means_no_sibling_shares(alts: Seq<Seq<ModelPattern>>, i: int, j: int)
    requires
        is_unique_alternative(alts, i),
        0 <= j < alts.len(),
        j != i,
    ensures
        dispatch_key(alts[j]) != dispatch_key(alts[i]),
{
    let key = dispatch_key(alts[i])->0;
    if dispatch_key(alts[j]) == Some(key) {
        let lo = if i < j {
            i
        } else {
            j
        };
        let hi = if i < j {
            j
        } else {
            i
        };
        lemma_key_count_lower(alts, key, (lo + 1) as nat, lo);
        lemma_key_count_grows(alts, key, (lo + 1) as nat, hi as nat);
        lemma_key_count_grows(alts, key, (hi + 1) as nat, alts.len());
    }
}

proof fn lemma_key_count_lower(alts: Seq<Seq<ModelPattern>>, key: Seq<char>, n: nat, i: int)
    requires
        0 <= i < n <= alts.len(),
        dispatch_key(alts[i]) == Some(key),
    ensures
        key_count(alts, key, n) >= 1,
    decreases n,
{
    if i < n - 1 {
        lemma_key_count_lower(alts, key, (n - 1) as nat, i);
    }
}

proof fn lemma_key_count_grows(alts: Seq<Seq<ModelPattern>>, key: Seq<char>, a: nat, b: nat)
    requires
        a <= b <= alts.len(),
    ensures
        key_count(alts, key, a) <= key_count(alts, key, b),
    decreases b,
{
    if a < b {
        lemma_key_count_grows(alts, key, a, (b - 1) as nat);
    }
}

/// The binding that names the value of `p` as a whole: that of a rule call,
/// and for a pattern wrapped around a single other the binding of that one.
/// A group of several alternatives or of several patterns, and a delimited
/// region of several patterns, have none.
pub open spec fn inner_binding(p: ModelPattern) -> Option<Identifier>
    decreases p,
{
    match p {
        ModelPattern::RuleCall { binding, .. } => binding,
        ModelPattern::Group(alts, _) => if alts@.len() == 1 && alts@[0]@.len() == 1 {
            inner_binding(alts@[0]@[0])
        } else {
            None
        },
        ModelPattern::Optional(inner, _) => inner_binding(*inner),
        ModelPattern::Repeat(inner, _) => inner_binding(*inner),
        ModelPattern::Plus(inner, _) => inner_binding(*inner),
        ModelPattern::SpanBinding(inner, _, _) => inner_binding(*inner),
        ModelPattern::Parenthesized(inner, _) => if inner@.len() == 1 {
            inner_binding(inner@[0])
        } else {
            None
        },
        ModelPattern::Bracketed(inner, _) => if inner@.len() == 1 {
            inner_binding(inner@[0])
        } else {
            None
        },
        ModelPattern::Braced(inner, _) => if inner@.len() == 1 {
            inner_binding(inner@[0])
        } else {
            None
        },
        _ => None,
    }
}

/// Finds the binding that names the value of a pattern as a whole.
pub fn get_inner_binding(pattern: &ModelPattern) -> (r: Option<&Identifier>)
    ensures
        match r {
            Some(b) => inner_binding(*pattern) == Some(*b),
            None => inner_binding(*pattern) is None,
        },
    decreases pattern,
{
    match pattern {
        ModelPattern::RuleCall { binding, .. } => binding.as_ref(),
        ModelPattern::Group(alts, _) => {
            if alts.len() == 1 && alts[0].len() == 1 {
                get_inner_binding(&alts[0][0])
            } else {
                None
            }
        },
        ModelPattern::Optional(inner, _) => get_inner_binding(inner),
        ModelPattern::Repeat(inner, _) => get_inner_binding(inner),
        ModelPattern::Plus(inner, _) => get_inner_binding(inner),
        ModelPattern::SpanBinding(inner, _, _) => get_inner_binding(inner),
        ModelPattern::Parenthesized(inner, _)
        | ModelPattern::Bracketed(inner, _)
        | ModelPattern::Braced(inner, _) => {
            if inner.len() == 1 {
                get_inner_binding(&inner[0])
            } else {
                None
            }
        },
        _ => None,
    }
}

} // verus!

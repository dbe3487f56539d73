//! The lexicon of a grammar: what the tokenizer gave for each of its
//! literals, asked once and kept.

use crate::model::{GrammarDefinition, ModelPattern};
use crate::tokens::{lexicon_view, look_up, looked_up, scan_literal, Scan, ScanView};
use vstd::prelude::*;

verus! {

/// `lexicon` holds a scan of `text`.
pub open spec fn has_entry(lexicon: Seq<ScanView>, text: Seq<char>) -> bool {
    exists|i: int| 0 <= i < lexicon.len() && (#[trigger] lexicon[i]).text == text
}

/// `lexicon` holds a scan of every literal inside `p`, those inside the
/// arguments of calls and inside synchronisation patterns included.
pub open spec fn covers_pattern(lexicon: Seq<ScanView>, p: ModelPattern) -> bool
    decreases p, 0nat,
{
    match p {
        ModelPattern::Lit(l) => has_entry(lexicon, l@),
        ModelPattern::RuleCall { args, .. } => covers_sequence(lexicon, args@),
        ModelPattern::Group(alts, _) => forall|k: int|
            0 <= k < alts@.len() ==> covers_sequence(lexicon, #[trigger] alts@[k]@),
        ModelPattern::Bracketed(s, _) => covers_sequence(lexicon, s@),
        ModelPattern::Braced(s, _) => covers_sequence(lexicon, s@),
        ModelPattern::Parenthesized(s, _) => covers_sequence(lexicon, s@),
        ModelPattern::Optional(inner, _) => covers_pattern(lexicon, *inner),
        ModelPattern::Repeat(inner, _) => covers_pattern(lexicon, *inner),
        ModelPattern::Plus(inner, _) => covers_pattern(lexicon, *inner),
        ModelPattern::SpanBinding(inner, _, _) => covers_pattern(lexicon, *inner),
        ModelPattern::Recover { body, sync, .. } => covers_pattern(lexicon, *body) && covers_pattern(
            lexicon,
            *sync,
        ),
        ModelPattern::Peek(inner, _) => covers_pattern(lexicon, *inner),
        ModelPattern::Not(inner, _) => covers_pattern(lexicon, *inner),
        ModelPattern::Cut(_) => true,
    }
}

/// `lexicon` holds a scan of every literal inside the patterns of `ps`.
pub open spec fn covers_sequence(lexicon: Seq<ScanView>, ps: Seq<ModelPattern>) -> bool
    decreases ps, 1nat,
{
    forall|i: int| 0 <= i < ps.len() ==> covers_pattern(lexicon, #[trigger] ps[i])
}

/// `lexicon` holds a scan of every literal of `grammar`.
pub open spec fn covers_grammar(lexicon: Seq<ScanView>, grammar: &GrammarDefinition) -> bool {
    forall|r: int, v: int|
        0 <= r < grammar.rules@.len() && 0 <= v < grammar.rules@[r].variants@.len()
            ==> covers_sequence(lexicon, #[trigger] grammar.rules@[r].variants@[v].pattern@)
}

/// Every text of which `a` holds a scan, `b` holds a scan of too.
pub open spec fn extends(a: Seq<ScanView>, b: Seq<ScanView>) -> bool {
    forall|text: Seq<char>| has_entry(a, text) ==> has_entry(b, text)
}

/// A lexicon that holds a scan of a text finds one when it is looked up.
pub proof fn lemma_entry_is_found(lexicon: Seq<ScanView>, text: Seq<char>, i: nat)
    requires
        exists|k: int| i <= k < lexicon.len() && (#[trigger] lexicon[k]).text == text,
    ensures
        looked_up(lexicon, text, i) is Some,
        looked_up(lexicon, text, i)->0.text == text,
    decreases lexicon.len() - i,
{
    if lexicon[i as int].text != text {
        let k = choose|k: int| i <= k < lexicon.len() && (#[trigger] lexicon[k]).text == text;
        assert(lexicon[k].text == text);
        lemma_entry_is_found(lexicon, text, i + 1);
    }
}

/// What a lexicon covers, every lexicon that extends it covers too.
pub proof fn lemma_cover_stays(a: Seq<ScanView>, b: Seq<ScanView>, p: ModelPattern)
    requires
        extends(a, b),
        covers_pattern(a, p),
    ensures
        covers_pattern(b, p),
    decreases p, 0nat,
{
    match p {
        ModelPattern::Lit(l) => {},
        ModelPattern::RuleCall { args, .. } => lemma_cover_stays_in_sequence(a, b, args@),
        ModelPattern::Group(alts, _) => {
            assert forall|k: int| 0 <= k < alts@.len() implies covers_sequence(
                b,
                #[trigger] alts@[k]@,
            ) by {
                lemma_cover_stays_in_sequence(a, b, alts@[k]@);
            }
        },
        ModelPattern::Bracketed(s, _) => lemma_cover_stays_in_sequence(a, b, s@),
        ModelPattern::Braced(s, _) => lemma_cover_stays_in_sequence(a, b, s@),
        ModelPattern::Parenthesized(s, _) => lemma_cover_stays_in_sequence(a, b, s@),
        ModelPattern::Optional(inner, _) => lemma_cover_stays(a, b, *inner),
        ModelPattern::Repeat(inner, _) => lemma_cover_stays(a, b, *inner),
        ModelPattern::Plus(inner, _) => lemma_cover_stays(a, b, *inner),
        ModelPattern::SpanBinding(inner, _, _) => lemma_cover_stays(a, b, *inner),
        ModelPattern::Recover { body, sync, .. } => {
            lemma_cover_stays(a, b, *body);
            lemma_cover_stays(a, b, *sync);
        },
        ModelPattern::Peek(inner, _) => lemma_cover_stays(a, b, *inner),
        ModelPattern::Not(inner, _) => lemma_cover_stays(a, b, *inner),
        ModelPattern::Cut(_) => {},
    }
}

/// What a lexicon covers of a sequence, every lexicon that extends it covers too.
pub proof fn lemma_cover_stays_in_sequence(a: Seq<ScanView>, b: Seq<ScanView>, ps: Seq<ModelPattern>)
    requires
        extends(a, b),
        covers_sequence(a, ps),
    ensures
        covers_sequence(b, ps),
    decreases ps, 1nat,
{
    assert forall|i: int| 0 <= i < ps.len() implies covers_pattern(b, #[trigger] ps[i]) by {
        lemma_cover_stays(a, b, ps[i]);
    }
}

/// Has the tokenizer scan `text`, unless the lexicon holds a scan of it already.
pub fn scan_text(text: &str, lexicon: &mut Vec<Scan>)
    ensures
        has_entry(lexicon_view(final(lexicon)@), text@),
        extends(lexicon_view(old(lexicon)@), lexicon_view(final(lexicon)@)),
{
    let ghost before = lexicon_view(lexicon@);
    let known = look_up(lexicon, text).is_some();
    if !known {
        let scan = scan_literal(text);
        lexicon.push(scan);
        proof {
            let after = lexicon_view(lexicon@);
            assert(after[after.len() - 1].text == text@);
            assert forall|t: Seq<char>| has_entry(before, t) implies has_entry(after, t) by {
                let i = choose|i: int| 0 <= i < before.len() && (#[trigger] before[i]).text == t;
                assert(after[i] == before[i]);
            }
        }
    } else {
        proof {
            lemma_found_is_entry(before, text@, 0);
        }
    }
}

proof fn lemma_found_is_entry(lexicon: Seq<ScanView>, text: Seq<char>, i: nat)
    requires
        looked_up(lexicon, text, i) is Some,
    ensures
        has_entry(lexicon, text),
    decreases lexicon.len() - i,
{
    if i < lexicon.len() {
        if lexicon[i as int].text == text {
        } else {
            lemma_found_is_entry(lexicon, text, i + 1);
        }
    }
}

/// Has the tokenizer scan every literal inside `pattern` that the lexicon
/// holds no scan of yet.
pub fn scan_pattern(pattern: &ModelPattern, lexicon: &mut Vec<Scan>)
    ensures
        covers_pattern(lexicon_view(final(lexicon)@), *pattern),
        extends(lexicon_view(old(lexicon)@), lexicon_view(final(lexicon)@)),
    decreases pattern, 0nat,
{
    match pattern {
        ModelPattern::Lit(lit) => scan_text(lit.value.as_str(), lexicon),
        ModelPattern::RuleCall { args, .. } => scan_sequence(args, lexicon),
        ModelPattern::Group(alts, _) => {
            let mut k: usize = 0;
            while k < alts.len()
                invariant
                    k <= alts@.len(),
                    *pattern matches ModelPattern::Group(a, _) && a == *alts,
                    extends(lexicon_view(old(lexicon)@), lexicon_view(lexicon@)),
                    forall|q: int|
                        0 <= q < k ==> covers_sequence(lexicon_view(lexicon@), #[trigger] alts@[q]@),
                decreases alts@.len() - k,
            {
                let ghost before = lexicon_view(lexicon@);
                scan_sequence(&alts[k], lexicon);
                proof {
                    let after = lexicon_view(lexicon@);
                    assert forall|q: int| 0 <= q < k implies covers_sequence(
                        after,
                        #[trigger] alts@[q]@,
                    ) by {
                        lemma_cover_stays_in_sequence(before, after, alts@[q]@);
                    }
                }
                k += 1;
            }
        },
        ModelPattern::Bracketed(s, _)
        | ModelPattern::Braced(s, _)
        | ModelPattern::Parenthesized(s, _) => scan_sequence(s, lexicon),
        ModelPattern::Optional(inner, _)
        | ModelPattern::Repeat(inner, _)
        | ModelPattern::Plus(inner, _) => scan_pattern(inner, lexicon),
        ModelPattern::SpanBinding(inner, _, _) => scan_pattern(inner, lexicon),
        ModelPattern::Recover { body, sync, .. } => {
            scan_pattern(body, lexicon);
            let ghost between = lexicon_view(lexicon@);
            scan_pattern(sync, lexicon);
            proof {
                lemma_cover_stays(between, lexicon_view(lexicon@), **body);
            }
        },
        ModelPattern::Peek(inner, _) | ModelPattern::Not(inner, _) => scan_pattern(inner, lexicon),
        ModelPattern::Cut(_) => {},
    }
}

/// Has the tokenizer scan every literal inside the patterns of a sequence
/// that the lexicon holds no scan of yet.
pub fn scan_sequence(patterns: &Vec<ModelPattern>, lexicon: &mut Vec<Scan>)
    ensures
        covers_sequence(lexicon_view(final(lexicon)@), patterns@),
        extends(lexicon_view(old(lexicon)@), lexicon_view(final(lexicon)@)),
    decreases patterns, 1nat,
{
    let mut i: usize = 0;
    while i < patterns.len()
        invariant
            i <= patterns@.len(),
            extends(lexicon_view(old(lexicon)@), lexicon_view(lexicon@)),
            forall|q: int| 0 <= q < i ==> covers_pattern(lexicon_view(lexicon@), #[trigger] patterns@[q]),
        decreases patterns@.len() - i,
    {
        let ghost before = lexicon_view(lexicon@);
        scan_pattern(&patterns[i], lexicon);
        proof {
            let after = lexicon_view(lexicon@);
            assert forall|q: int| 0 <= q < i implies covers_pattern(after, #[trigger] patterns@[q]) by {
                lemma_cover_stays(before, after, patterns@[q]);
            }
        }
        i += 1;
    }
}

/// Has the tokenizer scan every literal of `grammar`, each text once.
pub fn scan_grammar(grammar: &GrammarDefinition) -> (lexicon: Vec<Scan>)
    ensures
        covers_grammar(lexicon_view(lexicon@), grammar),
{
    let mut lexicon: Vec<Scan> = Vec::new();
    let mut r: usize = 0;
    while r < grammar.rules.len()
        invariant
            r <= grammar.rules@.len(),
            forall|a: int, v: int|
                0 <= a < r && 0 <= v < grammar.rules@[a].variants@.len() ==> covers_sequence(
                    lexicon_view(lexicon@),
                    #[trigger] grammar.rules@[a].variants@[v].pattern@,
                ),
        decreases grammar.rules@.len() - r,
    {
        let rule = &grammar.rules[r];
        let mut v: usize = 0;
        while v < rule.variants.len()
            invariant
                r < grammar.rules@.len(),
                rule == &grammar.rules@[r as int],
                v <= rule.variants@.len(),
                forall|a: int, w: int|
                    0 <= a < r && 0 <= w < grammar.rules@[a].variants@.len() ==> covers_sequence(
                        lexicon_view(lexicon@),
                        #[trigger] grammar.rules@[a].variants@[w].pattern@,
                    ),
                forall|w: int|
                    0 <= w < v ==> covers_sequence(
                        lexicon_view(lexicon@),
                        #[trigger] rule.variants@[w].pattern@,
                    ),
            decreases rule.variants@.len() - v,
        {
            let ghost before = lexicon_view(lexicon@);
            scan_sequence(&rule.variants[v].pattern, &mut lexicon);
            proof {
                let after = lexicon_view(lexicon@);
                assert forall|a: int, w: int|
                    0 <= a < r && 0 <= w < grammar.rules@[a].variants@.len() implies covers_sequence(
                    after,
                    #[trigger] grammar.rules@[a].variants@[w].pattern@,
                ) by {
                    lemma_cover_stays_in_sequence(
                        before,
                        after,
                        grammar.rules@[a].variants@[w].pattern@,
                    );
                }
                assert forall|w: int| 0 <= w < v implies covers_sequence(
                    after,
                    #[trigger] rule.variants@[w].pattern@,
                ) by {
                    lemma_cover_stays_in_sequence(before, after, rule.variants@[w].pattern@);
                }
            }
            v += 1;
        }
        r += 1;
    }
    lexicon
}

} // verus!

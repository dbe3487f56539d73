//! The custom keywords of a grammar: the words inside its literals that the
//! tokenizer reads as plain identifiers and that therefore need token types of
//! their own. What the tokenizer said of each literal is taken from a lexicon.

use crate::error::{lemma_name_set_push, name_set, texts};
use crate::model::{GrammarDefinition, ModelPattern, Rule};
use crate::lexicon::{covers_grammar, scan_grammar};
use crate::tokens::{
    contains_text, lexicon_view, look_up, scan_views, scanned_tokens, scanned_views, LexToken,
    LexTokenView, Scan, ScanView, ScannedToken, ScannedTokenView,
};
use vstd::prelude::*;

verus! {

/// The texts of the literals inside `p`, in the order in which they are
/// written. The arguments of rule calls are not searched.
pub open spec fn pattern_literals(p: ModelPattern) -> Seq<Seq<char>>
    decreases p, 0nat,
{
    match p {
        ModelPattern::Lit(l) => seq![l@],
        ModelPattern::Group(alts, _) => group_literals(alts@, alts@.len()),
        ModelPattern::Bracketed(s, _) => sequence_literals(s@, s@.len()),
        ModelPattern::Braced(s, _) => sequence_literals(s@, s@.len()),
        ModelPattern::Parenthesized(s, _) => sequence_literals(s@, s@.len()),
        ModelPattern::Optional(inner, _) => pattern_literals(*inner),
        ModelPattern::Repeat(inner, _) => pattern_literals(*inner),
        ModelPattern::Plus(inner, _) => pattern_literals(*inner),
        ModelPattern::SpanBinding(inner, _, _) => pattern_literals(*inner),
        ModelPattern::Recover { body, sync, .. } => pattern_literals(
            *body,
        ) + pattern_literals(*sync),
        ModelPattern::Peek(inner, _) => pattern_literals(*inner),
        ModelPattern::Not(inner, _) => pattern_literals(*inner),
        ModelPattern::Cut(_) => Seq::empty(),
        ModelPattern::RuleCall { .. } => Seq::empty(),
    }
}

/// The texts of the literals inside the first `n` patterns of `ps`.
pub open spec fn sequence_literals(ps: Seq<ModelPattern>, n: nat) -> Seq<Seq<char>>
    decreases ps, n,
{
    if n == 0 || n > ps.len() {
        Seq::empty()
    } else {
        sequence_literals(ps, (n - 1) as nat) + pattern_literals(ps[n - 1])
    }
}

/// The texts of the literals inside the first `n` alternatives of a group.
pub open spec fn group_literals(alts: Seq<Vec<ModelPattern>>, n: nat) -> Seq<Seq<char>>
    decreases alts, n,
{
    if n == 0 || n > alts.len() {
        Seq::empty()
    } else {
        group_literals(alts, (n - 1) as nat) + sequence_literals(alts[n - 1]@, alts[n - 1]@.len())
    }
}

/// The texts of the literals inside the first `n` alternatives of `rule`.
pub open spec fn rule_literals(rule: &Rule, n: nat) -> Seq<Seq<char>>
    decreases n,
{
    if n == 0 || n > rule.variants@.len() {
        Seq::empty()
    } else {
        rule_literals(rule, (n - 1) as nat) + sequence_literals(
            rule.variants@[n - 1].pattern@,
            rule.variants@[n - 1].pattern@.len(),
        )
    }
}

/// The texts of the literals inside the first `n` rules of `grammar`.
pub open spec fn grammar_literals(grammar: &GrammarDefinition, n: nat) -> Seq<Seq<char>>
    decreases n,
{
    if n == 0 || n > grammar.rules@.len() {
        Seq::empty()
    } else {
        grammar_literals(grammar, (n - 1) as nat) + rule_literals(
            &grammar.rules@[n - 1],
            grammar.rules@[n - 1].variants@.len(),
        )
    }
}

/// The token `t` is the word `word`, and the word can be a custom keyword:
/// the tokenizer took it for an identifier, and it is not `_`.
pub open spec fn is_keyword_token(t: ScannedTokenView, word: Seq<char>) -> bool {
    t.token == LexTokenView::Ident(word) && t.is_identifier && word != "_"@
}

/// The custom keywords that the tokens of one literal call for.
pub open spec fn scan_keywords(scanned: Option<Seq<ScannedTokenView>>) -> Set<Seq<char>> {
    Set::new(
        |word: Seq<char>|
            scanned matches Some(tokens) && exists|k: int|
                0 <= k < tokens.len() && is_keyword_token(#[trigger] tokens[k], word),
    )
}

/// The literal `text` calls for the custom keyword `word`, going by the
/// tokens that `lexicon` holds for it.
pub open spec fn names_keyword(lexicon: Seq<ScanView>, text: Seq<char>, word: Seq<char>) -> bool {
    scan_keywords(scanned_tokens(lexicon, text)).contains(word)
}

/// The custom keywords that the literals `lits` call for.
pub open spec fn keywords_of(lits: Seq<Seq<char>>, lexicon: Seq<ScanView>) -> Set<Seq<char>> {
    Set::new(
        |word: Seq<char>|
            exists|i: int| 0 <= i < lits.len() && names_keyword(lexicon, #[trigger] lits[i], word),
    )
}

/// The custom keywords of the literals of two lists are those of the one
/// list together with those of the other.
pub proof fn lemma_keywords_of_concat(a: Seq<Seq<char>>, b: Seq<Seq<char>>, lexicon: Seq<ScanView>)
    ensures
        keywords_of(a + b, lexicon) == keywords_of(a, lexicon).union(keywords_of(b, lexicon)),
{
    assert forall|w: Seq<char>| keywords_of(a + b, lexicon).contains(w) <==> keywords_of(
        a,
        lexicon,
    ).union(keywords_of(b, lexicon)).contains(w) by {
        if keywords_of(a + b, lexicon).contains(w) {
            let i = choose|i: int|
                0 <= i < (a + b).len() && names_keyword(lexicon, #[trigger] (a + b)[i], w);
            if i < a.len() {
                assert((a + b)[i] == a[i]);
            } else {
                assert((a + b)[i] == b[i - a.len()]);
            }
        }
        if keywords_of(a, lexicon).contains(w) {
            let i = choose|i: int| 0 <= i < a.len() && names_keyword(lexicon, #[trigger] a[i], w);
            assert((a + b)[i] == a[i]);
        }
        if keywords_of(b, lexicon).contains(w) {
            let i = choose|i: int| 0 <= i < b.len() && names_keyword(lexicon, #[trigger] b[i], w);
            assert((a + b)[i + a.len()] == b[i]);
        }
    }
    assert(keywords_of(a + b, lexicon) =~= keywords_of(a, lexicon).union(keywords_of(b, lexicon)));
}

spec fn words_upto(views: Seq<ScannedTokenView>, n: int) -> Set<Seq<char>> {
    Set::new(
        |word: Seq<char>|
            exists|k: int| 0 <= k < n && k < views.len() && is_keyword_token(#[trigger] views[k], word),
    )
}

/// Adds to `kws` the custom keywords that the tokens of one literal call
/// for: each word among them that the tokenizer took for an identifier and
/// that is not `_`, unless the list holds it already.
pub fn keywords_in_scan(scanned: &Option<Vec<ScannedToken>>, kws: &mut Vec<String>)
    requires
        texts(old(kws)@).no_duplicates(),
    ensures
        texts(final(kws)@).no_duplicates(),
        name_set(final(kws)@) == name_set(old(kws)@).union(scan_keywords(scanned_views(*scanned))),
{
    match scanned {
        None => {
            proof {
                assert(name_set(kws@) =~= name_set(old(kws)@).union(scan_keywords(None)));
            }
        },
        Some(tokens) => {
            let ghost views = scan_views(tokens@);
            let mut i: usize = 0;
            proof {
                assert(name_set(kws@) =~= name_set(old(kws)@).union(words_upto(views, 0)));
            }
            while i < tokens.len()
                invariant
                    i <= tokens@.len(),
                    views == scan_views(tokens@),
                    texts(kws@).no_duplicates(),
                    name_set(kws@) == name_set(old(kws)@).union(words_upto(views, i as int)),
                decreases tokens@.len() - i,
            {
                assert(views[i as int] == tokens@[i as int]@);
                if let LexToken::Ident(word) = &tokens[i].token {
                    let is_underscore = *word == String::from_str("_");
                    if !is_underscore && tokens[i].is_identifier && !contains_text(
                        kws,
                        word.as_str(),
                    ) {
                        proof {
                            lemma_name_set_push(kws@, *word);
                        }
                        kws.push(word.clone());
                    }
                }
                proof {
                    let target = name_set(old(kws)@).union(words_upto(views, i + 1));
                    assert forall|w: Seq<char>| name_set(kws@).contains(w) <==> target.contains(
                        w,
                    ) by {
                        if words_upto(views, i + 1).contains(w) && !words_upto(
                            views,
                            i as int,
                        ).contains(w) {
                            let k = choose|k: int|
                                0 <= k < i + 1 && k < views.len() && is_keyword_token(
                                    #[trigger] views[k],
                                    w,
                                );
                            assert(k == i);
                        }
                        if words_upto(views, i as int).contains(w) {
                            let k = choose|k: int|
                                0 <= k < i && k < views.len() && is_keyword_token(
                                    #[trigger] views[k],
                                    w,
                                );
                            assert(is_keyword_token(views[k], w));
                        }
                    }
                    assert(name_set(kws@) =~= target);
                }
                i += 1;
            }
            proof {
                assert forall|w: Seq<char>| words_upto(views, views.len() as int).contains(w)
                    <==> scan_keywords(Some(views)).contains(w) by {
                    if scan_keywords(Some(views)).contains(w) {
                        let k = choose|k: int|
                            0 <= k < views.len() && is_keyword_token(#[trigger] views[k], w);
                        assert(is_keyword_token(views[k], w));
                    }
                    if words_upto(views, views.len() as int).contains(w) {
                        let k = choose|k: int|
                            0 <= k < views.len() && k < views.len() && is_keyword_token(
                                #[trigger] views[k],
                                w,
                            );
                        assert(is_keyword_token(views[k], w));
                    }
                }
                assert(words_upto(views, views.len() as int) =~= scan_keywords(Some(views)));
            }
        },
    }
}

fn collect_from_literal(text: &String, lexicon: &Vec<Scan>, kws: &mut Vec<String>)
    requires
        texts(old(kws)@).no_duplicates(),
    ensures
        texts(final(kws)@).no_duplicates(),
        name_set(final(kws)@) == name_set(old(kws)@).union(
            keywords_of(seq![text@], lexicon_view(lexicon@)),
        ),
{
    let ghost lits = seq![text@];
    let ghost lex = lexicon_view(lexicon@);
    match look_up(lexicon, text.as_str()) {
        Some(scan) => keywords_in_scan(&scan.tokens, kws),
        None => keywords_in_scan(&None, kws),
    }
    proof {
        let found = scan_keywords(scanned_tokens(lex, text@));
        assert forall|w: Seq<char>| found.contains(w) <==> keywords_of(lits, lex).contains(w) by {
            if keywords_of(lits, lex).contains(w) {
                let q = choose|q: int| 0 <= q < lits.len() && names_keyword(lex, #[trigger] lits[q], w);
                assert(lits[q] == text@);
            }
            if found.contains(w) {
                assert(names_keyword(lex, lits[0], w));
            }
        }
        assert(found =~= keywords_of(lits, lex));
    }
}

fn collect_from_pattern(p: &ModelPattern, lexicon: &Vec<Scan>, kws: &mut Vec<String>)
    requires
        texts(old(kws)@).no_duplicates(),
    ensures
        texts(final(kws)@).no_duplicates(),
        name_set(final(kws)@) == name_set(old(kws)@).union(keywords_of(pattern_literals(*p), lexicon_view(lexicon@))),
    decreases p, 0nat,
{
    match p {
        ModelPattern::Lit(lit) => {
            collect_from_literal(&lit.value, lexicon, kws);
        },
        ModelPattern::Group(alts, _) => {
            let mut k: usize = 0;
            proof {
                assert(
                    name_set(kws@) =~= name_set(old(kws)@).union(
                        keywords_of(group_literals(alts@, 0), lexicon_view(lexicon@)),
                    )
                );
            }
            while k < alts.len()
                invariant
                    k <= alts@.len(),
                    *p matches ModelPattern::Group(a, _) && a == *alts,
                    texts(kws@).no_duplicates(),
                    name_set(kws@) == name_set(old(kws)@).union(
                        keywords_of(group_literals(alts@, k as nat), lexicon_view(lexicon@)),
                    ),
                decreases alts@.len() - k,
            {
                collect_from_patterns(&alts[k], lexicon, kws);
                proof {
                    lemma_keywords_of_concat(
                        group_literals(alts@, k as nat),
                        sequence_literals(alts@[k as int]@, alts@[k as int]@.len()), lexicon_view(lexicon@));
                    assert(name_set(kws@) =~= name_set(old(kws)@).union(
                        keywords_of(group_literals(alts@, (k + 1) as nat), lexicon_view(lexicon@)),
                    ));
                }
                k += 1;
            }
        },
        ModelPattern::Bracketed(s, _)
        | ModelPattern::Braced(s, _)
        | ModelPattern::Parenthesized(s, _) => {
            collect_from_patterns(s, lexicon, kws);
        },
        ModelPattern::Optional(inner, _)
        | ModelPattern::Repeat(inner, _)
        | ModelPattern::Plus(inner, _) => {
            collect_from_pattern(inner, lexicon, kws);
        },
        ModelPattern::SpanBinding(inner, _, _) => {
            collect_from_pattern(inner, lexicon, kws);
        },
        ModelPattern::Recover { body, sync, .. } => {
            collect_from_pattern(body, lexicon, kws);
            collect_from_pattern(sync, lexicon, kws);
            proof {
                lemma_keywords_of_concat(pattern_literals(**body), pattern_literals(**sync), lexicon_view(lexicon@));
                assert(
                    name_set(kws@) =~= name_set(old(kws)@).union(keywords_of(pattern_literals(*p), lexicon_view(lexicon@)))
                );
            }
        },
        ModelPattern::Peek(inner, _) | ModelPattern::Not(inner, _) => {
            collect_from_pattern(inner, lexicon, kws);
        },
        _ => {
            proof {
                assert(
                    name_set(kws@) =~= name_set(old(kws)@).union(keywords_of(pattern_literals(*p), lexicon_view(lexicon@)))
                );
            }
        },
    }
}

fn collect_from_patterns(patterns: &Vec<ModelPattern>, lexicon: &Vec<Scan>, kws: &mut Vec<String>)
    requires
        texts(old(kws)@).no_duplicates(),
    ensures
        texts(final(kws)@).no_duplicates(),
        name_set(final(kws)@) == name_set(old(kws)@).union(
            keywords_of(sequence_literals(patterns@, patterns@.len()), lexicon_view(lexicon@)),
        ),
    decreases patterns, 1nat,
{
    let mut i: usize = 0;
    proof {
        assert(
            name_set(kws@) =~= name_set(old(kws)@).union(
                keywords_of(sequence_literals(patterns@, 0), lexicon_view(lexicon@)),
            )
        );
    }
    while i < patterns.len()
        invariant
            i <= patterns@.len(),
            texts(kws@).no_duplicates(),
            name_set(kws@) == name_set(old(kws)@).union(
                keywords_of(sequence_literals(patterns@, i as nat), lexicon_view(lexicon@)),
            ),
        decreases patterns@.len() - i,
    {
        collect_from_pattern(&patterns[i], lexicon, kws);
        proof {
            lemma_keywords_of_concat(
                sequence_literals(patterns@, i as nat),
                pattern_literals(patterns@[i as int]), lexicon_view(lexicon@));
            assert(name_set(kws@) =~= name_set(old(kws)@).union(
                keywords_of(sequence_literals(patterns@, (i + 1) as nat), lexicon_view(lexicon@)),
            ));
        }
        i += 1;
    }
}

/// Collects the custom keywords of a grammar, given a lexicon.
///
/// The result holds each word once, and holds a word exactly when the tokens
/// that the lexicon holds for some literal of the grammar have it among them
/// as an identifier other than `_`.
pub fn collect_keywords_with(grammar: &GrammarDefinition, lexicon: &Vec<Scan>) -> (kws: Vec<String>)
    ensures
        texts(kws@).no_duplicates(),
        name_set(kws@) == keywords_of(
            grammar_literals(grammar, grammar.rules@.len()),
            lexicon_view(lexicon@),
        ),
{
    let mut kws: Vec<String> = Vec::new();
    let mut n: usize = 0;
    proof {
        assert(name_set(kws@) =~= keywords_of(grammar_literals(grammar, 0), lexicon_view(lexicon@)));
    }
    while n < grammar.rules.len()
        invariant
            n <= grammar.rules@.len(),
            texts(kws@).no_duplicates(),
            name_set(kws@) == keywords_of(grammar_literals(grammar, n as nat), lexicon_view(lexicon@)),
        decreases grammar.rules@.len() - n,
    {
        let rule = &grammar.rules[n];
        let ghost start = kws@;
        let mut v: usize = 0;
        proof {
            assert(name_set(kws@) =~= name_set(start).union(keywords_of(rule_literals(rule, 0), lexicon_view(lexicon@))));
        }
        while v < rule.variants.len()
            invariant
                n < grammar.rules@.len(),
                rule == &grammar.rules@[n as int],
                v <= rule.variants@.len(),
                texts(kws@).no_duplicates(),
                name_set(start) == keywords_of(grammar_literals(grammar, n as nat), lexicon_view(lexicon@)),
                name_set(kws@) == name_set(start).union(keywords_of(rule_literals(rule, v as nat), lexicon_view(lexicon@))),
            decreases rule.variants@.len() - v,
        {
            collect_from_patterns(&rule.variants[v].pattern, lexicon, &mut kws);
            proof {
                lemma_keywords_of_concat(
                    rule_literals(rule, v as nat),
                    sequence_literals(
                        rule.variants@[v as int].pattern@,
                        rule.variants@[v as int].pattern@.len(),
                    ), lexicon_view(lexicon@));
                assert(name_set(kws@) =~= name_set(start).union(
                    keywords_of(rule_literals(rule, (v + 1) as nat), lexicon_view(lexicon@)),
                ));
            }
            v += 1;
        }
        proof {
            lemma_keywords_of_concat(
                grammar_literals(grammar, n as nat),
                rule_literals(rule, rule.variants@.len()), lexicon_view(lexicon@));
        }
        n += 1;
    }
    kws
}

/// Has the tokenizer scan the literals of a grammar and collects its custom
/// keywords: the result is what [`collect_keywords_with`] gives for a lexicon
/// that holds a scan of every literal of the grammar.
pub fn collect_custom_keywords(grammar: &GrammarDefinition) -> (kws: Vec<String>)
    ensures
        texts(kws@).no_duplicates(),
        exists|lexicon: Seq<ScanView>|
            covers_grammar(lexicon, grammar) && name_set(kws@) == #[trigger] keywords_of(
                grammar_literals(grammar, grammar.rules@.len()),
                lexicon,
            ),
{
    let lexicon = scan_grammar(grammar);
    let kws = collect_keywords_with(grammar, &lexicon);
    assert(name_set(kws@) == keywords_of(
        grammar_literals(grammar, grammar.rules@.len()),
        lexicon_view(lexicon@),
    ));
    kws
}

} // verus!

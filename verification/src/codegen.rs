//! The synthesis of control-flow plans from a validated grammar.

use crate::analysis::{
    find_cut, get_dispatch_key, get_inner_binding, has_cut, inner_binding, is_first_cut,
    is_nullable, is_unique_alternative, key_count, pointees, split_left_recursive,
};
use crate::error::{name_set, texts, GrammarError, GrammarErrorView};
use crate::keywords::{collect_keywords_with, grammar_literals, keywords_of};
use crate::lexicon::{covers_grammar, scan_grammar};
use crate::model::{
    GrammarDefinition, Identifier, ModelPattern, Rule, RuleVariant, StringLiteral,
};
use crate::plan::{
    bare_realizes, can_capture, captured_name, cut_between, effective_binding, entry_matches, entry_token, group_error,
    guard_matches, lemma_group_error_stops, lemma_sequence_error_stops, name_text, pattern_error,
    literal_tokens, peek_of, sequence_error, sequences, step_realizes,
    steps_realize, target_matches,
    value_name, AltPlan, CallTarget, Delimiter, Dispatch, Env, Primitive, Step,
};
use crate::plan::{
    alt_realizes, alternatives_realize, base_variants, grammar_error, grammar_realizes, lemma_filter_members, lemma_grammar_error_stops, lemma_variants_error_stops,
    recursive_variants, rule_error, rule_realizes, tail_realizes, variant_sequences,
    variants_error, GrammarPlan, RuleBody, RulePlan, TailPlan,
};
use crate::recursion::variant_starts_with_call;
use crate::tokens::{
    contains_text, get_text_peek, lexicon_view, peek_with, resolve_with, type_views, PeekToken,
    PeekTokenView, Scan, ScanView, TokenType, TokenTypeView,
};
use vstd::prelude::*;

verus! {

/// The state of plan synthesis for one grammar.
pub struct Codegen<'a> {
    pub grammar: &'a GrammarDefinition,
    /// The names of the grammar's rules, in the order of declaration.
    pub user_rules: Vec<String>,
    /// The custom keywords of the grammar; they count for an input of tokens only.
    pub custom_keywords: Vec<String>,
    /// Whether the plans are made for an input of tokens, in which a literal
    /// falls apart into tokens, or for an input of characters.
    pub tokenized: bool,
    /// What the tokenizer gave for the literals of the grammar; it counts for
    /// an input of tokens only.
    pub lexicon: Vec<Scan>,
}

/// The names of the rules of `grammar`, in the order of declaration.
pub open spec fn rule_names(grammar: &GrammarDefinition) -> Seq<Seq<char>> {
    Seq::new(grammar.rules@.len(), |i: int| grammar.rules@[i].name@)
}

/// The pattern sequences that `seqs` points at.
pub open spec fn seq_views(seqs: Seq<&Vec<ModelPattern>>) -> Seq<Seq<ModelPattern>> {
    Seq::new(seqs.len(), |i: int| seqs[i]@)
}

/// Tells of each alternative whether it alone among its siblings counts
/// under its dispatch key.
pub fn tally_unique(seqs: &Vec<&Vec<ModelPattern>>) -> (flags: Vec<bool>)
    ensures
        flags@.len() == seqs@.len(),
        forall|i: int|
            0 <= i < seqs@.len() ==> #[trigger] flags@[i] == is_unique_alternative(
                seq_views(seqs@),
                i,
            ),
{
    let ghost views = seq_views(seqs@);
    let n = seqs.len();
    let mut flags: Vec<bool> = Vec::new();
    let mut i: usize = 0;
    while i < n
        invariant
            n == seqs@.len(),
            views == seq_views(seqs@),
            i <= n,
            flags@.len() == i,
            forall|k: int| 0 <= k < i ==> #[trigger] flags@[k] == is_unique_alternative(views, k),
        decreases n - i,
    {
        assert(views[i as int] == seqs@[i as int]@);
        let unique = match get_dispatch_key(seqs[i]) {
            None => false,
            Some(key) => {
                let mut count: usize = 0;
                let mut j: usize = 0;
                while j < n
                    invariant
                        n == seqs@.len(),
                        views == seq_views(seqs@),
                        j <= n,
                        count <= j,
                        count == key_count(views, key@, j as nat),
                    decreases n - j,
                {
                    assert(views[j as int] == seqs@[j as int]@);
                    let same = match get_dispatch_key(seqs[j]) {
                        Some(other) => other == key,
                        None => false,
                    };
                    if same {
                        count += 1;
                    }
                    j += 1;
                }
                count == 1
            },
        };
        flags.push(unique);
        i += 1;
    }
    flags
}

fn copy_name(name: &Option<String>) -> (c: Option<String>)
    ensures
        name_text(c) == name_text(*name),
{
    match name {
        Some(s) => Some(s.clone()),
        None => None,
    }
}

fn own_or_forced(own: &Option<Identifier>, forced: Option<String>) -> (c: Option<String>)
    ensures
        name_text(c) == effective_binding(*own, name_text(forced)),
{
    match own {
        Some(b) => Some(b.text.clone()),
        None => forced,
    }
}

fn text_is(s: &String, wanted: &str) -> (b: bool)
    ensures
        b == (s@ == wanted@),
{
    *s == String::from_str(wanted)
}

fn make_value_name(span_name: &Identifier) -> (s: String)
    ensures
        s@ == value_name(span_name@),
{
    let mut s = String::from_str("_val_");
    s.append(span_name.text.as_str());
    s
}

/// The way an alternative with patterns `ps` is entered, given whether it
/// alone among its siblings counts under its dispatch key, and its commit point.
pub open spec fn entry_decided(a: AltPlan, ps: Seq<ModelPattern>, unique: bool, env: Env) -> bool {
    &&& match a.dispatch {
        Dispatch::Commit { token } => unique && entry_token(ps, env) == Ok::<_, GrammarErrorView>(
            Some(token@),
        ),
        Dispatch::Attempt { guard } => !(unique && entry_token(ps, env) matches Ok(Some(_)))
            && guard_matches(guard, entry_token(ps, env)),
    }
    &&& match a.commit_after {
        Some(k) => is_first_cut(ps, k as int),
        None => !has_cut(ps),
    }
}

impl<'a> Codegen<'a> {
    /// What plans are made against: the rule names, the custom keywords and
    /// the kind of input.
    pub open spec fn env(&self) -> Env {
        Env {
            rules: texts(self.user_rules@),
            keywords: texts(self.custom_keywords@),
            tokenized: self.tokenized,
            lexicon: lexicon_view(self.lexicon@),
        }
    }

    /// Prepares plan synthesis for `grammar` and an input of characters: lists
    /// the names of its rules.
    pub fn new(grammar: &'a GrammarDefinition) -> (c: Codegen<'a>)
        ensures
            c.grammar == grammar,
            c.env() == character_env(grammar),
    {
        let user_rules = Self::list_rules(grammar);
        let custom_keywords: Vec<String> = Vec::new();
        let lexicon: Vec<Scan> = Vec::new();
        assert(texts(custom_keywords@) =~= Seq::<Seq<char>>::empty());
        assert(lexicon_view(lexicon@) =~= Seq::<ScanView>::empty());
        Codegen { grammar, user_rules, custom_keywords, tokenized: false, lexicon }
    }

    /// Prepares plan synthesis for `grammar` and an input of tokens: lists the
    /// names of its rules, has the tokenizer scan its literals, each text
    /// once, and collects its custom keywords from what the tokenizer gave.
    ///
    /// Whatever the tokenizer gave stands in the lexicon, and every plan made
    /// afterwards goes by it.
    pub fn for_token_stream(grammar: &'a GrammarDefinition) -> (c: Codegen<'a>)
        ensures
            c.grammar == grammar,
            c.env().rules == rule_names(grammar),
            c.env().tokenized,
            covers_grammar(c.env().lexicon, grammar),
            c.env().keywords.no_duplicates(),
            name_set(c.custom_keywords@) == keywords_of(
                grammar_literals(grammar, grammar.rules@.len()),
                c.env().lexicon,
            ),
    {
        let user_rules = Self::list_rules(grammar);
        let lexicon = scan_grammar(grammar);
        let custom_keywords = collect_keywords_with(grammar, &lexicon);
        Codegen { grammar, user_rules, custom_keywords, tokenized: true, lexicon }
    }

    fn list_rules(grammar: &GrammarDefinition) -> (user_rules: Vec<String>)
        ensures
            texts(user_rules@) == rule_names(grammar),
    {
        let mut user_rules: Vec<String> = Vec::new();
        let mut i: usize = 0;
        while i < grammar.rules.len()
            invariant
                i <= grammar.rules@.len(),
                user_rules@.len() == i,
                forall|k: int| 0 <= k < i ==> (
                    #[trigger] user_rules@[k]
                )@ == grammar.rules@[k].name@,
            decreases grammar.rules@.len() - i,
        {
            user_rules.push(grammar.rules[i].name.text.clone());
            i += 1;
        }
        assert(texts(user_rules@) =~= rule_names(grammar));
        user_rules
    }

    /// Resolves the name of a called rule: to the first rule of the grammar
    /// with that name, else to the primitive of that name, else to the name.
    pub fn resolve_call(&self, rule_name: &Identifier) -> (t: CallTarget)
        ensures
            target_matches(t, self.env(), rule_name@),
    {
        let ghost rules = texts(self.user_rules@);
        let mut i: usize = 0;
        while i < self.user_rules.len()
            invariant
                i <= self.user_rules@.len(),
                rules == texts(self.user_rules@),
                forall|j: int| 0 <= j < i ==> #[trigger] rules[j] != rule_name@,
            decreases self.user_rules@.len() - i,
        {
            if self.user_rules[i] == rule_name.text {
                assert(rules[i as int] == rule_name@);
                return CallTarget::Rule { index: i, name: rule_name.text.clone() };
            }
            i += 1;
        }
        let name = &rule_name.text;
        if text_is(name, "ident") {
            CallTarget::Primitive(Primitive::Ident)
        } else if text_is(name, "integer") {
            CallTarget::Primitive(Primitive::Integer)
        } else if text_is(name, "uint") {
            CallTarget::Primitive(Primitive::Uint)
        } else if text_is(name, "string") {
            CallTarget::Primitive(Primitive::String)
        } else if text_is(name, "char") {
            CallTarget::Primitive(Primitive::Char)
        } else {
            CallTarget::Named(name.clone())
        }
    }

    fn find_peek(&self, pattern: &ModelPattern) -> (r: Result<Option<PeekToken>, GrammarError>)
        ensures
            match r {
                Ok(Some(t)) => peek_of(*pattern, self.env()) == Ok::<_, GrammarErrorView>(Some(t@)),
                Ok(None) => peek_of(*pattern, self.env()) == Ok::<
                    Option<PeekTokenView>,
                    GrammarErrorView,
                >(None),
                Err(e) => peek_of(*pattern, self.env()) == Err::<Option<PeekTokenView>, GrammarErrorView>(
                    e@,
                ),
            },
    {
        if self.tokenized {
            peek_with(pattern, &self.custom_keywords, &self.lexicon)
        } else {
            Ok(get_text_peek(pattern))
        }
    }

    fn guard_for(&self, pattern: &ModelPattern) -> (g: Option<PeekToken>)
        ensures
            guard_matches(g, peek_of(*pattern, self.env())),
    {
        match self.find_peek(pattern) {
            Ok(Some(t)) => Some(t),
            _ => None,
        }
    }

    fn split_literal(&self, lit: &StringLiteral) -> (r: Result<Vec<TokenType>, GrammarError>)
        ensures
            match r {
                Ok(tokens) => literal_tokens(*lit, self.env()) == Ok::<_, GrammarErrorView>(
                    type_views(tokens@),
                ),
                Err(e) => literal_tokens(*lit, self.env()) == Err::<Seq<TokenTypeView>, GrammarErrorView>(
                    e@,
                ),
            },
    {
        if self.tokenized {
            resolve_with(lit, &self.custom_keywords, &self.lexicon)
        } else {
            let mut tokens: Vec<TokenType> = Vec::new();
            tokens.push(TokenType::Token(lit.value.clone()));
            assert(type_views(tokens@) =~= seq![TokenTypeView::Token(lit@)]);
            Ok(tokens)
        }
    }

    /// Plans the call of a rule: resolves the name and plans each argument.
    pub fn generate_rule_call_parser(
        &self,
        rule_name: &Identifier,
        args: &Vec<ModelPattern>,
        binding: Option<String>,
    ) -> (r: Result<Step, GrammarError>)
        ensures
            match r {
                Ok(s) => {
                    &&& sequence_error(args@, 0, args@.len(), self.env()) is None
                    &&& s matches Step::Call { binding: b, target, args: a }
                    &&& name_text(b) == name_text(binding)
                    &&& target_matches(target, self.env(), rule_name@)
                    &&& a@.len() == args@.len()
                    &&& forall|i: int|
                        0 <= i < args@.len() ==> step_realizes(
                            a@[i],
                            #[trigger] args@[i],
                            false,
                            self.env(),
                            None,
                        )
                },
                Err(e) => sequence_error(args@, 0, args@.len(), self.env()) == Some(e@),
            },
        decreases args, 2nat,
    {
        let target = self.resolve_call(rule_name);
        let mut planned: Vec<Step> = Vec::new();
        let mut i: usize = 0;
        while i < args.len()
            invariant
                i <= args@.len(),
                planned@.len() == i,
                sequence_error(args@, 0, i as nat, self.env()) is None,
                forall|k: int|
                    0 <= k < i ==> step_realizes(
                        planned@[k],
                        #[trigger] args@[k],
                        false,
                        self.env(),
                        None,
                    ),
            decreases args@.len() - i,
        {
            match self.plan_pattern(&args[i], false, None) {
                Ok(s) => {
                    planned.push(s);
                },
                Err(e) => {
                    proof {
                        lemma_sequence_error_stops(args@, 0, (i + 1) as nat, self.env());
                    }
                    return Err(e);
                },
            }
            i += 1;
        }
        Ok(Step::Call { binding, target, args: planned })
    }

    /// Plans a pattern that stands where a single parser is expected: no
    /// commit point is in force at its start.
    pub fn generate_parser_expr(&self, pattern: &ModelPattern) -> (r: Result<Step, GrammarError>)
        ensures
            match r {
                Ok(s) => pattern_error(*pattern, self.env()) is None && step_realizes(
                    s,
                    *pattern,
                    false,
                    self.env(),
                    None,
                ),
                Err(e) => pattern_error(*pattern, self.env()) == Some(e@),
            },
    {
        self.plan_pattern(pattern, false, None)
    }

    fn plan_bare(&self, pattern: &ModelPattern, forced: Option<String>) -> (r: Result<
        Step,
        GrammarError,
    >)
        requires
            !(*pattern is Cut),
            !(*pattern is Bracketed),
            !(*pattern is Braced),
            !(*pattern is Parenthesized),
        ensures
            match r {
                Ok(s) => pattern_error(*pattern, self.env()) is None && bare_realizes(
                    s,
                    *pattern,
                    self.env(),
                    name_text(forced),
                ),
                Err(e) => pattern_error(*pattern, self.env()) == Some(e@),
            },
        decreases pattern, 0nat,
    {
        match pattern {
            ModelPattern::Lit(lit) => {
                match self.split_literal(lit) {
                    Ok(tokens) => Ok(Step::Literal { text: lit.value.clone(), tokens }),
                    Err(e) => Err(e),
                }
            },
            ModelPattern::RuleCall { binding, rule_name, args } => {
                let name = own_or_forced(binding, forced);
                self.generate_rule_call_parser(rule_name, args, name)
            },
            ModelPattern::Group(alts, _) => {
                match self.generate_choice(alts) {
                    Ok(alternatives) => Ok(Step::Choice { alternatives }),
                    Err(e) => Err(e),
                }
            },
            ModelPattern::Optional(inner, _) => {
                match self.plan_pattern(inner, false, None) {
                    Ok(s) => {
                        let guard = if is_nullable(inner) {
                            None
                        } else {
                            self.guard_for(inner)
                        };
                        Ok(Step::Optional { inner: Box::new(s), guard })
                    },
                    Err(e) => Err(e),
                }
            },
            ModelPattern::Repeat(inner, _) => {
                match self.plan_pattern(inner, false, None) {
                    Ok(s) => Ok(
                        Step::Repeat {
                            inner: Box::new(s),
                            at_least_one: false,
                            guard: self.guard_for(inner),
                        },
                    ),
                    Err(e) => Err(e),
                }
            },
            ModelPattern::Plus(inner, _) => {
                match self.plan_pattern(inner, false, None) {
                    Ok(s) => Ok(
                        Step::Repeat {
                            inner: Box::new(s),
                            at_least_one: true,
                            guard: self.guard_for(inner),
                        },
                    ),
                    Err(e) => Err(e),
                }
            },
            ModelPattern::SpanBinding(inner, name, _) => {
                let fallback = make_value_name(name);
                let own = match &**inner {
                    ModelPattern::RuleCall { binding, .. } => binding.as_ref(),
                    ModelPattern::Recover { binding, .. } => binding.as_ref(),
                    other => {
                        if self.tokenized {
                            return Err(GrammarError::SpanBindingTarget { span: name.span });
                        }
                        get_inner_binding(other)
                    },
                };
                let value = match own {
                    Some(b) => b.text.clone(),
                    None => fallback.clone(),
                };
                match self.plan_pattern(inner, false, Some(fallback)) {
                    Ok(s) => Ok(
                        Step::Capture { inner: Box::new(s), value, span: name.text.clone() },
                    ),
                    Err(e) => Err(e),
                }
            },
            ModelPattern::Recover { binding, body, sync, .. } => {
                let name = own_or_forced(binding, forced);
                let handed_down = match &**body {
                    ModelPattern::RuleCall { .. } => copy_name(&name),
                    _ => None,
                };
                let planned = match self.plan_pattern(body, false, handed_down) {
                    Ok(s) => s,
                    Err(e) => {
                        return Err(e);
                    },
                };
                match self.find_peek(sync) {
                    Ok(Some(token)) => Ok(
                        Step::Recover { binding: name, body: Box::new(planned), sync: token },
                    ),
                    Ok(None) => Err(GrammarError::RecoverWithoutAnchor { span: sync.span() }),
                    Err(e) => Err(e),
                }
            },
            ModelPattern::Peek(inner, _) => {
                match self.plan_pattern(inner, false, None) {
                    Ok(s) => Ok(Step::Lookahead { inner: Box::new(s), negated: false }),
                    Err(e) => Err(e),
                }
            },
            ModelPattern::Not(inner, _) => {
                match self.plan_pattern(inner, false, None) {
                    Ok(s) => Ok(Step::Lookahead { inner: Box::new(s), negated: true }),
                    Err(e) => Err(e),
                }
            },
            _ => {
                // Commit points and delimited regions are left out by the precondition.
                Ok(Step::Cut)
            },
        }
    }

    fn plan_pattern(
        &self,
        pattern: &ModelPattern,
        in_cut: bool,
        forced: Option<String>,
    ) -> (r: Result<
        Step,
        GrammarError,
    >)
        ensures
            match r {
                Ok(s) => pattern_error(*pattern, self.env()) is None && step_realizes(
                    s,
                    *pattern,
                    in_cut,
                    self.env(),
                    name_text(forced),
                ),
                Err(e) => pattern_error(*pattern, self.env()) == Some(e@),
            },
        decreases pattern, 1nat,
    {
        match pattern {
            ModelPattern::Cut(_) => Ok(Step::Cut),
            ModelPattern::Bracketed(inner, _) => self.generate_delimited_step(
                inner,
                Delimiter::Bracket,
                in_cut,
            ),
            ModelPattern::Braced(inner, _) => self.generate_delimited_step(
                inner,
                Delimiter::Brace,
                in_cut,
            ),
            ModelPattern::Parenthesized(inner, _) => self.generate_delimited_step(
                inner,
                Delimiter::Paren,
                in_cut,
            ),
            _ => {
                match self.plan_bare(pattern, forced) {
                    Ok(bare) => if in_cut {
                        Ok(Step::Committed(Box::new(bare)))
                    } else {
                        Ok(bare)
                    },
                    Err(e) => Err(e),
                }
            },
        }
    }

    /// Plans one pattern of a sequence; `in_cut` says whether the pattern
    /// stands behind a commit point.
    pub fn generate_step(
        &self,
        pattern: &ModelPattern,
        in_cut: bool,
    ) -> (r: Result<Step, GrammarError>)
        ensures
            match r {
                Ok(s) => pattern_error(*pattern, self.env()) is None && step_realizes(
                    s,
                    *pattern,
                    in_cut,
                    self.env(),
                    None,
                ),
                Err(e) => pattern_error(*pattern, self.env()) == Some(e@),
            },
    {
        self.plan_pattern(pattern, in_cut, None)
    }

    /// Plans a delimited region: the opening delimiter, the steps between,
    /// and the closing delimiter. A commit point before the region, or inside
    /// it, makes a missing closing delimiter fatal.
    pub fn generate_delimited_step(
        &self,
        inner: &Vec<ModelPattern>,
        delimiter: Delimiter,
        in_cut: bool,
    ) -> (r:
        Result<Step, GrammarError>)
        ensures
            match r {
                Ok(s) => {
                    &&& sequence_error(inner@, 0, inner@.len(), self.env()) is None
                    &&& s matches Step::Delimited { delimiter: d, open_committed, content: steps, close_committed }
                    &&& d == delimiter
                    &&& open_committed == in_cut
                    &&& close_committed == (in_cut || has_cut(inner@))
                    &&& steps_realize(steps@, inner@, 0, in_cut, self.env())
                },
                Err(e) => sequence_error(inner@, 0, inner@.len(), self.env()) == Some(e@),
            },
        decreases inner, 3nat,
    {
        let steps = match self.plan_sequence(inner, 0, in_cut) {
            Ok(steps) => steps,
            Err(e) => {
                return Err(e);
            },
        };
        let inner_triggers_cut = find_cut(inner).is_some();
        Ok(
            Step::Delimited {
                delimiter,
                open_committed: in_cut,
                content: steps,
                close_committed: in_cut || inner_triggers_cut,
            },
        )
    }

    fn plan_sequence(&self, patterns: &Vec<ModelPattern>, from: usize, in_cut: bool) -> (r: Result<
        Vec<Step>,
        GrammarError,
    >)
        requires
            from <= patterns@.len(),
        ensures
            match r {
                Ok(steps) => sequence_error(
                    patterns@,
                    from as int,
                    patterns@.len(),
                    self.env(),
                ) is None
                    && steps_realize(steps@, patterns@, from as int, in_cut, self.env()),
                Err(e) => sequence_error(
                    patterns@,
                    from as int,
                    patterns@.len(),
                    self.env(),
                ) == Some(
                    e@,
                ),
            },
        decreases patterns, 2nat,
    {
        let mut steps: Vec<Step> = Vec::new();
        let mut cut = in_cut;
        let mut i: usize = from;
        while i < patterns.len()
            invariant
                from <= i <= patterns@.len(),
                steps@.len() == i - from,
                cut == (in_cut || cut_between(patterns@, from as int, i as int)),
                sequence_error(patterns@, from as int, i as nat, self.env()) is None,
                forall|k: int|
                    from <= k < i ==> step_realizes(
                        steps@[k - from],
                        #[trigger] patterns@[k],
                        in_cut || cut_between(patterns@, from as int, k),
                        self.env(),
                        None,
                    ),
            decreases patterns@.len() - i,
        {
            match self.plan_pattern(&patterns[i], cut, None) {
                Ok(s) => {
                    steps.push(s);
                },
                Err(e) => {
                    proof {
                        lemma_sequence_error_stops(
                            patterns@,
                            from as int,
                            (i + 1) as nat,
                            self.env(),
                        );
                    }
                    return Err(e);
                },
            }
            if let ModelPattern::Cut(_) = &patterns[i] {
                cut = true;
            }
            proof {
                if cut_between(patterns@, from as int, i + 1) {
                    let k = choose|k: int|
                        from <= k < i + 1 && 0 <= k < patterns@.len() && (
                            #[trigger] patterns@[k]
                        ) is Cut;
                    if k < i {
                        assert(cut_between(patterns@, from as int, i as int));
                    }
                }
                if cut_between(patterns@, from as int, i as int) {
                    let k = choose|k: int|
                        from <= k < i && 0 <= k < patterns@.len() && (
                            #[trigger] patterns@[k]
                        ) is Cut;
                    assert(patterns@[k] is Cut);
                }
                if patterns@[i as int] is Cut {
                    assert(cut_between(patterns@, from as int, i + 1));
                }
            }
            i += 1;
        }
        Ok(steps)
    }

    /// Plans the patterns of a sequence in order; `in_cut` says whether the
    /// sequence stands behind a commit point.
    pub fn generate_sequence_steps(&self, patterns: &Vec<ModelPattern>, in_cut: bool) -> (r: Result<
        Vec<Step>,
        GrammarError,
    >)
        ensures
            match r {
                Ok(steps) => sequence_error(patterns@, 0, patterns@.len(), self.env()) is None
                    && steps_realize(steps@, patterns@, 0, in_cut, self.env()),
                Err(e) => sequence_error(patterns@, 0, patterns@.len(), self.env()) == Some(e@),
            },
    {
        self.plan_sequence(patterns, 0, in_cut)
    }

    /// Plans a sequence that stands where a single parser is expected, such as
    /// an alternative of a group: no commit point is in force at its start.
    pub fn generate_sequence_parser(&self, seq: &Vec<ModelPattern>) -> (
        r: Result<Vec<Step>, GrammarError>
    )
        ensures
            match r {
                Ok(steps) => sequence_error(
                    seq@,
                    0,
                    seq@.len(),
                    self.env(),
                ) is None && steps_realize(
                    steps@,
                    seq@,
                    0,
                    false,
                    self.env(),
                ),
                Err(e) => sequence_error(seq@, 0, seq@.len(), self.env()) == Some(e@),
            },
    {
        self.plan_sequence(seq, 0, false)
    }

    /// Plans a delimited region that stands where a single parser is
    /// expected: no commit point is in force at its start.
    pub fn generate_delimited_expr(
        &self,
        inner: &Vec<ModelPattern>,
        delimiter: Delimiter,
    ) -> (r: Result<
        Step,
        GrammarError,
    >)
        ensures
            match r {
                Ok(s) => {
                    &&& sequence_error(inner@, 0, inner@.len(), self.env()) is None
                    &&& s matches Step::Delimited { delimiter: d, open_committed, content: steps, close_committed }
                    &&& d == delimiter
                    &&& !open_committed
                    &&& close_committed == has_cut(inner@)
                    &&& steps_realize(steps@, inner@, 0, false, self.env())
                },
                Err(e) => sequence_error(inner@, 0, inner@.len(), self.env()) == Some(e@),
            },
    {
        self.generate_delimited_step(inner, delimiter, false)
    }

    fn plan_alternative(
        &self,
        patterns: &Vec<ModelPattern>,
        variant: usize,
        unique: bool,
        action: Option<String>,
    ) -> (r: Result<AltPlan, GrammarError>)
        ensures
            match r {
                Ok(a) => {
                    &&& sequence_error(patterns@, 0, patterns@.len(), self.env()) is None
                    &&& a.variant == variant
                    &&& name_text(a.action) == name_text(action)
                    &&& steps_realize(a.steps@, patterns@, 0, false, self.env())
                    &&& entry_decided(a, patterns@, unique, self.env())
                },
                Err(e) => sequence_error(patterns@, 0, patterns@.len(), self.env()) == Some(e@),
            },
        decreases patterns, 3nat,
    {
        let steps = match self.plan_sequence(patterns, 0, false) {
            Ok(steps) => steps,
            Err(e) => {
                return Err(e);
            },
        };
        let token = if patterns.len() == 0 || is_nullable(&patterns[0]) {
            None
        } else {
            self.guard_for(&patterns[0])
        };
        let dispatch = match token {
            Some(t) => if unique {
                Dispatch::Commit { token: t }
            } else {
                Dispatch::Attempt { guard: Some(t) }
            },
            None => Dispatch::Attempt { guard: None },
        };
        let commit_after = match find_cut(patterns) {
            Some(cut) => Some(cut.index),
            None => None,
        };
        Ok(AltPlan { variant, dispatch, steps, commit_after, action })
    }

    /// Plans the ordered choice between the alternatives of a group.
    pub fn generate_choice(&self, alts: &Vec<Vec<ModelPattern>>) -> (
        r: Result<Vec<AltPlan>, GrammarError>
    )
        ensures
            match r {
                Ok(plans) => {
                    &&& group_error(alts@, alts@.len(), self.env()) is None
                    &&& plans@.len() == alts@.len()
                    &&& forall|i: int|
                        0 <= i < alts@.len() ==> {
                            &&& (#[trigger] plans@[i]).variant == i
                            &&& plans@[i].action is None
                            &&& steps_realize(plans@[i].steps@, alts@[i]@, 0, false, self.env())
                            &&& entry_matches(plans@[i], sequences(alts@), i, self.env())
                        }
                },
                Err(e) => group_error(alts@, alts@.len(), self.env()) == Some(e@),
            },
        decreases alts, 4nat,
    {
        let mut seqs: Vec<&Vec<ModelPattern>> = Vec::new();
        let mut k: usize = 0;
        while k < alts.len()
            invariant
                k <= alts@.len(),
                seqs@.len() == k,
                forall|q: int| 0 <= q < k ==> (#[trigger] seqs@[q])@ == alts@[q]@,
            decreases alts@.len() - k,
        {
            seqs.push(&alts[k]);
            k += 1;
        }
        assert(seq_views(seqs@) =~= sequences(alts@));
        let flags = tally_unique(&seqs);
        let mut plans: Vec<AltPlan> = Vec::new();
        let mut i: usize = 0;
        while i < alts.len()
            invariant
                i <= alts@.len(),
                plans@.len() == i,
                flags@.len() == alts@.len(),
                forall|q: int|
                    0 <= q < alts@.len() ==> #[trigger] flags@[q] == is_unique_alternative(
                        sequences(alts@),
                        q,
                    ),
                group_error(alts@, i as nat, self.env()) is None,
                forall|q: int|
                    0 <= q < i ==> {
                        &&& (#[trigger] plans@[q]).variant == q
                        &&& plans@[q].action is None
                        &&& steps_realize(plans@[q].steps@, alts@[q]@, 0, false, self.env())
                        &&& entry_matches(plans@[q], sequences(alts@), q, self.env())
                    },
            decreases alts@.len() - i,
        {
            assert(sequences(alts@)[i as int] == alts@[i as int]@);
            match self.plan_alternative(&alts[i], i, flags[i], None) {
                Ok(a) => {
                    plans.push(a);
                },
                Err(e) => {
                    proof {
                        lemma_group_error_stops(alts@, (i + 1) as nat, self.env());
                    }
                    return Err(e);
                },
            }
            i += 1;
        }
        Ok(plans)
    }

    /// Plans the ordered choice between the alternatives of a rule: each is
    /// entered for good on its first token where that token is its alone, and
    /// as a speculative attempt otherwise.
    pub fn generate_variants_body(&self, variants: &Vec<&RuleVariant>) -> (r: Result<
        Vec<AltPlan>,
        GrammarError,
    >)
        ensures
            match r {
                Ok(plans) => variants_error(
                    variant_sequences(pointees(variants@)),
                    0,
                    variants@.len(),
                    self.env(),
                ) is None && alternatives_realize(plans@, pointees(variants@), self.env()),
                Err(e) => variants_error(
                    variant_sequences(pointees(variants@)),
                    0,
                    variants@.len(),
                    self.env(),
                ) == Some(e@),
            },
    {
        let ghost vs = pointees(variants@);
        let ghost all = variant_sequences(vs);
        let mut seqs: Vec<&Vec<ModelPattern>> = Vec::new();
        let mut k: usize = 0;
        while k < variants.len()
            invariant
                k <= variants@.len(),
                seqs@.len() == k,
                forall|q: int| 0 <= q < k ==> (#[trigger] seqs@[q])@ == variants@[q].pattern@,
            decreases variants@.len() - k,
        {
            seqs.push(&variants[k].pattern);
            k += 1;
        }
        assert(seq_views(seqs@) =~= all);
        let flags = tally_unique(&seqs);
        let mut plans: Vec<AltPlan> = Vec::new();
        let mut i: usize = 0;
        while i < variants.len()
            invariant
                i <= variants@.len(),
                vs == pointees(variants@),
                all == variant_sequences(vs),
                plans@.len() == i,
                flags@.len() == variants@.len(),
                forall|q: int|
                    0 <= q < variants@.len() ==> #[trigger] flags@[q] == is_unique_alternative(
                        all,
                        q,
                    ),
                variants_error(all, 0, i as nat, self.env()) is None,
                forall|q: int|
                    0 <= q < i ==> alt_realizes(#[trigger] plans@[q], all, q, q, self.env())
                        && name_text(plans@[q].action) == Some(vs[q].action@),
            decreases variants@.len() - i,
        {
            assert(all[i as int] == variants@[i as int].pattern@);
            assert(vs[i as int] == *variants@[i as int]);
            let action = Some(variants[i].action.clone());
            match self.plan_alternative(&variants[i].pattern, i, flags[i], action) {
                Ok(a) => {
                    plans.push(a);
                },
                Err(e) => {
                    proof {
                        lemma_variants_error_stops(all, 0, (i + 1) as nat, self.env());
                    }
                    return Err(e);
                },
            }
            i += 1;
        }
        Ok(plans)
    }

    /// Plans the loop arms of a left-recursive rule, one for each recursive
    /// alternative: the recursive call itself is dropped, since the seed
    /// stands for it, and what follows it is planned as a sequence.
    pub fn generate_recursive_loop_body(&self, variants: &Vec<&RuleVariant>) -> (r: Result<
        Vec<TailPlan>,
        GrammarError,
    >)
        requires
            forall|i: int| 0 <= i < variants@.len() ==> (
                #[trigger] variants@[i]
            ).pattern@.len() > 0,
        ensures
            match r {
                Ok(tails) => {
                    &&& variants_error(
                        variant_sequences(pointees(variants@)),
                        1,
                        variants@.len(),
                        self.env(),
                    ) is None
                    &&& tails@.len() == variants@.len()
                    &&& forall|k: int|
                        0 <= k < variants@.len() ==> tail_realizes(
                            #[trigger] tails@[k],
                            *variants@[k],
                            self.env(),
                        ) && tails@[k].variant == k
                },
                Err(e) => variants_error(
                    variant_sequences(pointees(variants@)),
                    1,
                    variants@.len(),
                    self.env(),
                ) == Some(e@),
            },
    {
        let ghost all = variant_sequences(pointees(variants@));
        let mut tails: Vec<TailPlan> = Vec::new();
        let mut i: usize = 0;
        while i < variants.len()
            invariant
                i <= variants@.len(),
                all == variant_sequences(pointees(variants@)),
                tails@.len() == i,
                forall|q: int| 0 <= q < variants@.len() ==> (
                    #[trigger] variants@[q]
                ).pattern@.len() > 0,
                variants_error(all, 1, i as nat, self.env()) is None,
                forall|k: int|
                    0 <= k < i ==> tail_realizes(#[trigger] tails@[k], *variants@[k], self.env())
                        && tails@[k].variant == k,
            decreases variants@.len() - i,
        {
            let v = variants[i];
            assert(all[i as int] == v.pattern@);
            let seed_binding = match &v.pattern[0] {
                ModelPattern::RuleCall { binding: Some(b), .. } => Some(b.text.clone()),
                _ => None,
            };
            let steps = match self.plan_sequence(&v.pattern, 1, false) {
                Ok(steps) => steps,
                Err(e) => {
                    proof {
                        lemma_variants_error_stops(all, 1, (i + 1) as nat, self.env());
                    }
                    return Err(e);
                },
            };
            let guard = if v.pattern.len() > 1 {
                self.guard_for(&v.pattern[1])
            } else {
                None
            };
            tails.push(
                TailPlan { variant: i, seed_binding, guard, steps, action: v.action.clone() },
            );
            i += 1;
        }
        Ok(tails)
    }

    /// Plans one rule.
    ///
    /// A rule none of whose alternatives starts with a call of the rule itself
    /// becomes an ordered choice. Any other needs an alternative that does not:
    /// from these the seed is parsed, and the recursive alternatives become the
    /// arms of the loop that grows it.
    pub fn generate_rule(&self, rule: &Rule) -> (r: Result<RulePlan, GrammarError>)
        ensures
            match r {
                Ok(plan) => rule_error(rule, self.env()) is None && rule_realizes(
                    plan,
                    rule,
                    self.env(),
                ),
                Err(e) => rule_error(rule, self.env()) == Some(e@),
            },
    {
        let is_public = rule.is_pub || text_is(&rule.name.text, "main");
        let (recursive_refs, base_refs) = split_left_recursive(&rule.name, &rule.variants);
        assert(pointees(recursive_refs@) == recursive_variants(rule));
        assert(pointees(base_refs@) == base_variants(rule));
        let body = if recursive_refs.len() == 0 {
            match self.generate_variants_body(&base_refs) {
                Ok(plans) => RuleBody::Choice(plans),
                Err(e) => {
                    return Err(e);
                },
            }
        } else if base_refs.len() == 0 {
            return Err(
                GrammarError::MissingBaseVariant { rule: rule.name.text.clone(), span: rule.name.span },
            );
        } else {
            let base = match self.generate_variants_body(&base_refs) {
                Ok(plans) => plans,
                Err(e) => {
                    return Err(e);
                },
            };
            proof {
                assert forall|i: int| 0 <= i < recursive_refs@.len() implies (
                #[trigger] recursive_refs@[i]).pattern@.len() > 0 by {
                    lemma_filter_members(
                        rule.variants@,
                        |v: RuleVariant| variant_starts_with_call(v, rule.name@),
                        i,
                    );
                    assert(pointees(recursive_refs@)[i] == *recursive_refs@[i]);
                }
            }
            let tails = match self.generate_recursive_loop_body(&recursive_refs) {
                Ok(tails) => tails,
                Err(e) => {
                    return Err(e);
                },
            };
            proof {
                assert forall|k: int| 0 <= k < recursive_variants(rule).len() implies tail_realizes(
                    #[trigger] tails@[k],
                    recursive_variants(rule)[k],
                    self.env(),
                ) && tails@[k].variant == k by {
                    assert(pointees(recursive_refs@)[k] == *recursive_refs@[k]);
                }
            }
            RuleBody::LeftRecursive { base, tails }
        };
        let mut params: Vec<String> = Vec::new();
        let mut k: usize = 0;
        while k < rule.params.len()
            invariant
                k <= rule.params@.len(),
                params@.len() == k,
                forall|q: int| 0 <= q < k ==> (#[trigger] params@[q])@ == rule.params@[q].0@,
            decreases rule.params@.len() - k,
        {
            params.push(rule.params[k].0.text.clone());
            k += 1;
        }
        Ok(RulePlan { name: rule.name.text.clone(), params, is_public, body })
    }

    /// Plans every rule of the grammar, in the order of declaration, and
    /// stops at the first rule that cannot be planned.
    pub fn generate(&self) -> (r: Result<GrammarPlan, GrammarError>)
        ensures
            match r {
                Ok(plan) => grammar_error(
                    self.grammar,
                    self.grammar.rules@.len(),
                    self.env(),
                ) is None
                    && grammar_realizes(plan, self.grammar, self.env()),
                Err(e) => grammar_error(
                    self.grammar,
                    self.grammar.rules@.len(),
                    self.env(),
                ) == Some(
                    e@,
                ),
            },
    {
        let has_user_ws = contains_text(&self.user_rules, "ws");
        let mut rules: Vec<RulePlan> = Vec::new();
        let mut i: usize = 0;
        while i < self.grammar.rules.len()
            invariant
                i <= self.grammar.rules@.len(),
                rules@.len() == i,
                grammar_error(self.grammar, i as nat, self.env()) is None,
                forall|k: int|
                    0 <= k < i ==> rule_realizes(
                        #[trigger] rules@[k],
                        &self.grammar.rules@[k],
                        self.env(),
                    ),
            decreases self.grammar.rules@.len() - i,
        {
            match self.generate_rule(&self.grammar.rules[i]) {
                Ok(plan) => {
                    rules.push(plan);
                },
                Err(e) => {
                    proof {
                        lemma_grammar_error_stops(self.grammar, (i + 1) as nat, self.env());
                    }
                    return Err(e);
                },
            }
            i += 1;
        }
        Ok(GrammarPlan { name: self.grammar.name.text.clone(), has_user_ws, rules })
    }
}

/// Compiles a grammar to its plan for an input of characters: one plan for
/// each rule, in the order of declaration, or the first error that planning
/// runs into.
pub fn generate_rust(grammar: &GrammarDefinition) -> (r: Result<GrammarPlan, GrammarError>)
    ensures
        match r {
            Ok(plan) => grammar_error(grammar, grammar.rules@.len(), character_env(grammar)) is None
                && grammar_realizes(plan, grammar, character_env(grammar)),
            Err(e) => grammar_error(
                grammar,
                grammar.rules@.len(),
                character_env(grammar),
            ) == Some(e@),
        },
{
    let codegen = Codegen::new(grammar);
    codegen.generate()
}

/// What the plans for an input of characters are made against.
pub open spec fn character_env(grammar: &GrammarDefinition) -> Env {
    Env {
        rules: rule_names(grammar),
        keywords: Seq::empty(),
        tokenized: false,
        lexicon: Seq::empty(),
    }
}

} // verus!

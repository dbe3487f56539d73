//! The control-flow plan that a grammar is compiled to, and what it means for
//! a plan to realize a piece of the grammar.

use crate::analysis::{
    has_cut, inner_binding, is_first_cut, is_unique_alternative, nullable,
};
use crate::error::GrammarErrorView;
use crate::model::{
    GrammarDefinition, Identifier, ModelPattern, Rule, RuleVariant, StringLiteral,
};
use crate::recursion::variant_starts_with_call;
use crate::tokens::{
    literal_verdict, scanned_tokens, simple_peek, text_peek, type_views, PeekToken,
    PeekTokenView, ScanView, TokenType, TokenTypeView,
};
use vstd::prelude::*;

verus! {

/// The primitive matchers that every backend is expected to bring along.
#[derive(Clone, Copy, Debug, PartialEq, Eq, Structural)]
pub enum Primitive {
    Ident,
    Integer,
    Uint,
    String,
    Char,
}

/// The three kinds of delimited regions.
#[derive(Clone, Copy, Debug, PartialEq, Eq, Structural)]
pub enum Delimiter {
    Paren,
    Bracket,
    Brace,
}

/// What a rule call is resolved to when the plan is made.
#[derive(Debug)]
pub enum CallTarget {
    /// A rule of the grammar itself, by position and name.
    Rule { index: usize, name: String },
    /// A primitive matcher of the backend.
    Primitive(Primitive),
    /// Anything else: a parser that the backend finds under this name, such as
    /// a rule of the parent grammar or a parameter of the calling rule.
    Named(String),
}

/// How an alternative is entered.
#[derive(Debug)]
pub enum Dispatch {
    /// Run the alternative as a speculative attempt and roll back when it
    /// fails; with a guard, only where the next token is the guard.
    Attempt { guard: Option<PeekToken> },
    /// Where the next token is `token`, run the alternative for good: no
    /// sibling starts with this token, so its failure is the failure of the
    /// whole choice.
    Commit { token: PeekToken },
}

/// One alternative of an ordered choice.
#[derive(Debug)]
pub struct AltPlan {
    /// The position of the alternative among those declared.
    pub variant: usize,
    pub dispatch: Dispatch,
    /// One step for each pattern of the alternative, in order.
    pub steps: Vec<Step>,
    /// The number of steps before the commit point, if the alternative has one.
    pub commit_after: Option<usize>,
    /// The action that builds the result, for an alternative of a rule. An
    /// alternative of a group has none: it hands on what it has bound.
    pub action: Option<String>,
}

/// One recursive alternative of a left-recursive rule, as an arm of the loop
/// that grows the seed.
#[derive(Debug)]
pub struct TailPlan {
    /// The position of the alternative among the recursive ones.
    pub variant: usize,
    /// The name under which the alternative sees the seed.
    pub seed_binding: Option<String>,
    /// The token to look for before the arm is tried, where there is one.
    pub guard: Option<PeekToken>,
    /// The steps for what follows the recursive call.
    pub steps: Vec<Step>,
    /// The action that builds the new seed.
    pub action: String,
}

/// The body of a rule.
#[derive(Debug)]
pub enum RuleBody {
    /// An ordered choice between all alternatives.
    Choice(Vec<AltPlan>),
    /// A seed from the base alternatives, then a loop over the recursive
    /// ones that ends when none of them matches.
    LeftRecursive { base: Vec<AltPlan>, tails: Vec<TailPlan> },
}

/// The plan for one rule.
#[derive(Debug)]
pub struct RulePlan {
    pub name: String,
    /// The names of the parameters of the rule, in order.
    pub params: Vec<String>,
    /// Whether the parser of the rule is visible outside the grammar.
    pub is_public: bool,
    pub body: RuleBody,
}

/// The plan for a whole grammar.
#[derive(Debug)]
pub struct GrammarPlan {
    pub name: String,
    /// Whether the grammar brings a rule of its own for skipping white space:
    /// a rule called `ws`. Where it does, that rule takes the place of the
    /// default skipper before every token.
    pub has_user_ws: bool,
    /// One plan for each rule, in the order of declaration.
    pub rules: Vec<RulePlan>,
}

/// One operation of a plan.
#[derive(Debug)]
pub enum Step {
    /// A commit point: the steps after it in its sequence do not fall back.
    Cut,
    /// A step that stands behind a commit point: its failure is fatal.
    Committed(Box<Step>),
    /// Match the tokens of a literal, with nothing between them.
    Literal { text: String, tokens: Vec<TokenType> },
    /// Call a parser; each argument is a plan of its own.
    Call { binding: Option<String>, target: CallTarget, args: Vec<Step> },
    /// Try the alternatives in order.
    Choice { alternatives: Vec<AltPlan> },
    /// Match the opening delimiter, the steps, and the closing delimiter.
    Delimited { delimiter: Delimiter, open_committed: bool, content: Vec<Step>, close_committed: bool },
    /// Try the step; carry on whether or not it matched. With a guard the
    /// step is not even tried unless the next token is the guard.
    Optional { inner: Box<Step>, guard: Option<PeekToken> },
    /// Run the step as often as it matches, and at least once where
    /// `at_least_one` is set. With a guard, as long as the next token is the guard.
    Repeat { inner: Box<Step>, at_least_one: bool, guard: Option<PeekToken> },
    /// Run the step that binds `value`, and bind the range it consumed to `span`.
    Capture { inner: Box<Step>, value: String, span: String },
    /// Try the step; when it fails, skip input up to the next `sync` token.
    Recover { binding: Option<String>, body: Box<Step>, sync: PeekToken },
    /// Run the step without consuming input; with `negated`, succeed exactly
    /// when the step fails.
    Lookahead { inner: Box<Step>, negated: bool },
}

/// What the plan is made against: the names of the grammar's rules, in
/// order, and the kind of input. For an input of tokens, literals are split
/// into the tokens that the lexicon holds for them and the custom keywords of
/// the grammar count; for an input of characters a literal is the text that
/// it is.
pub struct Env {
    pub rules: Seq<Seq<char>>,
    pub keywords: Seq<Seq<char>>,
    pub tokenized: bool,
    /// What the tokenizer gave for the literals; it counts for an input of
    /// tokens only.
    pub lexicon: Seq<ScanView>,
}

/// The tokens that the literal `lit` is matched as.
pub open spec fn literal_tokens(lit: StringLiteral, env: Env) -> Result<Seq<TokenTypeView>, GrammarErrorView> {
    if env.tokenized {
        literal_verdict(lit, env.keywords, scanned_tokens(env.lexicon, lit@))
    } else {
        Ok(seq![TokenTypeView::Token(lit@)])
    }
}

/// The token that a match of `p` must begin with, where `p` alone decides it.
pub open spec fn peek_of(p: ModelPattern, env: Env) -> Result<Option<PeekTokenView>, GrammarErrorView> {
    if env.tokenized {
        simple_peek(p, env.keywords, env.lexicon)
    } else {
        Ok(text_peek(p))
    }
}

/// The primitive matcher that goes by `name`, if there is one.
pub open spec fn primitive_named(name: Seq<char>) -> Option<Primitive> {
    if name == "ident"@ {
        Some(Primitive::Ident)
    } else if name == "integer"@ {
        Some(Primitive::Integer)
    } else if name == "uint"@ {
        Some(Primitive::Uint)
    } else if name == "string"@ {
        Some(Primitive::String)
    } else if name == "char"@ {
        Some(Primitive::Char)
    } else {
        None
    }
}

/// `t` is what a call of `name` resolves to: the first rule of that name
/// where there is one, else the primitive of that name, else the name itself.
pub open spec fn target_matches(t: CallTarget, env: Env, name: Seq<char>) -> bool {
    match t {
        CallTarget::Rule { index, name: n } => {
            &&& n@ == name
            &&& index < env.rules.len()
            &&& env.rules[index as int] == name
            &&& forall|j: int| 0 <= j < index ==> #[trigger] env.rules[j] != name
        },
        CallTarget::Primitive(p) => !env.rules.contains(name) && primitive_named(name) == Some(p),
        CallTarget::Named(n) => n@ == name && !env.rules.contains(name) && primitive_named(name)
            is None,
    }
}

/// The text of an optional name.
pub open spec fn name_text(name: Option<String>) -> Option<Seq<char>> {
    match name {
        Some(s) => Some(s@),
        None => None,
    }
}

/// The text of an optional identifier.
pub open spec fn ident_text(name: Option<Identifier>) -> Option<Seq<char>> {
    match name {
        Some(s) => Some(s@),
        None => None,
    }
}

/// The name that a binding gets: its own where it has one, else the one that
/// the enclosing pattern hands down.
pub open spec fn effective_binding(own: Option<Identifier>, forced: Option<Seq<char>>) -> Option<
    Seq<char>,
> {
    match own {
        Some(b) => Some(b@),
        None => forced,
    }
}

/// The guard `g` is the token that the analysis found, and no guard where it
/// found none or failed.
pub open spec fn guard_matches(
    g: Option<PeekToken>,
    found: Result<Option<PeekTokenView>, GrammarErrorView>,
) -> bool {
    match g {
        Some(t) => found == Ok::<Option<PeekTokenView>, GrammarErrorView>(Some(t@)),
        None => !(found matches Ok(Some(_))),
    }
}

/// The name under which the value of a span binding `span_name` is kept when
/// the bound pattern has no name of its own.
pub open spec fn value_name(span_name: Seq<char>) -> Seq<char> {
    "_val_"@ + span_name
}

/// The range that a match of `inner` takes can be bound: on an input of
/// characters that of any pattern, on an input of tokens that of a rule call
/// or of a recovery region only.
pub open spec fn can_capture(inner: ModelPattern, env: Env) -> bool {
    !env.tokenized || inner is RuleCall || inner is Recover
}

/// The name under which the value of the pattern `inner` is kept where a
/// span binding `span_name` stands around it: the binding of the pattern
/// where it has one, else the name made from that of the span.
pub open spec fn captured_name(inner: ModelPattern, span_name: Seq<char>) -> Seq<char> {
    let own = match inner {
        ModelPattern::Recover { binding, .. } => binding,
        _ => inner_binding(inner),
    };
    match own {
        Some(b) => b@,
        None => value_name(span_name),
    }
}

/// Some pattern of `ps` from position `from` up to, not including, `i` is a
/// commit point.
pub open spec fn cut_between(ps: Seq<ModelPattern>, from: int, i: int) -> bool {
    exists|k: int| from <= k < i && 0 <= k < ps.len() && (#[trigger] ps[k]) is Cut
}

/// The delimiter of a delimited pattern.
pub open spec fn delimiter_of(p: ModelPattern) -> Delimiter {
    match p {
        ModelPattern::Bracketed(_, _) => Delimiter::Bracket,
        ModelPattern::Braced(_, _) => Delimiter::Brace,
        _ => Delimiter::Paren,
    }
}

/// The step `s` is the plan for the pattern `p`.
///
/// `in_cut` says whether `p` stands behind a commit point; `forced` is the
/// name that a span binding or a recovery region around `p` hands down to it.
pub open spec fn step_realizes(
    s: Step,
    p: ModelPattern,
    in_cut: bool,
    env: Env,
    forced: Option<Seq<char>>,
) -> bool
    decreases p, 1nat,
{
    match p {
        ModelPattern::Cut(_) => s is Cut,
        ModelPattern::Bracketed(inner, _) => delimited_realizes(s, p, inner@, in_cut, env),
        ModelPattern::Braced(inner, _) => delimited_realizes(s, p, inner@, in_cut, env),
        ModelPattern::Parenthesized(inner, _) => delimited_realizes(s, p, inner@, in_cut, env),
        _ => if in_cut {
            s matches Step::Committed(bare) && bare_realizes(*bare, p, env, forced)
        } else {
            bare_realizes(s, p, env, forced)
        },
    }
}

/// The step `s` is the plan for the delimited pattern `p` around `inner`: a
/// commit point before `p` or inside `inner` makes the closing delimiter fatal.
pub open spec fn delimited_realizes(
    s: Step,
    p: ModelPattern,
    inner: Seq<ModelPattern>,
    in_cut: bool,
    env: Env,
) -> bool
    decreases inner, 3nat,
{
    &&& s matches Step::Delimited { delimiter, open_committed, content: steps, close_committed }
    &&& delimiter == delimiter_of(p)
    &&& open_committed == in_cut
    &&& close_committed == (in_cut || has_cut(inner))
    &&& steps_realize(steps@, inner, 0, in_cut, env)
}

/// The steps are the plans for the patterns of `ps` from position `from` on,
/// one for each; a pattern behind a commit point of the sequence is planned
/// as standing behind a commit point.
pub open spec fn steps_realize(
    steps: Seq<Step>,
    ps: Seq<ModelPattern>,
    from: int,
    in_cut: bool,
    env: Env,
) -> bool
    decreases ps, 2nat,
{
    &&& 0 <= from <= ps.len()
    &&& steps.len() == ps.len() - from
    &&& forall|i: int|
        from <= i < ps.len() ==> step_realizes(
            steps[i - from],
            #[trigger] ps[i],
            in_cut || cut_between(ps, from, i),
            env,
            None,
        )
}

/// The step `s`, taken by itself, is the plan for the pattern `p`, which is
/// neither a commit point nor a delimited region.
pub open spec fn bare_realizes(
    s: Step,
    p: ModelPattern,
    env: Env,
    forced: Option<Seq<char>>,
) -> bool
    decreases p, 0nat,
{
    match p {
        ModelPattern::Lit(lit) => {
            &&& s matches Step::Literal { text, tokens }
            &&& text@ == lit@
            &&& literal_tokens(lit, env) == Ok::<_, GrammarErrorView>(type_views(tokens@))
        },
        ModelPattern::RuleCall { binding, rule_name, args } => {
            &&& s matches Step::Call { binding: b, target, args: a }
            &&& name_text(b) == effective_binding(binding, forced)
            &&& target_matches(target, env, rule_name@)
            &&& a@.len() == args@.len()
            &&& forall|i: int|
                0 <= i < args@.len() ==> step_realizes(a@[i], #[trigger] args@[i], false, env, None)
        },
        ModelPattern::Group(alts, _) => {
            &&& s matches Step::Choice { alternatives }
            &&& alternatives@.len() == alts@.len()
            &&& forall|i: int|
                0 <= i < alts@.len() ==> {
                    &&& (#[trigger] alternatives@[i]).variant == i
                    &&& alternatives@[i].action is None
                    &&& steps_realize(alternatives@[i].steps@, alts@[i]@, 0, false, env)
                    &&& entry_matches(alternatives@[i], sequences(alts@), i, env)
                }
        },
        ModelPattern::Optional(inner, _) => {
            &&& s matches Step::Optional { inner: i, guard }
            &&& step_realizes(*i, *inner, false, env, None)
            &&& guard_matches(
                guard,
                if nullable(*inner) {
                    Ok(None)
                } else {
                    peek_of(*inner, env)
                },
            )
        },
        ModelPattern::Repeat(inner, _) => {
            &&& s matches Step::Repeat { inner: i, at_least_one, guard }
            &&& !at_least_one
            &&& step_realizes(*i, *inner, false, env, None)
            &&& guard_matches(guard, peek_of(*inner, env))
        },
        ModelPattern::Plus(inner, _) => {
            &&& s matches Step::Repeat { inner: i, at_least_one, guard }
            &&& at_least_one
            &&& step_realizes(*i, *inner, false, env, None)
            &&& guard_matches(guard, peek_of(*inner, env))
        },
        ModelPattern::SpanBinding(inner, name, _) => {
            &&& s matches Step::Capture { inner: i, value, span }
            &&& span@ == name@
            &&& can_capture(*inner, env)
            &&& value@ == captured_name(*inner, name@)
            &&& step_realizes(*i, *inner, false, env, Some(value_name(name@)))
        },
        ModelPattern::Recover { binding, body, sync, .. } => {
            &&& s matches Step::Recover { binding: b, body: inner, sync: token }
            &&& name_text(b) == effective_binding(binding, forced)
            &&& step_realizes(
                *inner,
                *body,
                false,
                env,
                if *body is RuleCall {
                    effective_binding(binding, forced)
                } else {
                    None
                },
            )
            &&& peek_of(*sync, env) == Ok::<_, GrammarErrorView>(Some(token@))
        },
        ModelPattern::Peek(inner, _) => {
            &&& s matches Step::Lookahead { inner: i, negated }
            &&& !negated
            &&& step_realizes(*i, *inner, false, env, None)
        },
        ModelPattern::Not(inner, _) => {
            &&& s matches Step::Lookahead { inner: i, negated }
            &&& negated
            &&& step_realizes(*i, *inner, false, env, None)
        },
        _ => false,
    }
}

/// The pattern sequences of the alternatives of a group.
pub open spec fn sequences(alts: Seq<Vec<ModelPattern>>) -> Seq<Seq<ModelPattern>> {
    Seq::new(alts.len(), |i: int| alts[i]@)
}

/// The token that alternative `ps` may be entered on: that of its first
/// pattern, unless the alternative is empty or that pattern can match nothing.
pub open spec fn entry_token(ps: Seq<ModelPattern>, env: Env) -> Result<
    Option<PeekTokenView>,
    GrammarErrorView,
> {
    if ps.len() == 0 || nullable(ps[0]) {
        Ok(None)
    } else {
        peek_of(ps[0], env)
    }
}

/// Alternative `i` of `siblings` is entered for good on its first token: it
/// has one, and none of its siblings counts under the same key.
pub open spec fn enters_committed(siblings: Seq<Seq<ModelPattern>>, i: int, env: Env) -> bool {
    entry_token(siblings[i], env) matches Ok(Some(_)) && is_unique_alternative(siblings, i)
}

/// The way `a` is entered and its commit point are those of alternative `i`
/// of `siblings`.
pub open spec fn entry_matches(
    a: AltPlan,
    siblings: Seq<Seq<ModelPattern>>,
    i: int,
    env: Env,
) -> bool {
    &&& match a.dispatch {
        Dispatch::Commit { token } => enters_committed(siblings, i, env) && entry_token(
            siblings[i],
            env,
        ) == Ok::<_, GrammarErrorView>(Some(token@)),
        Dispatch::Attempt { guard } => !enters_committed(siblings, i, env) && guard_matches(
            guard,
            entry_token(siblings[i], env),
        ),
    }
    &&& match a.commit_after {
        Some(k) => is_first_cut(siblings[i], k as int),
        None => !has_cut(siblings[i]),
    }
}

/// `a` is the plan for alternative `i` of `siblings`, which was declared in
/// position `variant`.
pub open spec fn alt_realizes(
    a: AltPlan,
    siblings: Seq<Seq<ModelPattern>>,
    i: int,
    variant: int,
    env: Env,
) -> bool {
    &&& a.variant == variant
    &&& steps_realize(a.steps@, siblings[i], 0, false, env)
    &&& entry_matches(a, siblings, i, env)
}

} // verus!

verus! {

/// The first error that planning the pattern `p` runs into: a literal that
/// cannot be parsed, a span binding on a pattern that cannot carry one, or a
/// recovery region whose synchronisation pattern has no first token.
pub open spec fn pattern_error(p: ModelPattern, env: Env) -> Option<GrammarErrorView>
    decreases p, 0nat,
{
    match p {
        ModelPattern::Cut(_) => None,
        ModelPattern::Lit(lit) => match literal_tokens(lit, env) {
            Err(e) => Some(e),
            Ok(_) => None,
        },
        ModelPattern::RuleCall { args, .. } => sequence_error(args@, 0, args@.len(), env),
        ModelPattern::Group(alts, _) => group_error(alts@, alts@.len(), env),
        ModelPattern::Bracketed(s, _) => sequence_error(s@, 0, s@.len(), env),
        ModelPattern::Braced(s, _) => sequence_error(s@, 0, s@.len(), env),
        ModelPattern::Parenthesized(s, _) => sequence_error(s@, 0, s@.len(), env),
        ModelPattern::Optional(inner, _) => pattern_error(*inner, env),
        ModelPattern::Repeat(inner, _) => pattern_error(*inner, env),
        ModelPattern::Plus(inner, _) => pattern_error(*inner, env),
        ModelPattern::Peek(inner, _) => pattern_error(*inner, env),
        ModelPattern::Not(inner, _) => pattern_error(*inner, env),
        ModelPattern::SpanBinding(inner, name, _) => if can_capture(*inner, env) {
            pattern_error(*inner, env)
        } else {
            Some(GrammarErrorView::SpanBindingTarget { span: name.span })
        },
        ModelPattern::Recover { body, sync, .. } => if pattern_error(*body, env) is Some {
            pattern_error(*body, env)
        } else {
            match peek_of(*sync, env) {
                Err(e) => Some(e),
                Ok(None) => Some(GrammarErrorView::RecoverWithoutAnchor { span: sync.spec_span() }),
                Ok(Some(_)) => None,
            }
        },
    }
}

/// The first error among the patterns of `ps` from position `from` up to,
/// not including, `n`.
pub open spec fn sequence_error(ps: Seq<ModelPattern>, from: int, n: nat, env: Env) -> Option<
    GrammarErrorView,
>
    decreases ps, n,
{
    if n <= from || from < 0 || n > ps.len() {
        None
    } else if sequence_error(ps, from, (n - 1) as nat, env) is Some {
        sequence_error(ps, from, (n - 1) as nat, env)
    } else {
        pattern_error(ps[n - 1], env)
    }
}

/// The first error among the first `n` alternatives of a group.
pub open spec fn group_error(
    alts: Seq<Vec<ModelPattern>>,
    n: nat,
    env: Env,
) -> Option<GrammarErrorView>
    decreases alts, n,
{
    if n == 0 || n > alts.len() {
        None
    } else if group_error(alts, (n - 1) as nat, env) is Some {
        group_error(alts, (n - 1) as nat, env)
    } else {
        sequence_error(alts[n - 1]@, 0, alts[n - 1]@.len(), env)
    }
}

/// Once the patterns up to `n` hold an error, so does the whole sequence,
/// and it is the same error.
pub proof fn lemma_sequence_error_stops(ps: Seq<ModelPattern>, from: int, n: nat, env: Env)
    requires
        n <= ps.len(),
        sequence_error(ps, from, n, env) is Some,
    ensures
        sequence_error(ps, from, ps.len(), env) == sequence_error(ps, from, n, env),
    decreases ps.len() - n,
{
    if n < ps.len() {
        lemma_sequence_error_stops(ps, from, n + 1, env);
    }
}

/// Once the alternatives up to `n` hold an error, so does the whole group,
/// and it is the same error.
pub proof fn lemma_group_error_stops(alts: Seq<Vec<ModelPattern>>, n: nat, env: Env)
    requires
        n <= alts.len(),
        group_error(alts, n, env) is Some,
    ensures
        group_error(alts, alts.len(), env) == group_error(alts, n, env),
    decreases alts.len() - n,
{
    if n < alts.len() {
        lemma_group_error_stops(alts, n + 1, env);
    }
}

} // verus!

verus! {

/// The pattern sequences of a list of alternatives.
pub open spec fn variant_sequences(vs: Seq<RuleVariant>) -> Seq<Seq<ModelPattern>> {
    Seq::new(vs.len(), |i: int| vs[i].pattern@)
}

/// The first error among the first `n` sequences of `seqs`, each searched
/// from position `from` on.
pub open spec fn variants_error(
    seqs: Seq<Seq<ModelPattern>>,
    from: int,
    n: nat,
    env: Env,
) -> Option<
    GrammarErrorView,
>
    decreases n,
{
    if n == 0 || n > seqs.len() {
        None
    } else if variants_error(seqs, from, (n - 1) as nat, env) is Some {
        variants_error(seqs, from, (n - 1) as nat, env)
    } else {
        sequence_error(seqs[n - 1], from, seqs[n - 1].len(), env)
    }
}

/// Once the sequences up to `n` hold an error, so do all of them together,
/// and it is the same error.
pub proof fn lemma_variants_error_stops(seqs: Seq<Seq<ModelPattern>>, from: int, n: nat, env: Env)
    requires
        n <= seqs.len(),
        variants_error(seqs, from, n, env) is Some,
    ensures
        variants_error(seqs, from, seqs.len(), env) == variants_error(seqs, from, n, env),
    decreases seqs.len() - n,
{
    if n < seqs.len() {
        lemma_variants_error_stops(seqs, from, n + 1, env);
    }
}

/// The plans are those of the alternatives `vs`, one for each and in the
/// order of declaration, each with the action of its alternative.
pub open spec fn alternatives_realize(plans: Seq<AltPlan>, vs: Seq<RuleVariant>, env: Env) -> bool {
    &&& plans.len() == vs.len()
    &&& forall|i: int|
        0 <= i < vs.len() ==> alt_realizes(#[trigger] plans[i], variant_sequences(vs), i, i, env)
            && name_text(plans[i].action) == Some(vs[i].action@)
}

/// `t` is the loop arm for the recursive alternative `v`: it names the seed as
/// the recursive call was bound, and plans what follows the call.
pub open spec fn tail_realizes(t: TailPlan, v: RuleVariant, env: Env) -> bool {
    &&& v.pattern@.len() > 0
    &&& name_text(t.seed_binding) == match v.pattern@[0] {
        ModelPattern::RuleCall { binding, .. } => ident_text(binding),
        _ => None,
    }
    &&& steps_realize(t.steps@, v.pattern@, 1, false, env)
    &&& guard_matches(
        t.guard,
        if v.pattern@.len() > 1 {
            peek_of(v.pattern@[1], env)
        } else {
            Ok(None)
        },
    )
    &&& t.action@ == v.action@
}

/// The alternatives of `rule` that start with a call of the rule itself.
pub open spec fn recursive_variants(rule: &Rule) -> Seq<RuleVariant> {
    rule.variants@.filter(|v: RuleVariant| variant_starts_with_call(v, rule.name@))
}

/// The alternatives of `rule` that do not start with a call of the rule itself.
pub open spec fn base_variants(rule: &Rule) -> Seq<RuleVariant> {
    rule.variants@.filter(|v: RuleVariant| !variant_starts_with_call(v, rule.name@))
}

/// `body` is the plan for the alternatives of `rule`: an ordered choice
/// where no alternative is left-recursive, and else a seed from the base
/// alternatives with one loop arm for each recursive alternative.
pub open spec fn body_realizes(body: RuleBody, rule: &Rule, env: Env) -> bool {
    let rec = recursive_variants(rule);
    let base = base_variants(rule);
    match body {
        RuleBody::Choice(plans) => rec.len() == 0 && alternatives_realize(plans@, base, env),
        RuleBody::LeftRecursive { base: seed, tails } => {
            &&& rec.len() > 0
            &&& base.len() > 0
            &&& alternatives_realize(seed@, base, env)
            &&& tails@.len() == rec.len()
            &&& forall|k: int|
                0 <= k < rec.len() ==> tail_realizes(
                    #[trigger] tails@[k],
                    rec[k],
                    env,
                ) && tails@[k].variant
                    == k
        },
    }
}

/// The first error that planning `rule` runs into: a left-recursive rule
/// without a base alternative, or else the first error among the base
/// alternatives and then among what follows the recursive calls.
pub open spec fn rule_error(rule: &Rule, env: Env) -> Option<GrammarErrorView> {
    let rec = variant_sequences(recursive_variants(rule));
    let base = variant_sequences(base_variants(rule));
    if rec.len() > 0 && base.len() == 0 {
        Some(GrammarErrorView::MissingBaseVariant { rule: rule.name@, span: rule.name.span })
    } else if variants_error(base, 0, base.len(), env) is Some {
        variants_error(base, 0, base.len(), env)
    } else {
        variants_error(rec, 1, rec.len(), env)
    }
}

/// `plan` is the plan for `rule`. The parser of a rule is visible outside
/// the grammar when the rule is declared so, and always when it is called `main`.
pub open spec fn rule_realizes(plan: RulePlan, rule: &Rule, env: Env) -> bool {
    &&& plan.name@ == rule.name@
    &&& plan.params@.len() == rule.params@.len()
    &&& forall|k: int| 0 <= k < rule.params@.len() ==> (
        #[trigger] plan.params@[k]
    )@ == rule.params@[k].0@
    &&& plan.is_public == (rule.is_pub || rule.name@ == "main"@)
    &&& body_realizes(plan.body, rule, env)
}

/// The first error that planning the first `n` rules of `grammar` runs into.
pub open spec fn grammar_error(grammar: &GrammarDefinition, n: nat, env: Env) -> Option<
    GrammarErrorView,
>
    decreases n,
{
    if n == 0 || n > grammar.rules@.len() {
        None
    } else if grammar_error(grammar, (n - 1) as nat, env) is Some {
        grammar_error(grammar, (n - 1) as nat, env)
    } else {
        rule_error(&grammar.rules@[n - 1], env)
    }
}

/// Once the rules up to `n` hold an error, so does the whole grammar, and it
/// is the same error.
pub proof fn lemma_grammar_error_stops(grammar: &GrammarDefinition, n: nat, env: Env)
    requires
        n <= grammar.rules@.len(),
        grammar_error(grammar, n, env) is Some,
    ensures
        grammar_error(grammar, grammar.rules@.len(), env) == grammar_error(grammar, n, env),
    decreases grammar.rules@.len() - n,
{
    if n < grammar.rules@.len() {
        lemma_grammar_error_stops(grammar, n + 1, env);
    }
}

/// `plan` is the plan for `grammar`: one plan for each rule, in the order of
/// declaration.
pub open spec fn grammar_realizes(
    plan: GrammarPlan,
    grammar: &GrammarDefinition,
    env: Env,
) -> bool {
    &&& plan.name@ == grammar.name@
    &&& plan.has_user_ws == env.rules.contains("ws"@)
    &&& plan.rules@.len() == grammar.rules@.len()
    &&& forall|i: int|
        0 <= i < grammar.rules@.len() ==> rule_realizes(
            #[trigger] plan.rules@[i],
            &grammar.rules@[i],
            env,
        )
}

/// Every member of a filtered list passes the filter.
pub proof fn lemma_filter_members<A>(s: Seq<A>, pred: spec_fn(A) -> bool, i: int)
    requires
        0 <= i < s.filter(pred).len(),
    ensures
        pred(s.filter(pred)[i]),
    decreases s.len(),
{
    reveal(Seq::filter);
    if s.len() > 0 {
        let rest = s.drop_last().filter(pred);
        if i < rest.len() {
            lemma_filter_members(s.drop_last(), pred, i);
        }
    }
}

} // verus!

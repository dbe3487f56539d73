//! The in-memory model of a grammar: rules, their ordered alternatives, and the
//! pattern tree of each alternative.

use crate::span::Span;
use vstd::prelude::*;
use vstd::std_specs::cmp::PartialEqSpecImpl;

verus! {

/// A name together with the place where it was written. Two identifiers are
/// equal when their texts are; the span takes no part in the comparison.
#[derive(Debug)]
pub struct Identifier {
    pub text: String,
    pub span: Span,
}

impl View for Identifier {
    type V = Seq<char>;

    open spec fn view(&self) -> Seq<char> {
        self.text@
    }
}

impl Identifier {
    pub fn new(text: &str, span: Span) -> (id: Identifier)
        ensures
            id@ == text@,
            id.span == span,
    {
        Identifier { text: String::from_str(text), span }
    }
}

impl Clone for Identifier {
    fn clone(&self) -> (c: Identifier)
        ensures
            c == *self,
    {
        Identifier { text: self.text.clone(), span: self.span }
    }
}

impl PartialEq for Identifier {
    fn eq(&self, other: &Identifier) -> (b: bool) {
        self.text == other.text
    }
}

impl PartialEqSpecImpl for Identifier {
    open spec fn obeys_eq_spec() -> bool {
        true
    }

    open spec fn eq_spec(&self, other: &Identifier) -> bool {
        self.text@ == other.text@
    }
}

impl Eq for Identifier {}

} // verus!

verus! {

/// The text of a literal together with the place where it was written.
/// Equality looks at the text only.
#[derive(Debug)]
pub struct StringLiteral {
    pub value: String,
    pub span: Span,
}

impl View for StringLiteral {
    type V = Seq<char>;

    open spec fn view(&self) -> Seq<char> {
        self.value@
    }
}

impl StringLiteral {
    pub fn new(value: &str, span: Span) -> (lit: StringLiteral)
        ensures
            lit@ == value@,
            lit.span == span,
    {
        StringLiteral { value: String::from_str(value), span }
    }
}

impl Clone for StringLiteral {
    fn clone(&self) -> (c: StringLiteral)
        ensures
            c == *self,
    {
        StringLiteral { value: self.value.clone(), span: self.span }
    }
}

impl PartialEq for StringLiteral {
    fn eq(&self, other: &StringLiteral) -> (b: bool) {
        self.value == other.value
    }
}

impl PartialEqSpecImpl for StringLiteral {
    open spec fn obeys_eq_spec() -> bool {
        true
    }

    open spec fn eq_spec(&self, other: &StringLiteral) -> bool {
        self.value@ == other.value@
    }
}

impl Eq for StringLiteral {}

/// One node of a pattern tree. Every node carries the span that diagnostics
/// about it point at.
#[derive(Debug)]
pub enum ModelPattern {
    /// A commit point; consumes nothing.
    Cut(Span),
    /// A literal token, or several tokens written without separation.
    Lit(StringLiteral),
    /// The invocation of a rule, user-defined or built in, with its arguments.
    RuleCall { binding: Option<Identifier>, rule_name: Identifier, args: Vec<ModelPattern> },
    /// An inline ordered choice between sequences.
    Group(Vec<Vec<ModelPattern>>, Span),
    /// A sequence between `[` and `]`.
    Bracketed(Vec<ModelPattern>, Span),
    /// A sequence between `{` and `}`.
    Braced(Vec<ModelPattern>, Span),
    /// A sequence between `(` and `)`.
    Parenthesized(Vec<ModelPattern>, Span),
    /// Zero or one occurrence.
    Optional(Box<ModelPattern>, Span),
    /// Zero or more occurrences.
    Repeat(Box<ModelPattern>, Span),
    /// One or more occurrences.
    Plus(Box<ModelPattern>, Span),
    /// Binds the source range that the inner pattern consumed.
    SpanBinding(Box<ModelPattern>, Identifier, Span),
    /// Tries `body`; when it fails, skips input up to where `sync` would match.
    Recover { binding: Option<Identifier>, body: Box<ModelPattern>, sync: Box<ModelPattern>, span: Span },
    /// Positive lookahead.
    Peek(Box<ModelPattern>, Span),
    /// Negative lookahead.
    Not(Box<ModelPattern>, Span),
}

impl ModelPattern {
    /// The span diagnostics about this node point at: for a literal and for a
    /// rule call that of the text or name, for every other node its own.
    pub open spec fn spec_span(&self) -> Span {
        match *self {
            ModelPattern::Cut(s) => s,
            ModelPattern::Lit(l) => l.span,
            ModelPattern::RuleCall { rule_name, .. } => rule_name.span,
            ModelPattern::Group(_, s) => s,
            ModelPattern::Bracketed(_, s) => s,
            ModelPattern::Braced(_, s) => s,
            ModelPattern::Parenthesized(_, s) => s,
            ModelPattern::Optional(_, s) => s,
            ModelPattern::Repeat(_, s) => s,
            ModelPattern::Plus(_, s) => s,
            ModelPattern::SpanBinding(_, _, s) => s,
            ModelPattern::Recover { span, .. } => span,
            ModelPattern::Peek(_, s) => s,
            ModelPattern::Not(_, s) => s,
        }
    }

    #[verifier::when_used_as_spec(spec_span)]
    pub fn span(&self) -> (s: Span)
        ensures
            s == self.spec_span(),
    {
        match self {
            ModelPattern::Cut(s) => *s,
            ModelPattern::Lit(l) => l.span,
            ModelPattern::RuleCall { rule_name, .. } => rule_name.span,
            ModelPattern::Optional(_, s) | ModelPattern::Repeat(
                _,
                s,
            ) | ModelPattern::Plus(_, s) => *s,
            ModelPattern::SpanBinding(_, _, s) => *s,
            ModelPattern::Recover { span, .. } => *span,
            ModelPattern::Group(_, s) => *s,
            ModelPattern::Bracketed(_, s)
            | ModelPattern::Braced(_, s)
            | ModelPattern::Parenthesized(_, s) => *s,
            ModelPattern::Peek(_, s) | ModelPattern::Not(_, s) => *s,
        }
    }
}

/// One alternative of a rule: the sequence to match and the action that builds
/// the result once it has matched. The action is opaque to this crate.
#[derive(Debug)]
pub struct RuleVariant {
    pub pattern: Vec<ModelPattern>,
    pub action: String,
}

/// A named rule with its parameters, its result type and its alternatives in
/// the order in which they are tried.
#[derive(Debug)]
pub struct Rule {
    pub attrs: Vec<String>,
    pub is_pub: bool,
    pub name: Identifier,
    pub params: Vec<(Identifier, Option<String>)>,
    pub return_type: String,
    pub variants: Vec<RuleVariant>,
}

/// A whole grammar. When `inherits` names a parent grammar, the parent's rules
/// are visible to calls although they are not listed here.
#[derive(Debug)]
pub struct GrammarDefinition {
    pub name: Identifier,
    pub inherits: Option<Identifier>,
    pub uses: Vec<String>,
    pub rules: Vec<Rule>,
}

/// A primitive matcher that a backend supplies. Built-ins take no arguments.
#[derive(Clone, Copy, Debug)]
pub struct BuiltIn {
    pub name: &'static str,
    pub return_type: &'static str,
}

/// What a backend declares about itself.
pub trait Backend {
    /// The primitive matchers of this backend.
    fn get_builtins() -> Vec<BuiltIn>;
}

} // verus!

//! The errors that compiling a grammar can end in, and their wording.

use crate::span::Span;
use crate::text::{decimal, joined_prefix, push_quoted, quoted, to_decimal};
use vstd::prelude::*;

verus! {

/// Why a grammar was rejected. Every error points at the offending reference.
#[derive(Debug)]
pub enum GrammarError {
    /// A rule name was defined a second time; `span` is that of the second definition.
    DuplicateRule { name: String, span: Span },
    /// A call names neither a rule, nor a built-in, nor a parameter of the calling rule.
    UndefinedRule { name: String, span: Span },
    /// A call passes `found` arguments to a rule that declares `expected` parameters.
    ArgumentCount { name: String, expected: usize, found: usize, span: Span },
    /// A call passes arguments to a built-in.
    BuiltinArguments { name: String, span: Span },
    /// Rules that call each other in first position; `cycle` lists them in call order.
    IndirectLeftRecursion { cycle: Vec<String>, span: Span },
    /// Alternative `first` keeps alternative `second` of `rule` from ever being reached.
    /// Both are counted from one.
    Shadowing { rule: String, first: usize, second: usize, identical: bool, span: Span },
    /// Every alternative of a left-recursive rule starts with the rule itself.
    MissingBaseVariant { rule: String, span: Span },
    /// The synchronisation pattern of a recovery region has no first token to look for.
    RecoverWithoutAnchor { span: Span },
    /// A span is bound on a pattern that is neither a rule call nor a recovery region.
    SpanBindingTarget { span: Span },
    /// A literal cannot be turned into tokens; `text` is the literal, or the
    /// part of it, that `issue` is about.
    Literal { issue: LiteralIssue, text: String, span: Span },
}

/// What is wrong with a literal that cannot be turned into tokens.
#[derive(Clone, Copy, Debug, PartialEq, Eq, Structural)]
pub enum LiteralIssue {
    /// The literal is a lone delimiter.
    Delimiter,
    /// The literal is `true` or `false`.
    Boolean,
    /// The literal starts with a digit.
    Numeric,
    /// The literal is no sequence of tokens at all.
    Unlexable,
    /// A punctuation character of the literal is no token.
    Punctuation,
    /// A word of the literal is neither a custom keyword nor a token.
    Identifier,
    /// The literal holds a delimited group or a nested literal.
    TokenTree,
    /// The literal is empty.
    Empty,
}

/// The mathematical content of a [`GrammarError`].
pub enum GrammarErrorView {
    DuplicateRule { name: Seq<char>, span: Span },
    UndefinedRule { name: Seq<char>, span: Span },
    ArgumentCount { name: Seq<char>, expected: nat, found: nat, span: Span },
    BuiltinArguments { name: Seq<char>, span: Span },
    IndirectLeftRecursion { cycle: Seq<Seq<char>>, span: Span },
    Shadowing { rule: Seq<char>, first: nat, second: nat, identical: bool, span: Span },
    MissingBaseVariant { rule: Seq<char>, span: Span },
    RecoverWithoutAnchor { span: Span },
    SpanBindingTarget { span: Span },
    Literal { issue: LiteralIssue, text: Seq<char>, span: Span },
}

/// The texts of a list of strings.
pub open spec fn texts(names: Seq<String>) -> Seq<Seq<char>> {
    Seq::new(names.len(), |i: int| names[i]@)
}

/// The texts of `list`, as a set.
pub open spec fn name_set(list: Seq<String>) -> Set<Seq<char>> {
    Set::new(|word: Seq<char>| texts(list).contains(word))
}

/// Adding a string to a list adds its text to the set of texts, and keeps the
/// list free of duplicates where the text is new.
pub proof fn lemma_name_set_push(list: Seq<String>, s: String)
    ensures
        name_set(list.push(s)) == name_set(list).insert(s@),
        !texts(list).contains(s@) && texts(list).no_duplicates() ==> texts(
            list.push(s),
        ).no_duplicates(),
{
    let a = texts(list);
    let b = texts(list.push(s));
    assert(b =~= a.push(s@));
    assert forall|w: Seq<char>| name_set(list.push(s)).contains(w) <==> name_set(list).insert(
        s@,
    ).contains(w) by {
        if b.contains(w) {
            let i = choose|i: int| 0 <= i < b.len() && b[i] == w;
            if i < a.len() {
                assert(a[i] == w);
            }
        }
        if a.contains(w) {
            let i = choose|i: int| 0 <= i < a.len() && a[i] == w;
            assert(b[i] == w);
        }
        if w == s@ {
            assert(b[a.len() as int] == w);
        }
    }
    assert(name_set(list.push(s)) =~= name_set(list).insert(s@));
}

impl View for GrammarError {
    type V = GrammarErrorView;

    open spec fn view(&self) -> GrammarErrorView {
        match *self {
            GrammarError::DuplicateRule { name, span } => GrammarErrorView::DuplicateRule {
                name: name@,
                span,
            },
            GrammarError::UndefinedRule { name, span } => GrammarErrorView::UndefinedRule {
                name: name@,
                span,
            },
            GrammarError::ArgumentCount {
                name,
                expected,
                found,
                span,
            } => GrammarErrorView::ArgumentCount {
                name: name@,
                expected: expected as nat,
                found: found as nat,
                span,
            },
            GrammarError::BuiltinArguments { name, span } => GrammarErrorView::BuiltinArguments {
                name: name@,
                span,
            },
            GrammarError::IndirectLeftRecursion {
                cycle,
                span,
            } => GrammarErrorView::IndirectLeftRecursion { cycle: texts(cycle@), span },
            GrammarError::Shadowing {
                rule,
                first,
                second,
                identical,
                span,
            } => GrammarErrorView::Shadowing {
                rule: rule@,
                first: first as nat,
                second: second as nat,
                identical,
                span,
            },
            GrammarError::MissingBaseVariant { rule, span } => GrammarErrorView::MissingBaseVariant {
                rule: rule@,
                span,
            },
            GrammarError::RecoverWithoutAnchor { span } => GrammarErrorView::RecoverWithoutAnchor {
                span,
            },
            GrammarError::SpanBindingTarget { span } => GrammarErrorView::SpanBindingTarget { span },
            GrammarError::Literal { issue, text, span } => GrammarErrorView::Literal {
                issue,
                text: text@,
                span,
            },
        }
    }
}

impl GrammarErrorView {
    /// Where the error points.
    pub open spec fn span(self) -> Span {
        match self {
            GrammarErrorView::DuplicateRule { span, .. } => span,
            GrammarErrorView::UndefinedRule { span, .. } => span,
            GrammarErrorView::ArgumentCount { span, .. } => span,
            GrammarErrorView::BuiltinArguments { span, .. } => span,
            GrammarErrorView::IndirectLeftRecursion { span, .. } => span,
            GrammarErrorView::Shadowing { span, .. } => span,
            GrammarErrorView::MissingBaseVariant { span, .. } => span,
            GrammarErrorView::RecoverWithoutAnchor { span } => span,
            GrammarErrorView::SpanBindingTarget { span } => span,
            GrammarErrorView::Literal { span, .. } => span,
        }
    }

    /// The wording of the error.
    pub open spec fn message(self) -> Seq<char> {
        match self {
            GrammarErrorView::DuplicateRule { name, .. } => "Duplicate rule definition: "@ + quoted(
                name,
            ),
            GrammarErrorView::UndefinedRule { name, .. } => "Undefined rule: "@ + quoted(name),
            GrammarErrorView::ArgumentCount { name, expected, found, .. } => "Rule "@ + quoted(name)
                + " expects "@ + decimal(expected) + " argument(s), but got "@ + decimal(found)
                + "."@,
            GrammarErrorView::BuiltinArguments { name, .. } => "Built-in rule "@ + quoted(name)
                + " does not accept arguments."@,
            GrammarErrorView::IndirectLeftRecursion { cycle, .. } =>
                "Indirect left recursion detected (unsupported): "@ + joined_prefix(
                    cycle,
                    " -> "@,
                    cycle.len(),
                ) + (if cycle.len() > 0 {
                    cycle[0]
                } else {
                    Seq::empty()
                }),
            GrammarErrorView::Shadowing { rule, first, second, identical, .. } => "Rule "@ + quoted(
                rule,
            ) + ": Alternative "@ + decimal(first) + (if identical {
                " and "@ + decimal(second) + " are identical"@
            } else {
                " shadows Alternative "@ + decimal(second)
            }),
            GrammarErrorView::MissingBaseVariant { .. } =>
                "Left-recursive rule requires at least one non-recursive base variant."@,
            GrammarErrorView::RecoverWithoutAnchor { .. } =>
                "Sync pattern in recover(...) must have a simple start token."@,
            GrammarErrorView::SpanBindingTarget { .. } =>
                "Span binding (@) is currently only supported on rule calls and recover() blocks."@,
            GrammarErrorView::Literal { issue, text, .. } => literal_message(issue, text),
        }
    }
}

/// The wording of a complaint about a literal.
pub open spec fn literal_message(issue: LiteralIssue, text: Seq<char>) -> Seq<char> {
    match issue {
        LiteralIssue::Delimiter => "Invalid direct token literal: "@ + quoted(text)
            + ". Use paren(...), [...] or {...} instead."@,
        LiteralIssue::Boolean => "Boolean literal "@ + quoted(text)
            + " cannot be used as a token. Use `lit_bool` parser instead."@,
        LiteralIssue::Numeric => "Numeric literal "@ + quoted(text)
            + " cannot be used as a token. Use `integer` or `lit_int` parsers instead."@,
        LiteralIssue::Unlexable => "Invalid token literal: "@ + quoted(text),
        LiteralIssue::Punctuation => "Cannot map punctuation "@ + quoted(text) + " to Token!"@,
        LiteralIssue::Identifier => "Identifier "@ + quoted(text)
            + " is not a custom keyword and not a valid Token!"@,
        LiteralIssue::TokenTree => "Literal contains unsupported token tree (Group or Literal)"@,
        LiteralIssue::Empty => "Empty string literal is not supported."@,
    }
}

fn word_literal_issue(issue: LiteralIssue, text: &str) -> (m: String)
    ensures
        m@ == literal_message(issue, text@),
{
    match issue {
        LiteralIssue::Delimiter => {
            let mut m = String::from_str("Invalid direct token literal: ");
            push_quoted(&mut m, text);
            m.append(". Use paren(...), [...] or {...} instead.");
            m
        },
        LiteralIssue::Boolean => {
            let mut m = String::from_str("Boolean literal ");
            push_quoted(&mut m, text);
            m.append(" cannot be used as a token. Use `lit_bool` parser instead.");
            m
        },
        LiteralIssue::Numeric => {
            let mut m = String::from_str("Numeric literal ");
            push_quoted(&mut m, text);
            m.append(" cannot be used as a token. Use `integer` or `lit_int` parsers instead.");
            m
        },
        LiteralIssue::Unlexable => {
            let mut m = String::from_str("Invalid token literal: ");
            push_quoted(&mut m, text);
            m
        },
        LiteralIssue::Punctuation => {
            let mut m = String::from_str("Cannot map punctuation ");
            push_quoted(&mut m, text);
            m.append(" to Token!");
            m
        },
        LiteralIssue::Identifier => {
            let mut m = String::from_str("Identifier ");
            push_quoted(&mut m, text);
            m.append(" is not a custom keyword and not a valid Token!");
            m
        },
        LiteralIssue::TokenTree => String::from_str(
            "Literal contains unsupported token tree (Group or Literal)",
        ),
        LiteralIssue::Empty => String::from_str("Empty string literal is not supported."),
    }
}

fn join_cycle(out: &mut String, cycle: &Vec<String>)
    ensures
        final(out)@ == old(out)@ + joined_prefix(
            texts(cycle@),
            " -> "@,
            cycle@.len(),
        ) + (if cycle@.len()
            > 0 {
            cycle@[0]@
        } else {
            Seq::empty()
        }),
{
    let mut i: usize = 0;
    while i < cycle.len()
        invariant
            i <= cycle@.len(),
            out@ == old(out)@ + joined_prefix(texts(cycle@), " -> "@, i as nat),
        decreases cycle@.len() - i,
    {
        out.append(cycle[i].as_str());
        out.append(" -> ");
        assert(out@ =~= old(out)@ + joined_prefix(texts(cycle@), " -> "@, (i + 1) as nat));
        i += 1;
    }
    if cycle.len() > 0 {
        out.append(cycle[0].as_str());
    }
    assert(out@ =~= old(out)@ + joined_prefix(texts(cycle@), " -> "@, cycle@.len()) + (if cycle@.len()
        > 0 {
        cycle@[0]@
    } else {
        Seq::empty()
    }));
}

impl GrammarError {
    /// Where the error points.
    pub fn span(&self) -> (s: Span)
        ensures
            s == self@.span(),
    {
        match self {
            GrammarError::DuplicateRule { span, .. } => *span,
            GrammarError::UndefinedRule { span, .. } => *span,
            GrammarError::ArgumentCount { span, .. } => *span,
            GrammarError::BuiltinArguments { span, .. } => *span,
            GrammarError::IndirectLeftRecursion { span, .. } => *span,
            GrammarError::Shadowing { span, .. } => *span,
            GrammarError::MissingBaseVariant { span, .. } => *span,
            GrammarError::RecoverWithoutAnchor { span } => *span,
            GrammarError::SpanBindingTarget { span } => *span,
            GrammarError::Literal { span, .. } => *span,
        }
    }

    /// The wording of the error, as shown to the author of the grammar.
    pub fn message(&self) -> (m: String)
        ensures
            m@ == self@.message(),
    {
        match self {
            GrammarError::DuplicateRule { name, .. } => {
                let mut m = String::from_str("Duplicate rule definition: ");
                push_quoted(&mut m, name.as_str());
                m
            },
            GrammarError::UndefinedRule { name, .. } => {
                let mut m = String::from_str("Undefined rule: ");
                push_quoted(&mut m, name.as_str());
                m
            },
            GrammarError::ArgumentCount { name, expected, found, .. } => {
                let mut m = String::from_str("Rule ");
                push_quoted(&mut m, name.as_str());
                m.append(" expects ");
                m.append(to_decimal(*expected).as_str());
                m.append(" argument(s), but got ");
                m.append(to_decimal(*found).as_str());
                m.append(".");
                m
            },
            GrammarError::BuiltinArguments { name, .. } => {
                let mut m = String::from_str("Built-in rule ");
                push_quoted(&mut m, name.as_str());
                m.append(" does not accept arguments.");
                m
            },
            GrammarError::IndirectLeftRecursion { cycle, .. } => {
                let mut m = String::from_str("Indirect left recursion detected (unsupported): ");
                join_cycle(&mut m, cycle);
                m
            },
            GrammarError::Shadowing { rule, first, second, identical, .. } => {
                let mut m = String::from_str("Rule ");
                push_quoted(&mut m, rule.as_str());
                m.append(": Alternative ");
                m.append(to_decimal(*first).as_str());
                if *identical {
                    m.append(" and ");
                    m.append(to_decimal(*second).as_str());
                    m.append(" are identical");
                } else {
                    m.append(" shadows Alternative ");
                    m.append(to_decimal(*second).as_str());
                }
                m
            },
            GrammarError::MissingBaseVariant { .. } => String::from_str(
                "Left-recursive rule requires at least one non-recursive base variant.",
            ),
            GrammarError::RecoverWithoutAnchor { .. } => String::from_str(
                "Sync pattern in recover(...) must have a simple start token.",
            ),
            GrammarError::SpanBindingTarget { .. } => String::from_str(
                "Span binding (@) is currently only supported on rule calls and recover() blocks.",
            ),
            GrammarError::Literal { issue, text, .. } => word_literal_issue(*issue, text.as_str()),
        }
    }
}

} // verus!

use winnow_grammar::error::{GrammarError, LiteralIssue};
use winnow_grammar::span::Span;
use winnow_grammar::text::to_decimal;

#[test]
fn decimal_notation() {
    assert_eq!(to_decimal(0), "0");
    assert_eq!(to_decimal(7), "7");
    assert_eq!(to_decimal(10), "10");
    assert_eq!(to_decimal(1234567890), "1234567890");
    assert_eq!(to_decimal(usize::MAX), usize::MAX.to_string());
}

#[test]
fn every_error_has_its_wording() {
    let at = Span::new(3, 9);
    let cases: Vec<(GrammarError, &str)> = vec![
        (
            GrammarError::DuplicateRule { name: "main".to_string(), span: at },
            "Duplicate rule definition: 'main'",
        ),
        (GrammarError::UndefinedRule { name: "x".to_string(), span: at }, "Undefined rule: 'x'"),
        (
            GrammarError::ArgumentCount { name: "sub".to_string(), expected: 12, found: 0, span: at },
            "Rule 'sub' expects 12 argument(s), but got 0.",
        ),
        (
            GrammarError::BuiltinArguments { name: "ident".to_string(), span: at },
            "Built-in rule 'ident' does not accept arguments.",
        ),
        (
            GrammarError::IndirectLeftRecursion {
                cycle: vec!["a".to_string(), "b".to_string(), "c".to_string()],
                span: at,
            },
            "Indirect left recursion detected (unsupported): a -> b -> c -> a",
        ),
        (
            GrammarError::Shadowing {
                rule: "main".to_string(),
                first: 1,
                second: 2,
                identical: true,
                span: at,
            },
            "Rule 'main': Alternative 1 and 2 are identical",
        ),
        (
            GrammarError::Shadowing {
                rule: "main".to_string(),
                first: 2,
                second: 10,
                identical: false,
                span: at,
            },
            "Rule 'main': Alternative 2 shadows Alternative 10",
        ),
        (
            GrammarError::MissingBaseVariant { rule: "expr".to_string(), span: at },
            "Left-recursive rule requires at least one non-recursive base variant.",
        ),
        (
            GrammarError::RecoverWithoutAnchor { span: at },
            "Sync pattern in recover(...) must have a simple start token.",
        ),
        (
            GrammarError::SpanBindingTarget { span: at },
            "Span binding (@) is currently only supported on rule calls and recover() blocks.",
        ),
        (
            GrammarError::Literal { issue: LiteralIssue::Delimiter, text: "(".to_string(), span: at },
            "Invalid direct token literal: '('. Use paren(...), [...] or {...} instead.",
        ),
        (
            GrammarError::Literal { issue: LiteralIssue::Boolean, text: "true".to_string(), span: at },
            "Boolean literal 'true' cannot be used as a token. Use `lit_bool` parser instead.",
        ),
        (
            GrammarError::Literal { issue: LiteralIssue::Numeric, text: "12".to_string(), span: at },
            "Numeric literal '12' cannot be used as a token. Use `integer` or `lit_int` parsers instead.",
        ),
        (
            GrammarError::Literal { issue: LiteralIssue::Unlexable, text: "'".to_string(), span: at },
            "Invalid token literal: '''",
        ),
        (
            GrammarError::Literal { issue: LiteralIssue::Punctuation, text: "#".to_string(), span: at },
            "Cannot map punctuation '#' to Token!",
        ),
        (
            GrammarError::Literal { issue: LiteralIssue::Identifier, text: "foo".to_string(), span: at },
            "Identifier 'foo' is not a custom keyword and not a valid Token!",
        ),
        (
            GrammarError::Literal { issue: LiteralIssue::TokenTree, text: "(a)".to_string(), span: at },
            "Literal contains unsupported token tree (Group or Literal)",
        ),
        (
            GrammarError::Literal { issue: LiteralIssue::Empty, text: "".to_string(), span: at },
            "Empty string literal is not supported.",
        ),
    ];
    for (error, wording) in cases {
        assert_eq!(error.message(), wording);
        assert_eq!(error.span(), at);
    }
}

use winnow_grammar::error::GrammarError;
use winnow_grammar::model::{
    Backend, BuiltIn, GrammarDefinition, Identifier, ModelPattern, Rule, RuleVariant, StringLiteral,
};
use winnow_grammar::span::Span;
use winnow_grammar::validator::{validate, validate_with_builtins};

struct TestBackend;

impl Backend for TestBackend {
    fn get_builtins() -> Vec<BuiltIn> {
        vec![
            BuiltIn { name: "ident", return_type: "syn::Ident" },
            BuiltIn { name: "string", return_type: "String" },
        ]
    }
}

fn sp(start: usize, end: usize) -> Span {
    Span::new(start, end)
}

fn lit(text: &str, at: usize) -> ModelPattern {
    ModelPattern::Lit(StringLiteral::new(text, sp(at, at + text.len() + 2)))
}

fn call(name: &str, at: usize, args: Vec<ModelPattern>) -> ModelPattern {
    ModelPattern::RuleCall {
        binding: None,
        rule_name: Identifier::new(name, sp(at, at + name.len())),
        args,
    }
}

fn variant(pattern: Vec<ModelPattern>) -> RuleVariant {
    RuleVariant { pattern, action: "()".to_string() }
}

fn rule(name: &str, at: usize, variants: Vec<RuleVariant>) -> Rule {
    Rule {
        attrs: Vec::new(),
        is_pub: false,
        name: Identifier::new(name, sp(at, at + name.len())),
        params: Vec::new(),
        return_type: "()".to_string(),
        variants,
    }
}

fn grammar(rules: Vec<Rule>) -> GrammarDefinition {
    GrammarDefinition {
        name: Identifier::new("test", sp(8, 12)),
        inherits: None,
        uses: Vec::new(),
        rules,
    }
}

#[test]
fn test_undefined_rule() {
    let model = grammar(vec![rule("main", 20, vec![variant(vec![call("undefined_rule", 33, vec![])])])]);
    let err = validate::<TestBackend>(&model);
    match err {
        Ok(_) => panic!("Expected undefined rule error"),
        Err(e) => assert_eq!(e.message(), "Undefined rule: 'undefined_rule'"),
    }
}

#[test]
fn test_duplicate_rule() {
    let model = grammar(vec![
        rule("main", 20, vec![variant(vec![lit("a", 33)])]),
        rule("main", 60, vec![variant(vec![lit("b", 73)])]),
    ]);
    let err = validate::<TestBackend>(&model).unwrap_err();
    assert_eq!(err.message(), "Duplicate rule definition: 'main'");
}

#[test]
fn test_rule_args_mismatch() {
    let model = grammar(vec![
        rule("main", 20, vec![variant(vec![call("sub", 33, vec![lit("1", 37)])])]),
        rule("sub", 60, vec![variant(vec![lit("hello", 72)])]),
    ]);

    let expected_span = model.rules[0].variants[0].pattern[0].span();

    let err = validate::<TestBackend>(&model).unwrap_err();
    assert_eq!(err.message(), "Rule 'sub' expects 0 argument(s), but got 1.");
    assert_eq!(format!("{:?}", err.span()), format!("{:?}", expected_span));
}

#[test]
fn test_builtin_args() {
    let model =
        grammar(vec![rule("main", 20, vec![variant(vec![call("ident", 33, vec![lit("1", 39)])])])]);

    let expected_span = model.rules[0].variants[0].pattern[0].span();

    let err = validate::<TestBackend>(&model).unwrap_err();
    assert_eq!(err.message(), "Built-in rule 'ident' does not accept arguments.");
    assert_eq!(format!("{:?}", err.span()), format!("{:?}", expected_span));
}

#[test]
fn test_shadowing_identical() {
    let model = grammar(vec![rule(
        "main",
        20,
        vec![variant(vec![lit("a", 40)]), variant(vec![lit("a", 60)])],
    )]);
    let err = validate::<TestBackend>(&model).unwrap_err();
    assert!(err.message().contains("Alternative 1 and 2 are identical"));
}

#[test]
fn test_shadowing_prefix() {
    let model = grammar(vec![rule(
        "main",
        20,
        vec![variant(vec![lit("a", 40)]), variant(vec![lit("a", 60), lit("b", 64)])],
    )]);
    let err = validate::<TestBackend>(&model).unwrap_err();
    assert!(err.message().contains("Alternative 1 shadows Alternative 2"));
}

#[test]
fn test_no_shadowing() {
    let model = grammar(vec![rule(
        "main",
        20,
        vec![variant(vec![lit("a", 40), lit("b", 44)]), variant(vec![lit("a", 60)])],
    )]);
    validate::<TestBackend>(&model).unwrap();
}

#[test]
fn test_bug_typed_param() {
    let mut list = rule("list", 20, vec![variant(vec![call("item", 50, vec![])])]);
    list.params = vec![(Identifier::new("item", sp(28, 32)), Some("Type".to_string()))];
    let model = grammar(vec![list]);
    validate::<TestBackend>(&model).expect("Validation failed for typed parameter");
}

#[test]
fn duplicate_is_reported_at_the_second_definition() {
    let model = grammar(vec![
        rule("a", 20, vec![variant(vec![lit("x", 33)])]),
        rule("b", 40, vec![variant(vec![lit("y", 53)])]),
        rule("a", 60, vec![variant(vec![lit("z", 73)])]),
    ]);
    let err = validate::<TestBackend>(&model).unwrap_err();
    assert!(matches!(err, GrammarError::DuplicateRule { .. }));
    assert_eq!(err.span(), sp(60, 61));
}

#[test]
fn duplicate_comes_before_undefined() {
    let model = grammar(vec![
        rule("a", 20, vec![variant(vec![call("nowhere", 33, vec![])])]),
        rule("a", 60, vec![variant(vec![lit("z", 73)])]),
    ]);
    let err = validate::<TestBackend>(&model).unwrap_err();
    assert_eq!(err.message(), "Duplicate rule definition: 'a'");
}

#[test]
fn undefined_comes_before_argument_count() {
    let model = grammar(vec![
        rule("main", 20, vec![variant(vec![call("sub", 33, vec![lit("1", 37)]), call("gone", 45, vec![])])]),
        rule("sub", 60, vec![variant(vec![lit("hello", 72)])]),
    ]);
    let err = validate::<TestBackend>(&model).unwrap_err();
    assert_eq!(err.message(), "Undefined rule: 'gone'");
    assert_eq!(err.span(), sp(45, 49));
}

#[test]
fn undefined_is_found_inside_nested_patterns() {
    let nested = ModelPattern::Optional(
        Box::new(ModelPattern::Group(
            vec![vec![lit("a", 30)], vec![ModelPattern::Parenthesized(vec![call("deep", 40, vec![])], sp(39, 45))]],
            sp(29, 46),
        )),
        sp(46, 47),
    );
    let model = grammar(vec![rule("main", 20, vec![variant(vec![nested])])]);
    let err = validate::<TestBackend>(&model).unwrap_err();
    assert_eq!(err.message(), "Undefined rule: 'deep'");
}

#[test]
fn undefined_name_in_an_argument_is_not_reported_but_its_arity_is() {
    // Arguments are skipped by the check for undefined names and searched by
    // the check of argument counts.
    let model = grammar(vec![
        rule("main", 20, vec![variant(vec![call("one", 33, vec![call("string", 37, vec![lit("x", 44)])])])]),
        {
            let mut one = rule("one", 60, vec![variant(vec![lit("hello", 72)])]);
            one.params = vec![(Identifier::new("p", sp(64, 65)), None)];
            one
        },
    ]);
    let err = validate::<TestBackend>(&model).unwrap_err();
    assert_eq!(err.message(), "Built-in rule 'string' does not accept arguments.");
}

#[test]
fn a_parent_excuses_undefined_names_only() {
    let mut model = grammar(vec![rule(
        "main",
        20,
        vec![variant(vec![call("from_parent", 33, vec![])]), variant(vec![lit("x", 53)])],
    )]);
    model.inherits = Some(Identifier::new("Base", sp(14, 18)));
    validate::<TestBackend>(&model).unwrap();
    model.inherits = None;
    let err = validate::<TestBackend>(&model).unwrap_err();
    assert_eq!(err.message(), "Undefined rule: 'from_parent'");
}

#[test]
fn shadowing_is_rejected_with_a_parent_too() {
    let mut model = grammar(vec![rule(
        "main",
        20,
        vec![variant(vec![lit("a", 40)]), variant(vec![lit("a", 60), lit("b", 64)])],
    )]);
    model.inherits = Some(Identifier::new("base", sp(14, 18)));
    let err = validate::<TestBackend>(&model).unwrap_err();
    assert_eq!(err.message(), "Rule 'main': Alternative 1 shadows Alternative 2");
    assert_eq!(err.span(), sp(60, 63));
    // The other order is accepted, with and without a parent.
    let mut model = grammar(vec![rule(
        "main",
        20,
        vec![variant(vec![lit("a", 40), lit("b", 44)]), variant(vec![lit("a", 60)])],
    )]);
    model.inherits = Some(Identifier::new("base", sp(14, 18)));
    validate::<TestBackend>(&model).unwrap();
}

#[test]
fn inherited_grammar_still_checks_duplicates_and_arity() {
    let mut model = grammar(vec![
        rule("main", 20, vec![variant(vec![call("sub", 33, vec![lit("1", 37)])])]),
        rule("sub", 60, vec![variant(vec![lit("hello", 72)])]),
    ]);
    model.inherits = Some(Identifier::new("Base", sp(14, 18)));
    let err = validate::<TestBackend>(&model).unwrap_err();
    assert_eq!(err.message(), "Rule 'sub' expects 0 argument(s), but got 1.");
}

#[test]
fn indirect_left_recursion_names_the_whole_cycle() {
    // a = b "x" | "a";  b = a "y" | "b": each rule has another alternative too.
    let model = grammar(vec![
        rule("a", 20, vec![variant(vec![call("b", 30, vec![]), lit("x", 32)]), variant(vec![lit("a", 40)])]),
        rule("b", 60, vec![variant(vec![call("a", 70, vec![]), lit("y", 72)]), variant(vec![lit("b", 80)])]),
    ]);
    let err = validate::<TestBackend>(&model).unwrap_err();
    match &err {
        GrammarError::IndirectLeftRecursion { cycle, span } => {
            assert_eq!(cycle.len(), 2);
            assert!(cycle.contains(&"a".to_string()));
            assert!(cycle.contains(&"b".to_string()));
            let first = &cycle[0];
            let expected = if first == "a" { sp(20, 21) } else { sp(60, 61) };
            assert_eq!(*span, expected);
        }
        other => panic!("unexpected error {:?}", other),
    }
    let message = err.message();
    assert!(
        message == "Indirect left recursion detected (unsupported): a -> b -> a"
            || message == "Indirect left recursion detected (unsupported): b -> a -> b"
    );
}

#[test]
fn direct_left_recursion_is_accepted() {
    let model = grammar(vec![
        rule(
            "expr",
            20,
            vec![
                variant(vec![call("expr", 30, vec![]), lit("-", 35), call("term", 39, vec![])]),
                variant(vec![call("term", 50, vec![])]),
            ],
        ),
        rule("term", 60, vec![variant(vec![call("ident", 70, vec![])])]),
    ]);
    validate::<TestBackend>(&model).unwrap();
}

#[test]
fn validation_depends_on_the_catalog_handed_in() {
    let model = grammar(vec![rule("main", 20, vec![variant(vec![call("digit1", 33, vec![])])])]);
    let none: Vec<BuiltIn> = Vec::new();
    let err = validate_with_builtins(&model, &none).unwrap_err();
    assert_eq!(err.message(), "Undefined rule: 'digit1'");
    let some = vec![BuiltIn { name: "digit1", return_type: "String" }];
    validate_with_builtins(&model, &some).unwrap();
}

#[test]
fn two_rules_that_are_nothing_but_each_other_are_rejected() {
    let model = grammar(vec![
        rule("a", 20, vec![variant(vec![call("b", 30, vec![])])]),
        rule("b", 60, vec![variant(vec![call("a", 70, vec![])])]),
    ]);
    let err = validate::<TestBackend>(&model).unwrap_err();
    assert!(matches!(err, GrammarError::IndirectLeftRecursion { .. }));
    assert!(err.message().starts_with("Indirect left recursion detected (unsupported): "));
}

use winnow_grammar::backend::WinnowBackend;
use winnow_grammar::codegen::{generate_rust, Codegen};
use winnow_grammar::engine::Event;
use winnow_grammar::error::{GrammarError, LiteralIssue};
use winnow_grammar::machine::parse;
use winnow_grammar::model::{
    Backend, GrammarDefinition, Identifier, ModelPattern, Rule, RuleVariant, StringLiteral,
};
use winnow_grammar::plan::{
    AltPlan, CallTarget, Delimiter, Dispatch, Primitive, RuleBody, Step,
};
use winnow_grammar::span::Span;
use winnow_grammar::tokens::{PeekToken, TokenType};
use winnow_grammar::validator::validate;

fn sp() -> Span {
    Span::new(0, 0)
}

fn id(name: &str) -> Identifier {
    Identifier::new(name, sp())
}

fn lit(text: &str) -> ModelPattern {
    ModelPattern::Lit(StringLiteral::new(text, sp()))
}

fn call(binding: Option<&str>, name: &str) -> ModelPattern {
    ModelPattern::RuleCall { binding: binding.map(id), rule_name: id(name), args: vec![] }
}

fn cut() -> ModelPattern {
    ModelPattern::Cut(sp())
}

fn variant(pattern: Vec<ModelPattern>, action: &str) -> RuleVariant {
    RuleVariant { pattern, action: action.to_string() }
}

fn rule(name: &str, variants: Vec<RuleVariant>) -> Rule {
    Rule {
        attrs: Vec::new(),
        is_pub: false,
        name: Identifier::new(name, Span::new(30, 30 + name.len())),
        params: Vec::new(),
        return_type: "()".to_string(),
        variants,
    }
}

fn grammar(rules: Vec<Rule>) -> GrammarDefinition {
    GrammarDefinition { name: id("G"), inherits: None, uses: Vec::new(), rules }
}

fn guard_text(t: &PeekToken) -> String {
    match t {
        PeekToken::Token(TokenType::Token(s)) => s.clone(),
        PeekToken::Token(TokenType::Keyword(s)) => format!("kw::{}", s),
        PeekToken::Bracket => "[".to_string(),
        PeekToken::Brace => "{".to_string(),
        PeekToken::Paren => "(".to_string(),
    }
}

fn entry(a: &AltPlan) -> String {
    match &a.dispatch {
        Dispatch::Commit { token } => format!("commit on {}", guard_text(token)),
        Dispatch::Attempt { guard: Some(t) } => format!("attempt on {}", guard_text(t)),
        Dispatch::Attempt { guard: None } => "attempt".to_string(),
    }
}

fn choice(body: &RuleBody) -> &Vec<AltPlan> {
    match body {
        RuleBody::Choice(alts) => alts,
        other => panic!("no plain choice: {:?}", other),
    }
}

#[test]
fn alternatives_keep_their_order_and_their_actions() {
    let g = grammar(vec![rule(
        "main",
        vec![
            variant(vec![lit("a"), lit("b")], "first"),
            variant(vec![lit("a")], "second"),
            variant(vec![lit("c")], "third"),
            variant(vec![call(None, "ident")], "fourth"),
            variant(vec![], "fifth"),
        ],
    )]);
    let plan = generate_rust(&g).unwrap();
    assert_eq!(plan.name, "G");
    assert!(!plan.has_user_ws);
    assert_eq!(plan.rules.len(), 1);
    assert_eq!(plan.rules[0].name, "main");
    assert!(plan.rules[0].is_public);
    let alts = choice(&plan.rules[0].body);
    let positions: Vec<usize> = alts.iter().map(|a| a.variant).collect();
    assert_eq!(positions, vec![0, 1, 2, 3, 4]);
    let actions: Vec<&str> = alts.iter().map(|a| a.action.as_deref().unwrap()).collect();
    assert_eq!(actions, vec!["first", "second", "third", "fourth", "fifth"]);
    let entries: Vec<String> = alts.iter().map(entry).collect();
    assert_eq!(entries, vec!["attempt on a", "attempt on a", "commit on c", "attempt", "attempt"]);
    let lengths: Vec<usize> = alts.iter().map(|a| a.steps.len()).collect();
    assert_eq!(lengths, vec![2, 1, 1, 1, 0]);
}

#[test]
fn steps_behind_a_commit_point_are_committed() {
    let g = grammar(vec![rule(
        "main",
        vec![variant(vec![lit("a"), cut(), lit("b"), call(Some("x"), "main")], "r")],
    )]);
    let plan = generate_rust(&g).unwrap();
    let alt = &choice(&plan.rules[0].body)[0];
    assert_eq!(alt.commit_after, Some(1));
    assert_eq!(alt.steps.len(), 4);
    assert!(matches!(&alt.steps[0], Step::Literal { text, .. } if text == "a"));
    assert!(matches!(&alt.steps[1], Step::Cut));
    match &alt.steps[2] {
        Step::Committed(inner) => assert!(matches!(&**inner, Step::Literal { text, .. } if text == "b")),
        other => panic!("unexpected step {:?}", other),
    }
    match &alt.steps[3] {
        Step::Committed(inner) => match &**inner {
            Step::Call { binding, target, args } => {
                assert_eq!(binding.as_deref(), Some("x"));
                assert!(matches!(target, CallTarget::Rule { index: 0, name } if name == "main"));
                assert!(args.is_empty());
            }
            other => panic!("unexpected step {:?}", other),
        },
        other => panic!("unexpected step {:?}", other),
    }
    let no_cut = grammar(vec![rule("main", vec![variant(vec![lit("a")], "r")])]);
    assert_eq!(choice(&generate_rust(&no_cut).unwrap().rules[0].body)[0].commit_after, None);
}

#[test]
fn a_commit_point_reaches_the_closing_delimiter() {
    let g = grammar(vec![rule(
        "main",
        vec![
            variant(vec![ModelPattern::Parenthesized(vec![lit("a"), cut(), lit("b")], sp())], "inside"),
            variant(vec![lit("x"), cut(), ModelPattern::Bracketed(vec![lit("c")], sp())], "before"),
            variant(vec![ModelPattern::Braced(vec![lit("d")], sp())], "none"),
        ],
    )]);
    let plan = generate_rust(&g).unwrap();
    let alts = choice(&plan.rules[0].body);
    match &alts[0].steps[0] {
        Step::Delimited { delimiter, open_committed, content, close_committed } => {
            assert_eq!(*delimiter, Delimiter::Paren);
            assert!(!open_committed);
            assert!(*close_committed);
            assert!(matches!(&content[0], Step::Literal { .. }));
            assert!(matches!(&content[1], Step::Cut));
            assert!(matches!(&content[2], Step::Committed(_)));
        }
        other => panic!("unexpected step {:?}", other),
    }
    match &alts[1].steps[2] {
        Step::Delimited { delimiter, open_committed, content, close_committed } => {
            assert_eq!(*delimiter, Delimiter::Bracket);
            assert!(*open_committed);
            assert!(*close_committed);
            assert!(matches!(&content[0], Step::Committed(_)));
        }
        other => panic!("unexpected step {:?}", other),
    }
    match &alts[2].steps[0] {
        Step::Delimited { delimiter, open_committed, content, close_committed } => {
            assert_eq!(*delimiter, Delimiter::Brace);
            assert!(!open_committed);
            assert!(!close_committed);
            assert!(matches!(&content[0], Step::Literal { .. }));
        }
        other => panic!("unexpected step {:?}", other),
    }
    assert_eq!(entry(&alts[0]), "commit on (");
}

#[test]
fn calls_are_resolved_when_the_plan_is_made() {
    let g = grammar(vec![
        rule(
            "main",
            vec![variant(
                vec![
                    call(None, "second"),
                    call(None, "ident"),
                    call(None, "integer"),
                    call(None, "uint"),
                    call(None, "string"),
                    call(None, "char"),
                    call(None, "digit1"),
                ],
                "r",
            )],
        ),
        rule("second", vec![variant(vec![lit("s")], "s")]),
        rule("string", vec![variant(vec![lit("mine")], "s")]),
    ]);
    let plan = generate_rust(&g).unwrap();
    let targets: Vec<String> = choice(&plan.rules[0].body)[0]
        .steps
        .iter()
        .map(|s| match s {
            Step::Call { target: CallTarget::Rule { index, name }, .. } => format!("rule {} {}", index, name),
            Step::Call { target: CallTarget::Primitive(p), .. } => format!("{:?}", p),
            Step::Call { target: CallTarget::Named(n), .. } => format!("named {}", n),
            other => panic!("unexpected step {:?}", other),
        })
        .collect();
    assert_eq!(
        targets,
        vec!["rule 1 second", "Ident", "Integer", "Uint", "rule 2 string", "Char", "named digit1"]
    );
    let codegen = Codegen::new(&g);
    assert_eq!(codegen.user_rules, vec!["main", "second", "string"]);
    assert!(matches!(codegen.resolve_call(&id("char")), CallTarget::Primitive(Primitive::Char)));
}

#[test]
fn a_left_recursive_rule_becomes_a_seed_and_a_loop() {
    let g = grammar(vec![
        rule(
            "expr",
            vec![
                variant(vec![call(Some("l"), "expr"), lit("+"), call(Some("r"), "term")], "add"),
                variant(vec![call(Some("t"), "term")], "seed"),
                variant(vec![call(None, "expr"), lit("-"), call(Some("r"), "term")], "sub"),
                variant(vec![lit("("), call(Some("e"), "expr"), lit(")")], "nested"),
                variant(vec![call(None, "expr")], "bare"),
            ],
        ),
        rule("term", vec![variant(vec![call(Some("n"), "uint")], "n")]),
    ]);
    let plan = generate_rust(&g).unwrap();
    match &plan.rules[0].body {
        RuleBody::LeftRecursive { base, tails } => {
            let seeds: Vec<&str> = base.iter().map(|a| a.action.as_deref().unwrap()).collect();
            assert_eq!(seeds, vec!["seed", "nested"]);
            let positions: Vec<usize> = base.iter().map(|a| a.variant).collect();
            assert_eq!(positions, vec![0, 1]);
            let arms: Vec<&str> = tails.iter().map(|t| t.action.as_str()).collect();
            assert_eq!(arms, vec!["add", "sub", "bare"]);
            let arm_positions: Vec<usize> = tails.iter().map(|t| t.variant).collect();
            assert_eq!(arm_positions, vec![0, 1, 2]);
            assert_eq!(tails[0].seed_binding.as_deref(), Some("l"));
            assert_eq!(tails[1].seed_binding, None);
            assert_eq!(tails[0].steps.len(), 2);
            assert_eq!(tails[2].steps.len(), 0);
            assert_eq!(tails[0].guard.as_ref().map(guard_text), Some("+".to_string()));
            assert_eq!(tails[1].guard.as_ref().map(guard_text), Some("-".to_string()));
            assert!(tails[2].guard.is_none());
        }
        other => panic!("no loop: {:?}", other),
    }
    assert!(matches!(&plan.rules[1].body, RuleBody::Choice(_)));
}

#[test]
fn a_left_recursive_rule_needs_a_base_alternative() {
    let g = grammar(vec![rule(
        "expr",
        vec![
            variant(vec![call(None, "expr"), lit("+")], "a"),
            variant(vec![call(None, "expr"), lit("1")], "b"),
        ],
    )]);
    let err = generate_rust(&g).unwrap_err();
    assert!(matches!(&err, GrammarError::MissingBaseVariant { rule, .. } if rule == "expr"));
    assert_eq!(err.span(), Span::new(30, 34));
    assert_eq!(err.message(), "Left-recursive rule requires at least one non-recursive base variant.");
}

#[test]
fn a_recovery_region_needs_an_anchor() {
    let recover = |sync: ModelPattern| ModelPattern::Recover {
        binding: Some(id("s")),
        body: Box::new(call(None, "stmt")),
        sync: Box::new(sync),
        span: sp(),
    };
    let stmt = || rule("stmt", vec![variant(vec![lit("x")], "x")]);
    let ok = grammar(vec![rule("main", vec![variant(vec![recover(lit(";"))], "s")]), stmt()]);
    let plan = generate_rust(&ok).unwrap();
    match &choice(&plan.rules[0].body)[0].steps[0] {
        Step::Recover { binding, body, sync } => {
            assert_eq!(binding.as_deref(), Some("s"));
            assert_eq!(guard_text(sync), ";");
            // The binding of the region is handed down to the call that it wraps.
            assert!(matches!(&**body, Step::Call { binding: Some(b), .. } if b == "s"));
        }
        other => panic!("unexpected step {:?}", other),
    }
    let anchor = ModelPattern::RuleCall {
        binding: None,
        rule_name: Identifier::new("stmt", Span::new(77, 81)),
        args: vec![],
    };
    let bad = grammar(vec![rule("main", vec![variant(vec![recover(anchor)], "s")]), stmt()]);
    let err = generate_rust(&bad).unwrap_err();
    assert!(matches!(err, GrammarError::RecoverWithoutAnchor { .. }));
    assert_eq!(err.span(), Span::new(77, 81));
}

#[test]
fn a_span_binding_names_the_value_of_the_call() {
    let span_of = |inner: ModelPattern| {
        ModelPattern::SpanBinding(Box::new(inner), Identifier::new("s", Span::new(50, 51)), sp())
    };
    let g = grammar(vec![rule(
        "main",
        vec![
            variant(vec![span_of(call(Some("t"), "uint"))], "named"),
            variant(vec![span_of(call(None, "uint"))], "unnamed"),
        ],
    )]);
    let plan = generate_rust(&g).unwrap();
    let alts = choice(&plan.rules[0].body);
    match &alts[0].steps[0] {
        Step::Capture { inner, value, span } => {
            assert_eq!((value.as_str(), span.as_str()), ("t", "s"));
            assert!(matches!(&**inner, Step::Call { binding: Some(b), .. } if b == "t"));
        }
        other => panic!("unexpected step {:?}", other),
    }
    match &alts[1].steps[0] {
        Step::Capture { inner, value, span } => {
            assert_eq!((value.as_str(), span.as_str()), ("_val_s", "s"));
            assert!(matches!(&**inner, Step::Call { binding: Some(b), .. } if b == "_val_s"));
        }
        other => panic!("unexpected step {:?}", other),
    }
}

#[test]
fn on_characters_the_span_of_any_pattern_is_bound() {
    let span_of = |inner: ModelPattern| {
        ModelPattern::SpanBinding(Box::new(inner), Identifier::new("s", Span::new(50, 51)), sp())
    };
    let many = ModelPattern::Repeat(Box::new(call(Some("n"), "uint")), sp());
    let g = grammar(vec![rule(
        "main",
        vec![variant(vec![span_of(lit("x")), span_of(many)], "x")],
    )]);
    let plan = generate_rust(&g).unwrap();
    let alts = choice(&plan.rules[0].body);
    match &alts[0].steps[0] {
        Step::Capture { inner, value, span } => {
            assert_eq!((value.as_str(), span.as_str()), ("_val_s", "s"));
            assert!(matches!(&**inner, Step::Literal { text, .. } if text == "x"));
        }
        other => panic!("unexpected step {:?}", other),
    }
    match &alts[0].steps[1] {
        Step::Capture { inner, value, span } => {
            assert_eq!((value.as_str(), span.as_str()), ("n", "s"));
            assert!(matches!(&**inner, Step::Repeat { at_least_one: false, .. }));
        }
        other => panic!("unexpected step {:?}", other),
    }
    let input = "x 1 2";
    let parsed = parse(&plan, "main", input, 100).unwrap();
    let captured: Vec<&Event> =
        parsed.events.iter().filter(|e| matches!(e, Event::Captured { .. })).collect();
    assert_eq!(
        captured,
        vec![&Event::Captured { start: 0, end: 1 }, &Event::Captured { start: 1, end: 5 }]
    );

    // On tokens only a rule call or a recovery region has a span to bind.
    let bad = grammar(vec![rule("main", vec![variant(vec![span_of(lit("x"))], "x")])]);
    let err = Codegen::for_token_stream(&bad).generate().unwrap_err();
    assert!(matches!(err, GrammarError::SpanBindingTarget { .. }));
    assert_eq!(err.span(), Span::new(50, 51));
    let good = grammar(vec![rule(
        "main",
        vec![variant(vec![span_of(call(Some("t"), "ident"))], "t")],
    )]);
    assert!(Codegen::for_token_stream(&good).generate().is_ok());
}

#[test]
fn repetition_and_lookahead_are_planned_around_their_step() {
    let g = grammar(vec![rule(
        "main",
        vec![variant(
            vec![
                ModelPattern::Optional(Box::new(lit("a")), sp()),
                ModelPattern::Optional(Box::new(call(None, "uint")), sp()),
                ModelPattern::Repeat(Box::new(lit("b")), sp()),
                ModelPattern::Plus(Box::new(call(None, "uint")), sp()),
                ModelPattern::Peek(Box::new(lit("c")), sp()),
                ModelPattern::Not(Box::new(lit("d")), sp()),
                ModelPattern::Group(vec![vec![lit("e")], vec![lit("f"), cut(), lit("g")]], sp()),
            ],
            "r",
        )],
    )]);
    let plan = generate_rust(&g).unwrap();
    let steps = &choice(&plan.rules[0].body)[0].steps;
    assert!(matches!(&steps[0], Step::Optional { guard: Some(t), .. } if guard_text(t) == "a"));
    assert!(matches!(&steps[1], Step::Optional { guard: None, .. }));
    assert!(
        matches!(&steps[2], Step::Repeat { at_least_one: false, guard: Some(t), .. } if guard_text(t) == "b")
    );
    assert!(matches!(&steps[3], Step::Repeat { at_least_one: true, guard: None, .. }));
    assert!(matches!(&steps[4], Step::Lookahead { negated: false, .. }));
    assert!(matches!(&steps[5], Step::Lookahead { negated: true, .. }));
    match &steps[6] {
        Step::Choice { alternatives } => {
            assert_eq!(alternatives.len(), 2);
            assert_eq!(entry(&alternatives[0]), "commit on e");
            assert_eq!(entry(&alternatives[1]), "commit on f");
            assert_eq!(alternatives[1].commit_after, Some(1));
            assert!(alternatives[0].action.is_none());
            assert!(matches!(&alternatives[1].steps[2], Step::Committed(_)));
        }
        other => panic!("unexpected step {:?}", other),
    }
}

#[test]
fn for_tokens_a_literal_is_split_and_may_be_refused() {
    let g = grammar(vec![rule(
        "main",
        vec![variant(vec![lit("->"), lit("word")], "ok"), variant(vec![lit("x"), lit("(")], "bad")],
    )]);
    // For characters every literal is the text that it is.
    let plan = generate_rust(&g).unwrap();
    match &choice(&plan.rules[0].body)[1].steps[1] {
        Step::Literal { text, tokens } => {
            assert_eq!(text, "(");
            assert!(matches!(&tokens[..], [TokenType::Token(t)] if t == "("));
        }
        other => panic!("unexpected step {:?}", other),
    }
    // For tokens the lone delimiter is refused.
    let codegen = Codegen::for_token_stream(&g);
    assert_eq!(codegen.custom_keywords, vec!["word", "x"]);
    let err = codegen.generate().unwrap_err();
    assert!(matches!(err, GrammarError::Literal { issue: LiteralIssue::Delimiter, .. }));
    let first_rule = codegen.generate_variants_body(&vec![&g.rules[0].variants[0]]).unwrap();
    match &first_rule[0].steps[0] {
        Step::Literal { text, tokens } => {
            assert_eq!(text, "->");
            assert!(matches!(&tokens[..], [TokenType::Token(a), TokenType::Token(b)] if a == "-" && b == ">"));
        }
        other => panic!("unexpected step {:?}", other),
    }
    assert!(matches!(&first_rule[0].steps[1], Step::Literal { tokens, .. }
        if matches!(&tokens[..], [TokenType::Keyword(k)] if k == "word")));
    assert_eq!(entry(&first_rule[0]), "commit on -");
}

#[test]
fn single_steps_and_sequences_can_be_planned_by_themselves() {
    let g = grammar(vec![rule("main", vec![variant(vec![lit("a")], "a")])]);
    let codegen = Codegen::new(&g);
    assert!(matches!(codegen.generate_step(&lit("x"), false).unwrap(), Step::Literal { .. }));
    assert!(matches!(codegen.generate_step(&lit("x"), true).unwrap(), Step::Committed(_)));
    assert!(matches!(codegen.generate_step(&cut(), true).unwrap(), Step::Cut));
    let seq = vec![lit("a"), cut(), lit("b")];
    let steps = codegen.generate_sequence_steps(&seq, false).unwrap();
    assert!(matches!(&steps[..], [Step::Literal { .. }, Step::Cut, Step::Committed(_)]));
    let steps = codegen.generate_sequence_steps(&seq, true).unwrap();
    assert!(matches!(&steps[..], [Step::Committed(_), Step::Cut, Step::Committed(_)]));
    let steps = codegen.generate_sequence_parser(&seq).unwrap();
    assert!(matches!(&steps[..], [Step::Literal { .. }, Step::Cut, Step::Committed(_)]));
    assert!(matches!(
        codegen.generate_delimited_expr(&seq, Delimiter::Brace).unwrap(),
        Step::Delimited { delimiter: Delimiter::Brace, open_committed: false, close_committed: true, .. }
    ));
    assert!(matches!(
        codegen.generate_delimited_step(&vec![lit("a")], Delimiter::Paren, true).unwrap(),
        Step::Delimited { delimiter: Delimiter::Paren, open_committed: true, close_committed: true, .. }
    ));
    assert!(matches!(
        codegen.generate_parser_expr(&call(Some("own"), "main")).unwrap(),
        Step::Call { binding: Some(b), .. } if b == "own"
    ));
    assert!(matches!(
        codegen.generate_parser_expr(&ModelPattern::Bracketed(vec![cut()], sp())).unwrap(),
        Step::Delimited { open_committed: false, close_committed: true, .. }
    ));
    assert!(matches!(
        codegen
            .generate_rule_call_parser(&id("uint"), &vec![lit("1")], Some("n".to_string()))
            .unwrap(),
        Step::Call { binding: Some(b), target: CallTarget::Primitive(Primitive::Uint), args }
            if b == "n" && args.len() == 1
    ));
    let tails = codegen
        .generate_recursive_loop_body(&vec![&variant(vec![call(Some("l"), "main"), lit("+")], "grow")])
        .unwrap();
    assert_eq!(tails[0].seed_binding.as_deref(), Some("l"));
    let planned = codegen.generate_rule(&g.rules[0]).unwrap();
    assert_eq!(planned.name, "main");
}

#[test]
fn the_catalog_of_the_character_backend() {
    let builtins = WinnowBackend::get_builtins();
    assert_eq!(builtins.len(), 33);
    let names: Vec<&str> = builtins.iter().map(|b| b.name).collect();
    assert_eq!(&names[..6], &["ident", "string", "char", "any", "alpha1", "digit1"]);
    assert_eq!(names[17], "empty");
    assert_eq!(builtins[17].return_type, "()");
    assert_eq!(names[32], "bool");
    assert!(names.contains(&"u128") && names.contains(&"isize") && names.contains(&"line_ending"));
    assert!(!names.contains(&"integer"));
    let mut sorted = names.clone();
    sorted.sort();
    sorted.dedup();
    assert_eq!(sorted.len(), 33);
    // Validation against this catalog knows its names and that they take no arguments.
    let g = grammar(vec![rule("main", vec![variant(vec![call(None, "hex_digit1")], "r")])]);
    validate::<WinnowBackend>(&g).unwrap();
    let with_args = ModelPattern::RuleCall { binding: None, rule_name: id("space0"), args: vec![lit("x")] };
    let g = grammar(vec![rule("main", vec![variant(vec![with_args], "r")])]);
    let err = validate::<WinnowBackend>(&g).unwrap_err();
    assert_eq!(err.message(), "Built-in rule 'space0' does not accept arguments.");
}

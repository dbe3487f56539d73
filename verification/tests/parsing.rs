use winnow_grammar::codegen::generate_rust;
use winnow_grammar::engine::Event;
use winnow_grammar::machine::{parse, skip_table, Engine, Machine, Parsed, Verdict};
use winnow_grammar::model::{
    GrammarDefinition, Identifier, ModelPattern, Rule, RuleVariant, StringLiteral,
};
use winnow_grammar::runtime::{ParseContext, ParseError};
use winnow_grammar::span::Span;

fn sp() -> Span {
    Span::new(0, 0)
}

fn lit(text: &str) -> ModelPattern {
    ModelPattern::Lit(StringLiteral::new(text, sp()))
}

fn call(name: &str) -> ModelPattern {
    ModelPattern::RuleCall { binding: None, rule_name: Identifier::new(name, sp()), args: vec![] }
}

fn bound(binding: &str, name: &str) -> ModelPattern {
    ModelPattern::RuleCall {
        binding: Some(Identifier::new(binding, sp())),
        rule_name: Identifier::new(name, sp()),
        args: vec![],
    }
}

fn variant(pattern: Vec<ModelPattern>, action: &str) -> RuleVariant {
    RuleVariant { pattern, action: action.to_string() }
}

fn rule(name: &str, variants: Vec<RuleVariant>) -> Rule {
    Rule {
        attrs: Vec::new(),
        is_pub: true,
        name: Identifier::new(name, sp()),
        params: Vec::new(),
        return_type: "()".to_string(),
        variants,
    }
}

fn grammar(rules: Vec<Rule>) -> GrammarDefinition {
    GrammarDefinition { name: Identifier::new("Test", sp()), inherits: None, uses: Vec::new(), rules }
}

fn run(g: &GrammarDefinition, start: &str, input: &str) -> Result<Parsed, ParseError> {
    let plan = generate_rust(g).expect("the grammar can be planned");
    parse(&plan, start, input, 100_000)
}

/// The alternative that the outermost rule chose.
fn outer_choice(events: &[Event]) -> usize {
    let mut depth = 0usize;
    let mut result = None;
    for e in events {
        match e {
            Event::Enter { .. } => depth += 1,
            Event::Leave { .. } => depth -= 1,
            Event::Chose { variant } if depth == 1 => result = Some(*variant),
            _ => {}
        }
    }
    result.expect("the outermost rule chose an alternative")
}

fn tokens<'a>(input: &'a str, events: &[Event]) -> Vec<&'a str> {
    events
        .iter()
        .filter_map(|e| match e {
            Event::Token { start, end } => Some(&input[*start..*end]),
            _ => None,
        })
        .collect()
}

#[test]
fn the_first_alternative_that_matches_is_chosen() {
    let g = grammar(vec![rule(
        "main",
        vec![variant(vec![lit("a"), lit("b")], "2"), variant(vec![lit("a")], "1")],
    )]);
    let parsed = run(&g, "main", "a b").unwrap();
    assert_eq!(outer_choice(&parsed.events), 0);
    assert_eq!(parsed.end, 3);
    let parsed = run(&g, "main", "a").unwrap();
    assert_eq!(outer_choice(&parsed.events), 1);
    assert_eq!(parsed.end, 1);
}

#[test]
fn a_rolled_back_attempt_leaves_no_notes() {
    let g = grammar(vec![rule(
        "main",
        vec![variant(vec![lit("a"), lit("b")], "2"), variant(vec![lit("a"), lit("c")], "1")],
    )]);
    let parsed = run(&g, "main", "a c").unwrap();
    assert_eq!(
        parsed.events,
        vec![
            Event::Enter { rule: 0 },
            Event::Token { start: 0, end: 1 },
            Event::Token { start: 2, end: 3 },
            Event::Chose { variant: 1 },
            Event::Leave { rule: 0 },
        ]
    );
}

fn subtraction() -> GrammarDefinition {
    grammar(vec![
        rule(
            "expr",
            vec![
                variant(vec![bound("l", "expr"), lit("-"), bound("r", "term")], "l - r"),
                variant(vec![bound("t", "term")], "t"),
            ],
        ),
        rule("term", vec![variant(vec![bound("n", "integer")], "n")]),
    ])
}

/// Evaluates the notes of a parse of `subtraction`: the seed is the first
/// number, and each growth subtracts the number that the arm matched.
fn evaluate(input: &str, events: &[Event]) -> i64 {
    let mut seed: Option<i64> = None;
    let mut last: Option<i64> = None;
    for e in events {
        match e {
            Event::Token { start, end } => {
                if let Ok(n) = input[*start..*end].parse::<i64>() {
                    if seed.is_none() {
                        seed = Some(n);
                    } else {
                        last = Some(n);
                    }
                }
            }
            Event::Grow { .. } => {
                seed = Some(seed.unwrap() - last.take().unwrap());
            }
            _ => {}
        }
    }
    seed.unwrap()
}

#[test]
fn left_recursion_is_left_associative() {
    let input = "10 - 2 - 3";
    let parsed = run(&subtraction(), "expr", input).unwrap();
    assert_eq!(parsed.end, input.len());
    assert_eq!(tokens(input, &parsed.events), vec!["10", "-", "2", "-", "3"]);
    let grows = parsed.events.iter().filter(|e| matches!(e, Event::Grow { .. })).count();
    assert_eq!(grows, 2);
    assert_eq!(evaluate(input, &parsed.events), 5);
}

#[test]
fn left_recursion_without_a_tail_is_the_seed() {
    let parsed = run(&subtraction(), "expr", "42").unwrap();
    assert_eq!(evaluate("42", &parsed.events), 42);
    assert!(!parsed.events.iter().any(|e| matches!(e, Event::Grow { .. })));
}

fn cut() -> ModelPattern {
    ModelPattern::Cut(sp())
}

fn cut_safety() -> GrammarDefinition {
    grammar(vec![rule(
        "deterministic_choice",
        vec![
            variant(vec![lit("commit"), cut(), lit("success")], "committed"),
            variant(vec![lit("commit"), lit("failure")], "backtracked_badly"),
            variant(vec![lit("other")], "other"),
        ],
    )])
}

fn action_of(g: &GrammarDefinition, rule_index: usize, parsed: &Parsed) -> String {
    g.rules[rule_index].variants[outer_choice(&parsed.events)].action.clone()
}

#[test]
fn test_cut_operator_safety() {
    let g = cut_safety();

    let result = run(&g, "deterministic_choice", "commitsuccess").unwrap();
    assert_eq!(action_of(&g, 0, &result), "committed");

    let result = run(&g, "deterministic_choice", "commitfailure");
    assert!(result.is_err(), "Parser backtracked despite cut operator!");

    let result = run(&g, "deterministic_choice", "other").unwrap();
    assert_eq!(action_of(&g, 0, &result), "other");
}

#[test]
fn test_error_propagation() {
    let g = grammar(vec![
        rule("main", vec![variant(vec![lit("start"), cut(), call("inner_rule")], "()")]),
        rule("inner_rule", vec![variant(vec![lit("expecting_this")], "()")]),
    ]);
    let err = run(&g, "main", "start wrong").unwrap_err();
    assert!(err.message.len() > 0);
    assert_eq!(err.message, "No matching rule variant found");
    assert_eq!(err.span.start, 6);
}

#[test]
fn a_unique_first_token_commits_without_a_cut() {
    let g = grammar(vec![rule(
        "main",
        vec![
            variant(vec![lit("commit"), lit("success")], "A"),
            variant(vec![lit("other"), lit("failure")], "B"),
        ],
    )]);
    assert_eq!(action_of(&g, 0, &run(&g, "main", "commit success").unwrap()), "A");
    assert_eq!(action_of(&g, 0, &run(&g, "main", "other failure").unwrap()), "B");
    let err = run(&g, "main", "commit failure").unwrap_err();
    assert_eq!(err.message, "expected 'success'");
    assert_eq!(err.span, Span::new(7, 7));
}

#[test]
fn alternatives_that_share_a_first_token_fall_through_without_a_commit_point() {
    let g = grammar(vec![rule(
        "main",
        vec![
            variant(vec![lit("commit"), lit("success")], "A"),
            variant(vec![lit("commit"), lit("failure")], "B"),
        ],
    )]);
    assert_eq!(action_of(&g, 0, &run(&g, "main", "commitfailure").unwrap()), "B");
}

#[test]
fn test_deep_recursion() {
    let g = grammar(vec![rule(
        "recursive",
        vec![
            variant(vec![lit("("), bound("r", "recursive"), lit(")")], "r + 1"),
            variant(vec![lit("end")], "0"),
        ],
    )]);
    let depth = 500;
    let mut input = String::new();
    for _ in 0..depth {
        input.push('(');
    }
    input.push_str("end");
    for _ in 0..depth {
        input.push(')');
    }

    let result = run(&g, "recursive", input.as_str()).unwrap();
    let nested = result.events.iter().filter(|e| matches!(e, Event::Chose { variant: 0 })).count();
    assert_eq!(nested, depth);
    assert_eq!(result.end, input.len());
}

#[test]
fn the_budget_of_rule_calls_bounds_the_depth() {
    let g = grammar(vec![rule(
        "recursive",
        vec![
            variant(vec![lit("("), bound("r", "recursive"), lit(")")], "r + 1"),
            variant(vec![lit("end")], "0"),
        ],
    )]);
    let plan = generate_rust(&g).unwrap();
    assert!(parse(&plan, "recursive", "((end))", 2).is_ok());
    let err = parse(&plan, "recursive", "((end))", 1).unwrap_err();
    assert_eq!(err.message, "budget of rule calls exhausted");
}

#[test]
fn test_left_recursion() {
    // expr = l:expr "+" r:term | t:term;  term = n:u32
    let g = grammar(vec![
        rule(
            "expr",
            vec![
                variant(vec![bound("l", "expr"), lit("+"), bound("r", "term")], "Add(l, r)"),
                variant(vec![bound("t", "term")], "t"),
            ],
        ),
        rule("term", vec![variant(vec![bound("n", "u32")], "Num(n)")]),
    ]);
    let input = "1 + 2 + 3";
    let result = run(&g, "expr", input).unwrap();
    // (1 + 2) + 3: the seed 1 grows by 2 and what came of it grows by 3.
    let mut tree = String::new();
    let mut pending = String::new();
    for e in &result.events {
        match e {
            Event::Token { start, end } => {
                let text = &input[*start..*end];
                if text != "+" {
                    if tree.is_empty() {
                        tree = format!("Num({})", text);
                    } else {
                        pending = format!("Num({})", text);
                    }
                }
            }
            Event::Grow { .. } => {
                tree = format!("Add({}, {})", tree, pending);
            }
            _ => {}
        }
    }
    assert_eq!(tree, "Add(Add(Num(1), Num(2)), Num(3))");
}

#[test]
fn test_recovery() {
    let recover = ModelPattern::Recover {
        binding: Some(Identifier::new("s", sp())),
        body: Box::new(call("parse_stmt")),
        sync: Box::new(lit(";")),
        span: sp(),
    };
    let g = grammar(vec![
        rule("stmt", vec![variant(vec![recover, lit(";")], "s")]),
        rule("parse_stmt", vec![variant(vec![lit("let"), lit("x")], "Stmt")]),
    ]);
    let recovered = |input: &str| {
        let parsed = run(&g, "stmt", input).unwrap();
        assert_eq!(parsed.end, input.len());
        parsed.events.iter().any(|e| matches!(e, Event::Skip { .. }))
    };

    assert!(!recovered("let x;"));
    assert!(run(&g, "stmt", "let x;").unwrap().events.contains(&Event::Present));
    assert!(recovered("let y;"));
    assert!(recovered("garbage data;"));
    assert!(recovered("let;"));
}

#[test]
fn recovery_skips_up_to_the_anchor_and_leaves_it() {
    let recover = ModelPattern::Recover {
        binding: None,
        body: Box::new(call("parse_stmt")),
        sync: Box::new(lit(";")),
        span: sp(),
    };
    let g = grammar(vec![
        rule("stmt", vec![variant(vec![recover, lit(";")], "s")]),
        rule("parse_stmt", vec![variant(vec![lit("let"), lit("x")], "Stmt")]),
    ]);
    let input = "garbage data;";
    let parsed = run(&g, "stmt", input).unwrap();
    assert_eq!(
        parsed.events,
        vec![
            Event::Enter { rule: 0 },
            Event::Skip { start: 0, end: 12 },
            Event::Token { start: 12, end: 13 },
            Event::Chose { variant: 0 },
            Event::Leave { rule: 0 },
        ]
    );
    // Without an anchor in the input the region skips to the end, and the
    // step that wants the anchor fails.
    assert!(run(&g, "stmt", "garbage data").is_err());
}

fn repeated(inner: ModelPattern) -> ModelPattern {
    ModelPattern::Repeat(Box::new(inner), sp())
}

fn plus(inner: ModelPattern) -> ModelPattern {
    ModelPattern::Plus(Box::new(inner), sp())
}

#[test]
fn test_plus_repetition() {
    let g = grammar(vec![rule("list", vec![variant(vec![plus(bound("items", "uint"))], "items")])]);

    let input = "1 2 3";
    let result = run(&g, "list", input).unwrap();
    assert_eq!(tokens(input, &result.events), vec!["1", "2", "3"]);

    let input = "1";
    let result = run(&g, "list", input).unwrap();
    assert_eq!(tokens(input, &result.events), vec!["1"]);

    let result = run(&g, "list", "");
    assert!(result.is_err());
}

fn rounds(events: &[Event]) -> usize {
    events.iter().filter(|e| matches!(e, Event::Item)).count()
}

#[test]
fn repeat_accepts_the_empty_input() {
    let g = grammar(vec![rule("list", vec![variant(vec![repeated(bound("items", "integer"))], "items")])]);
    let result = run(&g, "list", "").unwrap();
    assert_eq!(result.end, 0);
    assert!(tokens("", &result.events).is_empty());
    assert_eq!(
        result.events,
        vec![
            Event::Enter { rule: 0 },
            Event::Collecting,
            Event::Collected,
            Event::Chose { variant: 0 },
            Event::Leave { rule: 0 },
        ]
    );
    let result = run(&g, "list", "-4 +5 6").unwrap();
    assert_eq!(tokens("-4 +5 6", &result.events), vec!["-4", "+5", "6"]);
}

#[test]
fn plus_fails_on_the_empty_input() {
    let g = grammar(vec![rule("list", vec![variant(vec![plus(bound("items", "integer"))], "items")])]);
    let err = run(&g, "list", "").unwrap_err();
    assert_eq!(err.message, "Error in rule 'list': expected integer");
    let result = run(&g, "list", "7").unwrap();
    assert_eq!(tokens("7", &result.events), vec!["7"]);
    assert_eq!(
        result.events,
        vec![
            Event::Enter { rule: 0 },
            Event::Collecting,
            Event::Token { start: 0, end: 1 },
            Event::Item,
            Event::Collected,
            Event::Chose { variant: 0 },
            Event::Leave { rule: 0 },
        ]
    );
    assert_eq!(rounds(&run(&g, "list", "7 8 9").unwrap().events), 3);
}

#[test]
fn test_grouping() {
    let g = grammar(vec![rule(
        "main",
        vec![
            variant(vec![lit("a"), bound("n", "uint")], "A(n)"),
            variant(vec![lit("b"), bound("n", "uint")], "B(n)"),
        ],
    )]);
    let result = run(&g, "main", "a 10").unwrap();
    assert_eq!(action_of(&g, 0, &result), "A(n)");
    assert_eq!(tokens("a 10", &result.events), vec!["a", "10"]);

    let result = run(&g, "main", "b 20").unwrap();
    assert_eq!(action_of(&g, 0, &result), "B(n)");
    assert_eq!(tokens("b 20", &result.events), vec!["b", "20"]);
}

#[test]
fn test_builtins() {
    let g = grammar(vec![rule(
        "main",
        vec![variant(vec![bound("s", "string"), bound("i", "uint"), bound("id", "ident")], "Builtins")],
    )]);
    let input = r#" "hello" 123 world"#;
    let result = run(&g, "main", input).unwrap();
    assert_eq!(tokens(input, &result.events), vec!["\"hello\"", "123", "world"]);
}

fn mini_lang() -> GrammarDefinition {
    grammar(vec![
        rule(
            "stmt",
            vec![
                variant(
                    vec![lit("let"), bound("name", "ident"), lit("="), bound("e", "expr"), lit(";")],
                    "Let",
                ),
                variant(vec![bound("e", "expr"), lit(";")], "Expr"),
            ],
        ),
        rule(
            "expr",
            vec![
                variant(vec![bound("l", "term"), lit("+"), bound("r", "expr")], "Add"),
                variant(vec![bound("t", "term")], "t"),
            ],
        ),
        rule(
            "term",
            vec![
                variant(vec![bound("n", "u32")], "Num"),
                variant(vec![bound("i", "ident")], "Var"),
                variant(vec![lit("("), bound("e", "expr"), lit(")")], "e"),
            ],
        ),
        rule(
            "spanned_term",
            vec![variant(
                vec![ModelPattern::SpanBinding(
                    Box::new(bound("t", "term")),
                    Identifier::new("s", sp()),
                    sp(),
                )],
                "(t, s)",
            )],
        ),
    ])
}

/// The actions of the alternatives chosen, innermost first.
fn choices(g: &GrammarDefinition, events: &[Event]) -> Vec<String> {
    let mut open: Vec<usize> = Vec::new();
    let mut out = Vec::new();
    for e in events {
        match e {
            Event::Enter { rule } => open.push(*rule),
            Event::Leave { .. } => {
                open.pop();
            }
            Event::Chose { variant } => {
                let rule = *open.last().unwrap();
                out.push(g.rules[rule].variants[*variant].action.clone());
            }
            _ => {}
        }
    }
    out
}

#[test]
fn test_let_stmt() {
    let g = mini_lang();
    let input = "let x = 1 + 2;";
    let result = run(&g, "stmt", input).unwrap();
    assert_eq!(tokens(input, &result.events), vec!["let", "x", "=", "1", "+", "2", ";"]);
    assert_eq!(choices(&g, &result.events), vec!["Num", "Num", "t", "Add", "Let"]);
}

#[test]
fn test_expr_stmt() {
    let g = mini_lang();
    let input = "10 + x;";
    let result = run(&g, "stmt", input).unwrap();
    assert_eq!(tokens(input, &result.events), vec!["10", "+", "x", ";"]);
    assert_eq!(choices(&g, &result.events), vec!["Num", "Var", "t", "Add", "Expr"]);
}

#[test]
fn test_parens() {
    let g = mini_lang();
    let input = "(1 + 2);";
    let result = run(&g, "stmt", input).unwrap();
    assert_eq!(tokens(input, &result.events), vec!["(", "1", "+", "2", ")", ";"]);
    assert_eq!(choices(&g, &result.events), vec!["Num", "Num", "t", "Add", "e", "t", "Expr"]);
}

#[test]
fn test_span() {
    let g = mini_lang();
    let input = " 123";
    let result = run(&g, "spanned_term", input).unwrap();
    assert_eq!(tokens(input, &result.events), vec!["123"]);
    assert_eq!(result.end, 4);
    assert!(result.events.contains(&Event::Captured { start: 0, end: 4 }));
}

#[test]
fn test_visibility() {
    let mut private_rule = rule("private_rule", vec![variant(vec![lit("test")], "test")]);
    private_rule.is_pub = false;
    let g = grammar(vec![rule("start", vec![variant(vec![bound("p", "private_rule")], "p")]), private_rule]);
    let plan = generate_rust(&g).unwrap();
    assert!(plan.rules[0].is_public);
    assert!(!plan.rules[1].is_public);
    let result = parse(&plan, "start", "test", 100).unwrap();
    assert_eq!(tokens("test", &result.events), vec!["test"]);
}

#[test]
fn test_ws_recursion() {
    let g = grammar(vec![
        rule("ws", vec![variant(vec![call("multispace0")], "()")]),
        rule("test", vec![variant(vec![lit("a")], "a")]),
    ]);
    let plan = generate_rust(&g).unwrap();
    assert!(plan.has_user_ws);
    let result = parse(&plan, "test", "  a", 100);
    assert!(result.is_ok());
}

#[test]
fn lookahead_consumes_nothing() {
    let peek = ModelPattern::Peek(Box::new(lit("a")), sp());
    let not = ModelPattern::Not(Box::new(lit("b")), sp());
    let g = grammar(vec![
        rule("ahead", vec![variant(vec![peek, lit("a"), lit("b")], "ok")]),
        rule("never", vec![variant(vec![lit("a"), not, bound("x", "ident")], "ok")]),
    ]);
    let result = run(&g, "ahead", "a b").unwrap();
    assert_eq!(
        result.events,
        vec![
            Event::Enter { rule: 0 },
            Event::Peeking,
            Event::Token { start: 0, end: 1 },
            Event::Peeked,
            Event::Token { start: 0, end: 1 },
            Event::Token { start: 2, end: 3 },
            Event::Chose { variant: 0 },
            Event::Leave { rule: 0 },
        ]
    );
    assert!(run(&g, "ahead", "b").is_err());
    let result = run(&g, "never", "a c").unwrap();
    assert_eq!(tokens("a c", &result.events), vec!["a", "c"]);
    let err = run(&g, "never", "a b").unwrap_err();
    assert_eq!(err.message, "unexpected match");
    assert_eq!(err.span, Span::new(2, 2));
}

#[test]
fn delimited_regions_and_optional_steps() {
    let inner = vec![ModelPattern::Optional(Box::new(bound("n", "uint")), sp())];
    let g = grammar(vec![rule(
        "main",
        vec![variant(vec![ModelPattern::Bracketed(inner, sp()), lit(";")], "ok")],
    )]);
    let with = run(&g, "main", "[ 5 ];").unwrap();
    assert_eq!(tokens("[ 5 ];", &with.events), vec!["[", "5", "]", ";"]);
    assert!(with.events.contains(&Event::Present) && !with.events.contains(&Event::Absent));
    let without = run(&g, "main", "[];").unwrap();
    assert_eq!(tokens("[];", &without.events), vec!["[", "]", ";"]);
    assert!(without.events.contains(&Event::Absent) && !without.events.contains(&Event::Present));
    let err = run(&g, "main", "[ 5 ;").unwrap_err();
    assert_eq!(err.message, "expected ']'");
}

#[test]
fn a_left_recursive_arm_that_consumes_nothing_is_an_error() {
    let g = grammar(vec![rule(
        "expr",
        vec![
            variant(
                vec![bound("l", "expr"), ModelPattern::Optional(Box::new(bound("x", "ident")), sp())],
                "l",
            ),
            variant(vec![bound("n", "uint")], "n"),
        ],
    )]);
    let plan = generate_rust(&g).unwrap();
    let input: Vec<char> = "1".chars().collect();
    let skips = skip_table(&plan, &input, 100);
    let engine = Engine { plan: &plan, input: &input, skips: &skips };
    let mut machine = Machine { pos: 0, ctx: ParseContext::new(), trace: Vec::new() };
    match engine.run_rule(0, &Vec::new(), &mut machine, 100) {
        Verdict::Failed(e) => {
            assert_eq!(
                e.message,
                "Left-recursive rule matched empty string (infinite loop detected)"
            );
            assert_eq!(e.span, Span::new(1, 1));
        }
        other => panic!("unexpected verdict {:?}", other),
    }
    // The caller of the parse is handed the best error kept in its place.
    let err = run(&g, "expr", "1").unwrap_err();
    assert_eq!(err.message, "Error in rule 'expr': expected identifier");
}

#[test]
fn the_deeper_failure_is_reported() {
    let g = grammar(vec![rule(
        "main",
        vec![
            variant(vec![lit("a"), lit("b"), lit("c")], "long"),
            variant(vec![lit("a"), lit("z")], "short"),
        ],
    )]);
    let err = run(&g, "main", "a b d").unwrap_err();
    assert_eq!(err.message, "Error in rule 'main': expected 'c'");
    assert_eq!(err.span, Span::new(4, 4));
}

#[test]
fn an_unknown_start_rule_is_a_failure() {
    let g = grammar(vec![rule("main", vec![variant(vec![lit("a")], "a")])]);
    let err = run(&g, "nowhere", "a").unwrap_err();
    assert_eq!(err.message, "no rule named 'nowhere'");
}

#[test]
fn primitives_match_as_described() {
    let g = grammar(vec![
        rule("c", vec![variant(vec![bound("x", "char")], "x")]),
        rule("s", vec![variant(vec![bound("x", "string")], "x")]),
        rule("i", vec![variant(vec![bound("x", "ident")], "x")]),
        rule("n", vec![variant(vec![bound("x", "integer")], "x")]),
        rule("u", vec![variant(vec![bound("x", "uint")], "x")]),
    ]);
    let end = |start: &str, input: &str| run(&g, start, input).map(|p| p.end).ok();
    assert_eq!(end("c", "'a'"), Some(3));
    assert_eq!(end("c", "'\\n'"), Some(4));
    assert_eq!(end("c", "'\\''"), Some(4));
    assert_eq!(end("c", "''"), None);
    assert_eq!(end("c", "'ab'"), None);
    assert_eq!(end("s", "\"a \\\" b\" rest"), Some(8));
    assert_eq!(end("s", "\"open"), None);
    assert_eq!(end("i", "  snake_case9 x"), Some(13));
    assert_eq!(end("i", "-"), None);
    assert_eq!(end("n", "-12"), Some(3));
    assert_eq!(end("n", "+"), None);
    assert_eq!(end("u", "-12"), None);
    // A number does not begin with a needless zero: the zero is the number.
    assert_eq!(end("u", "007"), Some(1));
    assert_eq!(end("n", "-0"), None);
    assert_eq!(end("s", "\"a\\nb\""), None);
}

fn with_params(mut r: Rule, params: &[(&str, &str)]) -> Rule {
    r.params = params
        .iter()
        .map(|(name, ty)| (Identifier::new(name, sp()), Some(ty.to_string())))
        .collect();
    r
}

fn call_with(binding: &str, name: &str, args: Vec<ModelPattern>) -> ModelPattern {
    ModelPattern::RuleCall {
        binding: Some(Identifier::new(binding, sp())),
        rule_name: Identifier::new(name, sp()),
        args,
    }
}

#[test]
fn test_args() {
    let g = grammar(vec![
        rule("main", vec![variant(vec![lit("start"), call_with("v", "value", vec![lit("10")])], "v")]),
        with_params(
            rule("value", vec![variant(vec![bound("i", "integer")], "i + offset")]),
            &[("offset", "i32")],
        ),
    ]);
    let input = "start 5";
    let result = run(&g, "main", input).unwrap();
    // The value handed in is no concern of the machine; the action adds it
    // to the number matched.
    let offset: i32 = match &g.rules[0].variants[0].pattern[1] {
        ModelPattern::RuleCall { args, .. } => match &args[0] {
            ModelPattern::Lit(l) => l.value.parse().unwrap(),
            other => panic!("unexpected argument {:?}", other),
        },
        other => panic!("unexpected pattern {:?}", other),
    };
    let matched: i32 = tokens(input, &result.events)[1].parse().unwrap();
    assert_eq!(matched + offset, 15);
}

#[test]
fn test_generics() {
    let g = grammar(vec![
        with_params(
            rule("list", vec![variant(vec![lit("["), repeated(bound("elements", "item")), lit("]")], "elements")]),
            &[("item", "impl Parser<I, T, winnow::error::ContextError>")],
        ),
        rule("main", vec![variant(vec![call_with("l", "list", vec![call("u32_parser")])], "l")]),
        rule("u32_parser", vec![variant(vec![bound("i", "u32")], "i")]),
    ]);
    let input = "[ 1 2 3 ]";
    let result = run(&g, "main", input).unwrap();
    let elements: Vec<u32> =
        tokens(input, &result.events).iter().filter_map(|t| t.parse().ok()).collect();
    assert_eq!(elements, vec![1, 2, 3]);
    let entered: Vec<usize> = result
        .events
        .iter()
        .filter_map(|e| match e {
            Event::Enter { rule } => Some(*rule),
            _ => None,
        })
        .collect();
    assert_eq!(entered, vec![1, 0, 2, 2, 2]);
}

#[test]
fn a_parameter_is_handed_on_and_a_wrong_count_is_a_failure() {
    let g = grammar(vec![
        with_params(
            rule("outer", vec![variant(vec![call_with("x", "inner", vec![call("p")])], "x")]),
            &[("p", "P")],
        ),
        with_params(rule("inner", vec![variant(vec![bound("y", "q")], "y")]), &[("q", "Q")]),
        rule("word", vec![variant(vec![bound("w", "ident")], "w")]),
        rule("main", vec![variant(vec![call_with("r", "outer", vec![call("word")])], "r")]),
        rule("short", vec![variant(vec![bound("r", "outer")], "r")]),
        rule("unbound", vec![variant(vec![bound("r", "q")], "r")]),
    ]);
    let result = run(&g, "main", "hello").unwrap();
    assert_eq!(tokens("hello", &result.events), vec!["hello"]);
    let err = run(&g, "short", "hello").unwrap_err();
    assert_eq!(err.message, "Error in rule 'short': wrong number of arguments");
    let err = run(&g, "unbound", "hello").unwrap_err();
    assert_eq!(err.message, "Error in rule 'unbound': no parser named 'q'");
}

/// Parses the whole of `input` with a rule that consists of one matcher and
/// returns the text that the matcher took.
fn whole(matcher: &str, input: &str) -> Result<String, String> {
    let g = grammar(vec![rule("test", vec![variant(vec![bound("x", matcher)], "x")])]);
    let parsed = run(&g, "test", input).map_err(|e| e.message)?;
    if parsed.end != input.len() {
        return Err("input left over".to_string());
    }
    Ok(tokens(input, &parsed.events).concat())
}

#[test]
fn test_hex_literal() {
    assert_eq!(whole("hex_digit1", "1A2b").unwrap(), "1A2b");
    assert_eq!(whole("hex_digit1", "0").unwrap(), "0");
    assert_eq!(whole("hex_digit1", "F").unwrap(), "F");
    assert!(whole("hex_digit1", "g").is_err());
}

#[test]
fn test_oct_literal() {
    assert_eq!(whole("oct_digit1", "1234567").unwrap(), "1234567");
    assert_eq!(whole("oct_digit1", "0").unwrap(), "0");
    assert!(whole("oct_digit1", "8").is_err());
}

#[test]
fn test_bin_literal() {
    assert_eq!(whole("binary_digit1", "10101").unwrap(), "10101");
    assert_eq!(whole("binary_digit1", "0").unwrap(), "0");
    assert_eq!(whole("binary_digit1", "1").unwrap(), "1");
    assert!(whole("binary_digit1", "2").is_err());
}

fn unescape(quoted: &str) -> char {
    let inner: Vec<char> = quoted[1..quoted.len() - 1].chars().collect();
    match inner.as_slice() {
        ['\\', 'n'] => '\n',
        ['\\', 'r'] => '\r',
        ['\\', 't'] => '\t',
        ['\\', '0'] => '\0',
        ['\\', c] => *c,
        [c] => *c,
        other => panic!("no character: {:?}", other),
    }
}

#[test]
fn test_char_literal() {
    assert_eq!(unescape(&whole("char", "'a'").unwrap()), 'a');
    assert_eq!(unescape(&whole("char", "'\\n'").unwrap()), '\n');
    assert_eq!(unescape(&whole("char", "'\\''").unwrap()), '\'');
    assert_eq!(unescape(&whole("char", "'\\\\'").unwrap()), '\\');
}

#[test]
fn test_use() {
    let text = whole("any", "a").unwrap();
    assert_eq!(text.chars().next().unwrap(), 'a');
}

#[test]
fn the_stand_ins_of_the_catalog() {
    assert_eq!(whole("alpha1", "abcXYZ").unwrap(), "abcXYZ");
    assert_eq!(whole("alpha1", "a1").unwrap_err(), "input left over");
    assert_eq!(whole("alpha1", "1").unwrap_err(), "Error in rule 'test': expected letter");
    assert_eq!(whole("digit1", "0123456789").unwrap(), "0123456789");
    assert_eq!(whole("hex_digit0", "").unwrap(), "");
    assert_eq!(whole("hex_digit0", "fF9").unwrap(), "fF9");
    assert_eq!(whole("oct_digit0", "").unwrap(), "");
    assert_eq!(whole("binary_digit0", "").unwrap(), "");
    assert_eq!(whole("empty", "").unwrap(), "");
    assert_eq!(whole("empty", "  ").unwrap(), "");
    assert_eq!(whole("empty", " x").unwrap_err(), "input left over");
    assert_eq!(whole("any", "").unwrap_err(), "Error in rule 'test': expected any character");
    assert_eq!(whole("any", "ab").unwrap_err(), "input left over");
    assert_eq!(whole("u8", " 12").unwrap(), "12");
    assert_eq!(whole("isize", "-12").unwrap(), "-12");
    assert_eq!(whole("u64", "-12").unwrap_err(), "Error in rule 'test': expected number");
    assert_eq!(whole("uint", "-12").unwrap_err(), "Error in rule 'test': expected unsigned integer");
    assert_eq!(whole("uint", "4294967295").unwrap(), "4294967295");
    assert!(whole("uint", "4294967296").is_err());
    assert_eq!(whole("integer", "-2147483648").unwrap(), "-2147483648");
    assert!(whole("integer", "2147483648").is_err());
    // White space is skipped before every matcher, so that those for white
    // space find none left.
    assert_eq!(whole("space0", "  \t").unwrap(), "");
    assert_eq!(whole("multispace0", " \n ").unwrap(), "");
    assert_eq!(whole("space1", "  ").unwrap_err(), "Error in rule 'test': expected blank");
    assert_eq!(whole("multispace1", "\n").unwrap_err(), "Error in rule 'test': expected white space");
    assert_eq!(whole("line_ending", "\r\n").unwrap_err(), "Error in rule 'test': expected line ending");
    assert_eq!(whole("bool", "true").unwrap(), "true");
    assert_eq!(whole("bool", "maybe").unwrap_err(), "Error in rule 'test': expected `true` or `false`");
    assert_eq!(whole("nothing", "x").unwrap_err(), "Error in rule 'test': no parser named 'nothing'");
}

#[test]
fn test_eof() {
    let g = grammar(vec![
        rule("ws", vec![variant(vec![call("multispace0")], "()")]),
        rule("test", vec![variant(vec![lit("a")], "a")]),
        rule("test_eof", vec![variant(vec![lit("a"), call("eof")], "a")]),
    ]);
    let result = run(&g, "test_eof", "a");
    assert!(result.is_ok());

    // The literal takes the `a` and leaves the blank, at which the end of
    // the input is not.
    let result = run(&g, "test_eof", "a ");
    assert!(result.is_err());
}

#[test]
fn test_generic_return() {
    let g = grammar(vec![rule(
        "optional_int",
        vec![variant(vec![bound("i", "integer")], "Some(i)"), variant(vec![lit("none")], "None")],
    )]);
    let value = |input: &str| -> Option<i32> {
        let parsed = run(&g, "optional_int", input).unwrap();
        assert_eq!(parsed.end, input.len());
        match action_of(&g, 0, &parsed).as_str() {
            "Some(i)" => Some(tokens(input, &parsed.events)[0].parse().unwrap()),
            _ => None,
        }
    };
    assert_eq!(value("42"), Some(42));
    assert_eq!(value("none"), None);
}

#[test]
fn test_num_formats() {
    let g = grammar(vec![
        rule("hex", vec![variant(vec![lit("0x"), bound("h", "hex_digit1")], "16")]),
        rule("oct", vec![variant(vec![lit("0o"), bound("o", "oct_digit1")], "8")]),
        rule("bin", vec![variant(vec![lit("0b"), bound("b", "binary_digit1")], "2")]),
    ]);
    let value = |start: &str, input: &str| -> u32 {
        let parsed = run(&g, start, input).unwrap();
        assert_eq!(parsed.end, input.len());
        let radix: u32 = action_of(&g, g.rules.iter().position(|r| r.name.text == start).unwrap(), &parsed)
            .parse()
            .unwrap();
        u32::from_str_radix(tokens(input, &parsed.events)[1], radix).unwrap()
    };
    assert_eq!(value("hex", "0x1A"), 26);
    assert_eq!(value("oct", "0o12"), 10);
    assert_eq!(value("bin", "0b1010"), 10);
}

#[test]
fn test_int64() {
    let input = "9223372036854775807";
    let text = whole("digit1", input).unwrap();
    assert_eq!(text.parse::<i64>().unwrap(), i64::MAX);
}

#[test]
fn test_primitives() {
    assert_eq!(whole("u8", "255").unwrap().parse::<u8>().unwrap(), 255);
    assert_eq!(whole("u16", "65535").unwrap().parse::<u16>().unwrap(), 65535);
    assert_eq!(whole("u64", "18446744073709551615").unwrap().parse::<u64>().unwrap(), u64::MAX);
    assert_eq!(whole("i8", "-128").unwrap().parse::<i8>().unwrap(), -128);
    assert_eq!(whole("i64", "-9223372036854775808").unwrap().parse::<i64>().unwrap(), i64::MIN);
    assert!((whole("f32", "1.5").unwrap().parse::<f32>().unwrap() - 1.5f32).abs() < 1e-6);
    assert_eq!(whole("bool", "true").unwrap().parse::<bool>().unwrap(), true);
    assert_eq!(whole("bool", "false").unwrap().parse::<bool>().unwrap(), false);
}

#[test]
fn test_numeric_boundaries() {
    let g = grammar(vec![rule(
        "primitive_limits",
        vec![variant(vec![bound("u", "u8"), bound("i", "i8"), bound("huge", "u128")], "(u, i, huge)")],
    )]);
    let input = "255 127 340282366920938463463374607431768211455";
    let result = run(&g, "primitive_limits", input).unwrap();
    let parts = tokens(input, &result.events);
    assert_eq!(
        (parts[0].parse::<u8>().unwrap(), parts[1].parse::<i8>().unwrap(), parts[2].parse::<u128>().unwrap()),
        (255, 127, u128::MAX)
    );

    let result = run(&g, "primitive_limits", "256 0 0");
    assert!(result.is_err());
}

#[test]
fn numbers_stay_within_their_types() {
    let fits = |kind: &str, input: &str| whole(kind, input).is_ok();
    assert!(fits("u8", "0") && fits("u8", "255") && !fits("u8", "256") && !fits("u8", "-1"));
    assert!(!fits("u8", "0255") && !fits("u8", "+1"));
    assert!(fits("i8", "-128") && fits("i8", "127") && fits("i8", "+127"));
    assert!(!fits("i8", "128") && !fits("i8", "-129") && !fits("i8", "+128"));
    assert!(fits("u16", "65535") && !fits("u16", "65536"));
    assert!(fits("i16", "-32768") && !fits("i16", "32768"));
    assert!(fits("u32", "4294967295") && !fits("u32", "4294967296"));
    assert!(fits("i32", "-2147483648") && !fits("i32", "-2147483649"));
    assert!(fits("u64", "18446744073709551615") && !fits("u64", "18446744073709551616"));
    assert!(fits("i64", "9223372036854775807") && !fits("i64", "9223372036854775808"));
    assert!(fits("u128", "340282366920938463463374607431768211455"));
    assert!(!fits("u128", "340282366920938463463374607431768211456"));
    assert!(!fits("u128", "3402823669209384634633746074317682114550"));
    assert!(fits("i128", "-170141183460469231731687303715884105728"));
    assert!(!fits("i128", "170141183460469231731687303715884105728"));
    assert!(fits("usize", &usize::MAX.to_string()) && fits("isize", &isize::MIN.to_string()));
    assert!(!fits("isize", &usize::MAX.to_string()));
}

#[test]
fn test_float_literal() {
    let value = |input: &str| whole("float", input).map(|t| t.parse::<f64>().unwrap());
    assert!((value("3.14").unwrap() - 3.14).abs() < f64::EPSILON);
    assert!((value("-0.5").unwrap() - -0.5).abs() < f64::EPSILON);
    assert!((value("123").unwrap() - 123.0).abs() < f64::EPSILON);
    assert!(value("abc").is_err());
}

#[test]
fn decimal_fractions() {
    let end = |input: &str| run(
        &grammar(vec![rule("test", vec![variant(vec![bound("x", "f64")], "x")])]),
        "test",
        input,
    )
    .map(|p| p.end)
    .ok();
    assert_eq!(end("1"), Some(1));
    assert_eq!(end("1."), Some(2));
    assert_eq!(end("1.e5"), Some(4));
    assert_eq!(end("1.5e"), None);
    assert_eq!(end("1.5e+"), None);
    assert_eq!(end("1.5e+10x"), Some(7));
    assert_eq!(end("+1E-2"), Some(5));
    assert_eq!(end(".5"), Some(2));
    assert_eq!(end("NaN"), Some(3));
    assert_eq!(end("-inf"), Some(4));
    assert_eq!(end("Infinity"), Some(8));
    assert_eq!(end("infinit"), Some(3));
    assert_eq!(end("-"), None);
    assert_eq!(end("e5"), None);
}

#[derive(Debug, PartialEq)]
enum Value {
    Int(i32),
    Float(f64),
    String(String),
    Bool(bool),
    List(Vec<Value>),
}

fn comprehensive() -> GrammarDefinition {
    let not = |text: &str| ModelPattern::Not(Box::new(lit(text)), sp());
    grammar(vec![
        rule(
            "value",
            vec![
                variant(vec![bound("i", "integer"), not("."), not("e"), not("E")], "Int"),
                variant(vec![bound("f", "float")], "Float"),
                variant(vec![bound("s", "string")], "String"),
                variant(vec![lit("true")], "true"),
                variant(vec![lit("false")], "false"),
                variant(vec![lit("["), bound("l", "list_content"), lit("]")], "List"),
            ],
        ),
        rule(
            "list_content",
            vec![
                variant(vec![bound("v", "value"), lit(","), bound("l", "list_content")], "insert"),
                variant(vec![bound("v", "value")], "single"),
                variant(vec![call("empty")], "none"),
            ],
        ),
    ])
}

/// Builds the value that the notes from `at` on tell of, and returns it
/// with the position behind its last note.
fn value_at(g: &GrammarDefinition, input: &str, events: &[Event], at: usize) -> (Value, usize) {
    assert_eq!(events[at], Event::Enter { rule: 0 });
    let mut i = at + 1;
    let mut text = None;
    let mut list = None;
    let variant = loop {
        match &events[i] {
            Event::Token { start, end } => {
                if text.is_none() {
                    text = Some(&input[*start..*end]);
                }
                i += 1;
            }
            Event::Enter { rule: 1 } => {
                let (items, next) = list_at(g, input, events, i);
                list = Some(items);
                i = next;
            }
            Event::Chose { variant } => {
                i += 1;
                break *variant;
            }
            other => panic!("unexpected note {:?}", other),
        }
    };
    assert_eq!(events[i], Event::Leave { rule: 0 });
    let value = match g.rules[0].variants[variant].action.as_str() {
        "Int" => Value::Int(text.unwrap().parse().unwrap()),
        "Float" => Value::Float(text.unwrap().parse().unwrap()),
        "String" => Value::String(text.unwrap().trim_matches('"').to_string()),
        "true" => Value::Bool(true),
        "false" => Value::Bool(false),
        _ => Value::List(list.unwrap()),
    };
    (value, i + 1)
}

fn list_at(g: &GrammarDefinition, input: &str, events: &[Event], at: usize) -> (Vec<Value>, usize) {
    assert_eq!(events[at], Event::Enter { rule: 1 });
    let mut i = at + 1;
    let mut items = Vec::new();
    loop {
        match &events[i] {
            Event::Enter { rule: 0 } => {
                let (v, next) = value_at(g, input, events, i);
                items.push(v);
                i = next;
            }
            Event::Enter { rule: 1 } => {
                let (rest, next) = list_at(g, input, events, i);
                items.extend(rest);
                i = next;
            }
            Event::Token { .. } => i += 1,
            Event::Chose { .. } => {
                assert_eq!(events[i + 1], Event::Leave { rule: 1 });
                return (items, i + 2);
            }
            other => panic!("unexpected note {:?}", other),
        }
    }
}

fn parse_value(input: &str) -> Value {
    let g = comprehensive();
    let parsed = run(&g, "value", input).unwrap();
    assert_eq!(parsed.end, input.len());
    value_at(&g, input, &parsed.events, 0).0
}

#[test]
fn test_mixed_values() {
    assert_eq!(parse_value("123"), Value::Int(123));

    let result = parse_value("123.456");
    match result {
        Value::Float(f) => assert!((f - 123.456).abs() < 1e-6),
        _ => panic!("Expected Float for 123.456, got {:?}", result),
    }

    let result = parse_value("123e2");
    match result {
        Value::Float(f) => assert!((f - 12300.0).abs() < 1e-6),
        _ => panic!("Expected Float for 123e2, got {:?}", result),
    }

    assert_eq!(parse_value("\"hello\""), Value::String("hello".to_string()));

    let result = parse_value("[1, \"two\", 3.0]");
    if let Value::List(l) = result {
        assert_eq!(l.len(), 3);
        assert_eq!(l[0], Value::Int(1));
        assert_eq!(l[1], Value::String("two".to_string()));
        if let Value::Float(f) = l[2] {
            assert!((f - 3.0).abs() < 1e-6);
        } else {
            panic!("Expected float at index 2, got {:?}", l[2]);
        }
    } else {
        panic!("Expected list");
    }
}

#[test]
fn of_two_failures_past_the_start_the_first_is_reported() {
    let g = grammar(vec![rule(
        "main",
        vec![
            variant(vec![lit("a"), lit("z")], "short"),
            variant(vec![lit("a"), lit("b"), lit("c")], "long"),
        ],
    )]);
    let err = run(&g, "main", "a b d").unwrap_err();
    assert_eq!(err.message, "Error in rule 'main': expected 'z'");
    assert_eq!(err.span, Span::new(2, 2));
}

#[test]
fn a_failure_in_a_region_behind_a_commit_point_is_final() {
    let region = |text: &str| ModelPattern::Bracketed(vec![lit(text)], sp());
    let with_cut = grammar(vec![rule(
        "main",
        vec![
            variant(vec![lit("k"), cut(), region("a")], "first"),
            variant(vec![lit("k"), region("b")], "second"),
        ],
    )]);
    assert_eq!(action_of(&with_cut, 0, &run(&with_cut, "main", "k [ a ]").unwrap()), "first");
    // The region fails at its content, behind the commit point: the second
    // alternative is not tried.
    let err = run(&with_cut, "main", "k [ b ]").unwrap_err();
    assert_eq!(err.message, "expected 'a'");
    assert_eq!(err.span, Span::new(4, 4));
    // So does a region that is not even opened.
    assert!(run(&with_cut, "main", "k b").is_err());

    let without = grammar(vec![rule(
        "main",
        vec![
            variant(vec![lit("k"), region("a")], "first"),
            variant(vec![lit("k"), region("b")], "second"),
        ],
    )]);
    assert_eq!(action_of(&without, 0, &run(&without, "main", "k [ b ]").unwrap()), "second");
}

#[test]
fn a_failure_past_the_start_outlives_one_at_the_start_in_either_order() {
    let long = || variant(vec![lit("a"), lit("b")], "long");
    let other = || variant(vec![lit("a"), lit("c")], "other");
    let number = || variant(vec![bound("n", "uint")], "number");

    let deep_first = grammar(vec![rule("main", vec![long(), other(), number()])]);
    let err = run(&deep_first, "main", "a x").unwrap_err();
    assert_eq!(err.message, "Error in rule 'main': expected 'b'");
    assert_eq!(err.span, Span::new(2, 2));

    let shallow_first = grammar(vec![rule("main", vec![number(), long(), other()])]);
    let err = run(&shallow_first, "main", "a x").unwrap_err();
    assert_eq!(err.message, "Error in rule 'main': expected 'b'");
    assert_eq!(err.span, Span::new(2, 2));

    // With nothing but failures at the start, the first of them is reported.
    let err = run(&shallow_first, "main", "x").unwrap_err();
    assert_eq!(err.message, "Error in rule 'main': expected unsigned integer");
    assert_eq!(err.span, Span::new(0, 0));
}

#[test]
fn a_repetition_ends_at_the_first_round_that_fails_and_keeps_the_others() {
    let g = grammar(vec![rule(
        "list",
        vec![variant(vec![repeated(bound("items", "uint")), lit(";")], "items")],
    )]);
    let input = "1 2 x";
    // Two rounds match; the third is rolled back and the repetition is done
    // behind the second. What follows the repetition then fails.
    let err = run(&g, "list", input).unwrap_err();
    assert_eq!(err.span, Span::new(4, 4));
    let input = "1 2 ;";
    let parsed = run(&g, "list", input).unwrap();
    assert_eq!(rounds(&parsed.events), 2);
    assert_eq!(tokens(input, &parsed.events), vec!["1", "2", ";"]);
    let collected = parsed.events.iter().position(|e| *e == Event::Collected).unwrap();
    assert_eq!(parsed.events[collected + 1], Event::Token { start: 4, end: 5 });
}

/// Parses the whole of `input` with a rule that consists of one matcher, in
/// a grammar whose rule `ws` skips nothing, and returns the text that the
/// matcher took.
fn unskipped(matcher: &str, input: &str) -> Result<String, String> {
    let g = grammar(vec![
        rule("ws", vec![variant(vec![call("empty")], "()")]),
        rule("test", vec![variant(vec![bound("s", matcher)], "s")]),
    ]);
    let plan = generate_rust(&g).expect("the grammar can be planned");
    assert!(plan.has_user_ws);
    let parsed = parse(&plan, "test", input, 100).map_err(|e| e.message)?;
    if parsed.end != input.len() {
        return Err("input left over".to_string());
    }
    Ok(tokens(input, &parsed.events).concat())
}

#[test]
fn test_space_literal() {
    assert_eq!(unskipped("space0", "   ").unwrap(), "   ");
    assert_eq!(unskipped("space0", "").unwrap(), "");
    assert_eq!(unskipped("space1", "   ").unwrap(), "   ");
    assert!(unskipped("space1", "").is_err());
}

#[test]
fn test_line_ending_literal() {
    assert_eq!(unskipped("line_ending", "\n").unwrap(), "\n");
    assert_eq!(unskipped("line_ending", "\r\n").unwrap(), "\r\n");
    assert!(unskipped("line_ending", "a").is_err());
}

#[test]
fn the_rule_for_white_space_takes_the_place_of_the_skipper() {
    // With the default skipper the blanks are gone before the matcher runs.
    assert_eq!(whole("space0", "   ").unwrap(), "");
    assert!(whole("space1", "   ").is_err());
    assert!(whole("line_ending", "\n").is_err());

    // A rule that passes over dashes only.
    let dashes = ModelPattern::Repeat(Box::new(lit("-")), sp());
    let g = grammar(vec![
        rule("ws", vec![variant(vec![dashes], "()")]),
        rule("pair", vec![variant(vec![lit("a"), lit("b")], "ok")]),
    ]);
    let parsed = run(&g, "pair", "--a-b").unwrap();
    assert_eq!(parsed.end, 5);
    // Of the run of the skipper nothing but the position is kept.
    assert_eq!(
        parsed.events,
        vec![
            Event::Enter { rule: 1 },
            Event::Token { start: 2, end: 3 },
            Event::Token { start: 4, end: 5 },
            Event::Chose { variant: 0 },
            Event::Leave { rule: 1 },
        ]
    );
    // Blanks are no longer passed over.
    let err = run(&g, "pair", "a b").unwrap_err();
    assert_eq!(err.span.start, 1);
}

#[test]
fn a_token_fails_where_the_skipper_fails_before_it() {
    // The rule asks for at least one blank before every token.
    let g = grammar(vec![
        rule("ws", vec![variant(vec![call("space1")], "()")]),
        rule("pair", vec![variant(vec![lit("a"), lit("b")], "ok")]),
    ]);
    assert_eq!(run(&g, "pair", " a b").unwrap().end, 4);
    let err = run(&g, "pair", " ab").unwrap_err();
    assert_eq!(err.message, "expected white space");
    assert_eq!(err.span, Span::new(2, 2));
}

#[test]
fn a_failure_kept_inside_an_alternative_outlives_those_of_its_siblings() {
    // The optional region of the first alternative fails behind its start
    // and is rolled back; its failure is kept as the best error. The
    // alternative itself then fails at its start, and the failures of the
    // other two, though behind their start, come too late to take its place.
    let region = ModelPattern::Optional(Box::new(ModelPattern::Bracketed(vec![lit("b")], sp())), sp());
    let g = grammar(vec![rule(
        "main",
        vec![
            variant(vec![region, lit("c")], "first"),
            variant(vec![lit("["), lit("z")], "second"),
            variant(vec![lit("["), lit("y")], "third"),
        ],
    )]);
    let err = run(&g, "main", "[ x").unwrap_err();
    assert_eq!(err.message, "Error in rule 'main': expected 'b'");
    assert_eq!(err.span, Span::new(2, 2));
}

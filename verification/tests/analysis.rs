use winnow_grammar::analysis::{
    collect_bindings, collect_pattern_bindings, find_cut, get_dispatch_key, get_inner_binding,
    get_pattern_key, get_peek_token_string, is_nullable, is_nullable_sequence, split_left_recursive,
};
use winnow_grammar::codegen::tally_unique;
use winnow_grammar::model::{Identifier, ModelPattern, RuleVariant, StringLiteral};
use winnow_grammar::span::Span;

fn sp() -> Span {
    Span::new(0, 0)
}

fn id(name: &str) -> Identifier {
    Identifier::new(name, sp())
}

fn lit(text: &str) -> ModelPattern {
    ModelPattern::Lit(StringLiteral::new(text, sp()))
}

fn call(binding: Option<&str>, name: &str) -> ModelPattern {
    ModelPattern::RuleCall { binding: binding.map(id), rule_name: id(name), args: vec![] }
}

fn opt(p: ModelPattern) -> ModelPattern {
    ModelPattern::Optional(Box::new(p), sp())
}

fn variant(pattern: Vec<ModelPattern>) -> RuleVariant {
    RuleVariant { pattern, action: String::new() }
}

fn names(ids: &[Identifier]) -> Vec<String> {
    ids.iter().map(|i| i.text.clone()).collect()
}

#[test]
fn a_sequence_is_split_at_its_first_commit_point() {
    let seq = vec![lit("a"), ModelPattern::Cut(sp()), lit("b"), ModelPattern::Cut(sp()), lit("c")];
    let cut = find_cut(&seq).unwrap();
    assert_eq!(cut.index, 1);
    assert_eq!(cut.pre_cut.len(), 1);
    assert_eq!(cut.post_cut.len(), 3);
    assert!(matches!(&cut.pre_cut[0], ModelPattern::Lit(l) if l.value == "a"));
    assert!(matches!(&cut.post_cut[0], ModelPattern::Lit(l) if l.value == "b"));
    assert!(find_cut(&vec![lit("a"), opt(ModelPattern::Cut(sp()))]).is_none());
    assert!(find_cut(&Vec::new()).is_none());
    let leading = vec![ModelPattern::Cut(sp())];
    let cut = find_cut(&leading).unwrap();
    assert_eq!((cut.index, cut.pre_cut.len(), cut.post_cut.len()), (0, 0, 0));
}

#[test]
fn left_recursive_alternatives_are_split_from_the_base() {
    let variants = vec![
        variant(vec![call(Some("l"), "expr"), lit("+"), call(None, "term")]),
        variant(vec![call(None, "term")]),
        variant(vec![]),
        variant(vec![opt(call(None, "expr"))]),
        variant(vec![call(None, "expr")]),
        variant(vec![lit("expr")]),
    ];
    let (recursive, base) = split_left_recursive(&id("expr"), &variants);
    assert_eq!(recursive.len(), 2);
    assert_eq!(base.len(), 4);
    assert!(std::ptr::eq(recursive[0], &variants[0]));
    assert!(std::ptr::eq(recursive[1], &variants[4]));
    assert!(std::ptr::eq(base[0], &variants[1]));
    assert!(std::ptr::eq(base[3], &variants[5]));
    let (recursive, base) = split_left_recursive(&id("other"), &variants);
    assert_eq!((recursive.len(), base.len()), (0, 6));
}

#[test]
fn bindings_escape_in_order() {
    let recover_named = ModelPattern::Recover {
        binding: Some(id("r")),
        body: Box::new(call(Some("hidden"), "stmt")),
        sync: Box::new(call(Some("never"), "semi")),
        span: sp(),
    };
    let recover_plain = ModelPattern::Recover {
        binding: None,
        body: Box::new(call(Some("shown"), "stmt")),
        sync: Box::new(lit(";")),
        span: sp(),
    };
    let seq = vec![
        call(Some("a"), "x"),
        call(None, "x"),
        lit("lit"),
        ModelPattern::Cut(sp()),
        ModelPattern::Repeat(Box::new(call(Some("b"), "x")), sp()),
        ModelPattern::Plus(Box::new(call(Some("c"), "x")), sp()),
        opt(call(Some("d"), "x")),
        ModelPattern::Parenthesized(vec![call(Some("e"), "x"), call(Some("f"), "x")], sp()),
        ModelPattern::Bracketed(vec![call(Some("g"), "x")], sp()),
        ModelPattern::Braced(vec![call(Some("h"), "x")], sp()),
        ModelPattern::SpanBinding(Box::new(call(Some("i"), "x")), id("span"), sp()),
        recover_named,
        recover_plain,
        ModelPattern::Peek(Box::new(call(Some("j"), "x")), sp()),
        ModelPattern::Not(Box::new(call(Some("gone"), "x")), sp()),
        ModelPattern::Group(vec![vec![call(Some("k"), "x")], vec![call(Some("l"), "x")]], sp()),
    ];
    assert_eq!(
        names(&collect_bindings(&seq)),
        vec!["a", "b", "c", "d", "e", "f", "g", "h", "span", "i", "r", "shown", "j", "k", "l"]
    );
    assert!(collect_bindings(&Vec::new()).is_empty());
    assert_eq!(names(&collect_pattern_bindings(&seq[10])), vec!["span", "i"]);
}

#[test]
fn nullability_follows_the_shape() {
    assert!(is_nullable(&ModelPattern::Cut(sp())));
    assert!(!is_nullable(&lit("a")));
    assert!(is_nullable(&call(None, "anything")));
    assert!(!is_nullable(&ModelPattern::Bracketed(vec![], sp())));
    assert!(!is_nullable(&ModelPattern::Braced(vec![], sp())));
    assert!(!is_nullable(&ModelPattern::Parenthesized(vec![opt(lit("a"))], sp())));
    assert!(is_nullable(&opt(lit("a"))));
    assert!(is_nullable(&ModelPattern::Repeat(Box::new(lit("a")), sp())));
    assert!(!is_nullable(&ModelPattern::Plus(Box::new(lit("a")), sp())));
    assert!(is_nullable(&ModelPattern::Plus(Box::new(opt(lit("a"))), sp())));
    assert!(!is_nullable(&ModelPattern::SpanBinding(Box::new(lit("a")), id("s"), sp())));
    assert!(is_nullable(&ModelPattern::SpanBinding(Box::new(call(None, "r")), id("s"), sp())));
    assert!(is_nullable(&ModelPattern::Peek(Box::new(lit("a")), sp())));
    assert!(is_nullable(&ModelPattern::Not(Box::new(lit("a")), sp())));
    let recover = ModelPattern::Recover {
        binding: None,
        body: Box::new(lit("a")),
        sync: Box::new(lit(";")),
        span: sp(),
    };
    assert!(is_nullable(&recover));
    // A group is nullable when one alternative is nullable throughout.
    assert!(!is_nullable(&ModelPattern::Group(vec![vec![lit("a")], vec![opt(lit("b")), lit("c")]], sp())));
    assert!(is_nullable(&ModelPattern::Group(vec![vec![lit("a")], vec![opt(lit("b")), call(None, "r")]], sp())));
    assert!(is_nullable(&ModelPattern::Group(vec![vec![]], sp())));
    assert!(!is_nullable(&ModelPattern::Group(vec![], sp())));
    assert!(is_nullable_sequence(&vec![]));
    assert!(!is_nullable_sequence(&vec![opt(lit("a")), lit("b")]));
}

#[test]
fn first_token_keys() {
    assert_eq!(get_peek_token_string(&vec![lit("let"), lit("x")]), Some("let".to_string()));
    assert_eq!(get_peek_token_string(&vec![]), None);
    assert_eq!(get_peek_token_string(&vec![ModelPattern::Bracketed(vec![], sp())]), Some("Bracket".to_string()));
    assert_eq!(get_peek_token_string(&vec![ModelPattern::Braced(vec![], sp())]), Some("Brace".to_string()));
    assert_eq!(get_peek_token_string(&vec![ModelPattern::Parenthesized(vec![], sp())]), Some("Paren".to_string()));
    assert_eq!(get_peek_token_string(&vec![opt(lit("a"))]), Some("a".to_string()));
    assert_eq!(get_peek_token_string(&vec![call(None, "r"), lit("a")]), None);
    assert_eq!(get_peek_token_string(&vec![ModelPattern::Cut(sp()), lit("a")]), None);
    assert_eq!(get_pattern_key(&ModelPattern::Not(Box::new(lit("a")), sp())), None);
    assert_eq!(get_pattern_key(&ModelPattern::Peek(Box::new(lit("a")), sp())), Some("a".to_string()));
    assert_eq!(get_pattern_key(&ModelPattern::Group(vec![vec![lit("a"), lit("b")]], sp())), Some("a".to_string()));
    assert_eq!(get_pattern_key(&ModelPattern::Group(vec![vec![lit("a")], vec![lit("b")]], sp())), None);
    // An alternative counts under its key only when its first pattern must consume input.
    assert_eq!(get_dispatch_key(&vec![opt(lit("a"))]), None);
    assert_eq!(get_dispatch_key(&vec![lit("a")]), Some("a".to_string()));
    assert_eq!(get_dispatch_key(&vec![]), None);
}

#[test]
fn an_alternative_is_unique_when_its_key_is_counted_once() {
    let a1 = vec![lit("a"), lit("x")];
    let b = vec![lit("b")];
    let a2 = vec![ModelPattern::Plus(Box::new(lit("a")), sp())];
    let nullable_a = vec![opt(lit("a"))];
    let nothing = vec![];
    let by_call = vec![call(None, "r")];
    let bracket = vec![ModelPattern::Bracketed(vec![], sp())];
    let alts = vec![&a1, &b, &a2, &nullable_a, &nothing, &by_call, &bracket];
    assert_eq!(tally_unique(&alts), vec![false, true, false, false, false, false, true]);
    assert_eq!(tally_unique(&vec![&a1, &nullable_a]), vec![true, false]);
    assert!(tally_unique(&Vec::new()).is_empty());
}

#[test]
fn the_binding_of_a_pattern_as_a_whole() {
    let bound = |p: &ModelPattern| get_inner_binding(p).map(|i| i.text.clone());
    assert_eq!(bound(&call(Some("x"), "r")), Some("x".to_string()));
    assert_eq!(bound(&call(None, "r")), None);
    assert_eq!(bound(&opt(ModelPattern::Repeat(Box::new(call(Some("x"), "r")), sp()))), Some("x".to_string()));
    assert_eq!(bound(&ModelPattern::Plus(Box::new(call(Some("x"), "r")), sp())), Some("x".to_string()));
    assert_eq!(
        bound(&ModelPattern::SpanBinding(Box::new(call(Some("x"), "r")), id("s"), sp())),
        Some("x".to_string())
    );
    assert_eq!(bound(&ModelPattern::Group(vec![vec![call(Some("x"), "r")]], sp())), Some("x".to_string()));
    assert_eq!(bound(&ModelPattern::Group(vec![vec![call(Some("x"), "r"), lit("a")]], sp())), None);
    assert_eq!(
        bound(&ModelPattern::Group(vec![vec![call(Some("x"), "r")], vec![call(Some("y"), "r")]], sp())),
        None
    );
    assert_eq!(bound(&ModelPattern::Parenthesized(vec![call(Some("x"), "r")], sp())), Some("x".to_string()));
    assert_eq!(bound(&ModelPattern::Bracketed(vec![call(Some("x"), "r")], sp())), Some("x".to_string()));
    assert_eq!(bound(&ModelPattern::Braced(vec![lit("a"), call(Some("x"), "r")], sp())), None);
    assert_eq!(bound(&ModelPattern::Peek(Box::new(call(Some("x"), "r")), sp())), None);
    assert_eq!(bound(&lit("a")), None);
}

#[test]
fn every_pattern_knows_its_span() {
    let at = |n: usize| Span::new(n, n + 1);
    let inner = || Box::new(lit("x"));
    assert_eq!(ModelPattern::Cut(at(1)).span(), at(1));
    assert_eq!(ModelPattern::Lit(StringLiteral::new("x", at(2))).span(), at(2));
    let named = ModelPattern::RuleCall {
        binding: Some(Identifier::new("b", at(3))),
        rule_name: Identifier::new("r", at(4)),
        args: vec![],
    };
    assert_eq!(named.span(), at(4));
    assert_eq!(ModelPattern::Group(vec![], at(5)).span(), at(5));
    assert_eq!(ModelPattern::Bracketed(vec![], at(6)).span(), at(6));
    assert_eq!(ModelPattern::Braced(vec![], at(7)).span(), at(7));
    assert_eq!(ModelPattern::Parenthesized(vec![], at(8)).span(), at(8));
    assert_eq!(ModelPattern::Optional(inner(), at(9)).span(), at(9));
    assert_eq!(ModelPattern::Repeat(inner(), at(10)).span(), at(10));
    assert_eq!(ModelPattern::Plus(inner(), at(11)).span(), at(11));
    assert_eq!(ModelPattern::SpanBinding(inner(), Identifier::new("s", at(12)), at(13)).span(), at(13));
    let recover = ModelPattern::Recover { binding: None, body: inner(), sync: inner(), span: at(14) };
    assert_eq!(recover.span(), at(14));
    assert_eq!(ModelPattern::Peek(inner(), at(15)).span(), at(15));
    assert_eq!(ModelPattern::Not(inner(), at(16)).span(), at(16));
}

#[test]
fn identifiers_and_literals_compare_by_text() {
    assert!(Identifier::new("a", Span::new(0, 1)) == Identifier::new("a", Span::new(5, 6)));
    assert!(Identifier::new("a", Span::new(0, 1)) != Identifier::new("b", Span::new(0, 1)));
    assert!(StringLiteral::new("x", Span::new(0, 1)) == StringLiteral::new("x", Span::new(7, 9)));
    assert!(StringLiteral::new("x", Span::new(0, 1)) != StringLiteral::new("y", Span::new(0, 1)));
    let copy = Identifier::new("a", Span::new(2, 3)).clone();
    assert_eq!(copy.span, Span::new(2, 3));
    assert_eq!(copy.text, "a");
}

use winnow_grammar::codegen::generate_rust;
use winnow_grammar::engine::Event;
use winnow_grammar::machine::parse;
use winnow_grammar::model::{
    GrammarDefinition, Identifier, ModelPattern, Rule, RuleVariant, StringLiteral,
};
use winnow_grammar::span::Span;

#[derive(Debug, PartialEq, Clone)]
pub enum Field {
    Any,
    Number(u32),
    Range(u32, u32),
    List(Vec<Field>),
    Step(Box<Field>, u32),
}

#[derive(Debug, PartialEq)]
pub struct CronSchedule {
    pub sec: Field,
    pub min: Field,
    pub hour: Field,
    pub dom: Field,
    pub month: Field,
    pub dow: Field,
}

fn sp() -> Span {
    Span::new(0, 0)
}

fn lit(text: &str) -> ModelPattern {
    ModelPattern::Lit(StringLiteral::new(text, sp()))
}

fn bound(binding: &str, name: &str) -> ModelPattern {
    ModelPattern::RuleCall {
        binding: Some(Identifier::new(binding, sp())),
        rule_name: Identifier::new(name, sp()),
        args: vec![],
    }
}

fn rule(name: &str, variants: Vec<Vec<ModelPattern>>) -> Rule {
    Rule {
        attrs: Vec::new(),
        is_pub: false,
        name: Identifier::new(name, sp()),
        params: Vec::new(),
        return_type: "Field".to_string(),
        variants: variants
            .into_iter()
            .map(|pattern| RuleVariant { pattern, action: String::new() })
            .collect(),
    }
}

fn cron() -> GrammarDefinition {
    let optional = |p| ModelPattern::Optional(Box::new(p), sp());
    let repeated = |p| ModelPattern::Repeat(Box::new(p), sp());
    GrammarDefinition {
        name: Identifier::new("Cron", sp()),
        inherits: None,
        uses: Vec::new(),
        rules: vec![
            rule(
                "schedule",
                vec![vec![
                    bound("s", "field"),
                    bound("m", "field"),
                    bound("h", "field"),
                    bound("dom", "field"),
                    bound("mon", "field"),
                    bound("dow", "field"),
                ]],
            ),
            rule("field", vec![vec![bound("head", "step_expr"), repeated(bound("tail", "comma_step"))]]),
            rule("comma_step", vec![vec![lit(","), bound("s", "step_expr")]]),
            rule("step_expr", vec![vec![bound("base", "range_expr"), optional(bound("step", "slash_int"))]]),
            rule("slash_int", vec![vec![lit("/"), bound("n", "uint")]]),
            rule("range_expr", vec![vec![bound("start", "atom"), optional(bound("end", "dash_atom"))]]),
            rule("dash_atom", vec![vec![lit("-"), bound("a", "atom")]]),
            rule("atom", vec![vec![lit("*")], vec![bound("n", "uint")]]),
        ],
    }
}

/// What the notes of a parse tell, as a tree.
#[derive(Debug)]
enum Tree {
    Token(String),
    Mark(Event),
    Node { rule: usize, variant: usize, children: Vec<Tree> },
}

fn tree_of(input: &str, events: &[Event]) -> Tree {
    let mut open: Vec<(usize, usize, Vec<Tree>)> = Vec::new();
    let mut done = None;
    for e in events {
        match e {
            Event::Enter { rule } => open.push((*rule, 0, Vec::new())),
            Event::Chose { variant } => open.last_mut().unwrap().1 = *variant,
            Event::Leave { .. } => {
                let (rule, variant, children) = open.pop().unwrap();
                let node = Tree::Node { rule, variant, children };
                match open.last_mut() {
                    Some(parent) => parent.2.push(node),
                    None => done = Some(node),
                }
            }
            Event::Token { start, end } => {
                open.last_mut().unwrap().2.push(Tree::Token(input[*start..*end].to_string()))
            }
            other => open.last_mut().unwrap().2.push(Tree::Mark(*other)),
        }
    }
    done.expect("the outermost rule was left")
}

fn number(t: &Tree) -> u32 {
    match t {
        Tree::Token(text) => text.parse().unwrap(),
        other => panic!("no number: {:?}", other),
    }
}

fn children(t: &Tree) -> (usize, &Vec<Tree>) {
    match t {
        Tree::Node { variant, children, .. } => (*variant, children),
        other => panic!("no node: {:?}", other),
    }
}

fn atom(t: &Tree) -> Field {
    let (variant, parts) = children(t);
    if variant == 0 {
        Field::Any
    } else {
        Field::Number(number(&parts[0]))
    }
}

fn range_expr(t: &Tree) -> Field {
    let (_, parts) = children(t);
    let start = atom(&parts[0]);
    match &parts[1] {
        Tree::Mark(Event::Absent) => start,
        dash => match (start, atom(&children(dash).1[1])) {
            (Field::Number(s), Field::Number(e)) => Field::Range(s, e),
            _ => panic!("Range syntax requires numbers"),
        },
    }
}

fn step_expr(t: &Tree) -> Field {
    let (_, parts) = children(t);
    let base = range_expr(&parts[0]);
    match &parts[1] {
        Tree::Mark(Event::Absent) => base,
        slash => Field::Step(Box::new(base), number(&children(slash).1[1])),
    }
}

fn field(t: &Tree) -> Field {
    let (_, parts) = children(t);
    let head = step_expr(&parts[0]);
    let tail: Vec<Field> = parts[1..]
        .iter()
        .filter(|p| matches!(p, Tree::Node { .. }))
        .map(|comma| step_expr(&children(comma).1[1]))
        .collect();
    if tail.is_empty() {
        head
    } else {
        let mut list = vec![head];
        list.extend(tail);
        Field::List(list)
    }
}

fn parse_schedule(input: &str) -> Result<CronSchedule, String> {
    let plan = generate_rust(&cron()).map_err(|e| e.message())?;
    let parsed = parse(&plan, "schedule", input, 1000).map_err(|e| e.message)?;
    if parsed.end != input.len() {
        return Err("input left over".to_string());
    }
    let tree = tree_of(input, &parsed.events);
    let (_, fields) = children(&tree);
    Ok(CronSchedule {
        sec: field(&fields[0]),
        min: field(&fields[1]),
        hour: field(&fields[2]),
        dom: field(&fields[3]),
        month: field(&fields[4]),
        dow: field(&fields[5]),
    })
}

#[test]
fn test_standard_cron() {
    let result = parse_schedule("0 30 9 * * *").unwrap();

    assert_eq!(result.min, Field::Number(30));
    assert_eq!(result.hour, Field::Number(9));
}

#[test]
fn test_messy_whitespace() {
    let result = parse_schedule("0   1 , 2   */ 15   * * *").expect("Should handle messy whitespace");

    if let Field::List(items) = result.min {
        assert_eq!(items, vec![Field::Number(1), Field::Number(2)]);
    } else {
        panic!("Failed to parse list with spaces");
    }

    if let Field::Step(base, step) = result.hour {
        assert_eq!(*base, Field::Any);
        assert_eq!(step, 15);
    } else {
        panic!("Failed to parse step with spaces");
    }
}

#[test]
fn test_complex_precedence() {
    let result = parse_schedule("0 10-20/2 * * * *").unwrap();

    assert_eq!(result.min, Field::Step(Box::new(Field::Range(10, 20)), 2));
}

#[test]
fn a_schedule_needs_six_fields() {
    assert!(parse_schedule("0 30 9 * *").is_err());
    assert_eq!(parse_schedule("0 30 9 * * * *").unwrap_err(), "input left over");
}

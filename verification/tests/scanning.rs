use winnow_grammar::plan::Primitive;
use winnow_grammar::scan::{
    after_ws, holds_text, match_decimal, match_number, match_primitive, run_matcher, to_chars,
    CharClass, Matcher, NumberKind,
};

fn chars(s: &str) -> Vec<char> {
    s.chars().collect()
}

#[test]
fn text_becomes_characters() {
    assert_eq!(to_chars("aé√"), vec!['a', 'é', '√']);
    assert!(to_chars("").is_empty());
}

#[test]
fn white_space_is_skipped() {
    let input = chars(" \t\r\nx  ");
    assert_eq!(after_ws(&input, 0), 4);
    assert_eq!(after_ws(&input, 4), 4);
    assert_eq!(after_ws(&input, 5), 7);
    assert_eq!(after_ws(&input, 7), 7);
}

#[test]
fn fixed_text_is_compared_in_place() {
    let input = chars("let x");
    assert!(holds_text(&input, 0, "let"));
    assert!(holds_text(&input, 0, ""));
    assert!(!holds_text(&input, 1, "let"));
    assert!(holds_text(&input, 4, "x"));
    assert!(!holds_text(&input, 4, "xy"));
    assert!(holds_text(&input, 5, ""));
    assert!(!holds_text(&input, 5, "x"));
}

#[test]
fn primitives_end_where_they_should() {
    assert_eq!(match_primitive(&chars("ab_9-"), 0, Primitive::Ident), Some(4));
    assert_eq!(match_primitive(&chars("-ab"), 0, Primitive::Ident), None);
    assert_eq!(match_primitive(&chars("12a"), 0, Primitive::Uint), Some(2));
    assert_eq!(match_primitive(&chars("+12"), 0, Primitive::Uint), None);
    assert_eq!(match_primitive(&chars("+12"), 0, Primitive::Integer), Some(3));
    assert_eq!(match_primitive(&chars("-"), 0, Primitive::Integer), None);
    assert_eq!(match_primitive(&chars("\"a\\\"b\"c"), 0, Primitive::String), Some(6));
    assert_eq!(match_primitive(&chars("\"a\\"), 0, Primitive::String), None);
    assert_eq!(match_primitive(&chars("'x'"), 0, Primitive::Char), Some(3));
    assert_eq!(match_primitive(&chars("'\\x'"), 0, Primitive::Char), Some(4));
    assert_eq!(match_primitive(&chars("'\\'"), 0, Primitive::Char), None);
    assert_eq!(match_primitive(&chars("x"), 1, Primitive::Ident), None);
}

#[test]
fn matchers_of_the_catalog() {
    let run = |class, at_least_one| Matcher::Run { class, at_least_one };
    assert_eq!(run_matcher(&chars("abZ1"), 0, run(CharClass::Alpha, true)), Some(3));
    assert_eq!(run_matcher(&chars("1"), 0, run(CharClass::Alpha, true)), None);
    assert_eq!(run_matcher(&chars("1"), 0, run(CharClass::Alpha, false)), Some(0));
    assert_eq!(run_matcher(&chars("09a"), 0, run(CharClass::Digit, true)), Some(2));
    assert_eq!(run_matcher(&chars("09afg"), 0, run(CharClass::Hex, true)), Some(4));
    assert_eq!(run_matcher(&chars("0178"), 0, run(CharClass::Octal, true)), Some(3));
    assert_eq!(run_matcher(&chars("0102"), 0, run(CharClass::Binary, true)), Some(3));
    assert_eq!(run_matcher(&chars(" \t\n"), 0, run(CharClass::Blank, true)), Some(2));
    assert_eq!(run_matcher(&chars(" \t\n\rx"), 0, run(CharClass::Space, true)), Some(4));
    assert_eq!(run_matcher(&chars("x"), 0, Matcher::Any), Some(1));
    assert_eq!(run_matcher(&chars("x"), 1, Matcher::Any), None);
    assert_eq!(run_matcher(&chars("x"), 1, Matcher::Empty), Some(1));
    assert_eq!(run_matcher(&chars("\nx"), 0, Matcher::LineEnding), Some(1));
    assert_eq!(run_matcher(&chars("\r\nx"), 0, Matcher::LineEnding), Some(2));
    assert_eq!(run_matcher(&chars("\rx"), 0, Matcher::LineEnding), None);
    assert_eq!(run_matcher(&chars("\r"), 0, Matcher::LineEnding), None);
    assert_eq!(run_matcher(&chars("12"), 0, Matcher::Primitive(Primitive::Uint)), Some(2));
    assert_eq!(run_matcher(&chars("12"), 2, Matcher::End), Some(2));
    assert_eq!(run_matcher(&chars("12"), 1, Matcher::End), None);
}

#[test]
fn numbers_and_fractions_end_where_they_should() {
    assert_eq!(match_number(&chars("255x"), 0, NumberKind::U8), Some(3));
    assert_eq!(match_number(&chars("256"), 0, NumberKind::U8), None);
    assert_eq!(match_number(&chars("-128"), 0, NumberKind::I8), Some(4));
    assert_eq!(match_number(&chars("-129"), 0, NumberKind::I8), None);
    assert_eq!(match_number(&chars("x1"), 1, NumberKind::Usize), Some(2));
    assert_eq!(match_number(&chars("1"), 1, NumberKind::Usize), None);
    assert_eq!(match_number(&chars("1"), 5, NumberKind::Usize), None);
    assert_eq!(match_decimal(&chars("-1.25e-3;"), 0), Some(8));
    assert_eq!(match_decimal(&chars("x"), 0), None);
    assert_eq!(run_matcher(&chars("true"), 0, Matcher::Bool), Some(4));
    assert_eq!(run_matcher(&chars("falsely"), 0, Matcher::Bool), Some(5));
    assert_eq!(run_matcher(&chars("tru"), 0, Matcher::Bool), None);
    assert_eq!(run_matcher(&chars("12"), 0, Matcher::Number(NumberKind::I16)), Some(2));
    assert_eq!(run_matcher(&chars("1.5"), 0, Matcher::Decimal), Some(3));
}

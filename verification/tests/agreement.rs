use winnow::ascii::{
    alpha1, dec_int, dec_uint, digit1, float, hex_digit0, hex_digit1, line_ending, multispace0,
    multispace1, oct_digit0, oct_digit1, space0, space1, take_escaped,
};
use winnow::combinator::{alt, delimited, eof, preceded};
use winnow::error::ContextError;
use winnow::token::{any, none_of, one_of, take_while};
use winnow::Parser;
use winnow_grammar::plan::Primitive;
use winnow_grammar::scan::{run_matcher, CharClass, Matcher, NumberKind};

/// The number of characters that `parser` takes from the start of `input`.
fn theirs<'a, O>(mut parser: impl Parser<&'a str, O, ContextError>, input: &'a str) -> Option<usize> {
    match parser.parse_peek(input) {
        Ok((rest, _)) => Some(input[..input.len() - rest.len()].chars().count()),
        Err(_) => None,
    }
}

/// The number of characters that `matcher` takes from the start of `input`.
fn ours(matcher: Matcher, input: &str) -> Option<usize> {
    let chars: Vec<char> = input.chars().collect();
    run_matcher(&chars, 0, matcher)
}

const NUMBERS: &[&str] = &[
    "", "0", "7", "42", "007", "00", "0x", "01", "10", "+", "-", "+0", "-0", "+5", "-5", "+05",
    "-05", "--1", "+-1", "1-", "12a", "a12", " 1", "255", "256", "127", "128", "-128", "-129",
    "65535", "65536", "32767", "32768", "-32768", "-32769", "4294967295", "4294967296",
    "2147483647", "2147483648", "-2147483648", "-2147483649", "18446744073709551615",
    "18446744073709551616", "9223372036854775807", "9223372036854775808",
    "-9223372036854775808", "-9223372036854775809",
    "340282366920938463463374607431768211455", "340282366920938463463374607431768211456",
    "170141183460469231731687303715884105727", "170141183460469231731687303715884105728",
    "-170141183460469231731687303715884105728", "-170141183460469231731687303715884105729",
    "99999999999999999999999999999999999999999999", "1.5", "1e5", "٣",
];

fn disagreements(
    matcher: Matcher,
    inputs: &[&str],
    reference: impl Fn(&str) -> Option<usize>,
) -> Vec<(String, Option<usize>, Option<usize>)> {
    inputs
        .iter()
        .filter(|input| ours(matcher, input) != reference(input))
        .map(|input| (input.to_string(), ours(matcher, input), reference(input)))
        .collect()
}

#[test]
fn unsigned_numbers_are_those_of_winnow() {
    let none: Vec<(String, Option<usize>, Option<usize>)> = Vec::new();
    assert_eq!(disagreements(Matcher::Number(NumberKind::U8), NUMBERS, |s| theirs(dec_uint::<_, u8, _>, s)), none);
    assert_eq!(disagreements(Matcher::Number(NumberKind::U16), NUMBERS, |s| theirs(dec_uint::<_, u16, _>, s)), none);
    assert_eq!(disagreements(Matcher::Number(NumberKind::U32), NUMBERS, |s| theirs(dec_uint::<_, u32, _>, s)), none);
    assert_eq!(disagreements(Matcher::Number(NumberKind::U64), NUMBERS, |s| theirs(dec_uint::<_, u64, _>, s)), none);
    assert_eq!(disagreements(Matcher::Number(NumberKind::U128), NUMBERS, |s| theirs(dec_uint::<_, u128, _>, s)), none);
    assert_eq!(disagreements(Matcher::Number(NumberKind::Usize), NUMBERS, |s| theirs(dec_uint::<_, usize, _>, s)), none);
    assert_eq!(disagreements(Matcher::Primitive(Primitive::Uint), NUMBERS, |s| theirs(dec_uint::<_, u32, _>, s)), none);
}

#[test]
fn signed_numbers_are_those_of_winnow() {
    let none: Vec<(String, Option<usize>, Option<usize>)> = Vec::new();
    assert_eq!(disagreements(Matcher::Number(NumberKind::I8), NUMBERS, |s| theirs(dec_int::<_, i8, _>, s)), none);
    assert_eq!(disagreements(Matcher::Number(NumberKind::I16), NUMBERS, |s| theirs(dec_int::<_, i16, _>, s)), none);
    assert_eq!(disagreements(Matcher::Number(NumberKind::I32), NUMBERS, |s| theirs(dec_int::<_, i32, _>, s)), none);
    assert_eq!(disagreements(Matcher::Number(NumberKind::I64), NUMBERS, |s| theirs(dec_int::<_, i64, _>, s)), none);
    assert_eq!(disagreements(Matcher::Number(NumberKind::I128), NUMBERS, |s| theirs(dec_int::<_, i128, _>, s)), none);
    assert_eq!(disagreements(Matcher::Number(NumberKind::Isize), NUMBERS, |s| theirs(dec_int::<_, isize, _>, s)), none);
    assert_eq!(disagreements(Matcher::Primitive(Primitive::Integer), NUMBERS, |s| theirs(dec_int::<_, i32, _>, s)), none);
}

const FRACTIONS: &[&str] = &[
    "", "0", "1", "12", "007", "1.", "1.5", "1.5.2", ".5", ".", "+.5", "-.5", "+", "-", "+1",
    "-1", "-1.25", "1e", "1e5", "1E5", "1e+5", "1e-5", "1e+", "1e-", "1.e5", "1.5e", "1.5e3x",
    ".5e2", ".e2", "e5", "1ee5", "nan", "NaN", "NAN", "na", "nanx", "+nan", "-nan", "inf",
    "Inf", "INF", "infinity", "Infinity", "infinit", "infx", "+inf", "-inf", "-infinity", "in",
    "i", "1 ", " 1", "1,5", "1_000", "0x10", "1e400", "4.9e-400", "--1", "+-1", "1..2", "٣.٥",
];

#[test]
fn decimal_fractions_are_those_of_winnow() {
    let none: Vec<(String, Option<usize>, Option<usize>)> = Vec::new();
    assert_eq!(disagreements(Matcher::Decimal, FRACTIONS, |s| theirs(float::<_, f64, _>, s)), none);
    assert_eq!(disagreements(Matcher::Decimal, NUMBERS, |s| theirs(float::<_, f64, _>, s)), none);
    assert_eq!(disagreements(Matcher::Decimal, FRACTIONS, |s| theirs(float::<_, f32, _>, s)), none);
}

const RUNS: &[&str] = &[
    "", "a", "abc", "aBc1", "Zz_", "é", "aé", "0", "0123456789", "89ab", "abcdefg", "ABCDEFG",
    "01234567", "78", "0101", "012", " ", "  \t x", "\t", "\n", "\r\n", " \r\n\t x", "\r", "\r\r\n",
    "\u{a0}", "\u{2003}x", "x ", "_", "-", "٣",
];

#[test]
fn runs_of_characters_are_those_of_winnow() {
    let none: Vec<(String, Option<usize>, Option<usize>)> = Vec::new();
    let run = |class: CharClass, at_least_one: bool| Matcher::Run { class, at_least_one };
    assert_eq!(disagreements(run(CharClass::Alpha, true), RUNS, |s| theirs(alpha1, s)), none);
    assert_eq!(disagreements(run(CharClass::Digit, true), RUNS, |s| theirs(digit1, s)), none);
    assert_eq!(disagreements(run(CharClass::Hex, false), RUNS, |s| theirs(hex_digit0, s)), none);
    assert_eq!(disagreements(run(CharClass::Hex, true), RUNS, |s| theirs(hex_digit1, s)), none);
    assert_eq!(disagreements(run(CharClass::Octal, false), RUNS, |s| theirs(oct_digit0, s)), none);
    assert_eq!(disagreements(run(CharClass::Octal, true), RUNS, |s| theirs(oct_digit1, s)), none);
    assert_eq!(disagreements(run(CharClass::Blank, false), RUNS, |s| theirs(space0, s)), none);
    assert_eq!(disagreements(run(CharClass::Blank, true), RUNS, |s| theirs(space1, s)), none);
    assert_eq!(disagreements(run(CharClass::Space, false), RUNS, |s| theirs(multispace0, s)), none);
    assert_eq!(disagreements(run(CharClass::Space, true), RUNS, |s| theirs(multispace1, s)), none);
    assert_eq!(
        disagreements(run(CharClass::Binary, false), RUNS, |s| theirs(take_while(0.., ['0', '1']), s)),
        none
    );
    assert_eq!(
        disagreements(run(CharClass::Binary, true), RUNS, |s| theirs(take_while(1.., ['0', '1']), s)),
        none
    );
}

#[test]
fn single_matchers_are_those_of_winnow() {
    let none: Vec<(String, Option<usize>, Option<usize>)> = Vec::new();
    assert_eq!(disagreements(Matcher::LineEnding, RUNS, |s| theirs(line_ending, s)), none);
    assert_eq!(disagreements(Matcher::Any, RUNS, |s| theirs(any, s)), none);
    assert_eq!(disagreements(Matcher::End, RUNS, |s| theirs(eof, s)), none);
    assert_eq!(disagreements(Matcher::Empty, RUNS, |s| theirs(winnow::combinator::empty, s)), none);
    let words = ["", "t", "true", "false", "truex", "fals", "True", "FALSE", " true", "falsetrue"];
    assert_eq!(disagreements(Matcher::Bool, &words, |s| theirs(alt(("true", "false")), s)), none);
}

const WORDS: &[&str] = &[
    "", "a", "abc def", "a_b9-", "_", "__x", "9lives", "-a", " a", "é", "aé b", "grüße!", "名前 x",
    "a\u{301}b", "x٣", "a.b", "²", "Ⅳ", "a\u{200d}b",
];

#[test]
fn identifiers_are_those_of_the_emitted_parser() {
    let none: Vec<(String, Option<usize>, Option<usize>)> = Vec::new();
    assert_eq!(
        disagreements(Matcher::Primitive(Primitive::Ident), WORDS, |s| {
            theirs(take_while(1.., |c: char| c.is_alphanumeric() || c == '_'), s)
        }),
        none
    );
}

const QUOTED: &[&str] = &[
    "", "\"", "\"\"", "\"a\"", "\"a", "a\"", "\"a b\" c", "\"a\\\"b\"", "\"a\\\\\"", "\"a\\\\",
    "\"\\\"", "\"\\", "\"a\\nb\"", "\"\\n\"", "\"\\x\"", "\"a\\\\\\\"b\" x", "\"é\"", "\"a\nb\"",
    "'a'", "\"'\"", "\"\\'\"", "\"\"\"", "\"\\\"\\\"\"", " \"a\"",
];

#[test]
fn strings_are_those_of_the_emitted_parser() {
    let none: Vec<(String, Option<usize>, Option<usize>)> = Vec::new();
    assert_eq!(
        disagreements(Matcher::Primitive(Primitive::String), QUOTED, |s| {
            theirs(
                delimited(
                    '"',
                    take_escaped(none_of(['\\', '"']), '\\', one_of(['\\', '"'])),
                    '"',
                ),
                s,
            )
        }),
        none
    );
}

const CHARACTERS: &[&str] = &[
    "", "'", "''", "'a'", "'a", "a'", "'ab'", "'\\n'", "'\\''", "'\\\\'", "'\\'", "'\\", "'\\'x'",
    "'\\nn'", "'é'", "'\"'", "' '", "'a'b", "'''", "\"a\"", "'\\é'", "'\n'", " 'a'",
];

#[test]
fn characters_are_those_of_the_emitted_parser() {
    let none: Vec<(String, Option<usize>, Option<usize>)> = Vec::new();
    assert_eq!(
        disagreements(Matcher::Primitive(Primitive::Char), CHARACTERS, |s| {
            theirs(delimited('\'', alt((preceded('\\', any), none_of(['\'']))), '\''), s)
        }),
        none
    );
}

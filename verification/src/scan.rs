//! Matching the smallest pieces of an input of characters: white space,
//! fixed texts, and the primitive matchers.
//!
//! Each matcher is stated here in full. The statements follow the parsers of
//! `winnow` that a parser written out for a plan calls in their place, so
//! that the machine and such a parser take the same from an input:
//! `dec_uint` and `dec_int` for numbers, `float` for decimal fractions,
//! `alpha1`, `digit1`, `space0` and the like for runs of characters,
//! `line_ending`, `any` and `eof`, and for the five primitives the parsers
//! that are put together for them from `take_while`, `take_escaped` and
//! `delimited`.

use crate::plan::Primitive;
use vstd::prelude::*;

verus! {

/// `c` is white space: a blank, a tab, a line feed or a carriage return.
pub open spec fn is_space(c: char) -> bool {
    c == ' ' || c == '\t' || c == '\n' || c == '\r'
}

/// `c` is a decimal digit.
pub open spec fn is_digit(c: char) -> bool {
    '0' <= c && c <= '9'
}

/// Whether `c` is alphanumeric in the sense of the standard library.
pub uninterp spec fn alphanumeric_char(c: char) -> bool;

/// Asks `char::is_alphanumeric` of the standard library whether `c` is
/// alphanumeric. Nothing is claimed but that the answer depends on `c` alone.
#[verifier::external_body]
fn is_alphanumeric(c: char) -> (b: bool)
    ensures
        b == alphanumeric_char(c),
{
    c.is_alphanumeric()
}

/// `c` may stand in an identifier: an alphanumeric character or an
/// underscore.
pub open spec fn is_word(c: char) -> bool {
    alphanumeric_char(c) || c == '_'
}

/// The first position from `pos` on that holds no white space.
pub open spec fn skip_ws(input: Seq<char>, pos: int) -> int
    decreases input.len() - pos,
{
    if 0 <= pos < input.len() && is_space(input[pos]) {
        skip_ws(input, pos + 1)
    } else {
        pos
    }
}

/// The first position from `pos` on that holds no digit.
pub open spec fn skip_digits(input: Seq<char>, pos: int) -> int
    decreases input.len() - pos,
{
    if 0 <= pos < input.len() && is_digit(input[pos]) {
        skip_digits(input, pos + 1)
    } else {
        pos
    }
}

/// The first position from `pos` on that holds no character of an identifier.
pub open spec fn skip_word(input: Seq<char>, pos: int) -> int
    decreases input.len() - pos,
{
    if 0 <= pos < input.len() && is_word(input[pos]) {
        skip_word(input, pos + 1)
    } else {
        pos
    }
}

/// The input holds `text` at `pos`.
pub open spec fn starts_with(input: Seq<char>, pos: int, text: Seq<char>) -> bool {
    &&& 0 <= pos
    &&& pos + text.len() <= input.len()
    &&& forall|k: int| 0 <= k < text.len() ==> #[trigger] input[pos + k] == text[k]
}

/// The position behind the string whose opening quote stands before `pos`:
/// behind the first double quote from `pos` on that no backslash escapes.
/// A backslash escapes a double quote or another backslash and nothing else.
/// `None` where the input ends first or a backslash stands before anything
/// else.
pub open spec fn string_end(input: Seq<char>, pos: int) -> Option<int>
    decreases input.len() - pos,
{
    if pos < 0 || pos >= input.len() {
        None
    } else if input[pos] == '"' {
        Some(pos + 1)
    } else if input[pos] == '\\' {
        if pos + 1 < input.len() && (input[pos + 1] == '\\' || input[pos + 1] == '"') {
            string_end(input, pos + 2)
        } else {
            None
        }
    } else {
        string_end(input, pos + 1)
    }
}

/// The position behind the quoted text whose opening quote stands before
/// `pos`: behind the first `quote` from `pos` on that no backslash escapes.
/// `None` where the input ends first.
pub open spec fn quoted_end(input: Seq<char>, pos: int, quote: char) -> Option<int>
    decreases input.len() - pos,
{
    if pos < 0 || pos >= input.len() {
        None
    } else if input[pos] == quote {
        Some(pos + 1)
    } else if input[pos] == '\\' && pos + 1 < input.len() {
        quoted_end(input, pos + 2, quote)
    } else {
        quoted_end(input, pos + 1, quote)
    }
}

/// The integer types after which matchers of numbers are named.
#[derive(Clone, Copy, Debug, PartialEq, Eq, Structural)]
pub enum NumberKind {
    U8,
    U16,
    U32,
    U64,
    U128,
    Usize,
    I8,
    I16,
    I32,
    I64,
    I128,
    Isize,
}

/// The type has negative values.
pub open spec fn is_signed(kind: NumberKind) -> bool {
    match kind {
        NumberKind::I8 => true,
        NumberKind::I16 => true,
        NumberKind::I32 => true,
        NumberKind::I64 => true,
        NumberKind::I128 => true,
        NumberKind::Isize => true,
        _ => false,
    }
}

/// The largest value of the type.
pub open spec fn largest(kind: NumberKind) -> nat {
    match kind {
        NumberKind::U8 => 0xff,
        NumberKind::U16 => 0xffff,
        NumberKind::U32 => 0xffff_ffff,
        NumberKind::U64 => 0xffff_ffff_ffff_ffff,
        NumberKind::U128 => 0xffff_ffff_ffff_ffff_ffff_ffff_ffff_ffff,
        NumberKind::Usize => usize::MAX as nat,
        NumberKind::I8 => 0x7f,
        NumberKind::I16 => 0x7fff,
        NumberKind::I32 => 0x7fff_ffff,
        NumberKind::I64 => 0x7fff_ffff_ffff_ffff,
        NumberKind::I128 => 0x7fff_ffff_ffff_ffff_ffff_ffff_ffff_ffff,
        NumberKind::Isize => isize::MAX as nat,
    }
}

/// The value of the decimal digit `c`.
pub open spec fn digit_value(c: char) -> nat {
    if c == '1' {
        1
    } else if c == '2' {
        2
    } else if c == '3' {
        3
    } else if c == '4' {
        4
    } else if c == '5' {
        5
    } else if c == '6' {
        6
    } else if c == '7' {
        7
    } else if c == '8' {
        8
    } else if c == '9' {
        9
    } else {
        0
    }
}

/// The number that the digits of the input from `from` up to `to` denote.
pub open spec fn digits_value(input: Seq<char>, from: int, to: int) -> nat
    decreases to - from,
{
    if to <= from || to > input.len() || from < 0 {
        0
    } else {
        digits_value(input, from, to - 1) * 10 + digit_value(input[to - 1])
    }
}

/// The position behind the number of type `kind` at `pos`, or `None` where
/// there is none. A number is a single `0`, or a digit other than `0` and
/// the digits that follow it, behind a sign where the type has negative
/// values and the sign is there; it must denote a value of the type. So of
/// `007` the first `0` is taken, and `-0` is no number.
pub open spec fn number_end(input: Seq<char>, pos: int, kind: NumberKind) -> Option<int> {
    if pos < 0 || pos >= input.len() {
        None
    } else {
        let negative = is_signed(kind) && input[pos] == '-';
        let from = if is_signed(kind) && (input[pos] == '-' || input[pos] == '+') {
            pos + 1
        } else {
            pos
        };
        if from < input.len() && '1' <= input[from] && input[from] <= '9' {
            let end = skip_digits(input, from);
            let limit = if negative {
                largest(kind) + 1
            } else {
                largest(kind)
            };
            if digits_value(input, from, end) <= limit {
                Some(end)
            } else {
                None
            }
        } else if input[pos] == '0' {
            Some(pos + 1)
        } else {
            None
        }
    }
}

/// The input holds at `pos` the letters of `lower`, each in either case;
/// `upper` is the same text in capitals.
pub open spec fn holds_caseless(
    input: Seq<char>,
    pos: int,
    lower: Seq<char>,
    upper: Seq<char>,
) -> bool {
    &&& 0 <= pos
    &&& pos + lower.len() <= input.len()
    &&& lower.len() == upper.len()
    &&& forall|k: int|
        0 <= k < lower.len() ==> (#[trigger] input[pos + k] == lower[k] || input[pos + k]
            == upper[k])
}

/// The position behind the decimal fraction at `pos`, or `None` where there
/// is none. A decimal fraction is `nan`, or behind an optional sign `inf`,
/// `infinity` or a number; letters count in either case. A number is digits,
/// optionally followed by a point and optionally more digits, or a point and
/// digits. Where an `e` or `E` follows the number, an exponent must: an
/// optional sign and digits.
pub open spec fn decimal_end(input: Seq<char>, pos: int) -> Option<int> {
    if pos < 0 || pos >= input.len() {
        None
    } else if input[pos] == 'n' || input[pos] == 'N' {
        if holds_caseless(input, pos, "nan"@, "NAN"@) {
            Some(pos + 3)
        } else {
            None
        }
    } else if input[pos] == '-' || input[pos] == '+' {
        unsigned_decimal_end(input, pos + 1)
    } else {
        unsigned_decimal_end(input, pos)
    }
}

/// The position behind the decimal fraction without a sign at `pos`.
pub open spec fn unsigned_decimal_end(input: Seq<char>, pos: int) -> Option<int> {
    if pos < 0 || pos >= input.len() {
        None
    } else if input[pos] == 'i' || input[pos] == 'I' {
        if holds_caseless(input, pos, "inf"@, "INF"@) {
            if holds_caseless(input, pos + 3, "inity"@, "INITY"@) {
                Some(pos + 8)
            } else {
                Some(pos + 3)
            }
        } else {
            None
        }
    } else if input[pos] == '.' {
        if skip_digits(input, pos + 1) > pos + 1 {
            exponent_end(input, skip_digits(input, pos + 1))
        } else {
            None
        }
    } else {
        let whole = skip_digits(input, pos);
        if whole <= pos {
            None
        } else if whole < input.len() && input[whole] == '.' {
            exponent_end(input, skip_digits(input, whole + 1))
        } else {
            exponent_end(input, whole)
        }
    }
}

/// The position behind the exponent at `pos`; `pos` itself where no `e` or
/// `E` stands there, and `None` where one does and no digits follow it.
pub open spec fn exponent_end(input: Seq<char>, pos: int) -> Option<int> {
    if 0 <= pos < input.len() && (input[pos] == 'e' || input[pos] == 'E') {
        let from = if pos + 1 < input.len() && (input[pos + 1] == '-' || input[pos + 1] == '+') {
            pos + 2
        } else {
            pos + 1
        };
        if skip_digits(input, from) > from {
            Some(skip_digits(input, from))
        } else {
            None
        }
    } else {
        Some(pos)
    }
}

/// The position behind what the primitive `p` matches at `pos`, or `None`
/// where it does not match.
///
/// An identifier is one or more alphanumeric characters and underscores. An
/// unsigned number is a number of 32 bits without a sign, a signed number
/// one of 32 bits with or without a sign. A string stands between double
/// quotes; inside it a backslash escapes a double quote or a backslash. A
/// character stands between single quotes, alone or behind a backslash.
pub open spec fn primitive_end(input: Seq<char>, pos: int, p: Primitive) -> Option<int> {
    if pos < 0 || pos >= input.len() {
        None
    } else {
        match p {
            Primitive::Ident => if skip_word(input, pos) > pos {
                Some(skip_word(input, pos))
            } else {
                None
            },
            Primitive::Uint => number_end(input, pos, NumberKind::U32),
            Primitive::Integer => number_end(input, pos, NumberKind::I32),
            Primitive::String => if input[pos] == '"' {
                string_end(input, pos + 1)
            } else {
                None
            },
            Primitive::Char => if input[pos] == '\'' && pos + 1 < input.len() && input[pos + 1]
                != '\'' {
                match quoted_end(input, pos + 1, '\'') {
                    Some(end) => if end == pos + 3 || (end == pos + 4 && input[pos + 1] == '\\') {
                        Some(end)
                    } else {
                        None
                    },
                    None => None,
                }
            } else {
                None
            },
        }
    }
}

pub proof fn lemma_skip_ws_bounds(input: Seq<char>, pos: int)
    requires
        0 <= pos <= input.len(),
    ensures
        pos <= skip_ws(input, pos) <= input.len(),
    decreases input.len() - pos,
{
    if pos < input.len() && is_space(input[pos]) {
        lemma_skip_ws_bounds(input, pos + 1);
    }
}

pub proof fn lemma_skip_digits_bounds(input: Seq<char>, pos: int)
    requires
        0 <= pos <= input.len(),
    ensures
        pos <= skip_digits(input, pos) <= input.len(),
    decreases input.len() - pos,
{
    if pos < input.len() && is_digit(input[pos]) {
        lemma_skip_digits_bounds(input, pos + 1);
    }
}

pub proof fn lemma_skip_word_bounds(input: Seq<char>, pos: int)
    requires
        0 <= pos <= input.len(),
    ensures
        pos <= skip_word(input, pos) <= input.len(),
    decreases input.len() - pos,
{
    if pos < input.len() && is_word(input[pos]) {
        lemma_skip_word_bounds(input, pos + 1);
    }
}

pub proof fn lemma_string_end_bounds(input: Seq<char>, pos: int)
    requires
        0 <= pos,
    ensures
        string_end(input, pos) matches Some(end) ==> pos < end <= input.len(),
    decreases input.len() - pos,
{
    if pos < input.len() && input[pos] != '"' {
        if input[pos] == '\\' {
            if pos + 1 < input.len() && (input[pos + 1] == '\\' || input[pos + 1] == '"') {
                lemma_string_end_bounds(input, pos + 2);
            }
        } else {
            lemma_string_end_bounds(input, pos + 1);
        }
    }
}

pub proof fn lemma_quoted_end_bounds(input: Seq<char>, pos: int, quote: char)
    requires
        0 <= pos,
    ensures
        quoted_end(input, pos, quote) matches Some(end) ==> pos < end <= input.len(),
    decreases input.len() - pos,
{
    if pos < input.len() && input[pos] != quote {
        if input[pos] == '\\' && pos + 1 < input.len() {
            lemma_quoted_end_bounds(input, pos + 2, quote);
        } else {
            lemma_quoted_end_bounds(input, pos + 1, quote);
        }
    }
}

/// What a primitive matches is never empty and never runs past the input.
pub proof fn lemma_primitive_end_bounds(input: Seq<char>, pos: int, p: Primitive)
    ensures
        primitive_end(input, pos, p) matches Some(end) ==> 0 <= pos < end <= input.len(),
{
    if 0 <= pos < input.len() {
        lemma_skip_word_bounds(input, pos);
        lemma_skip_digits_bounds(input, pos);
        lemma_skip_digits_bounds(input, pos + 1);
        lemma_string_end_bounds(input, pos + 1);
        lemma_quoted_end_bounds(input, pos + 1, '\'');
    }
}

fn space(c: char) -> (b: bool)
    ensures
        b == is_space(c),
{
    c == ' ' || c == '\t' || c == '\n' || c == '\r'
}

fn digit(c: char) -> (b: bool)
    ensures
        b == is_digit(c),
{
    '0' <= c && c <= '9'
}

fn word(c: char) -> (b: bool)
    ensures
        b == is_word(c),
{
    is_alphanumeric(c) || c == '_'
}

/// Finds the first position from `pos` on that holds no white space.
pub fn after_ws(input: &Vec<char>, pos: usize) -> (end: usize)
    ensures
        end == skip_ws(input@, pos as int),
        pos <= end,
        pos <= input@.len() ==> end <= input@.len(),
{
    let mut i: usize = pos;
    while i < input.len() && space(input[i])
        invariant
            pos <= i,
            pos <= input@.len() ==> i <= input@.len(),
            skip_ws(input@, pos as int) == skip_ws(input@, i as int),
        decreases input@.len() - i,
    {
        i += 1;
    }
    i
}

fn after_digits(input: &Vec<char>, pos: usize) -> (end: usize)
    ensures
        end == skip_digits(input@, pos as int),
        pos <= end,
        pos <= input@.len() ==> end <= input@.len(),
{
    let mut i: usize = pos;
    while i < input.len() && digit(input[i])
        invariant
            pos <= i,
            pos <= input@.len() ==> i <= input@.len(),
            skip_digits(input@, pos as int) == skip_digits(input@, i as int),
        decreases input@.len() - i,
    {
        i += 1;
    }
    i
}

fn after_word(input: &Vec<char>, pos: usize) -> (end: usize)
    ensures
        end == skip_word(input@, pos as int),
        pos <= end,
        pos <= input@.len() ==> end <= input@.len(),
{
    let mut i: usize = pos;
    while i < input.len() && word(input[i])
        invariant
            pos <= i,
            pos <= input@.len() ==> i <= input@.len(),
            skip_word(input@, pos as int) == skip_word(input@, i as int),
        decreases input@.len() - i,
    {
        i += 1;
    }
    i
}

fn after_string(input: &Vec<char>, pos: usize) -> (end: Option<usize>)
    ensures
        match end {
            Some(e) => string_end(input@, pos as int) == Some(e as int) && pos < e <= input@.len(),
            None => string_end(input@, pos as int) is None,
        },
{
    let mut i: usize = pos;
    while i < input.len()
        invariant
            pos <= i,
            string_end(input@, pos as int) == string_end(input@, i as int),
        decreases input@.len() - i,
    {
        if input[i] == '"' {
            return Some(i + 1);
        }
        if input[i] == '\\' {
            if i + 1 < input.len() && (input[i + 1] == '\\' || input[i + 1] == '"') {
                i += 2;
            } else {
                return None;
            }
        } else {
            i += 1;
        }
    }
    None
}

fn after_quoted(input: &Vec<char>, pos: usize, quote: char) -> (end: Option<usize>)
    ensures
        match end {
            Some(e) => quoted_end(input@, pos as int, quote) == Some(
                e as int,
            ) && pos < e <= input@.len(),
            None => quoted_end(input@, pos as int, quote) is None,
        },
{
    let mut i: usize = pos;
    while i < input.len()
        invariant
            pos <= i,
            quoted_end(input@, pos as int, quote) == quoted_end(input@, i as int, quote),
        decreases input@.len() - i,
    {
        if input[i] == quote {
            return Some(i + 1);
        }
        if input[i] == '\\' && i + 1 < input.len() {
            i += 2;
        } else {
            i += 1;
        }
    }
    None
}

/// Tells whether the input holds `text` at `pos`.
pub fn holds_text(input: &Vec<char>, pos: usize, text: &str) -> (b: bool)
    ensures
        b == starts_with(input@, pos as int, text@),
{
    let n = text.unicode_len();
    if pos > input.len() || n > input.len() - pos {
        return false;
    }
    let len = input.len();
    let mut k: usize = 0;
    while k < n
        invariant
            n == text@.len(),
            len == input@.len(),
            pos + n <= len,
            k <= n,
            forall|q: int| 0 <= q < k ==> #[trigger] input@[pos + q] == text@[q],
        decreases n - k,
    {
        if input[pos + k] != text.get_char(k) {
            return false;
        }
        k += 1;
    }
    true
}

fn value_of_digit(c: char) -> (d: u128)
    ensures
        d == digit_value(c),
        d <= 9,
{
    if c == '1' {
        1
    } else if c == '2' {
        2
    } else if c == '3' {
        3
    } else if c == '4' {
        4
    } else if c == '5' {
        5
    } else if c == '6' {
        6
    } else if c == '7' {
        7
    } else if c == '8' {
        8
    } else if c == '9' {
        9
    } else {
        0
    }
}

proof fn lemma_digits_value_grows(input: Seq<char>, from: int, i: int, to: int)
    requires
        0 <= from <= i <= to <= input.len(),
    ensures
        digits_value(input, from, i) <= digits_value(input, from, to),
    decreases to - i,
{
    if i < to {
        lemma_digits_value_grows(input, from, i, to - 1);
    }
}

fn limit_of(kind: NumberKind) -> (limit: u128)
    ensures
        limit == largest(kind),
        limit < u128::MAX || !is_signed(kind),
{
    match kind {
        NumberKind::U8 => 0xff,
        NumberKind::U16 => 0xffff,
        NumberKind::U32 => 0xffff_ffff,
        NumberKind::U64 => 0xffff_ffff_ffff_ffff,
        NumberKind::U128 => 0xffff_ffff_ffff_ffff_ffff_ffff_ffff_ffff,
        NumberKind::Usize => usize::MAX as u128,
        NumberKind::I8 => 0x7f,
        NumberKind::I16 => 0x7fff,
        NumberKind::I32 => 0x7fff_ffff,
        NumberKind::I64 => 0x7fff_ffff_ffff_ffff,
        NumberKind::I128 => 0x7fff_ffff_ffff_ffff_ffff_ffff_ffff_ffff,
        NumberKind::Isize => isize::MAX as u128,
    }
}

fn signed(kind: NumberKind) -> (b: bool)
    ensures
        b == is_signed(kind),
{
    match kind {
        NumberKind::I8 => true,
        NumberKind::I16 => true,
        NumberKind::I32 => true,
        NumberKind::I64 => true,
        NumberKind::I128 => true,
        NumberKind::Isize => true,
        _ => false,
    }
}

fn digits_fit(input: &Vec<char>, from: usize, to: usize, limit: u128) -> (b: bool)
    requires
        from <= to <= input@.len(),
    ensures
        b == (digits_value(input@, from as int, to as int) <= limit),
{
    let mut acc: u128 = 0;
    let mut i: usize = from;
    while i < to
        invariant
            from <= i <= to <= input@.len(),
            acc == digits_value(input@, from as int, i as int),
            acc <= limit,
        decreases to - i,
    {
        let d = value_of_digit(input[i]);
        if d > limit || acc > (limit - d) / 10 {
            proof {
                assert(digits_value(input@, from as int, i + 1) == acc * 10 + d);
                lemma_digits_value_grows(input@, from as int, i + 1, to as int);
            }
            return false;
        }
        acc = acc * 10 + d;
        i += 1;
    }
    true
}

/// Matches a number of type `kind` at `pos` and returns the position behind it.
pub fn match_number(input: &Vec<char>, pos: usize, kind: NumberKind) -> (end: Option<usize>)
    ensures
        match end {
            Some(e) => number_end(input@, pos as int, kind) == Some(
                e as int,
            ) && pos < e <= input@.len(),
            None => number_end(input@, pos as int, kind) is None,
        },
{
    let len = input.len();
    if pos >= len {
        return None;
    }
    let with_sign = signed(kind);
    let negative = with_sign && input[pos] == '-';
    let from = if with_sign && (input[pos] == '-' || input[pos] == '+') {
        pos + 1
    } else {
        pos
    };
    if from < len && '1' <= input[from] && input[from] <= '9' {
        let end = after_digits(input, from);
        proof {
            lemma_skip_digits_bounds(input@, from + 1);
        }
        let largest = limit_of(kind);
        let limit = if negative {
            largest + 1
        } else {
            largest
        };
        if digits_fit(input, from, end, limit) {
            Some(end)
        } else {
            None
        }
    } else if input[pos] == '0' {
        Some(pos + 1)
    } else {
        None
    }
}

fn after_exponent(input: &Vec<char>, pos: usize) -> (end: Option<usize>)
    requires
        pos <= input@.len(),
    ensures
        match end {
            Some(e) => exponent_end(input@, pos as int) == Some(e as int) && pos <= e
                <= input@.len(),
            None => exponent_end(input@, pos as int) is None,
        },
{
    let len = input.len();
    if pos < len && (input[pos] == 'e' || input[pos] == 'E') {
        let from = if len - pos >= 2 && (input[pos + 1] == '-' || input[pos + 1] == '+') {
            pos + 2
        } else {
            pos + 1
        };
        let end = after_digits(input, from);
        if end > from {
            Some(end)
        } else {
            None
        }
    } else {
        Some(pos)
    }
}

/// Tells whether the input holds at `pos` the letters of `lower`, each in
/// either case; `upper` is the same text in capitals.
fn holds_letters(input: &Vec<char>, pos: usize, lower: &str, upper: &str) -> (b: bool)
    ensures
        b == holds_caseless(input@, pos as int, lower@, upper@),
{
    let n = lower.unicode_len();
    let len = input.len();
    if upper.unicode_len() != n || pos > len || len - pos < n {
        return false;
    }
    let mut k: usize = 0;
    while k < n
        invariant
            k <= n,
            n == lower@.len(),
            n == upper@.len(),
            len == input@.len(),
            pos + n <= len,
            forall|q: int|
                0 <= q < k ==> (#[trigger] input@[pos + q] == lower@[q] || input@[pos + q]
                    == upper@[q]),
        decreases n - k,
    {
        let c = input[pos + k];
        if c != lower.get_char(k) && c != upper.get_char(k) {
            return false;
        }
        k += 1;
    }
    true
}

fn match_unsigned_decimal(input: &Vec<char>, pos: usize) -> (end: Option<usize>)
    requires
        pos <= input@.len(),
    ensures
        match end {
            Some(e) => unsigned_decimal_end(input@, pos as int) == Some(e as int) && pos < e
                <= input@.len(),
            None => unsigned_decimal_end(input@, pos as int) is None,
        },
{
    let len = input.len();
    if pos >= len {
        return None;
    }
    proof {
        reveal_strlit("inf");
        reveal_strlit("INF");
        reveal_strlit("inity");
        reveal_strlit("INITY");
    }
    if input[pos] == 'i' || input[pos] == 'I' {
        if holds_letters(input, pos, "inf", "INF") {
            if len - pos >= 8 && holds_letters(input, pos + 3, "inity", "INITY") {
                Some(pos + 8)
            } else {
                Some(pos + 3)
            }
        } else {
            None
        }
    } else if input[pos] == '.' {
        let digits = after_digits(input, pos + 1);
        if digits > pos + 1 {
            after_exponent(input, digits)
        } else {
            None
        }
    } else {
        let whole = after_digits(input, pos);
        if whole <= pos {
            None
        } else if whole < len && input[whole] == '.' {
            after_exponent(input, after_digits(input, whole + 1))
        } else {
            after_exponent(input, whole)
        }
    }
}

/// Matches a decimal fraction at `pos` and returns the position behind it.
pub fn match_decimal(input: &Vec<char>, pos: usize) -> (end: Option<usize>)
    ensures
        match end {
            Some(e) => decimal_end(input@, pos as int) == Some(e as int) && pos < e <= input@.len(),
            None => decimal_end(input@, pos as int) is None,
        },
{
    let len = input.len();
    if pos >= len {
        return None;
    }
    proof {
        reveal_strlit("nan");
        reveal_strlit("NAN");
    }
    if input[pos] == 'n' || input[pos] == 'N' {
        if holds_letters(input, pos, "nan", "NAN") {
            Some(pos + 3)
        } else {
            None
        }
    } else if input[pos] == '-' || input[pos] == '+' {
        match_unsigned_decimal(input, pos + 1)
    } else {
        match_unsigned_decimal(input, pos)
    }
}

/// Matches the primitive `p` at `pos` and returns the position behind the match.
pub fn match_primitive(input: &Vec<char>, pos: usize, p: Primitive) -> (end: Option<usize>)
    ensures
        match end {
            Some(e) => primitive_end(input@, pos as int, p) == Some(
                e as int,
            ) && pos < e <= input@.len(),
            None => primitive_end(input@, pos as int, p) is None,
        },
{
    if pos >= input.len() {
        return None;
    }
    match p {
        Primitive::Ident => {
            let end = after_word(input, pos);
            if end > pos {
                Some(end)
            } else {
                None
            }
        },
        Primitive::Uint => match_number(input, pos, NumberKind::U32),
        Primitive::Integer => match_number(input, pos, NumberKind::I32),
        Primitive::String => {
            if input[pos] == '"' {
                after_string(input, pos + 1)
            } else {
                None
            }
        },
        Primitive::Char => {
            if input[pos] == '\'' && pos + 1 < input.len() && input[pos + 1] != '\'' {
                match after_quoted(input, pos + 1, '\'') {
                    Some(end) => if end - pos == 3 || (end - pos == 4 && input[pos + 1] == '\\') {
                        Some(end)
                    } else {
                        None
                    },
                    None => None,
                }
            } else {
                None
            }
        },
    }
}

/// The characters of `text`, one by one.
pub fn to_chars(text: &str) -> (chars: Vec<char>)
    ensures
        chars@ == text@,
{
    let n = text.unicode_len();
    let mut chars: Vec<char> = Vec::new();
    let mut i: usize = 0;
    while i < n
        invariant
            n == text@.len(),
            i <= n,
            chars@.len() == i,
            forall|k: int| 0 <= k < i ==> #[trigger] chars@[k] == text@[k],
        decreases n - i,
    {
        chars.push(text.get_char(i));
        i += 1;
    }
    assert(chars@ =~= text@);
    chars
}

/// A class of characters that a matcher of the catalog takes a run of.
#[derive(Clone, Copy, Debug, PartialEq, Eq, Structural)]
pub enum CharClass {
    /// Letters `a` to `z` and `A` to `Z`.
    Alpha,
    /// Digits `0` to `9`.
    Digit,
    /// Digits and the letters `a` to `f` and `A` to `F`.
    Hex,
    /// Digits `0` to `7`.
    Octal,
    /// The digits `0` and `1`.
    Binary,
    /// Blank and tab.
    Blank,
    /// Blank, tab, line feed and carriage return.
    Space,
}

/// `c` belongs to `class`.
pub open spec fn in_class(c: char, class: CharClass) -> bool {
    match class {
        CharClass::Alpha => ('a' <= c && c <= 'z') || ('A' <= c && c <= 'Z'),
        CharClass::Digit => is_digit(c),
        CharClass::Hex => is_digit(c) || ('a' <= c && c <= 'f') || ('A' <= c && c <= 'F'),
        CharClass::Octal => '0' <= c && c <= '7',
        CharClass::Binary => c == '0' || c == '1',
        CharClass::Blank => c == ' ' || c == '\t',
        CharClass::Space => is_space(c),
    }
}

/// The first position from `pos` on that holds no character of `class`.
pub open spec fn skip_class(input: Seq<char>, pos: int, class: CharClass) -> int
    decreases input.len() - pos,
{
    if 0 <= pos < input.len() && in_class(input[pos], class) {
        skip_class(input, pos + 1, class)
    } else {
        pos
    }
}

/// What stands in for an entry of a catalog of primitive matchers.
#[derive(Clone, Copy, Debug, PartialEq, Eq, Structural)]
pub enum Matcher {
    /// One of the primitives.
    Primitive(Primitive),
    /// The longest run of characters of a class, which must not be empty
    /// where `at_least_one` is set.
    Run { class: CharClass, at_least_one: bool },
    /// Any one character.
    Any,
    /// Nothing at all; always matches.
    Empty,
    /// A line feed, or a carriage return and a line feed.
    LineEnding,
    /// The end of the input.
    End,
    /// A number of an integer type.
    Number(NumberKind),
    /// A decimal fraction.
    Decimal,
    /// `true` or `false`.
    Bool,
}

/// The position behind what `matcher` matches at `pos`, or `None` where it
/// does not match.
pub open spec fn matcher_end(input: Seq<char>, pos: int, matcher: Matcher) -> Option<int> {
    match matcher {
        Matcher::Primitive(p) => primitive_end(input, pos, p),
        Matcher::Run { class, at_least_one } => if at_least_one && skip_class(input, pos, class)
            == pos {
            None
        } else {
            Some(skip_class(input, pos, class))
        },
        Matcher::Any => if 0 <= pos < input.len() {
            Some(pos + 1)
        } else {
            None
        },
        Matcher::Empty => Some(pos),
        Matcher::LineEnding => if 0 <= pos < input.len() && input[pos] == '\n' {
            Some(pos + 1)
        } else if 0 <= pos && pos + 1 < input.len() && input[pos] == '\r' && input[pos + 1] == '\n' {
            Some(pos + 2)
        } else {
            None
        },
        Matcher::End => if pos == input.len() {
            Some(pos)
        } else {
            None
        },
        Matcher::Number(kind) => number_end(input, pos, kind),
        Matcher::Decimal => decimal_end(input, pos),
        Matcher::Bool => if starts_with(input, pos, "true"@) {
            Some(pos + 4)
        } else if starts_with(input, pos, "false"@) {
            Some(pos + 5)
        } else {
            None
        },
    }
}

fn belongs(c: char, class: CharClass) -> (b: bool)
    ensures
        b == in_class(c, class),
{
    match class {
        CharClass::Alpha => ('a' <= c && c <= 'z') || ('A' <= c && c <= 'Z'),
        CharClass::Digit => digit(c),
        CharClass::Hex => digit(c) || ('a' <= c && c <= 'f') || ('A' <= c && c <= 'F'),
        CharClass::Octal => '0' <= c && c <= '7',
        CharClass::Binary => c == '0' || c == '1',
        CharClass::Blank => c == ' ' || c == '\t',
        CharClass::Space => space(c),
    }
}

fn after_class(input: &Vec<char>, pos: usize, class: CharClass) -> (end: usize)
    ensures
        end == skip_class(input@, pos as int, class),
        pos <= end,
        pos <= input@.len() ==> end <= input@.len(),
{
    let mut i: usize = pos;
    while i < input.len() && belongs(input[i], class)
        invariant
            pos <= i,
            pos <= input@.len() ==> i <= input@.len(),
            skip_class(input@, pos as int, class) == skip_class(input@, i as int, class),
        decreases input@.len() - i,
    {
        i += 1;
    }
    i
}

/// Matches `matcher` at `pos` and returns the position behind the match.
pub fn run_matcher(input: &Vec<char>, pos: usize, matcher: Matcher) -> (end: Option<usize>)
    ensures
        match end {
            Some(e) => matcher_end(
                input@,
                pos as int,
                matcher,
            ) == Some(e as int) && pos <= e && (pos
                <= input@.len() ==> e <= input@.len()),
            None => matcher_end(input@, pos as int, matcher) is None,
        },
{
    match matcher {
        Matcher::Primitive(p) => match_primitive(input, pos, p),
        Matcher::Run { class, at_least_one } => {
            let end = after_class(input, pos, class);
            if at_least_one && end == pos {
                None
            } else {
                Some(end)
            }
        },
        Matcher::Any => {
            if pos < input.len() {
                Some(pos + 1)
            } else {
                None
            }
        },
        Matcher::Empty => Some(pos),
        Matcher::LineEnding => {
            let len = input.len();
            if pos < len && input[pos] == '\n' {
                Some(pos + 1)
            } else if pos < len && len - pos >= 2 && input[pos] == '\r' && input[pos + 1] == '\n' {
                Some(pos + 2)
            } else {
                None
            }
        },
        Matcher::End => {
            if pos == input.len() {
                Some(pos)
            } else {
                None
            }
        },
        Matcher::Number(kind) => match_number(input, pos, kind),
        Matcher::Decimal => match_decimal(input, pos),
        Matcher::Bool => {
            proof {
                reveal_strlit("true");
                reveal_strlit("false");
            }
            let len = input.len();
            if holds_text(input, pos, "true") {
                assert(pos + 4 <= len);
                Some(pos + 4)
            } else if holds_text(input, pos, "false") {
                assert(pos + 5 <= len);
                Some(pos + 5)
            } else {
                None
            }
        },
    }
}

} // verus!

//! What it means to run a plan against an input of characters.
//!
//! The meaning is given as a function from the plan, the input and the state
//! of the machine to the state afterwards and a verdict. Calls of rules are
//! counted against a budget, so that the function is total on every plan.
//!
//! Before a literal, a delimiter, a primitive or a stand-in of the catalog
//! the skipper runs. By default it passes over blanks, tabs, line feeds and
//! carriage returns. A grammar that brings a rule called `ws` has that rule
//! for its skipper: the rule is run wherever the skipper is due, nothing but
//! the position that it reaches is kept, and a token fails where the rule
//! fails before it. While the rule `ws` runs itself, nothing is skipped. What
//! the skipper does at each position is worked out before the run and held
//! with the input ([`Source`]).
//!
//! The primitive matchers are the machine's own: a backend is free to bring
//! others under the same names.

use crate::plan::{
    AltPlan, CallTarget, Delimiter, Dispatch, GrammarPlan, Primitive, RuleBody, Step, TailPlan,
};
use crate::runtime::{
    after_attempt, after_recover, begun, checkpoint_of, fresh_context, rolled_back,
    CheckpointView, ContextView, ParseErrorView,
};
use crate::scan::{matcher_end, skip_ws, starts_with, CharClass, Matcher, NumberKind};
use crate::span::Span;
use crate::text::quoted;
use crate::tokens::{PeekToken, PeekTokenView, TokenTypeView};
use vstd::prelude::*;

verus! {

/// What a run notes down as it goes. Whatever a rolled-back attempt noted is
/// dropped again, so that the notes of a finished run tell how the input was
/// matched in the end.
#[derive(Clone, Copy, Debug, PartialEq, Eq, Structural)]
pub enum Event {
    /// A rule was entered.
    Enter { rule: usize },
    /// The rule entered last and not yet left has matched.
    Leave { rule: usize },
    /// An alternative of a choice has matched; `variant` is its position.
    Chose { variant: usize },
    /// An arm of a left-recursive rule has matched and grown the seed.
    Grow { tail: usize },
    /// The input from `start` up to `end` was consumed as one token.
    Token { start: usize, end: usize },
    /// A recovery region gave up and skipped the input from `start` up to
    /// `end`; what its body would have bound is absent.
    Skip { start: usize, end: usize },
    /// The optional step or the recovery region noted last has matched.
    Present,
    /// An optional step has not matched.
    Absent,
    /// A repeated step begins.
    Collecting,
    /// One more round of the repeated step begun last has matched.
    Item,
    /// The repeated step begun last is done.
    Collected,
    /// The step under a span binding has matched the input from `start` up
    /// to `end`.
    Captured { start: usize, end: usize },
    /// A lookahead begins; what is noted up to its end was seen ahead and not
    /// consumed.
    Peeking,
    /// The lookahead begun last has matched.
    Peeked,
}

/// The state of a run: the position in the input, the shared context, and
/// the notes taken so far.
pub struct MachineView {
    pub pos: int,
    pub ctx: ContextView,
    pub trace: Seq<Event>,
}

/// How a step ended.
pub enum VerdictView {
    Matched,
    Failed(ParseErrorView),
    /// The budget of rule calls ran out.
    Exhausted,
}

/// How a speculative attempt ended.
pub enum TryView {
    Matched,
    /// The attempt failed and was rolled back; the next candidate is due.
    NoMatch,
    /// The attempt failed for good.
    Failed(ParseErrorView),
    Exhausted,
}

/// The position `p` as a place in the input.
pub open spec fn offset(p: int) -> usize {
    #[verifier::truncate]
    (p as usize)
}

/// The empty span at position `p`.
pub open spec fn place(p: int) -> Span {
    Span { start: offset(p), end: offset(p) }
}

/// The failure `message` at position `p`.
pub open spec fn fail_at(p: int, message: Seq<char>) -> ParseErrorView {
    ParseErrorView { span: place(p), message }
}

/// The text that a token to look for begins with.
pub open spec fn peek_text(t: PeekTokenView) -> Seq<char> {
    match t {
        PeekTokenView::Token(TokenTypeView::Keyword(s)) => s,
        PeekTokenView::Token(TokenTypeView::Token(s)) => s,
        PeekTokenView::Bracket => "["@,
        PeekTokenView::Brace => "{"@,
        PeekTokenView::Paren => "("@,
    }
}

/// An input as a run takes it: its characters and, for each position from
/// the first up to the end, the position that the skipper reaches from there,
/// or nothing where the skipper fails there.
pub struct Source {
    pub text: Seq<char>,
    pub skips: Seq<Option<int>>,
}

/// Where the skipper gets to from `pos`, if it does not fail there. A
/// position that the table does not hold is left as it is, and an entry that
/// points back or past the end counts as a failure.
pub open spec fn skip_to(input: Source, pos: int) -> Option<int> {
    if 0 <= pos < input.skips.len() {
        match input.skips[pos] {
            Some(q) => if pos <= q <= input.text.len() {
                Some(q)
            } else {
                None
            },
            None => None,
        }
    } else {
        Some(pos)
    }
}

/// Where the next token is looked for from `pos`: where the skipper gets to,
/// or `pos` itself where the skipper fails.
pub open spec fn skipped(input: Source, pos: int) -> int {
    match skip_to(input, pos) {
        Some(q) => q,
        None => pos,
    }
}

/// Behind what the skipper passes over at `pos` the input goes on with the
/// token `t`.
pub open spec fn token_ahead(input: Source, pos: int, t: PeekTokenView) -> bool {
    skip_to(input, pos) matches Some(p) && starts_with(input.text, p, peek_text(t))
}

/// The guard lets the step be tried: there is none, or its token is ahead.
pub open spec fn guard_passes(input: Source, pos: int, guard: Option<PeekToken>) -> bool {
    match guard {
        Some(t) => token_ahead(input, pos, t@),
        None => true,
    }
}

/// The opening text of a delimited region.
pub open spec fn open_text(d: Delimiter) -> Seq<char> {
    match d {
        Delimiter::Paren => "("@,
        Delimiter::Bracket => "["@,
        Delimiter::Brace => "{"@,
    }
}

/// The closing text of a delimited region.
pub open spec fn close_text(d: Delimiter) -> Seq<char> {
    match d {
        Delimiter::Paren => ")"@,
        Delimiter::Bracket => "]"@,
        Delimiter::Brace => "}"@,
    }
}

/// The matcher that stands in for the catalog entry `name`.
///
/// The entries named after the integer types match the numbers of their
/// type, those named after the types of fractions a decimal fraction. The
/// entries for runs of characters take the longest run of their class, those
/// whose name ends in `1` at least one character. `eof` stands for the end
/// of the input. Names that are not listed here have no stand-in.
pub open spec fn catalog_matcher(name: Seq<char>) -> Option<Matcher> {
    if name == "u8"@ {
        Some(Matcher::Number(NumberKind::U8))
    } else if name == "u16"@ {
        Some(Matcher::Number(NumberKind::U16))
    } else if name == "u32"@ {
        Some(Matcher::Number(NumberKind::U32))
    } else if name == "u64"@ {
        Some(Matcher::Number(NumberKind::U64))
    } else if name == "u128"@ {
        Some(Matcher::Number(NumberKind::U128))
    } else if name == "usize"@ {
        Some(Matcher::Number(NumberKind::Usize))
    } else if name == "i8"@ {
        Some(Matcher::Number(NumberKind::I8))
    } else if name == "i16"@ {
        Some(Matcher::Number(NumberKind::I16))
    } else if name == "i32"@ {
        Some(Matcher::Number(NumberKind::I32))
    } else if name == "i64"@ {
        Some(Matcher::Number(NumberKind::I64))
    } else if name == "i128"@ {
        Some(Matcher::Number(NumberKind::I128))
    } else if name == "isize"@ {
        Some(Matcher::Number(NumberKind::Isize))
    } else if name == "f32"@ || name == "f64"@ || name == "float"@ {
        Some(Matcher::Decimal)
    } else if name == "bool"@ {
        Some(Matcher::Bool)
    } else if name == "any"@ {
        Some(Matcher::Any)
    } else if name == "empty"@ {
        Some(Matcher::Empty)
    } else if name == "line_ending"@ {
        Some(Matcher::LineEnding)
    } else if name == "eof"@ {
        Some(Matcher::End)
    } else if name == "alpha1"@ {
        Some(Matcher::Run { class: CharClass::Alpha, at_least_one: true })
    } else if name == "digit1"@ {
        Some(Matcher::Run { class: CharClass::Digit, at_least_one: true })
    } else if name == "hex_digit0"@ {
        Some(Matcher::Run { class: CharClass::Hex, at_least_one: false })
    } else if name == "hex_digit1"@ {
        Some(Matcher::Run { class: CharClass::Hex, at_least_one: true })
    } else if name == "oct_digit0"@ {
        Some(Matcher::Run { class: CharClass::Octal, at_least_one: false })
    } else if name == "oct_digit1"@ {
        Some(Matcher::Run { class: CharClass::Octal, at_least_one: true })
    } else if name == "binary_digit0"@ {
        Some(Matcher::Run { class: CharClass::Binary, at_least_one: false })
    } else if name == "binary_digit1"@ {
        Some(Matcher::Run { class: CharClass::Binary, at_least_one: true })
    } else if name == "space0"@ {
        Some(Matcher::Run { class: CharClass::Blank, at_least_one: false })
    } else if name == "space1"@ {
        Some(Matcher::Run { class: CharClass::Blank, at_least_one: true })
    } else if name == "multispace0"@ {
        Some(Matcher::Run { class: CharClass::Space, at_least_one: false })
    } else if name == "multispace1"@ {
        Some(Matcher::Run { class: CharClass::Space, at_least_one: true })
    } else {
        None
    }
}

/// What a matcher is called in a failure.
pub open spec fn matcher_word(matcher: Matcher) -> Seq<char> {
    match matcher {
        Matcher::Primitive(Primitive::Ident) => "expected identifier"@,
        Matcher::Primitive(Primitive::Integer) => "expected integer"@,
        Matcher::Primitive(Primitive::Uint) => "expected unsigned integer"@,
        Matcher::Primitive(Primitive::String) => "expected string"@,
        Matcher::Primitive(Primitive::Char) => "expected character"@,
        Matcher::Run { class: CharClass::Alpha, .. } => "expected letter"@,
        Matcher::Run { class: CharClass::Digit, .. } => "expected digit"@,
        Matcher::Run { class: CharClass::Hex, .. } => "expected hexadecimal digit"@,
        Matcher::Run { class: CharClass::Octal, .. } => "expected octal digit"@,
        Matcher::Run { class: CharClass::Binary, .. } => "expected binary digit"@,
        Matcher::Run { class: CharClass::Blank, .. } => "expected blank"@,
        Matcher::Run { class: CharClass::Space, .. } => "expected white space"@,
        Matcher::Any => "expected any character"@,
        Matcher::Empty => "expected nothing"@,
        Matcher::LineEnding => "expected line ending"@,
        Matcher::End => "expected end of input"@,
        Matcher::Number(_) => "expected number"@,
        Matcher::Decimal => "expected decimal fraction"@,
        Matcher::Bool => "expected `true` or `false`"@,
    }
}

/// The parameters of the rule being run, each with the rule that was handed
/// in for it.
pub type Frame = Seq<(Seq<char>, usize)>;

/// The rule that the name `name` is bound to in `frame`, looked for from
/// position `i` on.
pub open spec fn bound_rule(frame: Frame, name: Seq<char>, i: nat) -> Option<usize>
    decreases frame.len() - i,
{
    if i >= frame.len() {
        None
    } else if frame[i as int].0 == name {
        Some(frame[i as int].1)
    } else {
        bound_rule(frame, name, i + 1)
    }
}

/// The rule that the argument `arg` hands in: the rule that it calls without
/// arguments, by its own name or by a name that `frame` binds. Any other
/// argument is a value for the action and no concern of the machine.
pub open spec fn argument_rule(arg: Step, frame: Frame) -> Option<usize> {
    match arg {
        Step::Call { target, args, .. } => if args@.len() == 0 {
            match target {
                CallTarget::Rule { index, .. } => Some(index),
                CallTarget::Named(name) => bound_rule(frame, name@, 0),
                CallTarget::Primitive(_) => None,
            }
        } else {
            None
        },
        _ => None,
    }
}

/// The frame of a rule called with the first `n` of `args` for the first `n`
/// of its parameters `params`, where the call is made under `frame`.
pub open spec fn callee_frame(
    params: Seq<String>,
    args: Seq<Step>,
    frame: Frame,
    n: nat,
) -> Frame
    decreases n,
{
    if n == 0 || n > params.len() || n > args.len() {
        Seq::empty()
    } else {
        let rest = callee_frame(params, args, frame, (n - 1) as nat);
        match argument_rule(args[n - 1], frame) {
            Some(index) => rest.push((params[n - 1]@, index)),
            None => rest,
        }
    }
}

/// The machine after the input from `start` up to `end` was consumed as a token.
pub open spec fn consumed(m: MachineView, start: int, end: int) -> MachineView {
    MachineView {
        pos: end,
        ctx: ContextView {
            last_span: Some(Span { start: offset(start), end: offset(end) }),
            ..m.ctx
        },
        trace: m.trace.push(Event::Token { start: offset(start), end: offset(end) }),
    }
}

/// The failure of a token before which the skipper fails.
pub open spec fn skipper_failed(m: MachineView) -> (MachineView, VerdictView) {
    (m, VerdictView::Failed(fail_at(m.pos, "expected white space"@)))
}

/// Runs the skipper and matches `text`.
pub open spec fn match_text(
    input: Source,
    m: MachineView,
    text: Seq<char>,
) -> (MachineView, VerdictView) {
    match skip_to(input, m.pos) {
        Some(p) => if starts_with(input.text, p, text) {
            (consumed(m, p, p + text.len()), VerdictView::Matched)
        } else {
            (m, VerdictView::Failed(fail_at(p, "expected "@ + quoted(text))))
        },
        None => skipper_failed(m),
    }
}

/// Runs the skipper and then `matcher`. Before the end of the input is asked
/// for, the skipper does not run.
pub open spec fn match_with(input: Source, m: MachineView, matcher: Matcher) -> (
    MachineView,
    VerdictView,
) {
    let from = if matcher is End {
        Some(m.pos)
    } else {
        skip_to(input, m.pos)
    };
    match from {
        Some(q) => match matcher_end(input.text, q, matcher) {
            Some(end) => (consumed(m, q, end), VerdictView::Matched),
            None => (m, VerdictView::Failed(fail_at(q, matcher_word(matcher)))),
        },
        None => skipper_failed(m),
    }
}

/// The outcome `r` of a step that stands behind a commit point where
/// `committed` is set: its failure raises the fatal flag.
pub open spec fn commit(
    r: (MachineView, VerdictView),
    committed: bool,
) -> (MachineView, VerdictView) {
    if committed && r.1 is Failed {
        (MachineView { ctx: ContextView { is_fatal: true, ..r.0.ctx }, ..r.0 }, r.1)
    } else {
        r
    }
}

/// The place that counts as the start of an attempt made at `m`: that of the
/// next token.
pub open spec fn attempt_start(input: Source, m: MachineView) -> Span {
    place(skipped(input, m.pos))
}

/// The machine in which the body of an attempt made at `m` runs.
pub open spec fn attempt_begin(m: MachineView) -> MachineView {
    MachineView { ctx: begun(m.ctx), ..m }
}

/// The checkpoint of an attempt made at `m`.
pub open spec fn attempt_checkpoint(input: Source, m: MachineView) -> CheckpointView {
    checkpoint_of(m.ctx, attempt_start(input, m))
}

/// The end of an attempt made at `before` whose body left the machine
/// `after` with the verdict `v`. A failure without the fatal flag is recorded
/// and rolled back: position and notes are those of `before` again.
pub open spec fn attempt_end(
    input: Source,
    before: MachineView,
    after: MachineView,
    v: VerdictView,
) -> (
    MachineView,
    TryView,
) {
    let cp = attempt_checkpoint(input, before);
    match v {
        VerdictView::Exhausted => (after, TryView::Exhausted),
        VerdictView::Matched => (
            MachineView { ctx: after_attempt(after.ctx, cp, None), ..after },
            TryView::Matched,
        ),
        VerdictView::Failed(e) => if after.ctx.is_fatal {
            (after, TryView::Failed(e))
        } else {
            (
                MachineView {
                    pos: before.pos,
                    ctx: after_attempt(after.ctx, cp, Some(e)),
                    trace: before.trace,
                },
                TryView::NoMatch,
            )
        },
    }
}

/// The verdict that the end of an attempt amounts to where a rolled-back
/// attempt is as good as a match.
pub open spec fn optional_end(r: (MachineView, TryView)) -> (MachineView, VerdictView) {
    match r.1 {
        TryView::Matched => (r.0, VerdictView::Matched),
        TryView::NoMatch => (r.0, VerdictView::Matched),
        TryView::Failed(e) => (r.0, VerdictView::Failed(e)),
        TryView::Exhausted => (r.0, VerdictView::Exhausted),
    }
}

/// The outcome of an optional step from the end of its attempt, with the
/// note whether the step has matched.
pub open spec fn optional_noted(r: (MachineView, TryView)) -> (MachineView, VerdictView) {
    match r.1 {
        TryView::Matched => (noted(r.0, Event::Present), VerdictView::Matched),
        TryView::NoMatch => (noted(r.0, Event::Absent), VerdictView::Matched),
        TryView::Failed(e) => (r.0, VerdictView::Failed(e)),
        TryView::Exhausted => (r.0, VerdictView::Exhausted),
    }
}

/// The outcome of a choice from the end of its last attempt: where no
/// alternative matched, the failure is the best error kept, which is handed
/// out and forgotten, or else `message` at the next token.
pub open spec fn choice_end(input: Source, r: (MachineView, TryView), message: Seq<char>) -> (
    MachineView,
    VerdictView,
) {
    match r.1 {
        TryView::Matched => (r.0, VerdictView::Matched),
        TryView::Failed(e) => (r.0, VerdictView::Failed(e)),
        TryView::Exhausted => (r.0, VerdictView::Exhausted),
        TryView::NoMatch => match r.0.ctx.best_error {
            Some((e, _)) => (
                MachineView { ctx: ContextView { best_error: None, ..r.0.ctx }, ..r.0 },
                VerdictView::Failed(e),
            ),
            None => (r.0, VerdictView::Failed(fail_at(skipped(input, r.0.pos), message))),
        },
    }
}

/// How much input is left at `m`.
pub open spec fn remaining(input: Source, m: MachineView) -> nat {
    if 0 <= m.pos <= input.text.len() {
        (input.text.len() - m.pos) as nat
    } else {
        0
    }
}

/// The first position from `pos` on at which the token `sync` is ahead, or
/// the end of the input where it never is.
pub open spec fn skip_until(input: Source, pos: int, sync: PeekTokenView) -> int
    decreases input.text.len() - pos,
{
    if 0 <= pos < input.text.len() && !token_ahead(input, pos, sync) {
        skip_until(input, pos + 1, sync)
    } else {
        pos
    }
}

/// The machine `m` with the note `e` added.
pub open spec fn noted(m: MachineView, e: Event) -> MachineView {
    MachineView { trace: m.trace.push(e), ..m }
}

/// Runs one step.
///
/// A commit point does nothing by itself. A step behind a commit point
/// raises the fatal flag when it fails. A literal and a primitive run the
/// skipper and consume what they match. A call of a rule runs the rule on a
/// budget one smaller, with its parameters bound to the rules handed in; a
/// call of a parameter runs the rule bound to it, and a call of a catalog entry
/// its stand-in where it has one. A choice tries its alternatives in order.
/// An optional step is attempted once, a repeated step as often as it matches
/// and consumes input; both note how they ended. A recovery region attempts its body and, when that
/// fails, skips to the synchronisation token. Lookahead runs its step and
/// puts position and context back; what a lookahead that matched has noted
/// is kept between two notes that mark it as seen ahead.
pub open spec fn run_step(
    plan: &GrammarPlan,
    input: Source,
    frame: Frame,
    s: Step,
    m: MachineView,
    fuel: nat,
) -> (
    MachineView,
    VerdictView,
)
    decreases fuel, 0nat, s, 0nat, 0nat,
{
    match s {
        Step::Cut => (m, VerdictView::Matched),
        Step::Committed(inner) => commit(run_step(plan, input, frame, *inner, m, fuel), true),
        Step::Literal { text, .. } => match_text(input, m, text@),
        Step::Call { target, args, .. } => match target {
            CallTarget::Rule { index, .. } => if index >= plan.rules@.len() {
                (m, VerdictView::Failed(fail_at(skipped(input, m.pos), "unknown rule"@)))
            } else if plan.rules@[index as int].params@.len() != args@.len() {
                (
                    m,
                    VerdictView::Failed(
                        fail_at(skipped(input, m.pos), "wrong number of arguments"@),
                    ),
                )
            } else if fuel == 0 {
                (m, VerdictView::Exhausted)
            } else {
                run_rule(
                    plan,
                    input,
                    callee_frame(plan.rules@[index as int].params@, args@, frame, args@.len()),
                    index,
                    m,
                    (fuel - 1) as nat,
                )
            },
            CallTarget::Primitive(p) => match_with(input, m, Matcher::Primitive(p)),
            CallTarget::Named(name) => match bound_rule(frame, name@, 0) {
                Some(index) => if fuel == 0 {
                    (m, VerdictView::Exhausted)
                } else {
                    run_rule(plan, input, Seq::empty(), index, m, (fuel - 1) as nat)
                },
                None => match catalog_matcher(name@) {
                    Some(matcher) => match_with(input, m, matcher),
                    None => (
                        m,
                        VerdictView::Failed(
                            fail_at(skipped(input, m.pos), "no parser named "@ + quoted(name@)),
                        ),
                    ),
                },
            },
        },
        Step::Choice { alternatives } => choice_end(
            input,
            run_alternatives(plan, input, frame, alternatives@, 0, m, fuel),
            "No matching variant in group"@,
        ),
        Step::Delimited { delimiter, open_committed, content, close_committed } => {
            let (m1, v1) = commit(match_text(input, m, open_text(delimiter)), open_committed);
            if v1 is Matched {
                let (m2, v2) = run_steps(plan, input, frame, content@, 0, m1, fuel);
                if v2 is Matched {
                    commit(match_text(input, m2, close_text(delimiter)), close_committed)
                } else {
                    (m2, v2)
                }
            } else {
                (m1, v1)
            }
        },
        Step::Optional { inner, guard } => if !guard_passes(input, m.pos, guard) {
            (noted(m, Event::Absent), VerdictView::Matched)
        } else {
            let (m1, v) = run_step(plan, input, frame, *inner, attempt_begin(m), fuel);
            optional_noted(attempt_end(input, m, m1, v))
        },
        Step::Repeat { inner, at_least_one, guard } => if at_least_one {
            let (m1, v) = run_step(plan, input, frame, *inner, noted(m, Event::Collecting), fuel);
            if v is Matched {
                run_repeat(plan, input, frame, *inner, guard, noted(m1, Event::Item), fuel)
            } else {
                (m1, v)
            }
        } else {
            run_repeat(plan, input, frame, *inner, guard, noted(m, Event::Collecting), fuel)
        },
        Step::Capture { inner, .. } => {
            let (m1, v) = run_step(plan, input, frame, *inner, m, fuel);
            if v is Matched {
                (
                    noted(m1, Event::Captured { start: offset(m.pos), end: offset(m1.pos) }),
                    VerdictView::Matched,
                )
            } else {
                (m1, v)
            }
        },
        Step::Recover { body, sync, .. } => {
            let cp = attempt_checkpoint(input, m);
            let (m1, v) = run_step(plan, input, frame, *body, attempt_begin(m), fuel);
            match v {
                VerdictView::Exhausted => (m1, v),
                VerdictView::Matched => (
                    noted(
                        MachineView { ctx: after_recover(m1.ctx, cp, None), ..m1 },
                        Event::Present,
                    ),
                    VerdictView::Matched,
                ),
                VerdictView::Failed(e) => {
                    let end = skip_until(input, m.pos, sync@);
                    (
                        MachineView {
                            pos: end,
                            ctx: after_recover(m1.ctx, cp, Some(e)),
                            trace: m.trace.push(
                                Event::Skip { start: offset(m.pos), end: offset(end) },
                            ),
                        },
                        VerdictView::Matched,
                    )
                },
            }
        },
        Step::Lookahead { inner, negated } => {
            let cp = attempt_checkpoint(input, m);
            if negated {
                let (m1, v) = run_step(plan, input, frame, *inner, attempt_begin(m), fuel);
                let back = MachineView {
                    pos: m.pos,
                    ctx: rolled_back(ContextView { is_fatal: cp.was_fatal, ..m1.ctx }, cp),
                    trace: m.trace,
                };
                match v {
                    VerdictView::Exhausted => (m1, v),
                    VerdictView::Matched => (
                        back,
                        VerdictView::Failed(
                            ParseErrorView { span: cp.start, message: "unexpected match"@ },
                        ),
                    ),
                    VerdictView::Failed(_) => (back, VerdictView::Matched),
                }
            } else {
                let (m1, v) = run_step(plan, input, frame, *inner, noted(m, Event::Peeking), fuel);
                match v {
                    VerdictView::Exhausted => (m1, v),
                    VerdictView::Matched => (
                        MachineView {
                            pos: m.pos,
                            ctx: rolled_back(m1.ctx, cp),
                            trace: m1.trace.push(Event::Peeked),
                        },
                        v,
                    ),
                    VerdictView::Failed(_) => (
                        MachineView { pos: m.pos, ctx: rolled_back(m1.ctx, cp), trace: m.trace },
                        v,
                    ),
                }
            }
        },
    }
}

/// Runs the steps of a sequence from position `i` on, one after the other,
/// and stops at the first that does not match.
pub open spec fn run_steps(
    plan: &GrammarPlan,
    input: Source,
    frame: Frame,
    steps: Seq<Step>,
    i: nat,
    m: MachineView,
    fuel: nat,
) -> (MachineView, VerdictView)
    decreases fuel, 0nat, steps, steps.len() - i, 0nat,
{
    if i >= steps.len() {
        (m, VerdictView::Matched)
    } else {
        let (m1, v) = run_step(plan, input, frame, steps[i as int], m, fuel);
        if v is Matched {
            run_steps(plan, input, frame, steps, i + 1, m1, fuel)
        } else {
            (m1, v)
        }
    }
}

/// Goes on with a repeated step as often as its guard passes, its attempt
/// matches and the match consumes input. Each round that matches is noted,
/// and at last that the step is done.
pub open spec fn run_repeat(
    plan: &GrammarPlan,
    input: Source,
    frame: Frame,
    inner: Step,
    guard: Option<PeekToken>,
    m: MachineView,
    fuel: nat,
) -> (MachineView, VerdictView)
    decreases fuel, 0nat, inner, 1 + remaining(input, m), 0nat,
{
    if !guard_passes(input, m.pos, guard) {
        (noted(m, Event::Collected), VerdictView::Matched)
    } else {
        let (m1, v) = run_step(plan, input, frame, inner, attempt_begin(m), fuel);
        let (m2, r) = attempt_end(input, m, m1, v);
        match r {
            TryView::Matched => if m.pos < m2.pos <= input.text.len() && 0 <= m.pos {
                run_repeat(plan, input, frame, inner, guard, noted(m2, Event::Item), fuel)
            } else {
                (noted(noted(m2, Event::Item), Event::Collected), VerdictView::Matched)
            },
            TryView::NoMatch => (noted(m2, Event::Collected), VerdictView::Matched),
            _ => optional_end((m2, r)),
        }
    }
}

/// Tries one alternative of a choice.
///
/// An alternative that is entered for good is run where its token is ahead,
/// and its failure is then fatal. Any other is attempted where its guard
/// passes. `NoMatch` says that the alternative was passed over or rolled back
/// and the next is due.
pub open spec fn try_alternative(
    plan: &GrammarPlan,
    input: Source,
    frame: Frame,
    a: AltPlan,
    m: MachineView,
    fuel: nat,
) -> (
    MachineView,
    TryView,
)
    decreases fuel, 0nat, a, 0nat, 0nat,
{
    match a.dispatch {
        Dispatch::Commit { token } => if token_ahead(input, m.pos, token@) {
            let (m1, v) = commit(run_steps(plan, input, frame, a.steps@, 0, m, fuel), true);
            match v {
                VerdictView::Matched => (
                    noted(m1, Event::Chose { variant: a.variant }),
                    TryView::Matched,
                ),
                VerdictView::Failed(e) => (m1, TryView::Failed(e)),
                VerdictView::Exhausted => (m1, TryView::Exhausted),
            }
        } else {
            (m, TryView::NoMatch)
        },
        Dispatch::Attempt { guard } => if !guard_passes(input, m.pos, guard) {
            (m, TryView::NoMatch)
        } else {
            let (m1, v) = run_steps(plan, input, frame, a.steps@, 0, attempt_begin(m), fuel);
            let (m2, r) = attempt_end(input, m, m1, v);
            match r {
                TryView::Matched => (
                    noted(m2, Event::Chose { variant: a.variant }),
                    TryView::Matched,
                ),
                _ => (m2, r),
            }
        },
    }
}

/// Tries the alternatives of a choice from position `i` on, in order, up to
/// the first that is not passed over or rolled back.
pub open spec fn run_alternatives(
    plan: &GrammarPlan,
    input: Source,
    frame: Frame,
    alts: Seq<AltPlan>,
    i: nat,
    m: MachineView,
    fuel: nat,
) -> (MachineView, TryView)
    decreases fuel, 0nat, alts, alts.len() - i, 0nat,
{
    if i >= alts.len() {
        (m, TryView::NoMatch)
    } else {
        let (m1, r) = try_alternative(plan, input, frame, alts[i as int], m, fuel);
        if r is NoMatch {
            run_alternatives(plan, input, frame, alts, i + 1, m1, fuel)
        } else {
            (m1, r)
        }
    }
}

/// Grows the seed of a left-recursive rule: tries the arms from position `i`
/// on, in order; the first that matches must have consumed input, and then
/// the arms are tried again from the first.
pub open spec fn run_growth(
    plan: &GrammarPlan,
    input: Source,
    frame: Frame,
    tails: Seq<TailPlan>,
    i: nat,
    m: MachineView,
    fuel: nat,
) -> (MachineView, VerdictView)
    decreases fuel, 1nat, tails, remaining(input, m), tails.len() - i,
{
    if i >= tails.len() {
        (m, VerdictView::Matched)
    } else {
        let t = tails[i as int];
        if !guard_passes(input, m.pos, t.guard) {
            run_growth(plan, input, frame, tails, i + 1, m, fuel)
        } else {
            let (m1, v) = run_steps(plan, input, frame, t.steps@, 0, attempt_begin(m), fuel);
            let (m2, r) = attempt_end(input, m, m1, v);
            match r {
                TryView::Matched => if m.pos < m2.pos <= input.text.len() && 0 <= m.pos {
                    run_growth(
                        plan,
                        input,
                        frame,
                        tails,
                        0,
                        noted(m2, Event::Grow { tail: t.variant }),
                        fuel,
                    )
                } else {
                    (
                        m2,
                        VerdictView::Failed(
                            fail_at(
                                m2.pos,
                                "Left-recursive rule matched empty string (infinite loop detected)"@,
                            ),
                        ),
                    )
                },
                TryView::NoMatch => run_growth(plan, input, frame, tails, i + 1, m2, fuel),
                _ => optional_end((m2, r)),
            }
        }
    }
}

/// The machine `m` with the rule `name` entered.
pub open spec fn entered(m: MachineView, index: usize, name: Seq<char>) -> MachineView {
    MachineView {
        ctx: ContextView { rule_stack: m.ctx.rule_stack.push(name), ..m.ctx },
        trace: m.trace.push(Event::Enter { rule: index }),
        ..m
    }
}

/// The machine `m` with the rule entered last left again.
pub open spec fn left(m: MachineView) -> MachineView {
    MachineView {
        ctx: ContextView {
            rule_stack: if m.ctx.rule_stack.len() > 0 {
                m.ctx.rule_stack.drop_last()
            } else {
                m.ctx.rule_stack
            },
            ..m.ctx
        },
        ..m
    }
}

/// Runs the body of a rule: an ordered choice, or the seed from the base
/// alternatives and then the loop that grows it.
pub open spec fn run_body(
    plan: &GrammarPlan,
    input: Source,
    frame: Frame,
    body: RuleBody,
    m: MachineView,
    fuel: nat,
) -> (
    MachineView,
    VerdictView,
)
    decreases fuel, 2nat, body, 0nat, 0nat,
{
    match body {
        RuleBody::Choice(alts) => choice_end(
            input,
            run_alternatives(plan, input, frame, alts@, 0, m, fuel),
            "No matching rule variant found"@,
        ),
        RuleBody::LeftRecursive { base, tails } => {
            let (m1, v) = choice_end(
                input,
                run_alternatives(plan, input, frame, base@, 0, m, fuel),
                "No matching rule variant found"@,
            );
            if v is Matched {
                run_growth(plan, input, frame, tails@, 0, m1, fuel)
            } else {
                (m1, v)
            }
        },
    }
}

/// Runs the rule in position `index`: enters it, runs its body, and leaves
/// it, whether or not the body matched.
pub open spec fn run_rule(
    plan: &GrammarPlan,
    input: Source,
    frame: Frame,
    index: usize,
    m: MachineView,
    fuel: nat,
) -> (
    MachineView,
    VerdictView,
)
    decreases fuel, 3nat, *plan, 0nat, 0nat,
{
    if index < plan.rules@.len() {
        let rule = plan.rules@[index as int];
        let (m1, v) = run_body(plan, input, frame, rule.body, entered(m, index, rule.name@), fuel);
        if v is Matched {
            (noted(left(m1), Event::Leave { rule: index }), v)
        } else {
            (left(m1), v)
        }
    } else {
        (m, VerdictView::Failed(fail_at(skipped(input, m.pos), "unknown rule"@)))
    }
}

/// A machine at position `pos` that has not run yet.
pub open spec fn machine_at(pos: int) -> MachineView {
    MachineView { pos, ctx: fresh_context(), trace: Seq::empty() }
}

/// The machine at the start of a parse.
pub open spec fn start_machine() -> MachineView {
    machine_at(0)
}

/// The first rule of the plan from position `i` on that is called `name`.
pub open spec fn rule_named(plan: &GrammarPlan, name: Seq<char>, i: nat) -> Option<usize>
    decreases plan.rules@.len() - i,
{
    if i >= plan.rules@.len() {
        None
    } else if plan.rules@[i as int].name@ == name {
        Some(i as usize)
    } else {
        rule_named(plan, name, i + 1)
    }
}

/// The rule that the plan has for its skipper: the first rule called `ws`,
/// where the plan says that the grammar brings one.
pub open spec fn skipper_rule(plan: &GrammarPlan) -> Option<usize> {
    if plan.has_user_ws {
        rule_named(plan, "ws"@, 0)
    } else {
        None
    }
}

/// The characters `text` with a skipper that passes over nothing.
pub open spec fn unskipped(text: Seq<char>) -> Source {
    Source { text, skips: Seq::new(text.len() + 1, |p: int| Some(p)) }
}

/// The characters `text` with the default skipper, which passes over blanks,
/// tabs, line feeds and carriage returns.
pub open spec fn default_source(text: Seq<char>) -> Source {
    Source { text, skips: Seq::new(text.len() + 1, |p: int| Some(skip_ws(text, p))) }
}

/// Where the rule `ws` of the plan, run as the skipper at `pos`, gets to:
/// the position at which it has matched. While it runs nothing is skipped,
/// and nothing but the position is kept of the run. Where the rule fails, or
/// a budget of `fuel` nested rule calls does not do, the skipper fails.
pub open spec fn user_skip(
    plan: &GrammarPlan,
    text: Seq<char>,
    ws: usize,
    pos: int,
    fuel: nat,
) -> Option<int> {
    let (m, v) = run_rule(plan, unskipped(text), Seq::empty(), ws, machine_at(pos), fuel);
    if v is Matched {
        Some(m.pos)
    } else {
        None
    }
}

/// The characters `text` as the plan has them run against: with the rule
/// `ws` for the skipper where the grammar brings one, else with the default
/// skipper.
pub open spec fn source_of(plan: &GrammarPlan, text: Seq<char>, fuel: nat) -> Source {
    match skipper_rule(plan) {
        Some(ws) => Source {
            text,
            skips: Seq::new(text.len() + 1, |p: int| user_skip(plan, text, ws, p, fuel)),
        },
        None => default_source(text),
    }
}

/// What parsing `text` with the rule in position `index` ends in: the
/// position reached together with the notes taken, or a failure. Where the
/// rule fails, the failure is the best error kept, if one is kept. The
/// skipper is that of the plan, and in the skipper as in the parse itself
/// rules are called at most `fuel` deep.
pub open spec fn parse_outcome(
    plan: &GrammarPlan,
    text: Seq<char>,
    index: usize,
    fuel: nat,
) -> Result<
    (int, Seq<Event>),
    ParseErrorView,
> {
    let input = source_of(plan, text, fuel);
    let (m, v) = run_rule(plan, input, Seq::empty(), index, start_machine(), fuel);
    match v {
        VerdictView::Matched => Ok((m.pos, m.trace)),
        VerdictView::Failed(e) => Err(
            match m.ctx.best_error {
                Some((best, _)) => best,
                None => e,
            },
        ),
        VerdictView::Exhausted => Err(fail_at(m.pos, "budget of rule calls exhausted"@)),
    }
}

/// Rule `i` is the first rule of the plan called `name`.
pub open spec fn is_first_plan_named(plan: &GrammarPlan, name: Seq<char>, i: int) -> bool {
    &&& 0 <= i < plan.rules@.len()
    &&& plan.rules@[i].name@ == name
    &&& forall|j: int| 0 <= j < i ==> (#[trigger] plan.rules@[j]).name@ != name
}

} // verus!

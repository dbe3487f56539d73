//! The machine that runs a plan against an input of characters.

use crate::engine::{
    argument_rule, attempt_begin, attempt_checkpoint, attempt_end, bound_rule, callee_frame,
    catalog_matcher, choice_end, commit, consumed, fail_at, guard_passes, is_first_plan_named,
    match_text, match_with, optional_end, parse_outcome, peek_text, remaining, run_alternatives,
    run_body, run_growth, run_repeat, run_rule, run_step, run_steps, skip_until, start_machine,
    token_ahead, try_alternative, Event, Frame, MachineView, TryView, VerdictView,
};
use crate::engine::{
    default_source, machine_at, rule_named, skip_to, skipped, source_of, unskipped, user_skip,
    Source,
};
use crate::plan::{
    AltPlan, CallTarget, Delimiter, Dispatch, GrammarPlan, Primitive, RuleBody, Step, TailPlan,
};
use crate::runtime::{Checkpoint, ParseContext, ParseError, ParseErrorView};
use crate::scan::{
    after_ws, holds_text, run_matcher, skip_ws, to_chars, CharClass, Matcher, NumberKind,
};
use crate::span::Span;
use crate::text::{push_quoted, quoted};
use crate::tokens::{PeekToken, TokenType};
use vstd::prelude::*;

verus! {

/// The state of a run. A machine is run against an input that reaches at
/// least as far as its position.
#[derive(Debug)]
pub struct Machine {
    pub pos: usize,
    pub ctx: ParseContext,
    pub trace: Vec<Event>,
}

impl View for Machine {
    type V = MachineView;

    open spec fn view(&self) -> MachineView {
        MachineView { pos: self.pos as int, ctx: self.ctx@, trace: self.trace@ }
    }
}

/// How a step ended.
#[derive(Debug)]
pub enum Verdict {
    Matched,
    Failed(ParseError),
    Exhausted,
}

impl View for Verdict {
    type V = VerdictView;

    open spec fn view(&self) -> VerdictView {
        match *self {
            Verdict::Matched => VerdictView::Matched,
            Verdict::Failed(e) => VerdictView::Failed(e@),
            Verdict::Exhausted => VerdictView::Exhausted,
        }
    }
}

/// How a speculative attempt ended.
#[derive(Debug)]
pub enum Try {
    Matched,
    NoMatch,
    Failed(ParseError),
    Exhausted,
}

impl View for Try {
    type V = TryView;

    open spec fn view(&self) -> TryView {
        match *self {
            Try::Matched => TryView::Matched,
            Try::NoMatch => TryView::NoMatch,
            Try::Failed(e) => TryView::Failed(e@),
            Try::Exhausted => TryView::Exhausted,
        }
    }
}

/// What an attempt goes back to when it is rolled back.
struct Saved {
    cp: Checkpoint,
    pos: usize,
    trace: Vec<Event>,
}

/// A plan together with the input that it is run against and the table of
/// the skipper: for each position of the input where the skipper gets to
/// from there, or nothing where it fails.
pub struct Engine<'a> {
    pub plan: &'a GrammarPlan,
    pub input: &'a Vec<char>,
    pub skips: &'a Vec<Option<usize>>,
}

/// The contents of a table of the skipper.
pub open spec fn table_view(skips: Seq<Option<usize>>) -> Seq<Option<int>> {
    Seq::new(
        skips.len(),
        |p: int|
            match skips[p] {
                Some(q) => Some(q as int),
                None => None,
            },
    )
}

fn failure(at: usize, message: &str) -> (e: ParseError)
    ensures
        e@ == fail_at(at as int, message@),
{
    ParseError::new(Span::new(at, at), message)
}

fn failure_naming(at: usize, before: &str, name: &str) -> (e: ParseError)
    ensures
        e@ == fail_at(at as int, before@ + quoted(name@)),
{
    let mut message = String::from_str(before);
    push_quoted(&mut message, name);
    ParseError { span: Span::new(at, at), message }
}

fn copy_trace(trace: &Vec<Event>) -> (c: Vec<Event>)
    ensures
        c@ == trace@,
{
    let mut c: Vec<Event> = Vec::new();
    let mut i: usize = 0;
    while i < trace.len()
        invariant
            i <= trace@.len(),
            c@.len() == i,
            forall|k: int| 0 <= k < i ==> #[trigger] c@[k] == trace@[k],
        decreases trace@.len() - i,
    {
        c.push(trace[i]);
        i += 1;
    }
    assert(c@ =~= trace@);
    c
}

fn raise_fatal(m: &mut Machine, v: Verdict, committed: bool) -> (r: Verdict)
    ensures
        (final(m)@, r@) == commit((old(m)@, v@), committed),
        final(m).pos == old(m).pos,
{
    if committed {
        if let Verdict::Failed(_) = &v {
            m.ctx.set_fatal(true);
        }
    }
    v
}

fn settle_optional(t: Try) -> (v: Verdict)
    ensures
        forall|m: MachineView| (m, v@) == #[trigger] optional_end((m, t@)),
{
    match t {
        Try::Matched => Verdict::Matched,
        Try::NoMatch => Verdict::Matched,
        Try::Failed(e) => Verdict::Failed(e),
        Try::Exhausted => Verdict::Exhausted,
    }
}

fn name_is(s: &String, wanted: &str) -> (b: bool)
    ensures
        b == (s@ == wanted@),
{
    *s == String::from_str(wanted)
}

fn stand_in(name: &String) -> (r: Option<Matcher>)
    ensures
        r == catalog_matcher(name@),
{
    if name_is(name, "u8") {
        Some(Matcher::Number(NumberKind::U8))
    } else if name_is(name, "u16") {
        Some(Matcher::Number(NumberKind::U16))
    } else if name_is(name, "u32") {
        Some(Matcher::Number(NumberKind::U32))
    } else if name_is(name, "u64") {
        Some(Matcher::Number(NumberKind::U64))
    } else if name_is(name, "u128") {
        Some(Matcher::Number(NumberKind::U128))
    } else if name_is(name, "usize") {
        Some(Matcher::Number(NumberKind::Usize))
    } else if name_is(name, "i8") {
        Some(Matcher::Number(NumberKind::I8))
    } else if name_is(name, "i16") {
        Some(Matcher::Number(NumberKind::I16))
    } else if name_is(name, "i32") {
        Some(Matcher::Number(NumberKind::I32))
    } else if name_is(name, "i64") {
        Some(Matcher::Number(NumberKind::I64))
    } else if name_is(name, "i128") {
        Some(Matcher::Number(NumberKind::I128))
    } else if name_is(name, "isize") {
        Some(Matcher::Number(NumberKind::Isize))
    } else if name_is(name, "f32") || name_is(name, "f64") || name_is(name, "float") {
        Some(Matcher::Decimal)
    } else if name_is(name, "bool") {
        Some(Matcher::Bool)
    } else if name_is(name, "any") {
        Some(Matcher::Any)
    } else if name_is(name, "empty") {
        Some(Matcher::Empty)
    } else if name_is(name, "line_ending") {
        Some(Matcher::LineEnding)
    } else if name_is(name, "eof") {
        Some(Matcher::End)
    } else if name_is(name, "alpha1") {
        Some(Matcher::Run { class: CharClass::Alpha, at_least_one: true })
    } else if name_is(name, "digit1") {
        Some(Matcher::Run { class: CharClass::Digit, at_least_one: true })
    } else if name_is(name, "hex_digit0") {
        Some(Matcher::Run { class: CharClass::Hex, at_least_one: false })
    } else if name_is(name, "hex_digit1") {
        Some(Matcher::Run { class: CharClass::Hex, at_least_one: true })
    } else if name_is(name, "oct_digit0") {
        Some(Matcher::Run { class: CharClass::Octal, at_least_one: false })
    } else if name_is(name, "oct_digit1") {
        Some(Matcher::Run { class: CharClass::Octal, at_least_one: true })
    } else if name_is(name, "binary_digit0") {
        Some(Matcher::Run { class: CharClass::Binary, at_least_one: false })
    } else if name_is(name, "binary_digit1") {
        Some(Matcher::Run { class: CharClass::Binary, at_least_one: true })
    } else if name_is(name, "space0") {
        Some(Matcher::Run { class: CharClass::Blank, at_least_one: false })
    } else if name_is(name, "space1") {
        Some(Matcher::Run { class: CharClass::Blank, at_least_one: true })
    } else if name_is(name, "multispace0") {
        Some(Matcher::Run { class: CharClass::Space, at_least_one: false })
    } else if name_is(name, "multispace1") {
        Some(Matcher::Run { class: CharClass::Space, at_least_one: true })
    } else {
        None
    }
}

/// The content of a frame.
pub open spec fn frames(frame: Seq<(String, usize)>) -> Frame {
    Seq::new(frame.len(), |i: int| (frame[i].0@, frame[i].1))
}

fn lookup(frame: &Vec<(String, usize)>, name: &String) -> (r: Option<usize>)
    ensures
        r == bound_rule(frames(frame@), name@, 0),
{
    let mut i: usize = 0;
    while i < frame.len()
        invariant
            i <= frame@.len(),
            bound_rule(frames(frame@), name@, 0) == bound_rule(frames(frame@), name@, i as nat),
        decreases frame@.len() - i,
    {
        assert(frames(frame@)[i as int] == (frame@[i as int].0@, frame@[i as int].1));
        if frame[i].0 == *name {
            return Some(frame[i].1);
        }
        i += 1;
    }
    None
}

fn handed_rule(arg: &Step, frame: &Vec<(String, usize)>) -> (r: Option<usize>)
    ensures
        r == argument_rule(*arg, frames(frame@)),
{
    match arg {
        Step::Call { target, args, .. } => {
            if args.len() == 0 {
                match target {
                    CallTarget::Rule { index, .. } => Some(*index),
                    CallTarget::Named(name) => lookup(frame, name),
                    CallTarget::Primitive(_) => None,
                }
            } else {
                None
            }
        },
        _ => None,
    }
}

impl<'a> Engine<'a> {
    /// The input as the run takes it.
    pub open spec fn source(&self) -> Source {
        Source { text: self.input@, skips: table_view(self.skips@) }
    }

    fn skip(&self, pos: usize) -> (r: Option<usize>)
        requires
            pos <= self.input@.len(),
        ensures
            match r {
                Some(q) => skip_to(self.source(), pos as int) == Some(q as int) && pos <= q
                    <= self.input@.len(),
                None => skip_to(self.source(), pos as int) is None,
            },
    {
        if pos < self.skips.len() {
            match self.skips[pos] {
                Some(q) => if pos <= q && q <= self.input.len() {
                    Some(q)
                } else {
                    None
                },
                None => None,
            }
        } else {
            Some(pos)
        }
    }

    fn stay(&self, pos: usize) -> (q: usize)
        requires
            pos <= self.input@.len(),
        ensures
            q == skipped(self.source(), pos as int),
            pos <= q <= self.input@.len(),
    {
        match self.skip(pos) {
            Some(q) => q,
            None => pos,
        }
    }

    fn bind(
        &self,
        params: &Vec<String>,
        args: &Vec<Step>,
        frame: &Vec<(String, usize)>,
    ) -> (handed: Vec<
        (String, usize),
    >)
        requires
            params@.len() == args@.len(),
        ensures
            frames(handed@) == callee_frame(params@, args@, frames(frame@), args@.len()),
    {
        let mut handed: Vec<(String, usize)> = Vec::new();
        let mut n: usize = 0;
        assert(frames(handed@) =~= callee_frame(params@, args@, frames(frame@), 0));
        while n < args.len()
            invariant
                params@.len() == args@.len(),
                n <= args@.len(),
                frames(handed@) == callee_frame(params@, args@, frames(frame@), n as nat),
            decreases args@.len() - n,
        {
            let ghost before = frames(handed@);
            match handed_rule(&args[n], frame) {
                Some(index) => {
                    handed.push((params[n].clone(), index));
                    assert(frames(handed@) =~= before.push((params@[n as int]@, index)));
                },
                None => {},
            }
            n += 1;
        }
        handed
    }

    fn text_of(token: &PeekToken) -> (s: &str)
        ensures
            s@ == peek_text(token@),
    {
        match token {
            PeekToken::Token(TokenType::Keyword(s)) => s.as_str(),
            PeekToken::Token(TokenType::Token(s)) => s.as_str(),
            PeekToken::Bracket => "[",
            PeekToken::Brace => "{",
            PeekToken::Paren => "(",
        }
    }

    fn ahead(&self, pos: usize, token: &PeekToken) -> (b: bool)
        requires
            pos <= self.input@.len(),
        ensures
            b == token_ahead(self.source(), pos as int, token@),
    {
        match self.skip(pos) {
            Some(p) => holds_text(self.input, p, Self::text_of(token)),
            None => false,
        }
    }

    fn guard_ok(&self, pos: usize, guard: &Option<PeekToken>) -> (b: bool)
        requires
            pos <= self.input@.len(),
        ensures
            b == guard_passes(self.source(), pos as int, *guard),
    {
        match guard {
            Some(t) => self.ahead(pos, t),
            None => true,
        }
    }

    fn consume(&self, m: &mut Machine, start: usize, end: usize)
        ensures
            final(m)@ == consumed(old(m)@, start as int, end as int),
            final(m).pos == end,
    {
        m.pos = end;
        m.ctx.record_span(Span::new(start, end));
        m.trace.push(Event::Token { start, end });
    }

    fn take_text(&self, m: &mut Machine, text: &str) -> (v: Verdict)
        requires
            old(m).pos <= self.input@.len(),
        ensures
            (final(m)@, v@) == match_text(self.source(), old(m)@, text@),
            final(m).pos <= self.input@.len(),
    {
        match self.skip(m.pos) {
            Some(p) => if holds_text(self.input, p, text) {
                let n = text.unicode_len();
                let len = self.input.len();
                assert(p + n <= len);
                self.consume(m, p, p + n);
                Verdict::Matched
            } else {
                Verdict::Failed(failure_naming(p, "expected ", text))
            },
            None => Verdict::Failed(failure(m.pos, "expected white space")),
        }
    }

    fn take_with(&self, m: &mut Machine, matcher: Matcher) -> (v: Verdict)
        requires
            old(m).pos <= self.input@.len(),
        ensures
            (final(m)@, v@) == match_with(self.source(), old(m)@, matcher),
            final(m).pos <= self.input@.len(),
    {
        let from = if let Matcher::End = matcher {
            Some(m.pos)
        } else {
            self.skip(m.pos)
        };
        let q = match from {
            Some(q) => q,
            None => {
                return Verdict::Failed(failure(m.pos, "expected white space"));
            },
        };
        match run_matcher(self.input, q, matcher) {
            Some(end) => {
                self.consume(m, q, end);
                Verdict::Matched
            },
            None => {
                let word = match matcher {
                    Matcher::Primitive(Primitive::Ident) => "expected identifier",
                    Matcher::Primitive(Primitive::Integer) => "expected integer",
                    Matcher::Primitive(Primitive::Uint) => "expected unsigned integer",
                    Matcher::Primitive(Primitive::String) => "expected string",
                    Matcher::Primitive(Primitive::Char) => "expected character",
                    Matcher::Run { class: CharClass::Alpha, .. } => "expected letter",
                    Matcher::Run { class: CharClass::Digit, .. } => "expected digit",
                    Matcher::Run { class: CharClass::Hex, .. } => "expected hexadecimal digit",
                    Matcher::Run { class: CharClass::Octal, .. } => "expected octal digit",
                    Matcher::Run { class: CharClass::Binary, .. } => "expected binary digit",
                    Matcher::Run { class: CharClass::Blank, .. } => "expected blank",
                    Matcher::Run { class: CharClass::Space, .. } => "expected white space",
                    Matcher::Any => "expected any character",
                    Matcher::Empty => "expected nothing",
                    Matcher::LineEnding => "expected line ending",
                    Matcher::End => "expected end of input",
                    Matcher::Number(_) => "expected number",
                    Matcher::Decimal => "expected decimal fraction",
                    Matcher::Bool => "expected `true` or `false`",
                };
                Verdict::Failed(failure(q, word))
            },
        }
    }

    fn begin(&self, m: &mut Machine) -> (saved: Saved)
        requires
            old(m).pos <= self.input@.len(),
        ensures
            final(m)@ == attempt_begin(old(m)@),
            saved.cp@ == attempt_checkpoint(self.source(), old(m)@),
            saved.pos == old(m).pos,
            saved.trace@ == old(m)@.trace,
    {
        let p = self.stay(m.pos);
        let cp = m.ctx.begin_attempt(Span::new(p, p));
        Saved { cp, pos: m.pos, trace: copy_trace(&m.trace) }
    }

    fn mark(&self, m: &mut Machine) -> (saved: Saved)
        requires
            old(m).pos <= self.input@.len(),
        ensures
            final(m)@ == old(m)@,
            final(m).pos == old(m).pos,
            saved.cp@ == attempt_checkpoint(self.source(), old(m)@),
            saved.pos == old(m).pos,
            saved.trace@ == old(m)@.trace,
    {
        let p = self.stay(m.pos);
        let cp = m.ctx.begin_peek(Span::new(p, p));
        Saved { cp, pos: m.pos, trace: copy_trace(&m.trace) }
    }

    fn finish(
        &self,
        m: &mut Machine,
        saved: Saved,
        v: Verdict,
        Ghost(before): Ghost<MachineView>,
    ) -> (t:
        Try)
        requires
            saved.cp@ == attempt_checkpoint(self.source(), before),
            saved.pos == before.pos,
            saved.trace@ == before.trace,
            old(m).pos <= self.input@.len(),
            saved.pos <= self.input@.len(),
        ensures
            (final(m)@, t@) == attempt_end(self.source(), before, old(m)@, v@),
            final(m).pos <= self.input@.len(),
    {
        match v {
            Verdict::Exhausted => Try::Exhausted,
            Verdict::Matched => {
                let r = m.ctx.finish_attempt::<()>(saved.cp, Ok(()));
                Try::Matched
            },
            Verdict::Failed(e) => {
                match m.ctx.finish_attempt::<()>(saved.cp, Err(e)) {
                    Err(e) => Try::Failed(e),
                    Ok(_) => {
                        m.pos = saved.pos;
                        m.trace = saved.trace;
                        Try::NoMatch
                    },
                }
            },
        }
    }

    fn settle_choice(&self, m: &mut Machine, t: Try, message: &str) -> (v: Verdict)
        requires
            old(m).pos <= self.input@.len(),
        ensures
            (final(m)@, v@) == choice_end(self.source(), (old(m)@, t@), message@),
            final(m).pos == old(m).pos,
    {
        match t {
            Try::Matched => Verdict::Matched,
            Try::Failed(e) => Verdict::Failed(e),
            Try::Exhausted => Verdict::Exhausted,
            Try::NoMatch => match m.ctx.take_best_error() {
                Some(e) => Verdict::Failed(e),
                None => Verdict::Failed(failure(self.stay(m.pos), message)),
            },
        }
    }

    fn seek(&self, pos: usize, sync: &PeekToken) -> (end: usize)
        requires
            pos <= self.input@.len(),
        ensures
            end == skip_until(self.source(), pos as int, sync@),
            pos <= end <= self.input@.len(),
    {
        let mut i: usize = pos;
        while i < self.input.len() && !self.ahead(i, sync)
            invariant
                pos <= i <= self.input@.len(),
                skip_until(self.source(), pos as int, sync@) == skip_until(
                    self.source(),
                    i as int,
                    sync@,
                ),
            decreases self.input@.len() - i,
        {
            i += 1;
        }
        i
    }

    /// Runs one step of the plan.
    pub fn run_step(
        &self,
        s: &Step,
        frame: &Vec<(String, usize)>,
        m: &mut Machine,
        fuel: usize,
    ) -> (v: Verdict)
        requires
            old(m).pos <= self.input@.len(),
        ensures
            (final(m)@, v@) == run_step(
                self.plan,
                self.source(),
                frames(frame@),
                *s,
                old(m)@,
                fuel as nat,
            ),
            final(m).pos <= self.input@.len(),
        decreases fuel, 0nat, s, 0nat, 0nat,
    {
        match s {
            Step::Cut => Verdict::Matched,
            Step::Committed(inner) => {
                let v = self.run_step(inner, frame, m, fuel);
                raise_fatal(m, v, true)
            },
            Step::Literal { text, .. } => self.take_text(m, text.as_str()),
            Step::Call { target, args, .. } => {
                match target {
                    CallTarget::Rule { index, .. } => {
                        if *index >= self.plan.rules.len() {
                            Verdict::Failed(failure(self.stay(m.pos), "unknown rule"))
                        } else if self.plan.rules[*index].params.len() != args.len() {
                            Verdict::Failed(
                                failure(self.stay(m.pos), "wrong number of arguments"),
                            )
                        } else if fuel == 0 {
                            Verdict::Exhausted
                        } else {
                            let handed = self.bind(&self.plan.rules[*index].params, args, frame);
                            self.run_rule(*index, &handed, m, fuel - 1)
                        }
                    },
                    CallTarget::Primitive(p) => self.take_with(m, Matcher::Primitive(*p)),
                    CallTarget::Named(name) => match lookup(frame, name) {
                        Some(index) => {
                            if fuel == 0 {
                                Verdict::Exhausted
                            } else {
                                let none: Vec<(String, usize)> = Vec::new();
                                assert(frames(none@) =~= Seq::<(Seq<char>, usize)>::empty());
                                self.run_rule(index, &none, m, fuel - 1)
                            }
                        },
                        None => match stand_in(name) {
                            Some(matcher) => self.take_with(m, matcher),
                            None => Verdict::Failed(
                                failure_naming(
                                    self.stay(m.pos),
                                    "no parser named ",
                                    name.as_str(),
                                ),
                            ),
                        },
                    },
                }
            },
            Step::Choice { alternatives } => {
                let t = self.run_alternatives(alternatives, 0, frame, m, fuel);
                self.settle_choice(m, t, "No matching variant in group")
            },
            Step::Delimited { delimiter, open_committed, content, close_committed } => {
                let (open, close) = match delimiter {
                    Delimiter::Paren => ("(", ")"),
                    Delimiter::Bracket => ("[", "]"),
                    Delimiter::Brace => ("{", "}"),
                };
                let v = self.take_text(m, open);
                let v1 = raise_fatal(m, v, *open_committed);
                if let Verdict::Matched = &v1 {
                    let v2 = self.run_steps(content, 0, frame, m, fuel);
                    if let Verdict::Matched = &v2 {
                        let v = self.take_text(m, close);
                        raise_fatal(m, v, *close_committed)
                    } else {
                        v2
                    }
                } else {
                    v1
                }
            },
            Step::Optional { inner, guard } => {
                if !self.guard_ok(m.pos, guard) {
                    m.trace.push(Event::Absent);
                    return Verdict::Matched;
                }
                let ghost before = m@;
                let saved = self.begin(m);
                let v = self.run_step(inner, frame, m, fuel);
                let t = self.finish(m, saved, v, Ghost(before));
                match t {
                    Try::Matched => {
                        m.trace.push(Event::Present);
                        Verdict::Matched
                    },
                    Try::NoMatch => {
                        m.trace.push(Event::Absent);
                        Verdict::Matched
                    },
                    Try::Failed(e) => Verdict::Failed(e),
                    Try::Exhausted => Verdict::Exhausted,
                }
            },
            Step::Repeat { inner, at_least_one, guard } => {
                m.trace.push(Event::Collecting);
                if *at_least_one {
                    let v = self.run_step(inner, frame, m, fuel);
                    if let Verdict::Matched = &v {
                        m.trace.push(Event::Item);
                        self.run_repeat(inner, guard, frame, m, fuel)
                    } else {
                        v
                    }
                } else {
                    self.run_repeat(inner, guard, frame, m, fuel)
                }
            },
            Step::Capture { inner, .. } => {
                let start = m.pos;
                let v = self.run_step(inner, frame, m, fuel);
                if let Verdict::Matched = &v {
                    m.trace.push(Event::Captured { start, end: m.pos });
                }
                v
            },
            Step::Recover { body, sync, .. } => {
                let ghost before = m@;
                let start = m.pos;
                let saved = self.begin(m);
                let v = self.run_step(body, frame, m, fuel);
                match v {
                    Verdict::Exhausted => Verdict::Exhausted,
                    Verdict::Matched => {
                        m.ctx.finish_recover::<()>(saved.cp, Ok(()));
                        m.trace.push(Event::Present);
                        Verdict::Matched
                    },
                    Verdict::Failed(e) => {
                        m.ctx.finish_recover::<()>(saved.cp, Err(e));
                        let end = self.seek(start, sync);
                        m.pos = end;
                        m.trace = saved.trace;
                        m.trace.push(Event::Skip { start, end });
                        Verdict::Matched
                    },
                }
            },
            Step::Lookahead { inner, negated } => {
                let ghost before = m@;
                if *negated {
                    let saved = self.begin(m);
                    let v = self.run_step(inner, frame, m, fuel);
                    match v {
                        Verdict::Exhausted => Verdict::Exhausted,
                        Verdict::Matched => {
                            let r = m.ctx.finish_not::<()>(saved.cp, Ok(()));
                            m.pos = saved.pos;
                            m.trace = saved.trace;
                            match r {
                                Err(e) => Verdict::Failed(e),
                                Ok(_) => Verdict::Matched,
                            }
                        },
                        Verdict::Failed(e) => {
                            let r = m.ctx.finish_not::<()>(saved.cp, Err(e));
                            m.pos = saved.pos;
                            m.trace = saved.trace;
                            Verdict::Matched
                        },
                    }
                } else {
                    let saved = self.mark(m);
                    m.trace.push(Event::Peeking);
                    let v = self.run_step(inner, frame, m, fuel);
                    match v {
                        Verdict::Exhausted => Verdict::Exhausted,
                        Verdict::Matched => {
                            m.ctx.finish_peek(saved.cp);
                            m.pos = saved.pos;
                            m.trace.push(Event::Peeked);
                            Verdict::Matched
                        },
                        Verdict::Failed(e) => {
                            m.ctx.finish_peek(saved.cp);
                            m.pos = saved.pos;
                            m.trace = saved.trace;
                            Verdict::Failed(e)
                        },
                    }
                }
            },
        }
    }

    /// Runs the steps of a sequence from position `i` on.
    pub fn run_steps(
        &self,
        steps: &Vec<Step>,
        i: usize,
        frame: &Vec<(String, usize)>,
        m: &mut Machine,
        fuel: usize,
    ) -> (v: Verdict)
        requires
            old(m).pos <= self.input@.len(),
        ensures
            (final(m)@, v@) == run_steps(
                self.plan,
                self.source(),
                frames(frame@),
                steps@,
                i as nat,
                old(m)@,
                fuel as nat,
            ),
            final(m).pos <= self.input@.len(),
        decreases fuel, 0nat, steps, steps@.len() - i, 0nat,
    {
        if i >= steps.len() {
            return Verdict::Matched;
        }
        let v = self.run_step(&steps[i], frame, m, fuel);
        if let Verdict::Matched = &v {
            self.run_steps(steps, i + 1, frame, m, fuel)
        } else {
            v
        }
    }

    fn run_repeat(
        &self,
        inner: &Step,
        guard: &Option<PeekToken>,
        frame: &Vec<(String, usize)>,
        m: &mut Machine,
        fuel: usize,
    ) -> (v: Verdict)
        requires
            old(m).pos <= self.input@.len(),
        ensures
            (final(m)@, v@) == run_repeat(
                self.plan,
                self.source(),
                frames(frame@),
                *inner,
                *guard,
                old(m)@,
                fuel as nat,
            ),
            final(m).pos <= self.input@.len(),
        decreases fuel, 0nat, inner, 1 + remaining(self.source(), old(m)@), 0nat,
    {
        if !self.guard_ok(m.pos, guard) {
            m.trace.push(Event::Collected);
            return Verdict::Matched;
        }
        let ghost before = m@;
        let start = m.pos;
        let saved = self.begin(m);
        let v = self.run_step(inner, frame, m, fuel);
        let t = self.finish(m, saved, v, Ghost(before));
        match t {
            Try::Matched => {
                m.trace.push(Event::Item);
                if start < m.pos {
                    self.run_repeat(inner, guard, frame, m, fuel)
                } else {
                    m.trace.push(Event::Collected);
                    Verdict::Matched
                }
            },
            Try::NoMatch => {
                m.trace.push(Event::Collected);
                Verdict::Matched
            },
            other => settle_optional(other),
        }
    }

    fn try_alternative(
        &self,
        a: &AltPlan,
        frame: &Vec<(String, usize)>,
        m: &mut Machine,
        fuel: usize,
    ) -> (t: Try)
        requires
            old(m).pos <= self.input@.len(),
        ensures
            (final(m)@, t@) == try_alternative(
                self.plan,
                self.source(),
                frames(frame@),
                *a,
                old(m)@,
                fuel as nat,
            ),
            final(m).pos <= self.input@.len(),
        decreases fuel, 0nat, a, 0nat, 0nat,
    {
        match &a.dispatch {
            Dispatch::Commit { token } => {
                if self.ahead(m.pos, token) {
                    let v = self.run_steps(&a.steps, 0, frame, m, fuel);
                    let v = raise_fatal(m, v, true);
                    match v {
                        Verdict::Matched => {
                            m.trace.push(Event::Chose { variant: a.variant });
                            Try::Matched
                        },
                        Verdict::Failed(e) => Try::Failed(e),
                        Verdict::Exhausted => Try::Exhausted,
                    }
                } else {
                    Try::NoMatch
                }
            },
            Dispatch::Attempt { guard } => {
                if !self.guard_ok(m.pos, guard) {
                    return Try::NoMatch;
                }
                let ghost before = m@;
                let saved = self.begin(m);
                let v = self.run_steps(&a.steps, 0, frame, m, fuel);
                let t = self.finish(m, saved, v, Ghost(before));
                match t {
                    Try::Matched => {
                        m.trace.push(Event::Chose { variant: a.variant });
                        Try::Matched
                    },
                    other => other,
                }
            },
        }
    }

    /// Tries the alternatives of a choice from position `i` on.
    pub fn run_alternatives(
        &self,
        alts: &Vec<AltPlan>,
        i: usize,
        frame: &Vec<(String, usize)>,
        m: &mut Machine,
        fuel: usize,
    ) -> (t: Try)
        requires
            old(m).pos <= self.input@.len(),
        ensures
            (final(m)@, t@) == run_alternatives(self.plan, self.source(), frames(frame@),
                alts@,
                i as nat,
                old(m)@,
                fuel as nat,
            ),
            final(m).pos <= self.input@.len(),
        decreases fuel, 0nat, alts, alts@.len() - i, 0nat,
    {
        if i >= alts.len() {
            return Try::NoMatch;
        }
        let t = self.try_alternative(&alts[i], frame, m, fuel);
        if let Try::NoMatch = &t {
            self.run_alternatives(alts, i + 1, frame, m, fuel)
        } else {
            t
        }
    }

    fn run_growth(
        &self,
        tails: &Vec<TailPlan>,
        i: usize,
        frame: &Vec<(String, usize)>,
        m: &mut Machine,
        fuel: usize,
    ) -> (v: Verdict)
        requires
            old(m).pos <= self.input@.len(),
        ensures
            (final(m)@, v@) == run_growth(
                self.plan,
                self.source(),
                frames(frame@),
                tails@,
                i as nat,
                old(m)@,
                fuel as nat,
            ),
            final(m).pos <= self.input@.len(),
        decreases fuel, 1nat, tails, remaining(self.source(), old(m)@), tails@.len() - i,
    {
        if i >= tails.len() {
            return Verdict::Matched;
        }
        let t = &tails[i];
        if !self.guard_ok(m.pos, &t.guard) {
            return self.run_growth(tails, i + 1, frame, m, fuel);
        }
        let ghost before = m@;
        let start = m.pos;
        let saved = self.begin(m);
        let v = self.run_steps(&t.steps, 0, frame, m, fuel);
        let r = self.finish(m, saved, v, Ghost(before));
        match r {
            Try::Matched => {
                if start < m.pos {
                    m.trace.push(Event::Grow { tail: t.variant });
                    self.run_growth(tails, 0, frame, m, fuel)
                } else {
                    Verdict::Failed(
                        failure(
                            m.pos,
                            "Left-recursive rule matched empty string (infinite loop detected)",
                        ),
                    )
                }
            },
            Try::NoMatch => self.run_growth(tails, i + 1, frame, m, fuel),
            other => settle_optional(other),
        }
    }

    fn run_body(
        &self,
        body: &RuleBody,
        frame: &Vec<(String, usize)>,
        m: &mut Machine,
        fuel: usize,
    ) -> (v: Verdict)
        requires
            old(m).pos <= self.input@.len(),
        ensures
            (final(m)@, v@) == run_body(
                self.plan,
                self.source(),
                frames(frame@),
                *body,
                old(m)@,
                fuel as nat,
            ),
            final(m).pos <= self.input@.len(),
        decreases fuel, 2nat, body, 0nat, 0nat,
    {
        match body {
            RuleBody::Choice(alts) => {
                let t = self.run_alternatives(alts, 0, frame, m, fuel);
                self.settle_choice(m, t, "No matching rule variant found")
            },
            RuleBody::LeftRecursive { base, tails } => {
                let t = self.run_alternatives(base, 0, frame, m, fuel);
                let v = self.settle_choice(m, t, "No matching rule variant found");
                if let Verdict::Matched = &v {
                    self.run_growth(tails, 0, frame, m, fuel)
                } else {
                    v
                }
            },
        }
    }

    /// Runs the rule in position `index` of the plan.
    pub fn run_rule(
        &self,
        index: usize,
        frame: &Vec<(String, usize)>,
        m: &mut Machine,
        fuel: usize,
    ) -> (v: Verdict)
        requires
            old(m).pos <= self.input@.len(),
        ensures
            (final(m)@, v@) == run_rule(
                self.plan,
                self.source(),
                frames(frame@),
                index,
                old(m)@,
                fuel as nat,
            ),
            final(m).pos <= self.input@.len(),
        decreases fuel, 3nat, *self.plan, 0nat, 0nat,
    {
        if index >= self.plan.rules.len() {
            return Verdict::Failed(failure(self.stay(m.pos), "unknown rule"));
        }
        let rule = &self.plan.rules[index];
        m.ctx.enter_rule(rule.name.as_str());
        m.trace.push(Event::Enter { rule: index });
        let v = self.run_body(&rule.body, frame, m, fuel);
        m.ctx.exit_rule();
        if let Verdict::Matched = &v {
            m.trace.push(Event::Leave { rule: index });
        }
        v
    }
}

/// What a parse has matched: the position behind the match, and the notes
/// that tell how the input was matched.
#[derive(Debug)]
pub struct Parsed {
    pub end: usize,
    pub events: Vec<Event>,
}

/// Finds the first rule of the plan called `name`.
pub fn find_rule_plan(plan: &GrammarPlan, name: &str) -> (r: Option<usize>)
    ensures
        r == rule_named(plan, name@, 0),
        match r {
            Some(i) => is_first_plan_named(plan, name@, i as int),
            None => forall|j: int| 0 <= j < plan.rules@.len() ==> (
                #[trigger] plan.rules@[j]
            ).name@ != name@,
        },
{
    let wanted = String::from_str(name);
    let mut i: usize = 0;
    while i < plan.rules.len()
        invariant
            i <= plan.rules@.len(),
            wanted@ == name@,
            forall|j: int| 0 <= j < i ==> (#[trigger] plan.rules@[j]).name@ != name@,
            rule_named(plan, name@, 0) == rule_named(plan, name@, i as nat),
        decreases plan.rules@.len() - i,
    {
        if plan.rules[i].name == wanted {
            return Some(i);
        }
        i += 1;
    }
    None
}

/// The table of a skipper that passes over nothing.
fn no_skips(input: &Vec<char>) -> (skips: Vec<Option<usize>>)
    ensures
        table_view(skips@) == unskipped(input@).skips,
{
    let mut skips: Vec<Option<usize>> = Vec::new();
    let mut p: usize = 0;
    while p < input.len()
        invariant
            p <= input@.len(),
            skips@.len() == p,
            forall|k: int| 0 <= k < p ==> #[trigger] skips@[k] == Some(k as usize),
        decreases input@.len() - p,
    {
        skips.push(Some(p));
        p += 1;
    }
    skips.push(Some(p));
    assert(table_view(skips@) =~= unskipped(input@).skips);
    skips
}

/// The table of the default skipper.
fn default_skips(input: &Vec<char>) -> (skips: Vec<Option<usize>>)
    ensures
        table_view(skips@) == default_source(input@).skips,
{
    let mut skips: Vec<Option<usize>> = Vec::new();
    let mut p: usize = 0;
    while p < input.len()
        invariant
            p <= input@.len(),
            skips@.len() == p,
            forall|k: int|
                0 <= k < p ==> (#[trigger] skips@[k] matches Some(q) && q as int == skip_ws(
                    input@,
                    k,
                )),
        decreases input@.len() - p,
    {
        skips.push(Some(after_ws(input, p)));
        p += 1;
    }
    skips.push(Some(after_ws(input, p)));
    assert(table_view(skips@) =~= default_source(input@).skips);
    skips
}

/// Runs the rule `ws` of the plan as the skipper at `pos`.
fn rule_skip(
    plan: &GrammarPlan,
    input: &Vec<char>,
    none: &Vec<Option<usize>>,
    ws: usize,
    pos: usize,
    fuel: usize,
) -> (r: Option<usize>)
    requires
        pos <= input@.len(),
        table_view(none@) == unskipped(input@).skips,
    ensures
        match r {
            Some(q) => user_skip(plan, input@, ws, pos as int, fuel as nat) == Some(q as int),
            None => user_skip(plan, input@, ws, pos as int, fuel as nat) is None,
        },
{
    let engine = Engine { plan, input, skips: none };
    assert(engine.source() == unskipped(input@));
    let frame: Vec<(String, usize)> = Vec::new();
    assert(frames(frame@) =~= Seq::<(Seq<char>, usize)>::empty());
    let mut m = Machine { pos, ctx: ParseContext::new(), trace: Vec::new() };
    assert(m@.trace =~= Seq::<Event>::empty());
    assert(m@ == machine_at(pos as int));
    match engine.run_rule(ws, &frame, &mut m, fuel) {
        Verdict::Matched => Some(m.pos),
        _ => None,
    }
}

/// The table of the skipper that runs the rule `ws` of the plan.
fn rule_skips(plan: &GrammarPlan, input: &Vec<char>, ws: usize, fuel: usize) -> (skips: Vec<
    Option<usize>,
>)
    ensures
        skips@.len() == input@.len() + 1,
        forall|p: int|
            0 <= p <= input@.len() ==> (#[trigger] table_view(skips@)[p]) == user_skip(
                plan,
                input@,
                ws,
                p,
                fuel as nat,
            ),
{
    let none = no_skips(input);
    let mut skips: Vec<Option<usize>> = Vec::new();
    let mut p: usize = 0;
    while p < input.len()
        invariant
            p <= input@.len(),
            skips@.len() == p,
            table_view(none@) == unskipped(input@).skips,
            forall|k: int|
                0 <= k < p ==> (#[trigger] table_view(skips@)[k]) == user_skip(
                    plan,
                    input@,
                    ws,
                    k,
                    fuel as nat,
                ),
        decreases input@.len() - p,
    {
        let ghost before = table_view(skips@);
        skips.push(rule_skip(plan, input, &none, ws, p, fuel));
        assert forall|k: int| 0 <= k < p + 1 implies (#[trigger] table_view(skips@)[k])
            == user_skip(plan, input@, ws, k, fuel as nat) by {
            if k < p {
                assert(table_view(skips@)[k] == before[k]);
            }
        }
        p += 1;
    }
    let ghost before = table_view(skips@);
    skips.push(rule_skip(plan, input, &none, ws, p, fuel));
    assert forall|k: int| 0 <= k <= p implies (#[trigger] table_view(skips@)[k]) == user_skip(
        plan,
        input@,
        ws,
        k,
        fuel as nat,
    ) by {
        if k < p {
            assert(table_view(skips@)[k] == before[k]);
        }
    }
    skips
}

/// Works out what the skipper of the plan does at each position of `input`:
/// the rule `ws` where the grammar brings one, run on a budget of `fuel`
/// nested rule calls, else the default skipper.
pub fn skip_table(plan: &GrammarPlan, input: &Vec<char>, fuel: usize) -> (skips: Vec<
    Option<usize>,
>)
    ensures
        table_view(skips@) == source_of(plan, input@, fuel as nat).skips,
{
    let ws = if plan.has_user_ws {
        find_rule_plan(plan, "ws")
    } else {
        None
    };
    match ws {
        Some(ws) => {
            let skips = rule_skips(plan, input, ws, fuel);
            assert(table_view(skips@) =~= source_of(plan, input@, fuel as nat).skips);
            skips
        },
        None => default_skips(input),
    }
}

/// Parses `input` with the rule in position `index` of the plan, calling
/// rules at most `fuel` deep. The skipper is that of the plan: the rule `ws`
/// where the grammar brings one, else the default skipper.
pub fn parse_rule(plan: &GrammarPlan, index: usize, input: &str, fuel: usize) -> (r: Result<
    Parsed,
    ParseError,
>)
    ensures
        match r {
            Ok(parsed) => parse_outcome(plan, input@, index, fuel as nat) == Ok::<
                (int, Seq<Event>),
                ParseErrorView,
            >((parsed.end as int, parsed.events@)),
            Err(e) => parse_outcome(plan, input@, index, fuel as nat) == Err::<
                (int, Seq<Event>),
                ParseErrorView,
            >(e@),
        },
{
    let chars = to_chars(input);
    let skips = skip_table(plan, &chars, fuel);
    let engine = Engine { plan, input: &chars, skips: &skips };
    assert(engine.source() == source_of(plan, input@, fuel as nat));
    let mut m = Machine { pos: 0, ctx: ParseContext::new(), trace: Vec::new() };
    assert(m@.trace =~= Seq::<Event>::empty());
    assert(m@ == start_machine());
    let frame: Vec<(String, usize)> = Vec::new();
    assert(frames(frame@) =~= Seq::<(Seq<char>, usize)>::empty());
    match engine.run_rule(index, &frame, &mut m, fuel) {
        Verdict::Matched => Ok(Parsed { end: m.pos, events: m.trace }),
        Verdict::Failed(e) => match m.ctx.take_best_error() {
            Some(best) => Err(best),
            None => Err(e),
        },
        Verdict::Exhausted => Err(failure(m.pos, "budget of rule calls exhausted")),
    }
}

/// Parses `input` with the first rule of the plan called `rule`.
///
/// Returns what [`parse_rule`] returns for that rule, and a failure at the
/// start of the input where the plan has no rule of that name.
pub fn parse(
    plan: &GrammarPlan,
    rule: &str,
    input: &str,
    fuel: usize,
) -> (r: Result<Parsed, ParseError>)
    ensures
        match r {
            Ok(parsed) => exists|i: usize|
                is_first_plan_named(plan, rule@, i as int) && #[trigger] parse_outcome(
                    plan,
                    input@,
                    i,
                    fuel as nat,
                ) == Ok::<(int, Seq<Event>), ParseErrorView>((parsed.end as int, parsed.events@)),
            Err(e) => (exists|i: usize|
                is_first_plan_named(plan, rule@, i as int) && #[trigger] parse_outcome(
                    plan,
                    input@,
                    i,
                    fuel as nat,
                ) == Err::<(int, Seq<Event>), ParseErrorView>(e@)) || ((forall|j: int|
                0 <= j < plan.rules@.len() ==> (#[trigger] plan.rules@[j]).name@ != rule@) && e@
                == fail_at(0, "no rule named "@ + quoted(rule@))),
        },
{
    match find_rule_plan(plan, rule) {
        Some(index) => {
            let r = parse_rule(plan, index, input, fuel);
            r
        },
        None => Err(failure_naming(0, "no rule named ", rule)),
    }
}

} // verus!

//! The context that the parsers made from a plan share while they run:
//! speculative attempts with rollback, the best error met so far, the stack of
//! rules being parsed, and the symbol table.

use crate::error::texts;
use crate::scopes::{defined_in, scope_sets, with_definition, without_innermost, ScopeStack};
use crate::span::Span;
use crate::text::{push_quoted, quoted};
use vstd::prelude::*;

verus! {

/// A failure to parse: what was expected, and where.
#[derive(Debug)]
pub struct ParseError {
    pub span: Span,
    pub message: String,
}

/// The mathematical content of a [`ParseError`].
pub struct ParseErrorView {
    pub span: Span,
    pub message: Seq<char>,
}

impl View for ParseError {
    type V = ParseErrorView;

    open spec fn view(&self) -> ParseErrorView {
        ParseErrorView { span: self.span, message: self.message@ }
    }
}

impl ParseError {
    pub fn new(span: Span, message: &str) -> (e: ParseError)
        ensures
            e@ == (ParseErrorView { span, message: message@ }),
    {
        ParseError { span, message: String::from_str(message) }
    }
}

impl Clone for ParseError {
    fn clone(&self) -> (c: ParseError)
        ensures
            c@ == self@,
    {
        ParseError { span: self.span, message: self.message.clone() }
    }
}

/// An error kept as the best so far, with whether it was met after some
/// progress into the input.
#[derive(Debug)]
pub struct ErrorState {
    pub err: ParseError,
    pub is_deep: bool,
}

/// The state that parsing carries along.
#[derive(Debug)]
pub struct ParseContext {
    pub is_fatal: bool,
    pub best_error: Option<ErrorState>,
    pub scopes: ScopeStack,
    pub rule_stack: Vec<String>,
    pub last_span: Option<Span>,
}

/// The mathematical content of a [`ParseContext`].
pub struct ContextView {
    pub is_fatal: bool,
    pub best_error: Option<(ParseErrorView, bool)>,
    pub scopes: Seq<Set<Seq<char>>>,
    pub rule_stack: Seq<Seq<char>>,
    pub last_span: Option<Span>,
}

impl View for ParseContext {
    type V = ContextView;

    open spec fn view(&self) -> ContextView {
        ContextView {
            is_fatal: self.is_fatal,
            best_error: match self.best_error {
                Some(state) => Some((state.err@, state.is_deep)),
                None => None,
            },
            scopes: self.scopes@,
            rule_stack: texts(self.rule_stack@),
            last_span: self.last_span,
        }
    }
}

/// What a speculative run is rolled back to.
#[derive(Debug)]
pub struct Checkpoint {
    pub was_fatal: bool,
    pub scopes: ScopeStack,
    pub rule_stack: Vec<String>,
    pub last_span: Option<Span>,
    pub start: Span,
}

/// The mathematical content of a [`Checkpoint`].
pub struct CheckpointView {
    pub was_fatal: bool,
    pub scopes: Seq<Set<Seq<char>>>,
    pub rule_stack: Seq<Seq<char>>,
    pub last_span: Option<Span>,
    pub start: Span,
}

impl View for Checkpoint {
    type V = CheckpointView;

    open spec fn view(&self) -> CheckpointView {
        CheckpointView {
            was_fatal: self.was_fatal,
            scopes: self.scopes@,
            rule_stack: texts(self.rule_stack@),
            last_span: self.last_span,
            start: self.start,
        }
    }
}

/// The context of a parse that has not begun: not fatal, no error, one empty
/// scope, no rule entered, no token seen.
pub open spec fn fresh_context() -> ContextView {
    ContextView {
        is_fatal: false,
        best_error: None,
        scopes: seq![Set::<Seq<char>>::empty()],
        rule_stack: Seq::empty(),
        last_span: None,
    }
}

/// `err` with the innermost rule of `stack` named in front of its message.
pub open spec fn in_rule(err: ParseErrorView, stack: Seq<Seq<char>>) -> ParseErrorView {
    if stack.len() > 0 {
        ParseErrorView {
            span: err.span,
            message: "Error in rule "@ + quoted(stack[stack.len() - 1]) + ": "@ + err.message,
        }
    } else {
        err
    }
}

/// The best error after `err` has been met: the first error met is kept
/// until one comes that was met after progress while the kept one was not.
pub open spec fn improved(
    best: Option<(ParseErrorView, bool)>,
    err: ParseErrorView,
    is_deep: bool,
) -> Option<
    (ParseErrorView, bool),
> {
    match best {
        None => Some((err, is_deep)),
        Some((_, kept_deep)) => if is_deep && !kept_deep {
            Some((err, is_deep))
        } else {
            best
        },
    }
}

/// An error counts as met after progress when it does not point at the place
/// where the attempt began.
pub open spec fn made_progress(err: ParseErrorView, start: Span) -> bool {
    err.span.start != start.start
}

/// The context `c` after the error `err` of an attempt begun at `start` has
/// been recorded.
pub open spec fn recorded(c: ContextView, err: ParseErrorView, start: Span) -> ContextView {
    ContextView {
        best_error: improved(c.best_error, in_rule(err, c.rule_stack), made_progress(err, start)),
        ..c
    }
}

/// The context `c` rolled back to the checkpoint `cp`: scopes, rule stack and
/// last token are those of the checkpoint. The best error is never rolled back.
pub open spec fn rolled_back(c: ContextView, cp: CheckpointView) -> ContextView {
    ContextView { scopes: cp.scopes, rule_stack: cp.rule_stack, last_span: cp.last_span, ..c }
}

/// The context in which the body of an attempt runs.
pub open spec fn begun(c: ContextView) -> ContextView {
    ContextView { is_fatal: false, ..c }
}

/// The checkpoint taken of `c` for an attempt that begins at `start`.
pub open spec fn checkpoint_of(c: ContextView, start: Span) -> CheckpointView {
    CheckpointView {
        was_fatal: c.is_fatal,
        scopes: c.scopes,
        rule_stack: c.rule_stack,
        last_span: c.last_span,
        start,
    }
}

/// The context after an attempt whose body left the context `c` and ended
/// in `failure`, or succeeded where `failure` is `None`.
///
/// On success the context is kept as the body left it, with the fatal flag
/// as before the attempt. A failure with the fatal flag raised is handed on as
/// it is, flag included. Any other failure is recorded and the context
/// rolled back.
pub open spec fn after_attempt(
    c: ContextView,
    cp: CheckpointView,
    failure: Option<ParseErrorView>,
) -> ContextView {
    match failure {
        None => ContextView { is_fatal: cp.was_fatal, ..c },
        Some(err) => if c.is_fatal {
            c
        } else {
            rolled_back(recorded(ContextView { is_fatal: cp.was_fatal, ..c }, err, cp.start), cp)
        },
    }
}

/// The context after the attempt of a recovery region: as after any attempt,
/// but that the fatal flag is always as before and a failure always recorded
/// and rolled back.
pub open spec fn after_recover(
    c: ContextView,
    cp: CheckpointView,
    failure: Option<ParseErrorView>,
) -> ContextView {
    match failure {
        None => ContextView { is_fatal: cp.was_fatal, ..c },
        Some(err) => rolled_back(
            recorded(ContextView { is_fatal: cp.was_fatal, ..c }, err, cp.start),
            cp,
        ),
    }
}

/// The failure of a result, if it is one.
pub open spec fn failure_of<T>(res: Result<T, ParseError>) -> Option<ParseErrorView> {
    match res {
        Ok(_) => None,
        Err(e) => Some(e@),
    }
}

fn copy_stack(names: &Vec<String>) -> (c: Vec<String>)
    ensures
        texts(c@) == texts(names@),
{
    let mut c: Vec<String> = Vec::new();
    let mut i: usize = 0;
    while i < names.len()
        invariant
            i <= names@.len(),
            c@.len() == i,
            forall|k: int| 0 <= k < i ==> (#[trigger] c@[k])@ == names@[k]@,
        decreases names@.len() - i,
    {
        c.push(names[i].clone());
        i += 1;
    }
    assert(texts(c@) =~= texts(names@));
    c
}

impl ParseContext {
    /// The context for a new parse.
    pub fn new() -> (c: ParseContext)
        ensures
            c@ == fresh_context(),
    {
        let c = ParseContext {
            is_fatal: false,
            best_error: None,
            scopes: ScopeStack::new(),
            rule_stack: Vec::new(),
            last_span: None,
        };
        assert(texts(c.rule_stack@) =~= Seq::<Seq<char>>::empty());
        c
    }

    pub fn set_fatal(&mut self, fatal: bool)
        ensures
            final(self)@ == (ContextView { is_fatal: fatal, ..old(self)@ }),
    {
        self.is_fatal = fatal;
    }

    pub fn check_fatal(&self) -> (b: bool)
        ensures
            b == self@.is_fatal,
    {
        self.is_fatal
    }

    /// Notes that the rule `name` is being parsed from here on.
    pub fn enter_rule(&mut self, name: &str)
        ensures
            final(self)@ == (
                ContextView { rule_stack: old(self)@.rule_stack.push(name@), ..old(self)@ }
            ),
    {
        self.rule_stack.push(String::from_str(name));
        assert(texts(self.rule_stack@) =~= texts(old(self).rule_stack@).push(name@));
    }

    /// Notes that the rule entered last is done with.
    pub fn exit_rule(&mut self)
        ensures
            final(self)@ == (ContextView {
                rule_stack: if old(self)@.rule_stack.len() > 0 {
                    old(self)@.rule_stack.drop_last()
                } else {
                    old(self)@.rule_stack
                },
                ..old(self)@
            }),
    {
        if self.rule_stack.len() > 0 {
            self.rule_stack.pop();
            assert(texts(self.rule_stack@) =~= texts(old(self).rule_stack@).drop_last());
        }
    }

    /// Records the error of an attempt that began at `start_span`, with the
    /// innermost rule named in its message, unless a better one is kept.
    pub fn record_error(&mut self, err: ParseError, start_span: Span)
        ensures
            final(self)@ == recorded(old(self)@, err@, start_span),
    {
        let is_deep = err.span.start != start_span.start;
        let n = self.rule_stack.len();
        let err = if n > 0 {
            let mut msg = String::from_str("Error in rule ");
            push_quoted(&mut msg, self.rule_stack[n - 1].as_str());
            msg.append(": ");
            msg.append(err.message.as_str());
            assert(texts(self.rule_stack@)[n - 1] == self.rule_stack@[n - 1]@);
            ParseError { span: err.span, message: msg }
        } else {
            err
        };
        let replace = match &self.best_error {
            None => true,
            Some(existing) => is_deep && !existing.is_deep,
        };
        if replace {
            self.best_error = Some(ErrorState { err, is_deep });
        }
    }

    /// Hands out the best error kept and forgets it.
    pub fn take_best_error(&mut self) -> (e: Option<ParseError>)
        ensures
            final(self)@ == (ContextView { best_error: None, ..old(self)@ }),
            match e {
                Some(err) => old(self)@.best_error matches Some((kept, _)) && kept == err@,
                None => old(self)@.best_error is None,
            },
    {
        match self.best_error.take() {
            Some(state) => Some(state.err),
            None => None,
        }
    }

    /// Notes the span of the token consumed last.
    pub fn record_span(&mut self, span: Span)
        ensures
            final(self)@ == (ContextView { last_span: Some(span), ..old(self)@ }),
    {
        self.last_span = Some(span);
    }

    /// Tells whether something separates the token consumed last from the
    /// token at `next_span`. At the start of the input the answer is yes.
    pub fn check_whitespace(&self, next_span: Span) -> (b: bool)
        ensures
            b == match self@.last_span {
                Some(last) => last.end != next_span.start,
                None => true,
            },
    {
        match self.last_span {
            Some(last) => last.end != next_span.start,
            None => true,
        }
    }

    pub fn enter_scope(&mut self)
        ensures
            final(self)@ == (ContextView {
                scopes: old(self)@.scopes.push(Set::<Seq<char>>::empty()),
                ..old(self)@
            }),
    {
        self.scopes.enter_scope();
    }

    pub fn exit_scope(&mut self)
        ensures
            final(self)@ == (
                ContextView { scopes: without_innermost(old(self)@.scopes), ..old(self)@ }
            ),
    {
        self.scopes.exit_scope();
    }

    pub fn define(&mut self, name: &str)
        ensures
            final(self)@ == (ContextView {
                scopes: with_definition(old(self)@.scopes, name@),
                ..old(self)@
            }),
    {
        self.scopes.define(name);
    }

    pub fn is_defined(&self, name: &str) -> (b: bool)
        ensures
            b == defined_in(self@.scopes, name@),
    {
        self.scopes.is_defined(name)
    }

    /// The scopes, outermost first, each as the list of its names.
    pub fn scopes(&self) -> (s: &Vec<Vec<String>>)
        ensures
            scope_sets(s@) == self@.scopes,
    {
        self.scopes.scopes()
    }

    /// The rules being parsed, outermost first.
    pub fn rule_stack(&self) -> (s: &Vec<String>)
        ensures
            texts(s@) == self@.rule_stack,
    {
        &self.rule_stack
    }

    fn checkpoint(&self, start: Span) -> (cp: Checkpoint)
        ensures
            cp@ == checkpoint_of(self@, start),
    {
        Checkpoint {
            was_fatal: self.is_fatal,
            scopes: self.scopes.clone(),
            rule_stack: copy_stack(&self.rule_stack),
            last_span: self.last_span,
            start,
        }
    }

    fn restore(&mut self, cp: Checkpoint)
        ensures
            final(self)@ == rolled_back(old(self)@, cp@),
    {
        self.scopes = cp.scopes;
        self.rule_stack = cp.rule_stack;
        self.last_span = cp.last_span;
    }

    /// Begins a speculative attempt at `start`: takes a checkpoint and lowers
    /// the fatal flag for the body.
    pub fn begin_attempt(&mut self, start: Span) -> (cp: Checkpoint)
        ensures
            cp@ == checkpoint_of(old(self)@, start),
            final(self)@ == begun(old(self)@),
    {
        let cp = self.checkpoint(start);
        self.is_fatal = false;
        cp
    }

    /// Ends a speculative attempt whose body ended in `res`.
    ///
    /// Success is handed on as `Some`. A failure with the fatal flag raised
    /// is handed on as the failure it is. Any other failure is recorded and
    /// rolled back, and `None` says that there was no match.
    pub fn finish_attempt<T>(&mut self, cp: Checkpoint, res: Result<T, ParseError>) -> (r: Result<
        Option<T>,
        ParseError,
    >)
        ensures
            final(self)@ == after_attempt(old(self)@, cp@, failure_of(res)),
            match res {
                Ok(v) => r == Ok::<Option<T>, ParseError>(Some(v)),
                Err(e) => if old(self)@.is_fatal {
                    r == Err::<Option<T>, ParseError>(e)
                } else {
                    r == Ok::<Option<T>, ParseError>(None)
                },
            },
    {
        match res {
            Ok(v) => {
                self.is_fatal = cp.was_fatal;
                Ok(Some(v))
            },
            Err(e) => {
                if self.is_fatal {
                    Err(e)
                } else {
                    self.is_fatal = cp.was_fatal;
                    self.record_error(e, cp.start);
                    self.restore(cp);
                    Ok(None)
                }
            },
        }
    }

    /// Ends the attempt of a recovery region whose body ended in `res`: a
    /// failure is never fatal here, but always recorded and rolled back.
    pub fn finish_recover<T>(
        &mut self,
        cp: Checkpoint,
        res: Result<T, ParseError>,
    ) -> (r: Option<T>)
        ensures
            final(self)@ == after_recover(old(self)@, cp@, failure_of(res)),
            match res {
                Ok(v) => r == Some(v),
                Err(_) => r is None,
            },
    {
        self.is_fatal = cp.was_fatal;
        match res {
            Ok(v) => Some(v),
            Err(e) => {
                self.record_error(e, cp.start);
                self.restore(cp);
                None
            },
        }
    }

    /// Begins a lookahead at `start`: takes a checkpoint and leaves the
    /// context as it is.
    pub fn begin_peek(&mut self, start: Span) -> (cp: Checkpoint)
        ensures
            cp@ == checkpoint_of(old(self)@, start),
            final(self)@ == old(self)@,
    {
        self.checkpoint(start)
    }

    /// Ends a lookahead: whatever the body did to scopes, rule stack and last
    /// token is undone, whether it matched or not.
    pub fn finish_peek(&mut self, cp: Checkpoint)
        ensures
            final(self)@ == rolled_back(old(self)@, cp@),
    {
        self.restore(cp);
    }

    /// Ends a negative lookahead whose body ended in `res`: the context is
    /// rolled back and the fatal flag is as before; a match of the body is a
    /// failure at the place where the lookahead began, and its failure a success.
    pub fn finish_not<T>(&mut self, cp: Checkpoint, res: Result<T, ParseError>) -> (r: Result<
        (),
        ParseError,
    >)
        ensures
            final(self)@ == rolled_back(
                ContextView { is_fatal: cp@.was_fatal, ..old(self)@ },
                cp@,
            ),
            match res {
                Ok(_) => r matches Err(e) && e@ == (ParseErrorView {
                    span: cp@.start,
                    message: "unexpected match"@,
                }),
                Err(_) => r is Ok,
            },
    {
        self.is_fatal = cp.was_fatal;
        let start = cp.start;
        self.restore(cp);
        match res {
            Ok(_) => Err(ParseError::new(start, "unexpected match")),
            Err(_) => Ok(()),
        }
    }
}

impl Default for ParseContext {
    fn default() -> (c: ParseContext)
        ensures
            c@ == fresh_context(),
    {
        ParseContext::new()
    }
}

/// The empty span at the input position `position`.
pub open spec fn point(position: usize) -> Span {
    Span { start: position, end: position }
}

/// Runs `parser` as a speculative attempt at `position`.
///
/// The parser gets the position and the context, and hands back the context
/// together with its value and the position it reached, or with its failure.
/// Where it succeeds its value is handed on as `Some` and the position
/// advances. Where it fails with the fatal flag raised its failure is handed
/// on. Any other failure is recorded and rolled back, the position stays, and
/// `None` says that there was no match.
pub fn attempt<T, F>(position: &mut usize, ctx: &mut ParseContext, parser: F) -> (r: Result<
    Option<T>,
    ParseError,
>) where F: FnOnce(usize, ParseContext) -> (ParseContext, Result<(T, usize), ParseError>)
    requires
        forall|c: ParseContext| c@ == begun(old(ctx)@) ==> call_requires(
            parser,
            (*old(position), c),
        ),
    ensures
        exists|c0: ParseContext, c1: ParseContext, res: Result<(T, usize), ParseError>|
            {
                &&& c0@ == begun(old(ctx)@)
                &&& #[trigger] call_ensures(parser, (*old(position), c0), (c1, res))
                &&& final(ctx)@ == after_attempt(
                    c1@,
                    checkpoint_of(old(ctx)@, point(*old(position))),
                    failure_of(res),
                )
                &&& match res {
                    Ok((v, reached)) => r == Ok::<Option<T>, ParseError>(
                        Some(v),
                    ) && *final(position)
                        == reached,
                    Err(e) => *final(position) == *old(position) && if c1@.is_fatal {
                        r == Err::<Option<T>, ParseError>(e)
                    } else {
                        r == Ok::<Option<T>, ParseError>(None)
                    },
                }
            },
{
    let at = *position;
    let cp = ctx.begin_attempt(Span::new(at, at));
    let mut owned = ParseContext::new();
    core::mem::swap(ctx, &mut owned);
    let ghost c0 = owned;
    let (after, res) = parser(at, owned);
    let ghost c1 = after;
    *ctx = after;
    match res {
        Ok((v, reached)) => {
            *position = reached;
            let r = ctx.finish_attempt(cp, Ok(v));
            assert(
                call_ensures(parser, (at, c0), (c1, Ok::<(T, usize), ParseError>((v, reached))))
            );
            r
        },
        Err(e) => {
            let ghost shown = e;
            let r = ctx.finish_attempt::<T>(cp, Err(e));
            assert(call_ensures(parser, (at, c0), (c1, Err::<(T, usize), ParseError>(shown))));
            r
        },
    }
}

/// Runs `parser` as the attempt of a recovery region at `position`: as
/// [`attempt`] does, but that no failure is fatal.
pub fn attempt_recover<T, F>(position: &mut usize, ctx: &mut ParseContext, parser: F) -> (r: Option<
    T,
>) where F: FnOnce(usize, ParseContext) -> (ParseContext, Result<(T, usize), ParseError>)
    requires
        forall|c: ParseContext| c@ == begun(old(ctx)@) ==> call_requires(
            parser,
            (*old(position), c),
        ),
    ensures
        exists|c0: ParseContext, c1: ParseContext, res: Result<(T, usize), ParseError>|
            {
                &&& c0@ == begun(old(ctx)@)
                &&& #[trigger] call_ensures(parser, (*old(position), c0), (c1, res))
                &&& final(ctx)@ == after_recover(
                    c1@,
                    checkpoint_of(old(ctx)@, point(*old(position))),
                    failure_of(res),
                )
                &&& match res {
                    Ok((v, reached)) => r == Some(v) && *final(position) == reached,
                    Err(_) => *final(position) == *old(position) && r is None,
                }
            },
{
    let at = *position;
    let cp = ctx.begin_attempt(Span::new(at, at));
    let mut owned = ParseContext::new();
    core::mem::swap(ctx, &mut owned);
    let ghost c0 = owned;
    let (after, res) = parser(at, owned);
    let ghost c1 = after;
    *ctx = after;
    match res {
        Ok((v, reached)) => {
            *position = reached;
            let r = ctx.finish_recover(cp, Ok(v));
            assert(
                call_ensures(parser, (at, c0), (c1, Ok::<(T, usize), ParseError>((v, reached))))
            );
            r
        },
        Err(e) => {
            let ghost shown = e;
            let r = ctx.finish_recover::<T>(cp, Err(e));
            assert(call_ensures(parser, (at, c0), (c1, Err::<(T, usize), ParseError>(shown))));
            r
        },
    }
}

/// Runs `parser` at `position` without consuming input: its result is handed
/// on as it is, and whatever it did to scopes, rule stack and last token is undone.
pub fn peek<T, F>(position: usize, ctx: &mut ParseContext, parser: F) -> (r: Result<
    T,
    ParseError,
>) where F: FnOnce(usize, ParseContext) -> (ParseContext, Result<(T, usize), ParseError>)
    requires
        forall|c: ParseContext| c@ == old(ctx)@ ==> call_requires(parser, (position, c)),
    ensures
        exists|c0: ParseContext, c1: ParseContext, res: Result<(T, usize), ParseError>|
            {
                &&& c0@ == old(ctx)@
                &&& #[trigger] call_ensures(parser, (position, c0), (c1, res))
                &&& final(ctx)@ == rolled_back(c1@, checkpoint_of(old(ctx)@, point(position)))
                &&& match res {
                    Ok((v, _)) => r == Ok::<T, ParseError>(v),
                    Err(e) => r == Err::<T, ParseError>(e),
                }
            },
{
    let cp = ctx.begin_peek(Span::new(position, position));
    let mut owned = ParseContext::new();
    core::mem::swap(ctx, &mut owned);
    let ghost c0 = owned;
    let (after, res) = parser(position, owned);
    let ghost c1 = after;
    *ctx = after;
    ctx.finish_peek(cp);
    assert(call_ensures(parser, (position, c0), (c1, res)));
    match res {
        Ok((v, _)) => Ok(v),
        Err(e) => Err(e),
    }
}

/// Runs `parser` at `position` without consuming input and turns its
/// outcome around: a match is a failure that says so, a failure a success. The
/// context is rolled back and its fatal flag is as before.
pub fn not_check<T, F>(position: usize, ctx: &mut ParseContext, parser: F) -> (r: Result<
    (),
    ParseError,
>) where F: FnOnce(usize, ParseContext) -> (ParseContext, Result<(T, usize), ParseError>)
    requires
        forall|c: ParseContext| c@ == begun(old(ctx)@) ==> call_requires(parser, (position, c)),
    ensures
        exists|c0: ParseContext, c1: ParseContext, res: Result<(T, usize), ParseError>|
            {
                &&& c0@ == begun(old(ctx)@)
                &&& #[trigger] call_ensures(parser, (position, c0), (c1, res))
                &&& final(ctx)@ == rolled_back(
                    ContextView { is_fatal: old(ctx)@.is_fatal, ..c1@ },
                    checkpoint_of(old(ctx)@, point(position)),
                )
                &&& match res {
                    Ok(_) => r matches Err(e) && e@ == (ParseErrorView {
                        span: point(position),
                        message: "unexpected match"@,
                    }),
                    Err(_) => r is Ok,
                }
            },
{
    let cp = ctx.begin_attempt(Span::new(position, position));
    let mut owned = ParseContext::new();
    core::mem::swap(ctx, &mut owned);
    let ghost c0 = owned;
    let (after, res) = parser(position, owned);
    let ghost c1 = after;
    *ctx = after;
    assert(call_ensures(parser, (position, c0), (c1, res)));
    ctx.finish_not(cp, res)
}

/// An error met after progress, once kept, is never replaced.
pub proof fn lemma_deep_error_is_kept(kept: ParseErrorView, err: ParseErrorView, is_deep: bool)
    ensures
        improved(Some((kept, true)), err, is_deep) == Some((kept, true)),
{
}

/// Of two failures, one at the place where its attempt began and one after
/// progress, the one after progress is reported, in whichever order the two
/// are met, unless an error met after progress was kept before.
pub proof fn lemma_deeper_failure_wins(
    best: Option<(ParseErrorView, bool)>,
    shallow: ParseErrorView,
    deep: ParseErrorView,
)
    requires
        best matches Some((_, kept_deep)) ==> !kept_deep,
    ensures
        improved(improved(best, shallow, false), deep, true) == Some((deep, true)),
        improved(improved(best, deep, true), shallow, false) == Some((deep, true)),
{
}

/// Recording never loses the best error: there is one afterwards, and where
/// the one kept before was met after progress it is still the one.
pub proof fn lemma_record_is_monotonic(c: ContextView, err: ParseErrorView, start: Span)
    ensures
        recorded(c, err, start).best_error is Some,
        c.best_error matches Some((_, true)) ==> recorded(c, err, start).best_error == c.best_error,
        recorded(c, err, start).is_fatal == c.is_fatal,
        recorded(c, err, start).scopes == c.scopes,
        recorded(c, err, start).rule_stack == c.rule_stack,
        recorded(c, err, start).last_span == c.last_span,
{
}

/// An attempt that fails without the fatal flag leaves scopes, rule stack,
/// last token and fatal flag as they were when it began, whatever its body did
/// to them, and keeps a best error.
pub proof fn lemma_failed_attempt_rolls_back(
    before: ContextView,
    left: ContextView,
    err: ParseErrorView,
    start: Span,
)
    requires
        !left.is_fatal,
    ensures
        ({
            let after = after_attempt(left, checkpoint_of(before, start), Some(err));
            &&& after.scopes == before.scopes
            &&& after.rule_stack == before.rule_stack
            &&& after.last_span == before.last_span
            &&& after.is_fatal == before.is_fatal
            &&& after.best_error is Some
            &&& left.best_error matches Some((_, true)) ==> after.best_error == left.best_error
        }),
{
}

/// An attempt that fails with the fatal flag raised hands the context on as
/// its body left it: nothing is rolled back and the flag stays raised.
pub proof fn lemma_fatal_failure_is_handed_on(
    before: ContextView,
    left: ContextView,
    err: ParseErrorView,
    start: Span,
)
    requires
        left.is_fatal,
    ensures
        after_attempt(left, checkpoint_of(before, start), Some(err)) == left,
{
}

/// The attempt of a recovery region leaves the fatal flag as it was, however
/// its body ended.
pub proof fn lemma_recover_keeps_fatal_flag(
    before: ContextView,
    left: ContextView,
    failure: Option<ParseErrorView>,
    start: Span,
)
    ensures
        after_recover(left, checkpoint_of(before, start), failure).is_fatal == before.is_fatal,
{
}

} // verus!

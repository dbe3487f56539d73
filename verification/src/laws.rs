//! What holds of every run of every plan.

use crate::engine::{
    attempt_begin, attempt_end, attempt_start, choice_end, commit, consumed, fail_at,
    guard_passes, machine_at, match_text, match_with, noted, offset, open_text, remaining,
    rule_named, run_alternatives, run_growth, run_repeat, run_rule, run_step, run_steps, skip_to,
    skip_until, skipped, skipper_failed, source_of, token_ahead, try_alternative, unskipped,
    Event, Frame, MachineView, Source, TryView, VerdictView,
};
use crate::analysis::{dispatch_key, lemma_unique_means_no_sibling_shares};
use crate::model::{ModelPattern, RuleVariant};
use crate::plan::{
    alt_realizes, alternatives_realize, cut_between, delimited_realizes, enters_committed,
    step_realizes, steps_realize, variant_sequences, AltPlan, Dispatch, Env, GrammarPlan, Step,
    TailPlan,
};
use crate::runtime::{improved, in_rule, made_progress, ParseErrorView};
use crate::scan::{lemma_skip_ws_bounds, skip_ws, starts_with, Matcher};
use crate::tokens::{PeekToken, PeekTokenView};
use vstd::prelude::*;

verus! {

/// The machine at which alternative `k` of a choice is tried, where the
/// choice began with alternative `i` at `m` and every alternative before `k`
/// handed on to the next.
pub open spec fn reached(
    plan: &GrammarPlan,
    input: Source,
    frame: Frame,
    alts: Seq<AltPlan>,
    i: nat,
    k: nat,
    m: MachineView,
    fuel: nat,
) -> MachineView
    decreases k - i,
{
    if k <= i || i >= alts.len() {
        m
    } else {
        reached(
            plan,
            input,
            frame,
            alts,
            i + 1,
            k,
            try_alternative(plan, input, frame, alts[i as int], m, fuel).0,
            fuel,
        )
    }
}

/// Every alternative from `i` up to, not including, `k` was passed over or
/// rolled back.
pub open spec fn passed_over(
    plan: &GrammarPlan,
    input: Source,
    frame: Frame,
    alts: Seq<AltPlan>,
    i: nat,
    k: nat,
    m: MachineView,
    fuel: nat,
) -> bool {
    forall|j: nat|
        i <= j < k ==> (#[trigger] try_alternative(
            plan,
            input,
            frame,
            alts[j as int],
            reached(plan, input, frame, alts, i, j, m, fuel),
            fuel,
        )).1 is NoMatch
}

proof fn lemma_passed_over_shifts(
    plan: &GrammarPlan,
    input: Source,
    frame: Frame,
    alts: Seq<AltPlan>,
    i: nat,
    k: nat,
    m: MachineView,
    fuel: nat,
)
    requires
        i < k <= alts.len(),
        passed_over(plan, input, frame, alts, i, k, m, fuel),
    ensures
        try_alternative(plan, input, frame, alts[i as int], m, fuel).1 is NoMatch,
        passed_over(
            plan,
            input,
            frame,
            alts,
            i + 1,
            k,
            try_alternative(plan, input, frame, alts[i as int], m, fuel).0,
            fuel,
        ),
{
    let m1 = try_alternative(plan, input, frame, alts[i as int], m, fuel).0;
    assert(reached(plan, input, frame, alts, i, i, m, fuel) == m);
    assert(
        try_alternative(
            plan,
            input,
            frame,
            alts[i as int],
            reached(plan, input, frame, alts, i, i, m, fuel),
            fuel,
        ).1 is NoMatch
    );
    assert forall|j: nat| i + 1 <= j < k implies (#[trigger] try_alternative(
        plan,
        input,
        frame,
        alts[j as int],
        reached(plan, input, frame, alts, i + 1, j, m1, fuel),
        fuel,
    )).1 is NoMatch by {
        assert(
            reached(plan, input, frame, alts, i, j, m, fuel) == reached(
                plan,
                input,
                frame,
                alts,
                i + 1,
                j,
                m1,
                fuel,
            )
        );
        assert(try_alternative(
            plan,
            input,
            frame,
            alts[j as int],
            reached(plan, input, frame, alts, i, j, m, fuel),
            fuel,
        ).1 is NoMatch);
    }
}

/// An ordered choice ends with the first alternative that does not hand on to
/// the next: where every alternative before `k` was passed over or rolled
/// back and alternative `k` matches, fails for good or runs out of budget, the
/// outcome of the choice is that of alternative `k`, whatever the
/// alternatives behind it would do.
pub proof fn lemma_first_decisive_alternative_wins(
    plan: &GrammarPlan,
    input: Source,
    frame: Frame,
    alts: Seq<AltPlan>,
    i: nat,
    k: nat,
    m: MachineView,
    fuel: nat,
)
    requires
        i <= k < alts.len(),
        passed_over(plan, input, frame, alts, i, k, m, fuel),
        !(try_alternative(
            plan,
            input,
            frame,
            alts[k as int],
            reached(plan, input, frame, alts, i, k, m, fuel),
            fuel,
        ).1 is NoMatch),
    ensures
        run_alternatives(plan, input, frame, alts, i, m, fuel) == try_alternative(
            plan,
            input,
            frame,
            alts[k as int],
            reached(plan, input, frame, alts, i, k, m, fuel),
            fuel,
        ),
    decreases k - i,
{
    if i < k {
        lemma_passed_over_shifts(plan, input, frame, alts, i, k, m, fuel);
        let m1 = try_alternative(plan, input, frame, alts[i as int], m, fuel).0;
        lemma_first_decisive_alternative_wins(plan, input, frame, alts, i + 1, k, m1, fuel);
    }
}

/// The alternative that an ordered choice matches with is the first that
/// matches: every alternative before it was passed over or rolled back. The
/// position of that alternative is returned, and the last note of the run is
/// that the alternative was chosen.
pub proof fn lemma_chosen_alternative_is_the_first_to_match(
    plan: &GrammarPlan,
    input: Source,
    frame: Frame,
    alts: Seq<AltPlan>,
    i: nat,
    m: MachineView,
    fuel: nat,
) -> (k: nat)
    requires
        run_alternatives(plan, input, frame, alts, i, m, fuel).1 is Matched,
    ensures
        i <= k < alts.len(),
        passed_over(plan, input, frame, alts, i, k, m, fuel),
        run_alternatives(plan, input, frame, alts, i, m, fuel) == try_alternative(
            plan,
            input,
            frame,
            alts[k as int],
            reached(plan, input, frame, alts, i, k, m, fuel),
            fuel,
        ),
        run_alternatives(plan, input, frame, alts, i, m, fuel).0.trace.len() > 0,
        run_alternatives(plan, input, frame, alts, i, m, fuel).0.trace.last() == (Event::Chose {
            variant: alts[k as int].variant,
        }),
    decreases alts.len() - i,
{
    let (m1, r) = try_alternative(plan, input, frame, alts[i as int], m, fuel);
    if r is NoMatch {
        let k = lemma_chosen_alternative_is_the_first_to_match(
            plan,
            input,
            frame,
            alts,
            i + 1,
            m1,
            fuel,
        );
        assert forall|j: nat| i <= j < k implies (#[trigger] try_alternative(
            plan,
            input,
            frame,
            alts[j as int],
            reached(plan, input, frame, alts, i, j, m, fuel),
            fuel,
        )).1 is NoMatch by {
            if j == i {
                assert(reached(plan, input, frame, alts, i, i, m, fuel) == m);
            } else {
                assert(reached(plan, input, frame, alts, i, j, m, fuel) == reached(
                    plan,
                    input,
                    frame,
                    alts,
                    i + 1,
                    j,
                    m1,
                    fuel,
                ));
                assert(try_alternative(
                    plan,
                    input,
                    frame,
                    alts[j as int],
                    reached(plan, input, frame, alts, i + 1, j, m1, fuel),
                    fuel,
                ).1 is NoMatch);
            }
        }
        assert(
            reached(plan, input, frame, alts, i, k, m, fuel) == reached(
                plan,
                input,
                frame,
                alts,
                i + 1,
                k,
                m1,
                fuel,
            )
        );
        k
    } else {
        assert(reached(plan, input, frame, alts, i, i, m, fuel) == m);
        i
    }
}

/// An alternative that is entered for good on its first token does not fall
/// through: where the token is ahead and the steps of the alternative fail,
/// the choice fails with that failure and the fatal flag raised, and no
/// alternative behind it is tried.
pub proof fn lemma_committed_alternative_does_not_fall_through(
    plan: &GrammarPlan,
    input: Source,
    frame: Frame,
    alts: Seq<AltPlan>,
    i: nat,
    m: MachineView,
    fuel: nat,
    message: Seq<char>,
)
    requires
        i < alts.len(),
        alts[i as int].dispatch matches Dispatch::Commit { token } && token_ahead(
            input,
            m.pos,
            token@,
        ),
        run_steps(plan, input, frame, alts[i as int].steps@, 0, m, fuel).1 is Failed,
    ensures
        run_alternatives(plan, input, frame, alts, i, m, fuel).1 == TryView::Failed(
            run_steps(plan, input, frame, alts[i as int].steps@, 0, m, fuel).1->Failed_0,
        ),
        run_alternatives(plan, input, frame, alts, i, m, fuel).0.ctx.is_fatal,
        choice_end(input, run_alternatives(plan, input, frame, alts, i, m, fuel), message).1
            == run_steps(plan, input, frame, alts[i as int].steps@, 0, m, fuel).1,
{
    let a = alts[i as int];
    let ran = run_steps(plan, input, frame, a.steps@, 0, m, fuel);
    let tried = try_alternative(plan, input, frame, a, m, fuel);
    assert(tried == (commit(ran, true).0, TryView::Failed(ran.1->Failed_0)));
    assert(run_alternatives(plan, input, frame, alts, i, m, fuel) == tried);
}

/// A step that stands behind a commit point raises the fatal flag when it fails.
pub proof fn lemma_failure_behind_commit_point_is_fatal(
    plan: &GrammarPlan,
    input: Source,
    frame: Frame,
    inner: Step,
    m: MachineView,
    fuel: nat,
)
    ensures
        ({
            let r = run_step(plan, input, frame, Step::Committed(Box::new(inner)), m, fuel);
            r.1 is Failed ==> r.0.ctx.is_fatal
        }),
{
}

/// A failure of the step `s` is always for good: the step is a commit point,
/// which never fails, a committed step, or a delimited region whose
/// delimiters are committed and in which the failure of every step is for good.
pub open spec fn fails_for_good(s: Step) -> bool
    decreases s,
{
    match s {
        Step::Cut => true,
        Step::Committed(_) => true,
        Step::Delimited { open_committed, content, close_committed, .. } => open_committed
            && close_committed && forall|i: int|
            0 <= i < content@.len() ==> fails_for_good(#[trigger] content@[i]),
        _ => false,
    }
}

/// A step whose failure is for good raises the fatal flag when it fails.
pub proof fn lemma_failure_for_good_is_fatal(
    plan: &GrammarPlan,
    input: Source,
    frame: Frame,
    s: Step,
    m: MachineView,
    fuel: nat,
)
    requires
        fails_for_good(s),
    ensures
        run_step(plan, input, frame, s, m, fuel).1 is Failed ==> run_step(
            plan,
            input,
            frame,
            s,
            m,
            fuel,
        ).0.ctx.is_fatal,
    decreases s, 0nat,
{
    match s {
        Step::Delimited { delimiter, open_committed, content, close_committed } => {
            let (m1, v1) = commit(match_text(input, m, open_text(delimiter)), open_committed);
            if v1 is Matched {
                lemma_failure_in_committed_steps_is_fatal(plan, input, frame, content@, 0, m1, fuel);
            }
        },
        _ => {},
    }
}

/// Where the failure of every step of a sequence from some position on is
/// for good, a failure of the sequence from there on raises the fatal flag.
pub proof fn lemma_failure_in_committed_steps_is_fatal(
    plan: &GrammarPlan,
    input: Source,
    frame: Frame,
    steps: Seq<Step>,
    i: nat,
    m: MachineView,
    fuel: nat,
)
    requires
        forall|k: int| i <= k < steps.len() ==> fails_for_good(#[trigger] steps[k]),
    ensures
        run_steps(plan, input, frame, steps, i, m, fuel).1 is Failed ==> run_steps(
            plan,
            input,
            frame,
            steps,
            i,
            m,
            fuel,
        ).0.ctx.is_fatal,
    decreases steps, steps.len() - i,
{
    if i < steps.len() {
        let (m1, v) = run_step(plan, input, frame, steps[i as int], m, fuel);
        assert(fails_for_good(steps[i as int]));
        lemma_failure_for_good_is_fatal(plan, input, frame, steps[i as int], m, fuel);
        if v is Matched {
            lemma_failure_in_committed_steps_is_fatal(plan, input, frame, steps, i + 1, m1, fuel);
        }
    }
}

/// In a plan, the failure of whatever is planned behind a commit point is
/// for good, delimited regions and further commit points included.
pub proof fn lemma_planned_behind_a_commit_point_fails_for_good(
    s: Step,
    p: ModelPattern,
    env: Env,
    forced: Option<Seq<char>>,
)
    requires
        step_realizes(s, p, true, env, forced),
    ensures
        fails_for_good(s),
    decreases p,
{
    match p {
        ModelPattern::Bracketed(inner, _) => lemma_planned_region_fails_for_good(s, p, inner@, env),
        ModelPattern::Braced(inner, _) => lemma_planned_region_fails_for_good(s, p, inner@, env),
        ModelPattern::Parenthesized(inner, _) => lemma_planned_region_fails_for_good(
            s,
            p,
            inner@,
            env,
        ),
        _ => {},
    }
}

proof fn lemma_planned_region_fails_for_good(
    s: Step,
    p: ModelPattern,
    inner: Seq<ModelPattern>,
    env: Env,
)
    requires
        delimited_realizes(s, p, inner, true, env),
    ensures
        fails_for_good(s),
    decreases inner,
{
    let content = s->Delimited_content@;
    assert forall|i: int| 0 <= i < content.len() implies fails_for_good(#[trigger] content[i]) by {
        assert(step_realizes(content[i - 0], inner[i], true || cut_between(inner, 0, i), env, None));
        lemma_planned_behind_a_commit_point_fails_for_good(content[i], inner[i], env, None);
    }
}

/// Behind a commit point, failure is not backtracked: where the steps are
/// the plan for a sequence that holds a commit point, a failure of the steps
/// from any position behind that point on raises the fatal flag.
pub proof fn lemma_failure_behind_a_cut_is_fatal(
    plan: &GrammarPlan,
    input: Source,
    frame: Frame,
    steps: Seq<Step>,
    ps: Seq<ModelPattern>,
    env: Env,
    c: int,
    i: nat,
    m: MachineView,
    fuel: nat,
)
    requires
        steps_realize(steps, ps, 0, false, env),
        0 <= c < ps.len(),
        ps[c] is Cut,
        c < i <= steps.len(),
    ensures
        run_steps(plan, input, frame, steps, i, m, fuel).1 is Failed ==> run_steps(
            plan,
            input,
            frame,
            steps,
            i,
            m,
            fuel,
        ).0.ctx.is_fatal,
{
    assert forall|k: int| i <= k < steps.len() implies fails_for_good(#[trigger] steps[k]) by {
        assert(cut_between(ps, 0, k));
        assert(step_realizes(steps[k - 0], ps[k], false || cut_between(ps, 0, k), env, None));
        lemma_planned_behind_a_commit_point_fails_for_good(steps[k], ps[k], env, None);
    }
    lemma_failure_in_committed_steps_is_fatal(plan, input, frame, steps, i, m, fuel);
}

/// A run of steps that has matched up to position `k` goes on from there:
/// the outcome of the whole sequence is that of its steps from `k` on, run
/// on the machine that the steps before `k` left.
pub proof fn lemma_run_goes_on_behind_a_match(
    plan: &GrammarPlan,
    input: Source,
    frame: Frame,
    steps: Seq<Step>,
    i: nat,
    k: nat,
    m: MachineView,
    fuel: nat,
)
    requires
        i <= k <= steps.len(),
        run_steps(plan, input, frame, steps.take(k as int), i, m, fuel).1 is Matched,
    ensures
        run_steps(plan, input, frame, steps, i, m, fuel) == run_steps(
            plan,
            input,
            frame,
            steps,
            k,
            run_steps(plan, input, frame, steps.take(k as int), i, m, fuel).0,
            fuel,
        ),
    decreases k - i,
{
    let head = steps.take(k as int);
    if i < k {
        assert(head[i as int] == steps[i as int]);
        let (m1, v) = run_step(plan, input, frame, steps[i as int], m, fuel);
        assert(run_steps(plan, input, frame, head, i, m, fuel) == (if v is Matched {
            run_steps(plan, input, frame, head, i + 1, m1, fuel)
        } else {
            (m1, v)
        }));
        lemma_run_goes_on_behind_a_match(plan, input, frame, steps, i + 1, k, m1, fuel);
    } else {
        assert(run_steps(plan, input, frame, head, i, m, fuel) == (m, VerdictView::Matched));
    }
}

/// An alternative with a commit point does not fall through behind it: where
/// the steps up to and including the commit point have matched and the
/// alternative fails all the same, the choice fails with that failure and no
/// alternative behind it is tried.
pub proof fn lemma_cut_alternative_does_not_fall_through(
    plan: &GrammarPlan,
    input: Source,
    frame: Frame,
    alts: Seq<AltPlan>,
    a: nat,
    ps: Seq<ModelPattern>,
    env: Env,
    c: int,
    m: MachineView,
    fuel: nat,
)
    requires
        a < alts.len(),
        alts[a as int].dispatch matches Dispatch::Attempt { guard } && guard_passes(
            input,
            m.pos,
            guard,
        ),
        steps_realize(alts[a as int].steps@, ps, 0, false, env),
        0 <= c < ps.len(),
        ps[c] is Cut,
        run_steps(
            plan,
            input,
            frame,
            alts[a as int].steps@.take(c + 1),
            0,
            attempt_begin(m),
            fuel,
        ).1 is Matched,
        run_steps(plan, input, frame, alts[a as int].steps@, 0, attempt_begin(m), fuel).1 is Failed,
    ensures
        run_alternatives(plan, input, frame, alts, a, m, fuel).1 == TryView::Failed(
            run_steps(
                plan,
                input,
                frame,
                alts[a as int].steps@,
                0,
                attempt_begin(m),
                fuel,
            ).1->Failed_0,
        ),
        run_alternatives(plan, input, frame, alts, a, m, fuel).0.ctx.is_fatal,
{
    let steps = alts[a as int].steps@;
    let reached = run_steps(plan, input, frame, steps.take(c + 1), 0, attempt_begin(m), fuel).0;
    lemma_run_goes_on_behind_a_match(plan, input, frame, steps, 0, (c + 1) as nat, attempt_begin(m), fuel);
    lemma_failure_behind_a_cut_is_fatal(
        plan,
        input,
        frame,
        steps,
        ps,
        env,
        c,
        (c + 1) as nat,
        reached,
        fuel,
    );
    lemma_fatal_failure_ends_the_choice(plan, input, frame, alts, a, m, fuel);
}

/// A failure with the fatal flag raised ends an ordered choice: where the
/// attempt of alternative `i` fails for good, no alternative behind it is
/// tried, and the choice fails with that failure.
pub proof fn lemma_fatal_failure_ends_the_choice(
    plan: &GrammarPlan,
    input: Source,
    frame: Frame,
    alts: Seq<AltPlan>,
    i: nat,
    m: MachineView,
    fuel: nat,
)
    requires
        i < alts.len(),
        alts[i as int].dispatch matches Dispatch::Attempt { guard } && guard_passes(
            input,
            m.pos,
            guard,
        ),
        run_steps(plan, input, frame, alts[i as int].steps@, 0, attempt_begin(m), fuel).1 is Failed,
        run_steps(
            plan,
            input,
            frame,
            alts[i as int].steps@,
            0,
            attempt_begin(m),
            fuel,
        ).0.ctx.is_fatal,
    ensures
        run_alternatives(plan, input, frame, alts, i, m, fuel).1 == TryView::Failed(
            run_steps(
                plan,
                input,
                frame,
                alts[i as int].steps@,
                0,
                attempt_begin(m),
                fuel,
            ).1->Failed_0,
        ),
        run_alternatives(plan, input, frame, alts, i, m, fuel).0 == run_steps(
            plan,
            input,
            frame,
            alts[i as int].steps@,
            0,
            attempt_begin(m),
            fuel,
        ).0,
{
    let a = alts[i as int];
    let ran = run_steps(plan, input, frame, a.steps@, 0, attempt_begin(m), fuel);
    let ended = attempt_end(input, m, ran.0, ran.1);
    assert(ended == (ran.0, TryView::Failed(ran.1->Failed_0)));
    let tried = try_alternative(plan, input, frame, a, m, fuel);
    assert(tried == ended);
    assert(run_alternatives(plan, input, frame, alts, i, m, fuel) == tried);
}

/// Skipping to a token stops at the first position at which the token is
/// ahead, or at the end of the input, and never behind either.
pub proof fn lemma_skip_until_stops_at_first(input: Source, pos: int, sync: PeekTokenView)
    requires
        0 <= pos <= input.text.len(),
    ensures
        pos <= skip_until(input, pos, sync) <= input.text.len(),
        skip_until(input, pos, sync) == input.text.len() || token_ahead(
            input,
            skip_until(input, pos, sync),
            sync,
        ),
        forall|p: int| pos <= p < skip_until(input, pos, sync) ==> !token_ahead(input, p, sync),
    decreases input.text.len() - pos,
{
    if pos < input.text.len() && !token_ahead(input, pos, sync) {
        lemma_skip_until_stops_at_first(input, pos + 1, sync);
    }
}

/// A recovery region whose body fails matches all the same: it skips the
/// input up to, not past, the first place at which the synchronisation token
/// is ahead, notes what it skipped and nothing of what the body did, and
/// leaves the token itself for the step that follows. The fatal flag is as it
/// was, however the body failed.
pub proof fn lemma_recovery_skips_to_the_anchor(
    plan: &GrammarPlan,
    input: Source,
    frame: Frame,
    s: Step,
    m: MachineView,
    fuel: nat,
)
    requires
        0 <= m.pos <= input.text.len(),
        s matches Step::Recover { body, .. } && run_step(
            plan,
            input,
            frame,
            *body,
            attempt_begin(m),
            fuel,
        ).1 is Failed,
    ensures
        ({
            let (after, v) = run_step(plan, input, frame, s, m, fuel);
            let sync = s->Recover_sync@;
            &&& v is Matched
            &&& m.pos <= after.pos <= input.text.len()
            &&& after.pos == input.text.len() || token_ahead(input, after.pos, sync)
            &&& forall|p: int| m.pos <= p < after.pos ==> !token_ahead(input, p, sync)
            &&& after.trace == m.trace.push(
                Event::Skip { start: offset(m.pos), end: offset(after.pos) },
            )
            &&& after.ctx.is_fatal == m.ctx.is_fatal
            &&& after.ctx.scopes == m.ctx.scopes
            &&& after.ctx.rule_stack == m.ctx.rule_stack
        }),
{
    lemma_skip_until_stops_at_first(input, m.pos, s->Recover_sync@);
}

/// One-or-more fails on zero matches: where the step does not match at the
/// start, the repetition ends as the step did.
pub proof fn lemma_plus_needs_a_first_match(
    plan: &GrammarPlan,
    input: Source,
    frame: Frame,
    s: Step,
    m: MachineView,
    fuel: nat,
)
    requires
        s matches Step::Repeat { inner, at_least_one, .. } && at_least_one && !(run_step(
            plan,
            input,
            frame,
            *inner,
            noted(m, Event::Collecting),
            fuel,
        ).1 is Matched),
    ensures
        run_step(plan, input, frame, s, m, fuel) == run_step(
            plan,
            input,
            frame,
            *s->Repeat_inner,
            noted(m, Event::Collecting),
            fuel,
        ),
{
}

/// Zero-or-more matches on zero matches: where the guard does not pass, or
/// the first attempt of the step is rolled back, the repetition matches
/// without consuming input, and notes no round between its beginning and its end.
pub proof fn lemma_repeat_accepts_no_match(
    plan: &GrammarPlan,
    input: Source,
    frame: Frame,
    s: Step,
    m: MachineView,
    fuel: nat,
)
    requires
        s matches Step::Repeat { inner, at_least_one, guard } && !at_least_one && ({
            let begun = noted(m, Event::Collecting);
            !guard_passes(input, m.pos, guard) || attempt_end(
                input,
                begun,
                run_step(plan, input, frame, *inner, attempt_begin(begun), fuel).0,
                run_step(plan, input, frame, *inner, attempt_begin(begun), fuel).1,
            ).1 is NoMatch
        }),
    ensures
        run_step(plan, input, frame, s, m, fuel).1 is Matched,
        run_step(plan, input, frame, s, m, fuel).0.pos == m.pos,
        run_step(plan, input, frame, s, m, fuel).0.trace == m.trace.push(Event::Collecting).push(
            Event::Collected,
        ),
{
    let inner = *s->Repeat_inner;
    let guard = s->Repeat_guard;
    let begun = noted(m, Event::Collecting);
    assert(run_step(plan, input, frame, s, m, fuel) == run_repeat(
        plan,
        input,
        frame,
        inner,
        guard,
        begun,
        fuel,
    ));
    if guard_passes(input, begun.pos, guard) {
        let ran = run_step(plan, input, frame, inner, attempt_begin(begun), fuel);
        let ended = attempt_end(input, begun, ran.0, ran.1);
        assert(ended.1 is NoMatch);
        assert(ended.0.pos == begun.pos && ended.0.trace == begun.trace);
        assert(run_repeat(plan, input, frame, inner, guard, begun, fuel) == (
            noted(ended.0, Event::Collected),
            VerdictView::Matched,
        ));
    } else {
        assert(run_repeat(plan, input, frame, inner, guard, begun, fuel) == (
            noted(begun, Event::Collected),
            VerdictView::Matched,
        ));
    }
}

/// One-or-more on exactly one match: where the step matches once and its
/// next attempt is rolled back, the repetition matches, has consumed what the
/// one match consumed, and notes one round.
pub proof fn lemma_plus_accepts_a_single_match(
    plan: &GrammarPlan,
    input: Source,
    frame: Frame,
    s: Step,
    m: MachineView,
    fuel: nat,
)
    requires
        s matches Step::Repeat { inner, at_least_one, guard } && at_least_one && run_step(
            plan,
            input,
            frame,
            *inner,
            noted(m, Event::Collecting),
            fuel,
        ).1 is Matched && ({
            let once = noted(
                run_step(plan, input, frame, *inner, noted(m, Event::Collecting), fuel).0,
                Event::Item,
            );
            !guard_passes(input, once.pos, guard) || attempt_end(
                input,
                once,
                run_step(plan, input, frame, *inner, attempt_begin(once), fuel).0,
                run_step(plan, input, frame, *inner, attempt_begin(once), fuel).1,
            ).1 is NoMatch
        }),
    ensures
        ({
            let first = run_step(
                plan,
                input,
                frame,
                *s->Repeat_inner,
                noted(m, Event::Collecting),
                fuel,
            ).0;
            let all = run_step(plan, input, frame, s, m, fuel);
            &&& all.1 is Matched
            &&& all.0.pos == first.pos
            &&& all.0.trace == first.trace.push(Event::Item).push(Event::Collected)
        }),
{
    let inner = *s->Repeat_inner;
    let guard = s->Repeat_guard;
    let once = noted(
        run_step(plan, input, frame, inner, noted(m, Event::Collecting), fuel).0,
        Event::Item,
    );
    assert(run_step(plan, input, frame, s, m, fuel) == run_repeat(
        plan,
        input,
        frame,
        inner,
        guard,
        once,
        fuel,
    ));
    if guard_passes(input, once.pos, guard) {
        let ran = run_step(plan, input, frame, inner, attempt_begin(once), fuel);
        let ended = attempt_end(input, once, ran.0, ran.1);
        assert(ended.1 is NoMatch);
        assert(ended.0.pos == once.pos && ended.0.trace == once.trace);
        assert(run_repeat(plan, input, frame, inner, guard, once, fuel) == (
            noted(ended.0, Event::Collected),
            VerdictView::Matched,
        ));
    } else {
        assert(run_repeat(plan, input, frame, inner, guard, once, fuel) == (
            noted(once, Event::Collected),
            VerdictView::Matched,
        ));
    }
}

/// The choice between the alternatives of a rule notes the declared position
/// of the alternative that it matched with, and that alternative is the first
/// in the order of declaration that matched.
pub proof fn lemma_rule_choice_follows_declaration_order(
    plan: &GrammarPlan,
    input: Source,
    frame: Frame,
    alts: Seq<AltPlan>,
    declared: Seq<RuleVariant>,
    env: Env,
    m: MachineView,
    fuel: nat,
) -> (k: nat)
    requires
        alternatives_realize(alts, declared, env),
        run_alternatives(plan, input, frame, alts, 0, m, fuel).1 is Matched,
    ensures
        k < declared.len(),
        passed_over(plan, input, frame, alts, 0, k, m, fuel),
        run_alternatives(plan, input, frame, alts, 0, m, fuel).0.trace.len() > 0,
        run_alternatives(plan, input, frame, alts, 0, m, fuel).0.trace.last() == (Event::Chose {
            variant: k as usize,
        }),
{
    let k = lemma_chosen_alternative_is_the_first_to_match(plan, input, frame, alts, 0, m, fuel);
    assert(alt_realizes(alts[k as int], variant_sequences(declared), k as int, k as int, env));
    k
}

/// Left recursion grows the seed from the left: where an arm of the loop
/// matches and has consumed input, the growth is noted behind everything
/// matched so far, and the loop goes on from its first arm with what came of it.
pub proof fn lemma_growth_goes_on_from_the_first_arm(
    plan: &GrammarPlan,
    input: Source,
    frame: Frame,
    tails: Seq<TailPlan>,
    i: nat,
    m: MachineView,
    fuel: nat,
)
    requires
        i < tails.len(),
        0 <= m.pos,
        guard_passes(input, m.pos, tails[i as int].guard),
        ({
            let ran = run_steps(
                plan,
                input,
                frame,
                tails[i as int].steps@,
                0,
                attempt_begin(m),
                fuel,
            );
            let ended = attempt_end(input, m, ran.0, ran.1);
            ended.1 is Matched && m.pos < ended.0.pos <= input.text.len()
        }),
    ensures
        ({
            let ran = run_steps(
                plan,
                input,
                frame,
                tails[i as int].steps@,
                0,
                attempt_begin(m),
                fuel,
            );
            let grown = attempt_end(input, m, ran.0, ran.1).0;
            run_growth(plan, input, frame, tails, i, m, fuel) == run_growth(
                plan,
                input,
                frame,
                tails,
                0,
                noted(grown, Event::Grow { tail: tails[i as int].variant }),
                fuel,
            )
        }),
{
}

/// In a plan, whatever stands behind a commit point of its sequence is
/// planned as committed: the step for a pattern behind a commit point is a
/// commit point itself, a delimited region whose delimiters are committed, or
/// a committed step.
pub proof fn lemma_steps_behind_a_commit_point_are_committed(
    steps: Seq<Step>,
    ps: Seq<ModelPattern>,
    from: int,
    in_cut: bool,
    env: Env,
    k: int,
    i: int,
)
    requires
        steps_realize(steps, ps, from, in_cut, env),
        from <= k < i < ps.len(),
        ps[k] is Cut,
    ensures
        match steps[i - from] {
            Step::Cut => ps[i] is Cut,
            Step::Delimited { open_committed, close_committed, .. } => open_committed && close_committed,
            Step::Committed(_) => true,
            _ => false,
        },
{
    assert(cut_between(ps, from, i));
    assert(step_realizes(steps[i - from], ps[i], in_cut || cut_between(ps, from, i), env, None));
}

/// In a plan, an alternative is entered for good exactly where the analysis
/// finds a first token for it that none of its siblings shares.
pub proof fn lemma_entry_follows_uniqueness(
    a: AltPlan,
    siblings: Seq<Seq<ModelPattern>>,
    i: int,
    variant: int,
    env: Env,
)
    requires
        alt_realizes(a, siblings, i, variant, env),
    ensures
        a.dispatch is Commit <==> enters_committed(siblings, i, env),
        a.dispatch is Commit ==> forall|j: int|
            0 <= j < siblings.len() && j != i ==> dispatch_key(
                #[trigger] siblings[j],
            ) != dispatch_key(
                siblings[i],
            ),
{
    if a.dispatch is Commit {
        assert forall|j: int| 0 <= j < siblings.len() && j != i implies dispatch_key(
            #[trigger] siblings[j],
        ) != dispatch_key(siblings[i]) by {
            lemma_unique_means_no_sibling_shares(siblings, i, j);
        }
    }
}

/// A recovery region whose body matches keeps the match: nothing is skipped,
/// the position is where the body ended, what the body noted stands, followed
/// by the note that the value is present, and the fatal flag is as it was.
pub proof fn lemma_recovery_keeps_a_match(
    plan: &GrammarPlan,
    input: Source,
    frame: Frame,
    s: Step,
    m: MachineView,
    fuel: nat,
)
    requires
        s matches Step::Recover { body, .. } && run_step(
            plan,
            input,
            frame,
            *body,
            attempt_begin(m),
            fuel,
        ).1 is Matched,
    ensures
        ({
            let ran = run_step(plan, input, frame, *s->Recover_body, attempt_begin(m), fuel).0;
            let (after, v) = run_step(plan, input, frame, s, m, fuel);
            &&& v is Matched
            &&& after.pos == ran.pos
            &&& after.trace == ran.trace.push(Event::Present)
            &&& after.ctx.is_fatal == m.ctx.is_fatal
            &&& after.ctx.scopes == ran.ctx.scopes
            &&& after.ctx.best_error == ran.ctx.best_error
        }),
{
}

/// A repetition never fails in a way that could be backtracked: it matches,
/// runs out of budget, or fails with the fatal flag raised.
pub proof fn lemma_repeat_fails_only_for_good(
    plan: &GrammarPlan,
    input: Source,
    frame: Frame,
    inner: Step,
    guard: Option<PeekToken>,
    m: MachineView,
    fuel: nat,
)
    ensures
        run_repeat(plan, input, frame, inner, guard, m, fuel).1 is Failed ==> run_repeat(
            plan,
            input,
            frame,
            inner,
            guard,
            m,
            fuel,
        ).0.ctx.is_fatal,
    decreases remaining(input, m),
{
    if guard_passes(input, m.pos, guard) {
        let (m1, v) = run_step(plan, input, frame, inner, attempt_begin(m), fuel);
        let (m2, r) = attempt_end(input, m, m1, v);
        if r is Matched && m.pos < m2.pos <= input.text.len() && 0 <= m.pos {
            lemma_repeat_fails_only_for_good(
                plan,
                input,
                frame,
                inner,
                guard,
                noted(m2, Event::Item),
                fuel,
            );
        }
    }
}

/// Zero-or-more always succeeds, and one-or-more succeeds behind a first
/// match, unless a failure is for good or the budget runs out.
pub proof fn lemma_repetition_succeeds(
    plan: &GrammarPlan,
    input: Source,
    frame: Frame,
    s: Step,
    m: MachineView,
    fuel: nat,
)
    requires
        s matches Step::Repeat { inner, at_least_one, .. } && (at_least_one ==> run_step(
            plan,
            input,
            frame,
            *inner,
            noted(m, Event::Collecting),
            fuel,
        ).1 is Matched),
    ensures
        run_step(plan, input, frame, s, m, fuel).1 is Failed ==> run_step(
            plan,
            input,
            frame,
            s,
            m,
            fuel,
        ).0.ctx.is_fatal,
{
    let inner = *s->Repeat_inner;
    let guard = s->Repeat_guard;
    let begun = noted(m, Event::Collecting);
    if s->Repeat_at_least_one {
        let once = noted(run_step(plan, input, frame, inner, begun, fuel).0, Event::Item);
        lemma_repeat_fails_only_for_good(plan, input, frame, inner, guard, once, fuel);
    } else {
        lemma_repeat_fails_only_for_good(plan, input, frame, inner, guard, begun, fuel);
    }
}

/// The machine behind one round of a repetition tried at `m`.
pub open spec fn round_end(
    plan: &GrammarPlan,
    input: Source,
    frame: Frame,
    inner: Step,
    m: MachineView,
    fuel: nat,
) -> (MachineView, TryView) {
    let ran = run_step(plan, input, frame, inner, attempt_begin(m), fuel);
    attempt_end(input, m, ran.0, ran.1)
}

/// From `m` on, `n` rounds of a repetition follow one another, each let in
/// by the guard, matching and consuming input.
pub open spec fn rounds_match(
    plan: &GrammarPlan,
    input: Source,
    frame: Frame,
    inner: Step,
    guard: Option<PeekToken>,
    m: MachineView,
    n: nat,
    fuel: nat,
) -> bool
    decreases n,
{
    n == 0 || {
        let round = round_end(plan, input, frame, inner, m, fuel);
        &&& guard_passes(input, m.pos, guard)
        &&& round.1 is Matched
        &&& 0 <= m.pos < round.0.pos <= input.text.len()
        &&& rounds_match(
            plan,
            input,
            frame,
            inner,
            guard,
            noted(round.0, Event::Item),
            (n - 1) as nat,
            fuel,
        )
    }
}

/// The machine behind `n` rounds of a repetition from `m` on, each noted as
/// an item.
pub open spec fn after_rounds(
    plan: &GrammarPlan,
    input: Source,
    frame: Frame,
    inner: Step,
    m: MachineView,
    n: nat,
    fuel: nat,
) -> MachineView
    decreases n,
{
    if n == 0 {
        m
    } else {
        after_rounds(
            plan,
            input,
            frame,
            inner,
            noted(round_end(plan, input, frame, inner, m, fuel).0, Event::Item),
            (n - 1) as nat,
            fuel,
        )
    }
}

/// A repetition takes every round that matches: where `n` rounds match one
/// after the other and the next is not let in by the guard or is rolled
/// back, the repetition succeeds behind the `n` rounds, with what they
/// consumed and noted; the round that failed consumes and notes nothing.
pub proof fn lemma_repeat_takes_the_rounds_that_match(
    plan: &GrammarPlan,
    input: Source,
    frame: Frame,
    inner: Step,
    guard: Option<PeekToken>,
    m: MachineView,
    n: nat,
    fuel: nat,
)
    requires
        rounds_match(plan, input, frame, inner, guard, m, n, fuel),
        ({
            let last = after_rounds(plan, input, frame, inner, m, n, fuel);
            !guard_passes(input, last.pos, guard) || round_end(
                plan,
                input,
                frame,
                inner,
                last,
                fuel,
            ).1 is NoMatch
        }),
    ensures
        ({
            let last = after_rounds(plan, input, frame, inner, m, n, fuel);
            let done = run_repeat(plan, input, frame, inner, guard, m, fuel);
            &&& done.1 is Matched
            &&& done.0.pos == last.pos
            &&& done.0.trace == last.trace.push(Event::Collected)
        }),
    decreases n,
{
    if n > 0 {
        let round = round_end(plan, input, frame, inner, m, fuel);
        lemma_repeat_takes_the_rounds_that_match(
            plan,
            input,
            frame,
            inner,
            guard,
            noted(round.0, Event::Item),
            (n - 1) as nat,
            fuel,
        );
    }
}

/// Zero-or-more accepts any number of rounds, and one-or-more any number
/// behind a first match: the step succeeds at the end of the last round that
/// matched, and the notes end with the one that closes the collection.
pub proof fn lemma_repetition_collects_the_rounds_that_match(
    plan: &GrammarPlan,
    input: Source,
    frame: Frame,
    s: Step,
    m: MachineView,
    n: nat,
    fuel: nat,
)
    requires
        s is Repeat,
        s->Repeat_at_least_one ==> run_step(
            plan,
            input,
            frame,
            *s->Repeat_inner,
            noted(m, Event::Collecting),
            fuel,
        ).1 is Matched,
        ({
            let begun = noted(m, Event::Collecting);
            let from = if s->Repeat_at_least_one {
                noted(run_step(plan, input, frame, *s->Repeat_inner, begun, fuel).0, Event::Item)
            } else {
                begun
            };
            let last = after_rounds(plan, input, frame, *s->Repeat_inner, from, n, fuel);
            &&& rounds_match(plan, input, frame, *s->Repeat_inner, s->Repeat_guard, from, n, fuel)
            &&& !guard_passes(input, last.pos, s->Repeat_guard) || round_end(
                plan,
                input,
                frame,
                *s->Repeat_inner,
                last,
                fuel,
            ).1 is NoMatch
        }),
    ensures
        ({
            let begun = noted(m, Event::Collecting);
            let from = if s->Repeat_at_least_one {
                noted(run_step(plan, input, frame, *s->Repeat_inner, begun, fuel).0, Event::Item)
            } else {
                begun
            };
            let last = after_rounds(plan, input, frame, *s->Repeat_inner, from, n, fuel);
            let done = run_step(plan, input, frame, s, m, fuel);
            &&& done.1 is Matched
            &&& done.0.pos == last.pos
            &&& done.0.trace == last.trace.push(Event::Collected)
        }),
{
    let begun = noted(m, Event::Collecting);
    let from = if s->Repeat_at_least_one {
        noted(run_step(plan, input, frame, *s->Repeat_inner, begun, fuel).0, Event::Item)
    } else {
        begun
    };
    lemma_repeat_takes_the_rounds_that_match(
        plan,
        input,
        frame,
        *s->Repeat_inner,
        s->Repeat_guard,
        from,
        n,
        fuel,
    );
}

/// An attempt that is rolled back records its failure: the best error kept
/// afterwards is the one kept before unless the failure is deeper, with the
/// innermost rule at the time of the failure named in its message.
pub proof fn lemma_rolled_back_attempt_records_its_failure(
    input: Source,
    before: MachineView,
    after: MachineView,
    e: ParseErrorView,
)
    requires
        !after.ctx.is_fatal,
    ensures
        ({
            let ended = attempt_end(input, before, after, VerdictView::Failed(e));
            &&& ended.1 is NoMatch
            &&& ended.0.pos == before.pos
            &&& ended.0.trace == before.trace
            &&& ended.0.ctx.best_error == improved(
                after.ctx.best_error,
                in_rule(e, after.ctx.rule_stack),
                made_progress(e, attempt_start(input, before)),
            )
        }),
{
}

/// Where no alternative of a choice matches, the choice fails with the best
/// error kept, which is handed out and forgotten; only where none is kept it
/// fails with the general message.
pub proof fn lemma_choice_reports_the_best_error(
    plan: &GrammarPlan,
    input: Source,
    frame: Frame,
    alts: Seq<AltPlan>,
    i: nat,
    m: MachineView,
    fuel: nat,
    message: Seq<char>,
)
    requires
        run_alternatives(plan, input, frame, alts, i, m, fuel).1 is NoMatch,
    ensures
        ({
            let ended = run_alternatives(plan, input, frame, alts, i, m, fuel).0;
            let reported = choice_end(input, (ended, TryView::NoMatch), message);
            &&& reported.1 is Failed
            &&& ended.ctx.best_error matches Some((best, _)) ==> reported.1 == VerdictView::Failed(
                best,
            ) && reported.0.ctx.best_error is None
            &&& ended.ctx.best_error is None ==> reported.1->Failed_0.message == message
        }),
{
}

/// Alternative `a` is attempted at `m` and fails plainly: its steps fail
/// without the fatal flag, and they leave the best error kept as they found
/// it.
pub open spec fn fails_plainly(
    plan: &GrammarPlan,
    input: Source,
    frame: Frame,
    a: AltPlan,
    m: MachineView,
    fuel: nat,
) -> bool {
    let ran = run_steps(plan, input, frame, a.steps@, 0, attempt_begin(m), fuel);
    &&& a.dispatch matches Dispatch::Attempt { guard } && guard_passes(input, m.pos, guard)
    &&& ran.1 is Failed
    &&& !ran.0.ctx.is_fatal
    &&& ran.0.ctx.best_error == m.ctx.best_error
}

/// The failure of alternative `a` attempted at `m`, as it is recorded: with
/// the innermost rule named, and with the mark of a failure that was met
/// behind the place where the attempt began.
pub open spec fn failure_of(
    plan: &GrammarPlan,
    input: Source,
    frame: Frame,
    a: AltPlan,
    m: MachineView,
    fuel: nat,
) -> (ParseErrorView, bool) {
    let ran = run_steps(plan, input, frame, a.steps@, 0, attempt_begin(m), fuel);
    (
        in_rule(ran.1->Failed_0, ran.0.ctx.rule_stack),
        made_progress(ran.1->Failed_0, attempt_start(input, m)),
    )
}

/// Alternative `a` is not even tried at `m`: the token that lets it in is
/// not ahead.
pub open spec fn steps_aside(input: Source, a: AltPlan, m: MachineView) -> bool {
    match a.dispatch {
        Dispatch::Attempt { guard } => !guard_passes(input, m.pos, guard),
        Dispatch::Commit { token } => !token_ahead(input, m.pos, token@),
    }
}

/// What alternative `j` leaves to be recorded where a choice that began with
/// alternative `i` at `m` comes to it: nothing where it steps aside, else its
/// failure.
pub open spec fn recorded_at(
    plan: &GrammarPlan,
    input: Source,
    frame: Frame,
    alts: Seq<AltPlan>,
    i: nat,
    j: nat,
    m: MachineView,
    fuel: nat,
) -> Option<(ParseErrorView, bool)> {
    let at = reached(plan, input, frame, alts, i, j, m, fuel);
    if steps_aside(input, alts[j as int], at) {
        None
    } else {
        Some(failure_of(plan, input, frame, alts[j as int], at, fuel))
    }
}

/// Alternative `j` hands on to the next where a choice that began with
/// alternative `i` at `m` comes to it: it steps aside or fails plainly.
pub open spec fn hands_on_at(
    plan: &GrammarPlan,
    input: Source,
    frame: Frame,
    alts: Seq<AltPlan>,
    i: nat,
    j: nat,
    m: MachineView,
    fuel: nat,
) -> bool {
    let at = reached(plan, input, frame, alts, i, j, m, fuel);
    steps_aside(input, alts[j as int], at) || fails_plainly(
        plan,
        input,
        frame,
        alts[j as int],
        at,
        fuel,
    )
}

/// Every alternative from `i` up to, not including, `k` steps aside or
/// fails plainly.
pub open spec fn all_hand_on(
    plan: &GrammarPlan,
    input: Source,
    frame: Frame,
    alts: Seq<AltPlan>,
    i: nat,
    k: nat,
    m: MachineView,
    fuel: nat,
) -> bool {
    forall|j: nat| i <= j < k ==> #[trigger] hands_on_at(plan, input, frame, alts, i, j, m, fuel)
}

/// No alternative from `i` up to, not including, `k` fails behind the place
/// where it was attempted.
pub open spec fn none_is_deep(
    plan: &GrammarPlan,
    input: Source,
    frame: Frame,
    alts: Seq<AltPlan>,
    i: nat,
    k: nat,
    m: MachineView,
    fuel: nat,
) -> bool {
    forall|j: nat|
        i <= j < k ==> (#[trigger] recorded_at(plan, input, frame, alts, i, j, m, fuel) matches Some(
            (_, deep),
        ) ==> !deep)
}

/// An alternative that fails plainly is rolled back and hands on to the
/// next: position, notes and fatal flag are as before, and the best error
/// kept is the one kept before unless the failure is deeper.
pub proof fn lemma_plain_failure_is_recorded(
    plan: &GrammarPlan,
    input: Source,
    frame: Frame,
    a: AltPlan,
    m: MachineView,
    fuel: nat,
)
    requires
        fails_plainly(plan, input, frame, a, m, fuel),
    ensures
        ({
            let tried = try_alternative(plan, input, frame, a, m, fuel);
            let failure = failure_of(plan, input, frame, a, m, fuel);
            &&& tried.1 is NoMatch
            &&& tried.0.pos == m.pos
            &&& tried.0.trace == m.trace
            &&& tried.0.ctx.is_fatal == m.ctx.is_fatal
            &&& tried.0.ctx.best_error == improved(m.ctx.best_error, failure.0, failure.1)
        }),
{
    let ran = run_steps(plan, input, frame, a.steps@, 0, attempt_begin(m), fuel);
    lemma_rolled_back_attempt_records_its_failure(input, m, ran.0, ran.1->Failed_0);
}

proof fn lemma_handing_on_shifts(
    plan: &GrammarPlan,
    input: Source,
    frame: Frame,
    alts: Seq<AltPlan>,
    i: nat,
    k: nat,
    m: MachineView,
    fuel: nat,
)
    requires
        i < k <= alts.len(),
        all_hand_on(plan, input, frame, alts, i, k, m, fuel),
    ensures
        ({
            let m1 = try_alternative(plan, input, frame, alts[i as int], m, fuel).0;
            let first = recorded_at(plan, input, frame, alts, i, i, m, fuel);
            &&& try_alternative(plan, input, frame, alts[i as int], m, fuel).1 is NoMatch
            &&& m1.pos == m.pos
            &&& m1.trace == m.trace
            &&& m1.ctx.is_fatal == m.ctx.is_fatal
            &&& first is None ==> m1 == m
            &&& first matches Some(failure) ==> m1.ctx.best_error == improved(
                m.ctx.best_error,
                failure.0,
                failure.1,
            )
            &&& all_hand_on(plan, input, frame, alts, i + 1, k, m1, fuel)
            &&& forall|j: nat|
                i < j < k ==> #[trigger] recorded_at(plan, input, frame, alts, i, j, m, fuel)
                    == recorded_at(plan, input, frame, alts, i + 1, j, m1, fuel)
            &&& forall|j: nat|
                i < j <= k ==> #[trigger] reached(plan, input, frame, alts, i, j, m, fuel)
                    == reached(plan, input, frame, alts, i + 1, j, m1, fuel)
        }),
{
    let m1 = try_alternative(plan, input, frame, alts[i as int], m, fuel).0;
    assert(hands_on_at(plan, input, frame, alts, i, i, m, fuel));
    assert(reached(plan, input, frame, alts, i, i, m, fuel) == m);
    if !steps_aside(input, alts[i as int], m) {
        lemma_plain_failure_is_recorded(plan, input, frame, alts[i as int], m, fuel);
    }
    assert forall|j: nat| i < j <= k implies #[trigger] reached(
        plan,
        input,
        frame,
        alts,
        i,
        j,
        m,
        fuel,
    ) == reached(plan, input, frame, alts, i + 1, j, m1, fuel) by {}
    assert forall|j: nat| i + 1 <= j < k implies #[trigger] hands_on_at(
        plan,
        input,
        frame,
        alts,
        i + 1,
        j,
        m1,
        fuel,
    ) by {
        assert(hands_on_at(plan, input, frame, alts, i, j, m, fuel));
        assert(reached(plan, input, frame, alts, i, j, m, fuel) == reached(
            plan,
            input,
            frame,
            alts,
            i + 1,
            j,
            m1,
            fuel,
        ));
    }
    assert forall|j: nat| i < j < k implies #[trigger] recorded_at(
        plan,
        input,
        frame,
        alts,
        i,
        j,
        m,
        fuel,
    ) == recorded_at(plan, input, frame, alts, i + 1, j, m1, fuel) by {
        assert(reached(plan, input, frame, alts, i, j, m, fuel) == reached(
            plan,
            input,
            frame,
            alts,
            i + 1,
            j,
            m1,
            fuel,
        ));
    }
}

proof fn lemma_none_is_deep_shifts(
    plan: &GrammarPlan,
    input: Source,
    frame: Frame,
    alts: Seq<AltPlan>,
    i: nat,
    k: nat,
    m: MachineView,
    fuel: nat,
)
    requires
        i < k <= alts.len(),
        all_hand_on(plan, input, frame, alts, i, k, m, fuel),
        none_is_deep(plan, input, frame, alts, i, k, m, fuel),
    ensures
        none_is_deep(
            plan,
            input,
            frame,
            alts,
            i + 1,
            k,
            try_alternative(plan, input, frame, alts[i as int], m, fuel).0,
            fuel,
        ),
        recorded_at(plan, input, frame, alts, i, i, m, fuel) matches Some((_, deep)) ==> !deep,
{
    let m1 = try_alternative(plan, input, frame, alts[i as int], m, fuel).0;
    lemma_handing_on_shifts(plan, input, frame, alts, i, k, m, fuel);
    assert forall|j: nat| i + 1 <= j < k implies (#[trigger] recorded_at(
        plan,
        input,
        frame,
        alts,
        i + 1,
        j,
        m1,
        fuel,
    ) matches Some((_, deep)) ==> !deep) by {
        assert(recorded_at(plan, input, frame, alts, i, j, m, fuel) == recorded_at(
            plan,
            input,
            frame,
            alts,
            i + 1,
            j,
            m1,
            fuel,
        ));
    }
    assert(recorded_at(plan, input, frame, alts, i, i, m, fuel) matches Some((_, deep)) ==> !deep);
}

/// A choice whose alternatives from `i` up to `k` all step aside or fail
/// plainly comes to alternative `k` where it began, with the notes and the
/// fatal flag that it began with; where `k` is the end of the choice, no
/// alternative matched.
pub proof fn lemma_alternatives_that_hand_on_are_passed_over(
    plan: &GrammarPlan,
    input: Source,
    frame: Frame,
    alts: Seq<AltPlan>,
    i: nat,
    k: nat,
    m: MachineView,
    fuel: nat,
)
    requires
        i <= k <= alts.len(),
        all_hand_on(plan, input, frame, alts, i, k, m, fuel),
    ensures
        reached(plan, input, frame, alts, i, k, m, fuel).pos == m.pos,
        reached(plan, input, frame, alts, i, k, m, fuel).trace == m.trace,
        reached(plan, input, frame, alts, i, k, m, fuel).ctx.is_fatal == m.ctx.is_fatal,
        run_alternatives(plan, input, frame, alts, i, m, fuel) == run_alternatives(
            plan,
            input,
            frame,
            alts,
            k,
            reached(plan, input, frame, alts, i, k, m, fuel),
            fuel,
        ),
        k == alts.len() ==> run_alternatives(plan, input, frame, alts, i, m, fuel) == (
            reached(plan, input, frame, alts, i, k, m, fuel),
            TryView::NoMatch,
        ),
    decreases k - i,
{
    if i < k {
        lemma_handing_on_shifts(plan, input, frame, alts, i, k, m, fuel);
        let m1 = try_alternative(plan, input, frame, alts[i as int], m, fuel).0;
        lemma_alternatives_that_hand_on_are_passed_over(
            plan,
            input,
            frame,
            alts,
            i + 1,
            k,
            m1,
            fuel,
        );
    }
}

/// An error met behind the start of its attempt, once kept, stays the best
/// error through every alternative that steps aside or fails plainly.
pub proof fn lemma_deep_failure_stays(
    plan: &GrammarPlan,
    input: Source,
    frame: Frame,
    alts: Seq<AltPlan>,
    i: nat,
    k: nat,
    m: MachineView,
    fuel: nat,
)
    requires
        i <= k <= alts.len(),
        all_hand_on(plan, input, frame, alts, i, k, m, fuel),
        m.ctx.best_error matches Some((_, kept_deep)) && kept_deep,
    ensures
        reached(plan, input, frame, alts, i, k, m, fuel).ctx.best_error == m.ctx.best_error,
    decreases k - i,
{
    if i < k {
        lemma_handing_on_shifts(plan, input, frame, alts, i, k, m, fuel);
        let m1 = try_alternative(plan, input, frame, alts[i as int], m, fuel).0;
        lemma_deep_failure_stays(plan, input, frame, alts, i + 1, k, m1, fuel);
    }
}

/// An error that is kept stays the best error through every alternative
/// that steps aside or fails plainly where its attempt began.
pub proof fn lemma_kept_failure_stays_where_none_is_deep(
    plan: &GrammarPlan,
    input: Source,
    frame: Frame,
    alts: Seq<AltPlan>,
    i: nat,
    k: nat,
    m: MachineView,
    fuel: nat,
)
    requires
        i <= k <= alts.len(),
        all_hand_on(plan, input, frame, alts, i, k, m, fuel),
        none_is_deep(plan, input, frame, alts, i, k, m, fuel),
        m.ctx.best_error is Some,
    ensures
        reached(plan, input, frame, alts, i, k, m, fuel).ctx.best_error == m.ctx.best_error,
    decreases k - i,
{
    if i < k {
        lemma_handing_on_shifts(plan, input, frame, alts, i, k, m, fuel);
        lemma_none_is_deep_shifts(plan, input, frame, alts, i, k, m, fuel);
        let m1 = try_alternative(plan, input, frame, alts[i as int], m, fuel).0;
        lemma_kept_failure_stays_where_none_is_deep(plan, input, frame, alts, i + 1, k, m1, fuel);
    }
}

/// The best error kept once the failures `recorded` have been met one after
/// the other, `kept` having been kept before: each failure takes the place of
/// what is kept only where nothing is kept, or where it was met behind the
/// start of its attempt and what is kept was not.
pub open spec fn best_after(
    kept: Option<(ParseErrorView, bool)>,
    recorded: Seq<Option<(ParseErrorView, bool)>>,
) -> Option<(ParseErrorView, bool)>
    decreases recorded.len(),
{
    if recorded.len() == 0 {
        kept
    } else {
        best_after(
            match recorded[0] {
                Some(failure) => improved(kept, failure.0, failure.1),
                None => kept,
            },
            recorded.drop_first(),
        )
    }
}

/// What the alternatives from `i` up to, not including, `k` leave to be
/// recorded, in their order.
pub open spec fn recorded_between(
    plan: &GrammarPlan,
    input: Source,
    frame: Frame,
    alts: Seq<AltPlan>,
    i: nat,
    k: nat,
    m: MachineView,
    fuel: nat,
) -> Seq<Option<(ParseErrorView, bool)>> {
    Seq::new(
        (k - i) as nat,
        |j: int| recorded_at(plan, input, frame, alts, i, (i + j) as nat, m, fuel),
    )
}

/// Whatever was kept before a choice: where its alternatives from `i` up to
/// `k` all step aside or fail plainly, the best error kept behind them is
/// what the record rule makes of the error kept before and of their
/// failures, in the order of the alternatives.
pub proof fn lemma_choice_keeps_the_best_error(
    plan: &GrammarPlan,
    input: Source,
    frame: Frame,
    alts: Seq<AltPlan>,
    i: nat,
    k: nat,
    m: MachineView,
    fuel: nat,
)
    requires
        i <= k <= alts.len(),
        all_hand_on(plan, input, frame, alts, i, k, m, fuel),
    ensures
        reached(plan, input, frame, alts, i, k, m, fuel).ctx.best_error == best_after(
            m.ctx.best_error,
            recorded_between(plan, input, frame, alts, i, k, m, fuel),
        ),
    decreases k - i,
{
    if i < k {
        lemma_handing_on_shifts(plan, input, frame, alts, i, k, m, fuel);
        let m1 = try_alternative(plan, input, frame, alts[i as int], m, fuel).0;
        lemma_choice_keeps_the_best_error(plan, input, frame, alts, i + 1, k, m1, fuel);
        let all = recorded_between(plan, input, frame, alts, i, k, m, fuel);
        let rest = recorded_between(plan, input, frame, alts, i + 1, k, m1, fuel);
        assert(all.drop_first() =~= rest) by {
            assert forall|j: int| 0 <= j < rest.len() implies all.drop_first()[j] == rest[j] by {
                assert(recorded_at(plan, input, frame, alts, i, (i + 1 + j) as nat, m, fuel)
                    == recorded_at(plan, input, frame, alts, i + 1, (i + 1 + j) as nat, m1, fuel));
            }
        }
        assert(all[0] == recorded_at(plan, input, frame, alts, i, i, m, fuel));
    }
}

/// The failure, if it is one, was met behind the start of its attempt.
pub open spec fn is_deep(failure: Option<(ParseErrorView, bool)>) -> bool {
    failure matches Some((_, deep)) && deep
}

/// The record rule over a row of failures: an error met behind the start of
/// its attempt, once kept, stays.
pub proof fn lemma_deep_error_is_never_replaced(
    kept: Option<(ParseErrorView, bool)>,
    recorded: Seq<Option<(ParseErrorView, bool)>>,
)
    requires
        is_deep(kept),
    ensures
        best_after(kept, recorded) == kept,
    decreases recorded.len(),
{
    if recorded.len() > 0 {
        lemma_deep_error_is_never_replaced(kept, recorded.drop_first());
    }
}

/// The record rule over a row of failures: where no error met behind the
/// start of its attempt was kept before, the first failure of the row that
/// was met behind the start of its attempt is kept, whatever comes before or
/// after it.
pub proof fn lemma_first_deep_error_is_kept(
    kept: Option<(ParseErrorView, bool)>,
    recorded: Seq<Option<(ParseErrorView, bool)>>,
    f: int,
)
    requires
        !is_deep(kept),
        0 <= f < recorded.len(),
        is_deep(recorded[f]),
        forall|j: int| 0 <= j < f ==> !is_deep(#[trigger] recorded[j]),
    ensures
        best_after(kept, recorded) == recorded[f],
    decreases recorded.len(),
{
    let rest = recorded.drop_first();
    if f == 0 {
        lemma_deep_error_is_never_replaced(recorded[0], rest);
    } else {
        let next = match recorded[0] {
            Some(failure) => improved(kept, failure.0, failure.1),
            None => kept,
        };
        assert(!is_deep(recorded[0]));
        assert(rest[f - 1] == recorded[f]);
        assert forall|j: int| 0 <= j < f - 1 implies !is_deep(#[trigger] rest[j]) by {
            assert(rest[j] == recorded[j + 1]);
        }
        lemma_first_deep_error_is_kept(next, rest, f - 1);
    }
}

/// The record rule over a row of failures: where none of the row was met
/// behind the start of its attempt, an error kept before stays.
pub proof fn lemma_kept_error_stays_among_shallow_ones(
    kept: Option<(ParseErrorView, bool)>,
    recorded: Seq<Option<(ParseErrorView, bool)>>,
)
    requires
        kept is Some,
        forall|j: int| 0 <= j < recorded.len() ==> !is_deep(#[trigger] recorded[j]),
    ensures
        best_after(kept, recorded) == kept,
    decreases recorded.len(),
{
    if recorded.len() > 0 {
        let rest = recorded.drop_first();
        assert(!is_deep(recorded[0]));
        assert forall|j: int| 0 <= j < rest.len() implies !is_deep(#[trigger] rest[j]) by {
            assert(rest[j] == recorded[j + 1]);
        }
        lemma_kept_error_stays_among_shallow_ones(kept, rest);
    }
}

/// The record rule over a row of failures: where nothing was kept before and
/// none of the row was met behind the start of its attempt, the first
/// failure of the row is kept; where the row holds no failure at all,
/// nothing is kept.
pub proof fn lemma_first_error_is_kept_among_shallow_ones(
    recorded: Seq<Option<(ParseErrorView, bool)>>,
    f: int,
)
    requires
        0 <= f <= recorded.len(),
        forall|j: int| 0 <= j < f ==> (#[trigger] recorded[j]) is None,
        f < recorded.len() ==> recorded[f] is Some,
        forall|j: int| 0 <= j < recorded.len() ==> !is_deep(#[trigger] recorded[j]),
    ensures
        best_after(None, recorded) == if f < recorded.len() {
            recorded[f]
        } else {
            None
        },
    decreases recorded.len(),
{
    if recorded.len() > 0 {
        let rest = recorded.drop_first();
        assert forall|j: int| 0 <= j < rest.len() implies !is_deep(#[trigger] rest[j]) by {
            assert(rest[j] == recorded[j + 1]);
        }
        if f == 0 {
            assert(!is_deep(recorded[0]));
            lemma_kept_error_stays_among_shallow_ones(recorded[0], rest);
        } else {
            assert(recorded[0] is None);
            assert forall|j: int| 0 <= j < f - 1 implies (#[trigger] rest[j]) is None by {
                assert(rest[j] == recorded[j + 1]);
            }
            if f < recorded.len() {
                assert(rest[f - 1] == recorded[f]);
            }
            lemma_first_error_is_kept_among_shallow_ones(rest, f - 1);
        }
    }
}

/// Where the alternatives of a choice all step aside or fail plainly and
/// no error met behind the start of an attempt was kept before, the best
/// error kept in the end is the failure of the first alternative that failed
/// behind the place where it was attempted: no failure that came before it
/// outlives it, and none that comes after it takes its place. Where the
/// choice ends with these alternatives, that failure is what the choice
/// fails with.
pub proof fn lemma_choice_reports_the_first_deep_failure(
    plan: &GrammarPlan,
    input: Source,
    frame: Frame,
    alts: Seq<AltPlan>,
    i: nat,
    f: nat,
    k: nat,
    m: MachineView,
    fuel: nat,
    message: Seq<char>,
)
    requires
        i <= f < k <= alts.len(),
        all_hand_on(plan, input, frame, alts, i, k, m, fuel),
        m.ctx.best_error matches Some((_, kept_deep)) ==> !kept_deep,
        none_is_deep(plan, input, frame, alts, i, f, m, fuel),
        recorded_at(plan, input, frame, alts, i, f, m, fuel) matches Some((_, deep)) && deep,
    ensures
        reached(plan, input, frame, alts, i, k, m, fuel).ctx.best_error == recorded_at(
            plan,
            input,
            frame,
            alts,
            i,
            f,
            m,
            fuel,
        ),
        k == alts.len() ==> choice_end(
            input,
            run_alternatives(plan, input, frame, alts, i, m, fuel),
            message,
        ).1 == VerdictView::Failed(
            recorded_at(plan, input, frame, alts, i, f, m, fuel)->Some_0.0,
        ),
    decreases k - i,
{
    lemma_alternatives_that_hand_on_are_passed_over(plan, input, frame, alts, i, k, m, fuel);
    lemma_handing_on_shifts(plan, input, frame, alts, i, k, m, fuel);
    let m1 = try_alternative(plan, input, frame, alts[i as int], m, fuel).0;
    if i == f {
        lemma_deep_failure_stays(plan, input, frame, alts, i + 1, k, m1, fuel);
    } else {
        assert(all_hand_on(plan, input, frame, alts, i, f, m, fuel)) by {
            assert forall|j: nat| i <= j < f implies #[trigger] hands_on_at(
                plan,
                input,
                frame,
                alts,
                i,
                j,
                m,
                fuel,
            ) by {}
        }
        lemma_none_is_deep_shifts(plan, input, frame, alts, i, f, m, fuel);
        lemma_choice_reports_the_first_deep_failure(
            plan,
            input,
            frame,
            alts,
            i + 1,
            f,
            k,
            m1,
            fuel,
            message,
        );
        lemma_alternatives_that_hand_on_are_passed_over(
            plan,
            input,
            frame,
            alts,
            i + 1,
            k,
            m1,
            fuel,
        );
    }
}

/// Where the alternatives of a choice all step aside or fail plainly, none
/// of them behind the place where it was attempted, and no error was kept
/// before, the best error kept in the end is the failure of the first
/// alternative that was attempted. Where the choice ends with these
/// alternatives, that failure is what the choice fails with.
pub proof fn lemma_choice_reports_the_first_failure_where_none_is_deep(
    plan: &GrammarPlan,
    input: Source,
    frame: Frame,
    alts: Seq<AltPlan>,
    i: nat,
    f: nat,
    k: nat,
    m: MachineView,
    fuel: nat,
    message: Seq<char>,
)
    requires
        i <= f < k <= alts.len(),
        all_hand_on(plan, input, frame, alts, i, k, m, fuel),
        none_is_deep(plan, input, frame, alts, i, k, m, fuel),
        m.ctx.best_error is None,
        forall|j: nat|
            i <= j < f ==> #[trigger] recorded_at(plan, input, frame, alts, i, j, m, fuel) is None,
        recorded_at(plan, input, frame, alts, i, f, m, fuel) is Some,
    ensures
        reached(plan, input, frame, alts, i, k, m, fuel).ctx.best_error == recorded_at(
            plan,
            input,
            frame,
            alts,
            i,
            f,
            m,
            fuel,
        ),
        k == alts.len() ==> choice_end(
            input,
            run_alternatives(plan, input, frame, alts, i, m, fuel),
            message,
        ).1 == VerdictView::Failed(
            recorded_at(plan, input, frame, alts, i, f, m, fuel)->Some_0.0,
        ),
    decreases k - i,
{
    lemma_alternatives_that_hand_on_are_passed_over(plan, input, frame, alts, i, k, m, fuel);
    lemma_handing_on_shifts(plan, input, frame, alts, i, k, m, fuel);
    lemma_none_is_deep_shifts(plan, input, frame, alts, i, k, m, fuel);
    let m1 = try_alternative(plan, input, frame, alts[i as int], m, fuel).0;
    if i == f {
        lemma_kept_failure_stays_where_none_is_deep(plan, input, frame, alts, i + 1, k, m1, fuel);
    } else {
        assert(recorded_at(plan, input, frame, alts, i, i, m, fuel) is None);
        assert forall|j: nat| i + 1 <= j < f implies #[trigger] recorded_at(
            plan,
            input,
            frame,
            alts,
            i + 1,
            j,
            m1,
            fuel,
        ) is None by {
            assert(recorded_at(plan, input, frame, alts, i, j, m, fuel) is None);
        }
        lemma_choice_reports_the_first_failure_where_none_is_deep(
            plan,
            input,
            frame,
            alts,
            i + 1,
            f,
            k,
            m1,
            fuel,
            message,
        );
        lemma_alternatives_that_hand_on_are_passed_over(
            plan,
            input,
            frame,
            alts,
            i + 1,
            k,
            m1,
            fuel,
        );
    }
}

/// Where every alternative of a choice steps aside and no error was kept
/// before, the choice fails with the general message at the next token.
pub proof fn lemma_choice_without_an_attempt_fails_in_general(
    plan: &GrammarPlan,
    input: Source,
    frame: Frame,
    alts: Seq<AltPlan>,
    i: nat,
    m: MachineView,
    fuel: nat,
    message: Seq<char>,
)
    requires
        i <= alts.len(),
        m.ctx.best_error is None,
        forall|j: nat|
            i <= j < alts.len() ==> #[trigger] recorded_at(plan, input, frame, alts, i, j, m, fuel)
                is None,
    ensures
        choice_end(
            input,
            run_alternatives(plan, input, frame, alts, i, m, fuel),
            message,
        ) == (m, VerdictView::Failed(fail_at(skipped(input, m.pos), message))),
    decreases alts.len() - i,
{
    if i < alts.len() {
        assert(recorded_at(plan, input, frame, alts, i, i, m, fuel) is None);
        assert(reached(plan, input, frame, alts, i, i, m, fuel) == m);
        assert(try_alternative(plan, input, frame, alts[i as int], m, fuel) == (
            m,
            TryView::NoMatch,
        ));
        assert forall|j: nat| i + 1 <= j < alts.len() implies #[trigger] recorded_at(
            plan,
            input,
            frame,
            alts,
            i + 1,
            j,
            m,
            fuel,
        ) is None by {
            assert(recorded_at(plan, input, frame, alts, i, j, m, fuel) is None);
            assert(reached(plan, input, frame, alts, i, j, m, fuel) == reached(
                plan,
                input,
                frame,
                alts,
                i + 1,
                j,
                m,
                fuel,
            ));
        }
        lemma_choice_without_an_attempt_fails_in_general(
            plan,
            input,
            frame,
            alts,
            i + 1,
            m,
            fuel,
            message,
        );
    }
}

/// A plan of a grammar without a rule for white space is run with the
/// default skipper: at every position of the input it passes over blanks,
/// tabs, line feeds and carriage returns and never fails.
pub proof fn lemma_default_skipper_passes_over_white_space(
    plan: &GrammarPlan,
    text: Seq<char>,
    pos: int,
    fuel: nat,
)
    requires
        !plan.has_user_ws,
        0 <= pos <= text.len(),
    ensures
        skip_to(source_of(plan, text, fuel), pos) == Some(skip_ws(text, pos)),
{
    lemma_skip_ws_bounds(text, pos);
}

/// A plan of a grammar that brings a rule `ws` is run with that rule for its
/// skipper: at every position of the input the skipper gets to where the
/// rule, run from there with nothing skipped inside it, has matched, and it
/// fails where the rule does not match.
pub proof fn lemma_rule_for_white_space_is_the_skipper(
    plan: &GrammarPlan,
    text: Seq<char>,
    ws: usize,
    pos: int,
    fuel: nat,
)
    requires
        plan.has_user_ws,
        rule_named(plan, "ws"@, 0) == Some(ws),
        0 <= pos <= text.len(),
    ensures
        ({
            let ran = run_rule(
                plan,
                unskipped(text),
                Seq::empty(),
                ws,
                machine_at(pos),
                fuel,
            );
            skip_to(source_of(plan, text, fuel), pos) == if ran.1 is Matched && pos <= ran.0.pos
                <= text.len() {
                Some(ran.0.pos)
            } else {
                None
            }
        }),
{
}

/// While the rule for white space runs, nothing is skipped.
pub proof fn lemma_nothing_is_skipped_inside_the_skipper(text: Seq<char>, pos: int)
    requires
        0 <= pos <= text.len(),
    ensures
        skip_to(unskipped(text), pos) == Some(pos),
{
}

/// Where the skipper fails, the token that is due fails with it, at the
/// place where the skipper began, and no token counts as ahead.
pub proof fn lemma_token_fails_where_the_skipper_fails(
    input: Source,
    m: MachineView,
    text: Seq<char>,
    matcher: Matcher,
    t: PeekTokenView,
)
    requires
        skip_to(input, m.pos) is None,
        !(matcher is End),
    ensures
        match_text(input, m, text) == skipper_failed(m),
        match_with(input, m, matcher) == skipper_failed(m),
        !token_ahead(input, m.pos, t),
{
}

/// A token is looked for where the skipper gets to: a literal matches
/// exactly where the input goes on with its text there, and is then consumed
/// from there on.
pub proof fn lemma_literal_matches_behind_the_skipper(
    input: Source,
    m: MachineView,
    text: Seq<char>,
    p: int,
)
    requires
        skip_to(input, m.pos) == Some(p),
    ensures
        match_text(input, m, text).1 is Matched <==> starts_with(input.text, p, text),
        match_text(input, m, text).1 is Matched ==> match_text(input, m, text).0 == consumed(
            m,
            p,
            p + text.len(),
        ),
{
}

} // verus!

//! Plans: what a command shows and writes, step by step, and how it ends.
//!
//! A command decides from what it was given and hands out a plan. Whoever carries the plan out
//! performs the steps in order and stops at the first one that fails.

use vstd::prelude::*;

use crate::error::{ErrorView, NixlayerError};
use crate::rebuild::Mode;
use crate::ui::{Line, LineView};

verus! {

/// One step: show a line, or give a file a text.
#[derive(Debug)]
pub enum Step {
    Print(Line),
    Write(String, String),
}

/// A [`Step`] with its texts as character sequences.
pub enum StepView {
    Print(LineView),
    Write(Seq<char>, Seq<char>),
}

impl View for Step {
    type V = StepView;

    open spec fn view(&self) -> StepView {
        match *self {
            Step::Print(l) => StepView::Print(l@),
            Step::Write(path, text) => StepView::Write(path@, text@),
        }
    }
}

/// How a command ends: well, with a failing exit status after all was shown, with a rebuild that
/// is still to be run, or with an error.
#[derive(Debug)]
pub enum Outcome {
    Done,
    Exit,
    Rebuild(Mode),
    Fail(NixlayerError),
}

/// An [`Outcome`] with its texts as character sequences.
pub enum OutcomeView {
    Done,
    Exit,
    Rebuild(Mode),
    Fail(ErrorView),
}

impl View for Outcome {
    type V = OutcomeView;

    open spec fn view(&self) -> OutcomeView {
        match *self {
            Outcome::Done => OutcomeView::Done,
            Outcome::Exit => OutcomeView::Exit,
            Outcome::Rebuild(m) => OutcomeView::Rebuild(m),
            Outcome::Fail(e) => OutcomeView::Fail(e@),
        }
    }
}

/// Steps and an outcome.
#[derive(Debug)]
pub struct Plan {
    pub steps: Vec<Step>,
    pub outcome: Outcome,
}

/// A [`Plan`] with its texts as character sequences.
pub struct PlanView {
    pub steps: Seq<StepView>,
    pub outcome: OutcomeView,
}

impl View for Plan {
    type V = PlanView;

    open spec fn view(&self) -> PlanView {
        PlanView { steps: step_views(self.steps@), outcome: self.outcome@ }
    }
}

/// The views of some steps.
pub open spec fn step_views(v: Seq<Step>) -> Seq<StepView> {
    Seq::new(v.len(), |i: int| v[i]@)
}

/// What some steps write: paths with texts, in order.
pub open spec fn writes(steps: Seq<StepView>) -> Seq<(Seq<char>, Seq<char>)>
    decreases steps.len(),
{
    if steps.len() == 0 {
        Seq::empty()
    } else {
        match steps.last() {
            StepView::Write(path, text) => writes(steps.drop_last()).push((path, text)),
            StepView::Print(_) => writes(steps.drop_last()),
        }
    }
}

/// The steps, and then a line.
pub open spec fn said(steps: Seq<StepView>, l: LineView) -> Seq<StepView> {
    steps.push(StepView::Print(l))
}

/// The steps, and then a write.
pub open spec fn stored(steps: Seq<StepView>, path: Seq<char>, text: Seq<char>) -> Seq<StepView> {
    steps.push(StepView::Write(path, text))
}

pub open spec fn done(steps: Seq<StepView>) -> PlanView {
    PlanView { steps, outcome: OutcomeView::Done }
}

pub open spec fn failed(steps: Seq<StepView>, e: ErrorView) -> PlanView {
    PlanView { steps, outcome: OutcomeView::Fail(e) }
}

pub open spec fn no_steps() -> Seq<StepView> {
    Seq::empty()
}

/// Where nothing is written, nothing is written by one more line either.
pub proof fn lemma_said(steps: Seq<StepView>, l: LineView)
    ensures
        writes(said(steps, l)) == writes(steps),
{
    assert(said(steps, l).drop_last() =~= steps);
}

pub proof fn lemma_stored(steps: Seq<StepView>, path: Seq<char>, text: Seq<char>)
    ensures
        writes(stored(steps, path, text)) == writes(steps).push((path, text)),
{
    assert(stored(steps, path, text).drop_last() =~= steps);
}

/// A plan with no steps yet.
pub fn start() -> (r: Vec<Step>)
    ensures
        step_views(r@) == no_steps(),
{
    let v: Vec<Step> = Vec::new();
    assert(step_views(v@) =~= no_steps());
    v
}

/// Show a line.
pub fn say(steps: &mut Vec<Step>, l: Line)
    ensures
        step_views(final(steps)@) == said(step_views(old(steps)@), l@),
{
    let ghost before = steps@;
    steps.push(Step::Print(l));
    assert(step_views(steps@) =~= said(step_views(before), l@));
}

/// Give a file a text.
pub fn store(steps: &mut Vec<Step>, path: String, text: String)
    ensures
        step_views(final(steps)@) == stored(step_views(old(steps)@), path@, text@),
{
    let ghost before = steps@;
    let ghost p = path@;
    let ghost t = text@;
    steps.push(Step::Write(path, text));
    assert(step_views(steps@) =~= stored(step_views(before), p, t));
}

/// End well.
pub fn finish(steps: Vec<Step>) -> (r: Plan)
    ensures
        r@ == done(step_views(steps@)),
{
    Plan { steps, outcome: Outcome::Done }
}

/// End with an error.
pub fn fail(steps: Vec<Step>, e: NixlayerError) -> (r: Plan)
    ensures
        r@ == failed(step_views(steps@), e@),
{
    Plan { steps, outcome: Outcome::Fail(e) }
}

} // verus!

//! Finding the package that is meant by a query.
//!
//! A query that is an attribute is that attribute. Otherwise the results of a search decide:
//! one that matches exactly is taken, one that comes close is asked about, and of several the
//! user picks one. Nothing is guessed.

use vstd::prelude::*;

use crate::error::{ErrorView, NixlayerError};
use crate::plan::{no_steps, said, say, start, step_views, Step, StepView};
use crate::resolver::{info_views, InfoView, PackageInfo};
use crate::sources::opt_view;
use crate::text::{
    concat3, contains, count_text, decimal, includes, lemma_views_push, pad_right, padded, same,
    views,
};
use crate::ui::{confirm, heading, heading_line, picked, plain, plain_line, prompt_choice, says_yes};

verus! {

/// The package is what the query names.
pub open spec fn is_exact(p: InfoView, query: Seq<char>) -> bool {
    p.attribute == query || p.pname == Some(query)
}

/// The one is part of the other.
pub open spec fn overlap(a: Seq<char>, b: Seq<char>) -> bool {
    contains(a, b) || contains(b, a)
}

/// The package is close to what the query names.
pub open spec fn is_close(p: InfoView, query: Seq<char>) -> bool {
    overlap(p.attribute, query) || match p.pname {
        Some(n) => overlap(n, query),
        None => false,
    }
}

/// The packages that are exactly what the query names.
pub open spec fn exact(v: Seq<InfoView>, query: Seq<char>) -> Seq<InfoView>
    decreases v.len(),
{
    if v.len() == 0 {
        v
    } else if is_exact(v.last(), query) {
        exact(v.drop_last(), query).push(v.last())
    } else {
        exact(v.drop_last(), query)
    }
}

/// The packages that are close to what the query names.
pub open spec fn close(v: Seq<InfoView>, query: Seq<char>) -> Seq<InfoView>
    decreases v.len(),
{
    if v.len() == 0 {
        v
    } else if is_close(v.last(), query) {
        close(v.drop_last(), query).push(v.last())
    } else {
        close(v.drop_last(), query)
    }
}

/// The packages to choose from: those that are close, or all of them where none is.
pub open spec fn pool(v: Seq<InfoView>, query: Seq<char>) -> Seq<InfoView> {
    if close(v, query).len() > 0 {
        close(v, query)
    } else {
        v
    }
}

/// At most the first ten.
pub open spec fn first_ten(v: Seq<InfoView>) -> Seq<InfoView> {
    if v.len() <= 10 {
        v
    } else {
        v.take(10)
    }
}

/// The attributes of some packages.
pub open spec fn attributes(v: Seq<InfoView>) -> Seq<Seq<char>> {
    Seq::new(v.len(), |i: int| v[i].attribute)
}

/// What the results of a search lead to.
#[derive(Debug)]
pub enum Suggestion {
    /// There is nothing to suggest.
    Nothing(NixlayerError),
    /// This attribute is meant.
    Take(String),
    /// Ask this; a yes means that this attribute is meant.
    Ask(String, String),
    /// Show this and let the user pick one of these attributes.
    Pick(Vec<Step>, Vec<String>),
}

/// A [`Suggestion`] with its texts as character sequences.
pub enum SuggestionView {
    Nothing(ErrorView),
    Take(Seq<char>),
    Ask(Seq<char>, Seq<char>),
    Pick(Seq<StepView>, Seq<Seq<char>>),
}

impl View for Suggestion {
    type V = SuggestionView;

    open spec fn view(&self) -> SuggestionView {
        match *self {
            Suggestion::Nothing(e) => SuggestionView::Nothing(e@),
            Suggestion::Take(a) => SuggestionView::Take(a@),
            Suggestion::Ask(q, a) => SuggestionView::Ask(q@, a@),
            Suggestion::Pick(s, v) => SuggestionView::Pick(step_views(s@), views(v@)),
        }
    }
}

pub open spec fn or_nothing(o: Option<Seq<char>>) -> Seq<char> {
    match o {
        Some(s) => s,
        None => ""@,
    }
}

pub open spec fn did_you_mean(query: Seq<char>, p: InfoView) -> Seq<char> {
    "'"@ + query + "' isn't an exact match — did you mean '"@ + p.attribute + "'? ("@ + or_nothing(
        p.description,
    ) + ")"@
}

/// The numbered list of the packages to pick from.
pub open spec fn numbered(steps: Seq<StepView>, v: Seq<InfoView>) -> Seq<StepView>
    decreases v.len(),
{
    if v.len() == 0 {
        steps
    } else {
        said(
            numbered(steps, v.drop_last()),
            plain_line(
                "  "@ + decimal(v.len()) + ") "@ + pad_right(v.last().attribute, 28) + " "@
                    + or_nothing(v.last().description),
            ),
        )
    }
}

/// What the results `v` of a search for `query` lead to.
pub open spec fn suggestion(query: Seq<char>, v: Seq<InfoView>, colors: bool) -> SuggestionView {
    let e = exact(v, query);
    let p = pool(v, query);
    if v.len() == 0 {
        SuggestionView::Nothing(
            ErrorView::ResolverFailed("no nixpkgs package matches '"@ + query + "'"@),
        )
    } else if e.len() == 1 {
        SuggestionView::Take(e[0].attribute)
    } else if p.len() == 1 {
        SuggestionView::Ask(did_you_mean(query, p[0]), p[0].attribute)
    } else {
        let ten = first_ten(p);
        SuggestionView::Pick(
            numbered(
                said(
                    no_steps(),
                    heading_line(
                        colors,
                        "'"@ + query + "' matched "@ + decimal(ten.len()) + " package(s):"@,
                    ),
                ),
                ten,
            ),
            attributes(ten),
        )
    }
}

fn exactly(p: &PackageInfo, query: &str) -> (r: bool)
    ensures
        r == is_exact(p@, query@),
{
    if same(&p.attribute, query) {
        return true;
    }
    match &p.pname {
        Some(n) => same(n, query),
        None => false,
    }
}

fn closely(p: &PackageInfo, query: &str) -> (r: bool)
    ensures
        r == is_close(p@, query@),
{
    if includes(&p.attribute, query) || includes(query, &p.attribute) {
        return true;
    }
    match &p.pname {
        Some(n) => includes(n, query) || includes(query, n),
        None => false,
    }
}

/// The positions of the packages of the pool.
fn pool_of(v: &Vec<PackageInfo>, query: &str) -> (r: Vec<usize>)
    ensures
        chosen_infos(info_views(v@), r@) == pool(info_views(v@), query@),
        forall|k: int| 0 <= k < r@.len() ==> (#[trigger] r@[k]) < v@.len(),
{
    let ghost w = info_views(v@);
    let mut out: Vec<usize> = Vec::new();
    assert(chosen_infos(w, out@) =~= close(w.take(0), query@));
    for i in 0..v.len()
        invariant
            w == info_views(v@),
            chosen_infos(w, out@) == close(w.take(i as int), query@),
            forall|k: int| 0 <= k < out@.len() ==> (#[trigger] out@[k]) < v@.len(),
    {
        proof {
            assert(w.take(i + 1).drop_last() =~= w.take(i as int));
            assert(w.take(i + 1).last() == v@[i as int]@);
        }
        if closely(&v[i], query) {
            let ghost before = out@;
            out.push(i);
            assert(chosen_infos(w, out@) =~= chosen_infos(w, before).push(w[i as int]));
        }
    }
    assert(w.take(w.len() as int) =~= w);
    assert(chosen_infos(w, out@).len() == out@.len());
    if out.len() > 0 {
        return out;
    }
    let mut all: Vec<usize> = Vec::new();
    for i in 0..v.len()
        invariant
            w == info_views(v@),
            all@.len() == i,
            forall|k: int| 0 <= k < i ==> #[trigger] all@[k] == k,
    {
        all.push(i);
    }
    assert(chosen_infos(w, all@) =~= w);
    all
}

/// The packages at some positions.
pub open spec fn chosen_infos(v: Seq<InfoView>, at: Seq<usize>) -> Seq<InfoView> {
    Seq::new(at.len(), |k: int| v[at[k] as int])
}

fn description_of(p: &PackageInfo) -> (r: String)
    ensures
        r@ == or_nothing(p@.description),
{
    match &p.description {
        Some(d) => d.clone(),
        None => "".to_string(),
    }
}

/// The attribute of the only package that is exactly what the query names.
fn only_exact(v: &Vec<PackageInfo>, query: &str) -> (r: Option<String>)
    ensures
        match r {
            Some(a) => exact(info_views(v@), query@).len() == 1 && exact(
                info_views(v@),
                query@,
            )[0].attribute == a@,
            None => exact(info_views(v@), query@).len() != 1,
        },
{
    let ghost w = info_views(v@);
    let mut out: Vec<usize> = Vec::new();
    assert(chosen_infos(w, out@) =~= exact(w.take(0), query@));
    for i in 0..v.len()
        invariant
            w == info_views(v@),
            chosen_infos(w, out@) == exact(w.take(i as int), query@),
            forall|k: int| 0 <= k < out@.len() ==> (#[trigger] out@[k]) < v@.len(),
    {
        proof {
            assert(w.take(i + 1).drop_last() =~= w.take(i as int));
            assert(w.take(i + 1).last() == v@[i as int]@);
        }
        if exactly(&v[i], query) {
            let ghost before = out@;
            out.push(i);
            assert(chosen_infos(w, out@) =~= chosen_infos(w, before).push(w[i as int]));
        }
    }
    assert(w.take(w.len() as int) =~= w);
    assert(chosen_infos(w, out@).len() == out@.len());
    if out.len() == 1 {
        let k: usize = out[0];
        assert(chosen_infos(w, out@)[0] == w[k as int]);
        Some(v[k].attribute.clone())
    } else {
        None
    }
}

/// What the results of a search lead to.
pub fn suggest(query: &str, results: &Vec<PackageInfo>, colors: bool) -> (r: Suggestion)
    ensures
        r@ == suggestion(query@, info_views(results@), colors),
{
    let ghost w = info_views(results@);
    assert(w.len() == results@.len());
    if results.len() == 0 {
        return Suggestion::Nothing(
            NixlayerError::ResolverFailed(concat3("no nixpkgs package matches '", query, "'")),
        );
    }
    match only_exact(results, query) {
        Some(a) => {
            return Suggestion::Take(a);
        },
        None => {},
    }
    let at: Vec<usize> = pool_of(results, query);
    let ghost p = chosen_infos(w, at@);
    assert(p.len() == at@.len());
    if at.len() == 1 {
        let only: &PackageInfo = &results[at[0]];
        assert(p[0] == only@);
        let mut s: String = concat3("'", query, "' isn't an exact match — did you mean '");
        s.append(&only.attribute);
        s.append("'? (");
        s.append(&description_of(only));
        s.append(")");
        return Suggestion::Ask(s, only.attribute.clone());
    }
    let n: usize = if at.len() <= 10 {
        at.len()
    } else {
        10
    };
    let ghost ten = first_ten(p);
    assert(ten.len() == n);
    let mut steps: Vec<Step> = start();
    let mut s: String = concat3("'", query, "' matched ");
    s.append(&count_text(n));
    s.append(" package(s):");
    say(&mut steps, heading(colors, &s));
    let ghost head = step_views(steps@);
    let mut names: Vec<String> = Vec::new();
    assert(numbered(head, ten.take(0)) == head);
    assert(views(names@) =~= attributes(ten.take(0)));
    for i in 0..n
        invariant
            w == info_views(results@),
            p == chosen_infos(w, at@),
            ten == first_ten(p),
            ten.len() == n,
            n <= at@.len(),
            forall|k: int| 0 <= k < at@.len() ==> (#[trigger] at@[k]) < results@.len(),
            step_views(steps@) == numbered(head, ten.take(i as int)),
            views(names@) == attributes(ten.take(i as int)),
    {
        let c: &PackageInfo = &results[at[i]];
        proof {
            assert(ten[i as int] == p[i as int]);
            assert(p[i as int] == c@);
            assert(ten.take(i + 1).drop_last() =~= ten.take(i as int));
            assert(ten.take(i + 1).last() == c@);
        }
        let mut row: String = concat3("  ", &count_text(i + 1), ") ");
        row.append(&padded(&c.attribute, 28));
        row.append(" ");
        row.append(&description_of(c));
        say(&mut steps, plain(row));
        let a: String = c.attribute.clone();
        proof {
            lemma_views_push(names@, a);
        }
        names.push(a);
        assert(attributes(ten.take(i + 1)) =~= attributes(ten.take(i as int)).push(a@));
    }
    assert(ten.take(n as int) =~= ten);
    Suggestion::Pick(steps, names)
}

pub open spec fn cancelled() -> ErrorView {
    ErrorView::ResolverFailed("cancelled — re-run with the exact attribute name."@)
}

/// What an answer to a question about one package means.
pub fn accept(attribute: &String, answer: &Option<String>) -> (r: Result<String, NixlayerError>)
    ensures
        match r {
            Ok(a) => answer is Some && says_yes((answer->0)@) && a@ == attribute@,
            Err(e) => !(answer is Some && says_yes((answer->0)@)) && e@ == cancelled(),
        },
{
    if confirm(answer) {
        Ok(attribute.clone())
    } else {
        Err(
            NixlayerError::ResolverFailed(
                "cancelled — re-run with the exact attribute name.".to_string(),
            ),
        )
    }
}

/// What an answer to a list of packages means.
pub fn pick(attributes: &Vec<String>, answer: &Option<String>) -> (r: Result<String, NixlayerError>)
    ensures
        match r {
            Ok(a) => answer is Some && picked((answer->0)@, attributes@.len()) is Some && a@
                == attributes@[picked((answer->0)@, attributes@.len())->0 as int]@,
            Err(e) => !(answer is Some && picked((answer->0)@, attributes@.len()) is Some) && e@
                == cancelled(),
        },
{
    match prompt_choice(answer, attributes.len()) {
        Some(i) => Ok(attributes[i].clone()),
        None => Err(
            NixlayerError::ResolverFailed(
                "cancelled — re-run with the exact attribute name.".to_string(),
            ),
        ),
    }
}

/// Whatever is suggested was found: no attribute is made up.
pub proof fn suggestions_were_found(query: Seq<char>, v: Seq<InfoView>, colors: bool)
    ensures
        match suggestion(query, v, colors) {
            SuggestionView::Nothing(_) => v.len() == 0,
            SuggestionView::Take(a) => attributes(v).contains(a),
            SuggestionView::Ask(_, a) => attributes(v).contains(a),
            SuggestionView::Pick(_, l) => l.len() <= 10 && forall|i: int|
                0 <= i < l.len() ==> attributes(v).contains(#[trigger] l[i]),
        },
{
    lemma_filtered(v, query);
    let e = exact(v, query);
    let p = pool(v, query);
    if e.len() == 1 {
        assert(attributes(v).contains(e[0].attribute));
    }
    assert forall|i: int| 0 <= i < p.len() implies attributes(v).contains(
        (#[trigger] p[i]).attribute,
    ) by {
        if close(v, query).len() == 0 {
            assert(attributes(v)[i] == v[i].attribute);
        }
    }
    if v.len() > 0 && e.len() != 1 && p.len() != 1 {
        let l = attributes(first_ten(p));
        assert forall|i: int| 0 <= i < l.len() implies attributes(v).contains(#[trigger] l[i]) by {
            assert(l[i] == p[i].attribute);
        }
    }
}

proof fn lemma_filtered(v: Seq<InfoView>, query: Seq<char>)
    ensures
        forall|i: int|
            0 <= i < exact(v, query).len() ==> attributes(v).contains(
                (#[trigger] exact(v, query)[i]).attribute,
            ),
        forall|i: int|
            0 <= i < close(v, query).len() ==> attributes(v).contains(
                (#[trigger] close(v, query)[i]).attribute,
            ),
    decreases v.len(),
{
    if v.len() > 0 {
        let t = v.drop_last();
        lemma_filtered(t, query);
        assert forall|a: Seq<char>| #[trigger] attributes(t).contains(a) implies attributes(
            v,
        ).contains(a) by {
            let k = choose|k: int| 0 <= k < t.len() && attributes(t)[k] == a;
            assert(attributes(v)[k] == a);
        }
        assert(attributes(v)[v.len() - 1] == v.last().attribute);
        assert forall|i: int| 0 <= i < exact(v, query).len() implies attributes(v).contains(
            (#[trigger] exact(v, query)[i]).attribute,
        ) by {
            if i < exact(t, query).len() {
                assert(exact(v, query)[i] == exact(t, query)[i]);
            }
        }
        assert forall|i: int| 0 <= i < close(v, query).len() implies attributes(v).contains(
            (#[trigger] close(v, query)[i]).attribute,
        ) by {
            if i < close(t, query).len() {
                assert(close(v, query)[i] == close(t, query)[i]);
            }
        }
    }
}

// ---------------------------------------------------------------------------
// Step by step
// ---------------------------------------------------------------------------

/// How far finding a package has come.
#[derive(Debug)]
pub enum Stage {
    /// The query is being looked up as an attribute.
    Exact,
    /// The query is being searched for.
    Searching,
    /// The user is being asked about this attribute.
    Confirming(String),
    /// The user is picking one of these attributes.
    Picking(Vec<String>),
    /// The attribute that is meant is being looked up.
    Fetching,
}

/// A [`Stage`] with its texts as character sequences.
pub enum StageView {
    Exact,
    Searching,
    Confirming(Seq<char>),
    Picking(Seq<Seq<char>>),
    Fetching,
}

impl View for Stage {
    type V = StageView;

    open spec fn view(&self) -> StageView {
        match *self {
            Stage::Exact => StageView::Exact,
            Stage::Searching => StageView::Searching,
            Stage::Confirming(a) => StageView::Confirming(a@),
            Stage::Picking(v) => StageView::Picking(views(v@)),
            Stage::Fetching => StageView::Fetching,
        }
    }
}

/// What came of the last action.
#[derive(Debug)]
pub enum Event {
    Resolved(Result<PackageInfo, NixlayerError>),
    Searched(Result<Vec<PackageInfo>, NixlayerError>),
    Answered(Option<String>),
}

/// An [`Event`] with its texts as character sequences.
pub enum EventView {
    Resolved(Result<InfoView, ErrorView>),
    Searched(Result<Seq<InfoView>, ErrorView>),
    Answered(Option<Seq<char>>),
}

impl View for Event {
    type V = EventView;

    open spec fn view(&self) -> EventView {
        match *self {
            Event::Resolved(Ok(p)) => EventView::Resolved(Ok(p@)),
            Event::Resolved(Err(e)) => EventView::Resolved(Err(e@)),
            Event::Searched(Ok(v)) => EventView::Searched(Ok(info_views(v@))),
            Event::Searched(Err(e)) => EventView::Searched(Err(e@)),
            Event::Answered(a) => EventView::Answered(opt_view(a)),
        }
    }
}

/// What is to be done next.
#[derive(Debug)]
pub enum Action {
    /// Look this attribute up.
    Resolve(String),
    /// Search for this.
    Search(String),
    /// Ask this.
    Ask(String),
    /// Show this and ask for a number up to this.
    Pick(Vec<Step>, usize),
    /// This package is meant.
    Done(PackageInfo),
    Fail(NixlayerError),
}

/// An [`Action`] with its texts as character sequences.
pub enum ActionView {
    Resolve(Seq<char>),
    Search(Seq<char>),
    Ask(Seq<char>),
    Pick(Seq<StepView>, nat),
    Done(InfoView),
    Fail(ErrorView),
}

impl View for Action {
    type V = ActionView;

    open spec fn view(&self) -> ActionView {
        match *self {
            Action::Resolve(a) => ActionView::Resolve(a@),
            Action::Search(q) => ActionView::Search(q@),
            Action::Ask(q) => ActionView::Ask(q@),
            Action::Pick(s, n) => ActionView::Pick(step_views(s@), n as nat),
            Action::Done(p) => ActionView::Done(p@),
            Action::Fail(e) => ActionView::Fail(e@),
        }
    }
}

pub open spec fn out_of_turn() -> ErrorView {
    ErrorView::ResolverFailed("an answer came that was not asked for"@)
}

/// What an event leads to. A query that is an attribute is looked up as it is; whatever is wrong
/// with that, a search decides.
pub open spec fn next_step(
    query: Seq<char>,
    stage: StageView,
    event: EventView,
    colors: bool,
) -> (StageView, ActionView) {
    match (stage, event) {
        (StageView::Exact, EventView::Resolved(Ok(p))) => (stage, ActionView::Done(p)),
        (StageView::Exact, EventView::Resolved(Err(_))) => (
            StageView::Searching,
            ActionView::Search(query),
        ),
        (StageView::Searching, EventView::Searched(Err(e))) => (stage, ActionView::Fail(e)),
        (StageView::Searching, EventView::Searched(Ok(v))) => match suggestion(query, v, colors) {
            SuggestionView::Nothing(e) => (stage, ActionView::Fail(e)),
            SuggestionView::Take(a) => (StageView::Fetching, ActionView::Resolve(a)),
            SuggestionView::Ask(q, a) => (StageView::Confirming(a), ActionView::Ask(q)),
            SuggestionView::Pick(s, l) => (
                StageView::Picking(l),
                ActionView::Pick(s, l.len()),
            ),
        },
        (StageView::Confirming(a), EventView::Answered(answer)) => if answer is Some && says_yes(
            answer->0,
        ) {
            (StageView::Fetching, ActionView::Resolve(a))
        } else {
            (stage, ActionView::Fail(cancelled()))
        },
        (StageView::Picking(l), EventView::Answered(answer)) => if answer is Some && picked(
            answer->0,
            l.len(),
        ) is Some {
            (StageView::Fetching, ActionView::Resolve(l[picked(answer->0, l.len())->0 as int]))
        } else {
            (stage, ActionView::Fail(cancelled()))
        },
        (StageView::Fetching, EventView::Resolved(Ok(p))) => (stage, ActionView::Done(p)),
        (StageView::Fetching, EventView::Resolved(Err(e))) => (stage, ActionView::Fail(e)),
        _ => (stage, ActionView::Fail(out_of_turn())),
    }
}

/// Start finding the package that is meant by a query.
pub fn resolve_or_suggest(query: &str) -> (r: (Stage, Action))
    ensures
        r.0@ == StageView::Exact,
        r.1@ == ActionView::Resolve(query@),
{
    (Stage::Exact, Action::Resolve(query.to_string()))
}

/// Decide what an event leads to.
pub fn proceed(query: &str, stage: Stage, event: Event, colors: bool) -> (r: (Stage, Action))
    ensures
        (r.0@, r.1@) == next_step(query@, stage@, event@, colors),
{
    match (stage, event) {
        (Stage::Exact, Event::Resolved(Ok(p))) => (Stage::Exact, Action::Done(p)),
        (Stage::Exact, Event::Resolved(Err(_))) => (
            Stage::Searching,
            Action::Search(query.to_string()),
        ),
        (Stage::Searching, Event::Searched(Err(e))) => (Stage::Searching, Action::Fail(e)),
        (Stage::Searching, Event::Searched(Ok(v))) => match suggest(query, &v, colors) {
            Suggestion::Nothing(e) => (Stage::Searching, Action::Fail(e)),
            Suggestion::Take(a) => (Stage::Fetching, Action::Resolve(a)),
            Suggestion::Ask(q, a) => (Stage::Confirming(a), Action::Ask(q)),
            Suggestion::Pick(s, l) => {
                let n: usize = l.len();
                assert(views(l@).len() == n);
                (Stage::Picking(l), Action::Pick(s, n))
            },
        },
        (Stage::Confirming(a), Event::Answered(answer)) => match accept(&a, &answer) {
            Ok(b) => (Stage::Fetching, Action::Resolve(b)),
            Err(e) => (Stage::Confirming(a), Action::Fail(e)),
        },
        (Stage::Picking(l), Event::Answered(answer)) => {
            assert(views(l@).len() == l@.len());
            match pick(&l, &answer) {
                Ok(b) => (Stage::Fetching, Action::Resolve(b)),
                Err(e) => (Stage::Picking(l), Action::Fail(e)),
            }
        },
        (Stage::Fetching, Event::Resolved(Ok(p))) => (Stage::Fetching, Action::Done(p)),
        (Stage::Fetching, Event::Resolved(Err(e))) => (Stage::Fetching, Action::Fail(e)),
        (stage, _) => (
            stage,
            Action::Fail(
                NixlayerError::ResolverFailed("an answer came that was not asked for".to_string()),
            ),
        ),
    }
}

/// How many answers are still to come at most.
pub open spec fn steps_left(s: StageView) -> nat {
    match s {
        StageView::Exact => 3,
        StageView::Searching => 2,
        StageView::Confirming(_) => 1,
        StageView::Picking(_) => 1,
        StageView::Fetching => 0,
    }
}

/// Finding a package ends: every event either ends it or leaves fewer answers to come.
pub proof fn lookups_end(query: Seq<char>, stage: StageView, event: EventView, colors: bool)
    ensures
        ({
            let (then, action) = next_step(query, stage, event, colors);
            action is Done || action is Fail || steps_left(then) < steps_left(stage)
        }),
{
}

} // verus!

//! Laws of finding the package that is meant: what is taken, asked about and offered, and what an
//! answer leads to.

use vstd::prelude::*;

use crate::error::ErrorView;
use crate::plan::{no_steps, StepView};
use crate::resolver::InfoView;
use crate::shown::{in_bold, known_or, shows};
use crate::spelling::{answers_pick_by_number, only_yes_means_yes};
use crate::suggest::{
    close, exact, is_close, is_exact, next_step, numbered, ActionView, EventView, StageView,
};
use crate::text::{contains, decimal, is_space, number, occurs_at, pad_right, trim};

verus! {

/// What is told where the user takes none of what was offered.
pub open spec fn given_up() -> ErrorView {
    ErrorView::ResolverFailed("cancelled — re-run with the exact attribute name."@)
}

/// The number that is answered to a list leads to the attribute that stands at that number in the
/// list; any other number, and no answer, leads nowhere.
pub proof fn picks_lead_to_what_was_listed(
    query: Seq<char>,
    l: Seq<Seq<char>>,
    before: Seq<char>,
    k: nat,
    after: Seq<char>,
    colors: bool,
)
    requires
        forall|i: int| 0 <= i < before.len() ==> is_space(#[trigger] before[i]),
        forall|i: int| 0 <= i < after.len() ==> is_space(#[trigger] after[i]),
    ensures
        ({
            let answer = EventView::Answered(Some(before + decimal(k) + after));
            let (then, action) = next_step(query, StageView::Picking(l), answer, colors);
            if 1 <= k <= l.len() {
                then == StageView::Fetching && action == ActionView::Resolve(l[k - 1])
            } else {
                action == ActionView::Fail(given_up())
            }
        }),
        next_step(query, StageView::Picking(l), EventView::Answered(None), colors).1
            == ActionView::Fail(given_up()),
{
    answers_pick_by_number(before, k, after, l.len());
}

/// Whatever is answered to a list, only a number of the list leads to an attribute, and then to
/// the one at that number.
pub proof fn only_numbers_pick(query: Seq<char>, l: Seq<Seq<char>>, answer: Seq<char>, colors: bool)
    ensures
        ({
            let action = next_step(
                query,
                StageView::Picking(l),
                EventView::Answered(Some(answer)),
                colors,
            ).1;
            match number(trim(answer)) {
                Some(k) => if 1 <= k <= l.len() {
                    action == ActionView::Resolve(l[k - 1])
                } else {
                    action == ActionView::Fail(given_up())
                },
                None => action == ActionView::Fail(given_up()),
            }
        }),
{
}

/// Two numbers of a list lead to two attributes, where the list has two different ones there.
pub proof fn different_picks_differ(
    query: Seq<char>,
    l: Seq<Seq<char>>,
    j: nat,
    k: nat,
    colors: bool,
)
    requires
        1 <= j <= l.len(),
        1 <= k <= l.len(),
        l[j - 1] != l[k - 1],
    ensures
        next_step(
            query,
            StageView::Picking(l),
            EventView::Answered(Some(decimal(j))),
            colors,
        ).1 != next_step(
            query,
            StageView::Picking(l),
            EventView::Answered(Some(decimal(k))),
            colors,
        ).1,
{
    let none = Seq::<char>::empty();
    picks_lead_to_what_was_listed(query, l, none, j, none, colors);
    picks_lead_to_what_was_listed(query, l, none, k, none, colors);
    assert(none + decimal(j) + none =~= decimal(j));
    assert(none + decimal(k) + none =~= decimal(k));
}

/// A yes leads to the attribute that was asked about; anything else, and no answer, leads nowhere.
pub proof fn a_yes_leads_to_what_was_asked_about(
    query: Seq<char>,
    a: Seq<char>,
    answer: Seq<char>,
    colors: bool,
)
    ensures
        ({
            let t = trim(answer);
            let yes = {
                ||| t.len() == 1 && (t[0] == 'y' || t[0] == 'Y')
                ||| t.len() == 3 && (t[0] == 'y' || t[0] == 'Y') && (t[1] == 'e' || t[1] == 'E')
                    && (t[2] == 's' || t[2] == 'S')
            };
            let (then, action) = next_step(
                query,
                StageView::Confirming(a),
                EventView::Answered(Some(answer)),
                colors,
            );
            if yes {
                then == StageView::Fetching && action == ActionView::Resolve(a)
            } else {
                action == ActionView::Fail(given_up())
            }
        }),
        next_step(query, StageView::Confirming(a), EventView::Answered(None), colors).1
            == ActionView::Fail(given_up()),
{
    only_yes_means_yes(answer);
}

/// A query that is an attribute is that package. Otherwise it is searched for, as it was given,
/// and a failed search ends it. What was chosen is looked up, and that is the result.
pub proof fn lookups_go_their_way(
    query: Seq<char>,
    p: InfoView,
    e: ErrorView,
    colors: bool,
)
    ensures
        next_step(query, StageView::Exact, EventView::Resolved(Ok(p)), colors).1
            == ActionView::Done(p),
        next_step(query, StageView::Exact, EventView::Resolved(Err(e)), colors) == (
            StageView::Searching,
            ActionView::Search(query),
        ),
        next_step(query, StageView::Searching, EventView::Searched(Err(e)), colors).1
            == ActionView::Fail(e),
        next_step(query, StageView::Fetching, EventView::Resolved(Ok(p)), colors).1
            == ActionView::Done(p),
        next_step(query, StageView::Fetching, EventView::Resolved(Err(e)), colors).1
            == ActionView::Fail(e),
{
}

/// The package has the name that was asked for, as its attribute or as its own name.
pub open spec fn named_so(query: Seq<char>) -> spec_fn(InfoView) -> bool {
    |p: InfoView| p.attribute == query || p.pname == Some(query)
}

/// The name that was asked for is part of a name of the package, or the other way round.
pub open spec fn named_alike(query: Seq<char>) -> spec_fn(InfoView) -> bool {
    |p: InfoView|
        contains(p.attribute, query) || contains(query, p.attribute) || (p.pname is Some && (contains(
            p.pname->0,
            query,
        ) || contains(query, p.pname->0)))
}

/// What there is to choose from: the packages that are named alike, or all where none is.
pub open spec fn offered(query: Seq<char>, v: Seq<InfoView>) -> Seq<InfoView> {
    let alike = v.filter(named_alike(query));
    if alike.len() > 0 {
        alike
    } else {
        v
    }
}

proof fn lemma_filters(v: Seq<InfoView>, query: Seq<char>)
    ensures
        exact(v, query) == v.filter(named_so(query)),
        close(v, query) == v.filter(named_alike(query)),
    decreases v.len(),
{
    reveal(Seq::filter);
    if v.len() > 0 {
        lemma_filters(v.drop_last(), query);
    }
}

/// A row of the list to pick from.
pub open spec fn numbered_text(k: nat, p: InfoView) -> Seq<char> {
    "  "@ + decimal(k) + ") "@ + pad_right(p.attribute, 28) + " "@ + known_or(p.description, ""@)
}

proof fn lemma_numbered(steps: Seq<StepView>, v: Seq<InfoView>)
    ensures
        numbered(steps, v) == steps + Seq::new(
            v.len(),
            |i: int| shows(numbered_text((i + 1) as nat, v[i])),
        ),
    decreases v.len(),
{
    if v.len() > 0 {
        lemma_numbered(steps, v.drop_last());
    }
    assert(numbered(steps, v) =~= steps + Seq::new(
        v.len(),
        |i: int| shows(numbered_text((i + 1) as nat, v[i])),
    ));
}

/// What the results of a search lead to. The only package that has the name is taken. Otherwise,
/// the only one to choose from is asked about, and of several the first ten are listed, in the
/// order in which they were found: the row with the number `k` shows the attribute that picking
/// `k` leads to.
pub proof fn results_are_offered_in_full(query: Seq<char>, v: Seq<InfoView>, colors: bool)
    ensures
        ({
            let same = v.filter(named_so(query));
            let some = offered(query, v);
            let (then, action) = next_step(
                query,
                StageView::Searching,
                EventView::Searched(Ok(v)),
                colors,
            );
            &&& v.len() == 0 ==> action == ActionView::Fail(
                ErrorView::ResolverFailed("no nixpkgs package matches '"@ + query + "'"@),
            )
            &&& same.len() == 1 ==> then == StageView::Fetching && action == ActionView::Resolve(
                same[0].attribute,
            )
            &&& v.len() > 0 && same.len() != 1 && some.len() == 1 ==> then
                == StageView::Confirming(some[0].attribute) && action == ActionView::Ask(
                "'"@ + query + "' isn't an exact match — did you mean '"@ + some[0].attribute
                    + "'? ("@ + known_or(some[0].description, ""@) + ")"@,
            )
            &&& v.len() > 0 && same.len() != 1 && some.len() > 1 ==> {
                let n: nat = if some.len() < 10 {
                    some.len()
                } else {
                    10
                };
                then matches StageView::Picking(l) && action matches ActionView::Pick(s, m) && m == n
                    && l.len() == n && s.len() == n + 1 && s[0] == shows(
                    in_bold(colors, "'"@ + query + "' matched "@ + decimal(n) + " package(s):"@),
                ) && forall|k: int|
                    1 <= k <= n ==> l[k - 1] == some[k - 1].attribute && #[trigger] s[k] == shows(
                        numbered_text(k as nat, some[k - 1]),
                    )
            }
        }),
{
    lemma_filters(v, query);
    reveal(Seq::filter);
    let same = v.filter(named_so(query));
    let some = offered(query, v);
    if v.len() == 0 {
        assert(same.len() == 0);
    } else if same.len() != 1 && some.len() > 1 {
        let ten = if some.len() <= 10 {
            some
        } else {
            some.take(10)
        };
        let head = no_steps().push(
            shows(
                in_bold(colors, "'"@ + query + "' matched "@ + decimal(ten.len()) + " package(s):"@),
            ),
        );
        lemma_numbered(head, ten);
    }
}

/// Being named so, and being named alike, in the words of the search.
pub proof fn names_decide(p: InfoView, query: Seq<char>)
    ensures
        is_exact(p, query) == named_so(query)(p),
        is_close(p, query) == named_alike(query)(p),
        is_exact(p, query) ==> is_close(p, query),
{
    if p.attribute == query || p.pname == Some(query) {
        assert(query.subrange(0, query.len() as int) =~= query);
        assert(occurs_at(query, query, 0));
    }
}

} // verus!

//! The snapshot of the package lists as of the last successful rebuild, and what has changed
//! since.

use vstd::prelude::*;

use crate::category::{loaded_views, result_view, Category, CategoryView};
use crate::error::{ErrorView, NixlayerError};
use crate::order::{
    le, lemma_le_total, lemma_le_transitive, lemma_push_contains, lemma_strictly_ascending_unique,
    lemma_unique, lemma_unique_of_same, not_after, sort, sort_unique, sorted, strictly_ascending,
    unique,
};
use crate::text::{holds, lemma_views_push, same, views};

verus! {

/// Category names with the packages of each, sorted, as of the last successful rebuild. A name
/// occurs once, and the names ascend.
#[derive(Debug)]
pub struct State {
    categories: Vec<(String, Vec<String>)>,
}

/// Names with packages, as views.
pub open spec fn list_views(v: Seq<(String, Vec<String>)>) -> Seq<(Seq<char>, Seq<Seq<char>>)> {
    Seq::new(v.len(), |i: int| (v[i].0@, views(v[i].1@)))
}

impl View for State {
    type V = Seq<(Seq<char>, Seq<Seq<char>>)>;

    closed spec fn view(&self) -> Seq<(Seq<char>, Seq<Seq<char>>)> {
        list_views(self.categories@)
    }
}

/// The names of some categories.
pub open spec fn names_of(s: Seq<(Seq<char>, Seq<Seq<char>>)>) -> Seq<Seq<char>> {
    Seq::new(s.len(), |i: int| s[i].0)
}

/// The first category called `name`, counted from 0; the number of categories where there is
/// none.
pub open spec fn position_of(s: Seq<(Seq<char>, Seq<Seq<char>>)>, name: Seq<char>) -> int
    decreases s.len(),
{
    if s.len() == 0 || s[0].0 == name {
        0
    } else {
        1 + position_of(s.drop_first(), name)
    }
}

/// The packages of the category called `name`; none where there is no such category.
pub open spec fn packages_in(s: Seq<(Seq<char>, Seq<Seq<char>>)>, name: Seq<char>) -> Seq<Seq<char>> {
    if position_of(s, name) < s.len() {
        s[position_of(s, name)].1
    } else {
        Seq::empty()
    }
}

/// What the state file holds.
#[derive(Debug)]
pub enum StoredState {
    /// There is no such file.
    Missing,
    /// The file could not be read; the text says why.
    Unreadable(String),
    /// The file does not hold a state; the text says why.
    Malformed(String),
    Parsed(State),
}

pub proof fn lemma_position_of(s: Seq<(Seq<char>, Seq<Seq<char>>)>, name: Seq<char>)
    ensures
        0 <= position_of(s, name) <= s.len(),
        position_of(s, name) < s.len() ==> s[position_of(s, name)].0 == name,
        forall|j: int| 0 <= j < position_of(s, name) ==> (#[trigger] s[j]).0 != name,
        position_of(s, name) < s.len() <==> names_of(s).contains(name),
    decreases s.len(),
{
    if s.len() == 0 {
        assert(!names_of(s).contains(name));
    } else if s[0].0 == name {
        assert(names_of(s)[0] == name);
    } else {
        let t = s.drop_first();
        lemma_position_of(t, name);
        assert forall|j: int| 0 <= j < position_of(s, name) implies (#[trigger] s[j]).0 != name by {
            if j > 0 {
                assert(s[j] == t[j - 1]);
            }
        }
        if names_of(t).contains(name) {
            let j = choose|j: int| 0 <= j < t.len() && names_of(t)[j] == name;
            assert(names_of(s)[j + 1] == name);
        }
        if names_of(s).contains(name) {
            let j = choose|j: int| 0 <= j < s.len() && names_of(s)[j] == name;
            assert(names_of(t)[j - 1] == name);
        }
    }
}

proof fn lemma_position_is(s: Seq<(Seq<char>, Seq<Seq<char>>)>, name: Seq<char>, k: int)
    requires
        0 <= k <= s.len(),
        k < s.len() ==> s[k].0 == name,
        forall|j: int| 0 <= j < k ==> (#[trigger] s[j]).0 != name,
    ensures
        position_of(s, name) == k,
{
    lemma_position_of(s, name);
}

impl State {
    #[verifier::type_invariant]
    spec fn ordered(self) -> bool {
        strictly_ascending(names_of(list_views(self.categories@)))
    }

    /// A state without categories.
    pub fn new() -> (r: State)
        ensures
            r@ == Seq::<(Seq<char>, Seq<Seq<char>>)>::empty(),
    {
        let categories: Vec<(String, Vec<String>)> = Vec::new();
        assert(list_views(categories@) =~= Seq::empty());
        State { categories }
    }

    /// The state that was stored: an empty one where there is no file.
    pub fn load(stored: StoredState) -> (r: Result<State, NixlayerError>)
        ensures
            match stored {
                StoredState::Missing => r matches Ok(s) && s@ == Seq::<
                    (Seq<char>, Seq<Seq<char>>),
                >::empty(),
                StoredState::Unreadable(m) => r matches Err(e) && e@ == ErrorView::Io(m@),
                StoredState::Malformed(m) => r matches Err(e) && e@ == ErrorView::Json(m@),
                StoredState::Parsed(p) => r matches Ok(s) && s == p,
            },
    {
        match stored {
            StoredState::Missing => Ok(State::new()),
            StoredState::Unreadable(m) => Err(NixlayerError::Io(m)),
            StoredState::Malformed(m) => Err(NixlayerError::Json(m)),
            StoredState::Parsed(s) => Ok(s),
        }
    }

    /// The categories with their packages.
    pub fn categories(&self) -> (r: &Vec<(String, Vec<String>)>)
        ensures
            list_views(r@) == self@,
            strictly_ascending(names_of(self@)),
    {
        proof {
            use_type_invariant(self);
        }
        &self.categories
    }

    /// Record the packages of a category, in place of those that were recorded before.
    pub fn insert(&mut self, name: String, packages: Vec<String>)
        ensures
            names_of(final(self)@) == unique(names_of(old(self)@).push(name@)),
            packages_in(final(self)@, name@) == views(packages@),
            forall|n: Seq<char>|
                n != name@ ==> #[trigger] packages_in(final(self)@, n) == packages_in(old(self)@, n),
    {
        proof {
            use_type_invariant(&*self);
        }
        let ghost s = self@;
        let mut kept: Vec<(String, Vec<String>)> = Vec::new();
        let mut p: usize = 0;
        while p < self.categories.len() && not_after(&self.categories[p].0, &name) && !same(
            &self.categories[p].0,
            &name,
        )
            invariant
                p <= self.categories@.len(),
                s == list_views(self.categories@),
                list_views(kept@) == s.take(p as int),
                forall|j: int| 0 <= j < p ==> le((#[trigger] s[j]).0, name@) && s[j].0 != name@,
            decreases self.categories@.len() - p,
        {
            proof {
                assert(s[p as int] == (
                    self.categories@[p as int].0@,
                    views(self.categories@[p as int].1@),
                ));
            }
            push_copy(&mut kept, &self.categories, p);
            assert(s.take(p as int).push(s[p as int]) =~= s.take(p + 1));
            p = p + 1;
        }
        let here: bool = p < self.categories.len() && same(&self.categories[p].0, &name);
        let mut q: usize = if here {
            p + 1
        } else {
            p
        };
        let ghost n = name@;
        let ghost v = views(packages@);
        let ghost before = kept@;
        kept.push((name, packages));
        assert(list_views(kept@) =~= list_views(before).push((n, v)));
        let ghost head = s.take(p as int).push((n, v));
        assert(head + s.subrange(q as int, q as int) =~= head);
        let ghost q0 = q;
        while q < self.categories.len()
            invariant
                q0 <= q <= self.categories@.len(),
                s == list_views(self.categories@),
                list_views(kept@) == head + s.subrange(q0 as int, q as int),
            decreases self.categories@.len() - q,
        {
            push_copy(&mut kept, &self.categories, q);
            assert((head + s.subrange(q0 as int, q as int)).push(s[q as int]) =~= head + s.subrange(
                q0 as int,
                q + 1,
            ));
            q = q + 1;
        }
        proof {
            if p < s.len() {
                assert(s[p as int] == (
                    self.categories@[p as int].0@,
                    views(self.categories@[p as int].1@),
                ));
            }
            lemma_inserted(s, n, v, p as int, q0 as int, list_views(kept@));
        }
        self.categories = kept;
    }

    /// The packages of the category called `name`; none where there is no such category.
    pub fn packages(&self, name: &str) -> (r: Vec<String>)
        ensures
            views(r@) == packages_in(self@, name@),
    {
        let ghost s = self@;
        let mut i: usize = 0;
        assert(s.skip(0) =~= s);
        while i < self.categories.len() && !same(&self.categories[i].0, name)
            invariant
                i <= self.categories@.len(),
                s == list_views(self.categories@),
                position_of(s, name@) == i + position_of(s.skip(i as int), name@),
            decreases self.categories@.len() - i,
        {
            assert(s.skip(i as int).drop_first() =~= s.skip(i + 1));
            i = i + 1;
        }
        if i < self.categories.len() {
            copy_texts(&self.categories[i].1)
        } else {
            let none: Vec<String> = Vec::new();
            assert(views(none@) =~= Seq::<Seq<char>>::empty());
            none
        }
    }

    /// What the category files declare now. A category that could not be loaded is left out.
    pub fn capture_current(all: &Vec<(String, Result<Category, NixlayerError>)>) -> (r: State)
        ensures
            names_of(r@) == unique(loaded_names(loaded_views(all@))),
            forall|n: Seq<char>|
                #[trigger] packages_in(r@, n) == current_packages(loaded_views(all@), n),
    {
        let mut state: State = State::new();
        let ghost w = loaded_views(all@);
        proof {
            lemma_unique(loaded_names(w.take(0)));
            assert(names_of(state@) =~= unique(loaded_names(w.take(0))));
        }
        for i in 0..all.len()
            invariant
                w == loaded_views(all@),
                names_of(state@) == unique(loaded_names(w.take(i as int))),
                forall|n: Seq<char>|
                    #[trigger] packages_in(state@, n) == current_packages(w.take(i as int), n),
        {
            let ghost before = state@;
            proof {
                assert(w.take(i + 1).drop_last() =~= w.take(i as int));
                assert(w.take(i + 1).last() == (all@[i as int].0@, result_view(all@[i as int].1)));
            }
            match &all[i].1 {
                Ok(c) => {
                    let name: String = all[i].0.clone();
                    let pkgs: Vec<String> = sort(&c.packages);
                    state.insert(name, pkgs);
                    proof {
                        lemma_unique_push(loaded_names(w.take(i as int)), name@);
                        assert forall|n: Seq<char>|
                            #[trigger] packages_in(state@, n) == current_packages(
                                w.take(i + 1),
                                n,
                            ) by {
                            if n != name@ {
                                assert(packages_in(before, n) == current_packages(
                                    w.take(i as int),
                                    n,
                                ));
                            }
                        }
                    }
                },
                Err(_) => {},
            }
        }
        assert(w.take(w.len() as int) =~= w);
        state
    }
}

impl Default for State {
    fn default() -> (r: State)
        ensures
            r@ == Seq::<(Seq<char>, Seq<Seq<char>>)>::empty(),
    {
        State::new()
    }
}

impl Clone for State {
    fn clone(&self) -> (r: State)
        ensures
            r@ == self@,
    {
        let mut categories: Vec<(String, Vec<String>)> = Vec::new();
        let ghost s = self@;
        assert(list_views(categories@) =~= s.take(0));
        for i in 0..self.categories.len()
            invariant
                s == list_views(self.categories@),
                list_views(categories@) == s.take(i as int),
        {
            push_copy(&mut categories, &self.categories, i);
            assert(s.take(i as int).push(s[i as int]) =~= s.take(i + 1));
        }
        proof {
            use_type_invariant(self);
            assert(s.take(s.len() as int) =~= s);
        }
        State { categories }
    }
}

fn copy_texts(v: &Vec<String>) -> (r: Vec<String>)
    ensures
        views(r@) == views(v@),
{
    let mut out: Vec<String> = Vec::new();
    let ghost w = views(v@);
    assert(views(out@) =~= w.take(0));
    for i in 0..v.len()
        invariant
            w == views(v@),
            views(out@) == w.take(i as int),
    {
        let s: String = v[i].clone();
        proof {
            lemma_views_push(out@, s);
            assert(w.take(i + 1) =~= w.take(i as int).push(s@));
        }
        out.push(s);
    }
    assert(w.take(w.len() as int) =~= w);
    out
}

fn push_copy(out: &mut Vec<(String, Vec<String>)>, v: &Vec<(String, Vec<String>)>, i: usize)
    requires
        i < v@.len(),
    ensures
        list_views(final(out)@) == list_views(old(out)@).push(list_views(v@)[i as int]),
{
    let ghost before = out@;
    let name: String = v[i].0.clone();
    let pkgs: Vec<String> = copy_texts(&v[i].1);
    let ghost n = name@;
    let ghost p = views(pkgs@);
    out.push((name, pkgs));
    assert(list_views(out@) =~= list_views(before).push((n, p)));
}

/// The names of the categories that could be loaded.
pub open spec fn loaded_names(all: Seq<(Seq<char>, Result<CategoryView, ErrorView>)>) -> Seq<Seq<char>>
    decreases all.len(),
{
    if all.len() == 0 {
        Seq::empty()
    } else if all.last().1 is Ok {
        loaded_names(all.drop_last()).push(all.last().0)
    } else {
        loaded_names(all.drop_last())
    }
}

/// The packages, sorted, of the category called `name`, where it could be loaded.
pub open spec fn current_packages(
    all: Seq<(Seq<char>, Result<CategoryView, ErrorView>)>,
    name: Seq<char>,
) -> Seq<Seq<char>>
    decreases all.len(),
{
    if all.len() == 0 {
        Seq::empty()
    } else {
        match all.last().1 {
            Ok(c) => if all.last().0 == name {
                sorted(c.packages)
            } else {
                current_packages(all.drop_last(), name)
            },
            Err(_) => current_packages(all.drop_last(), name),
        }
    }
}

/// Adding a name to the distinct names of a row gives the distinct names of the longer row.
proof fn lemma_unique_push(s: Seq<Seq<char>>, x: Seq<char>)
    ensures
        unique(unique(s).push(x)) == unique(s.push(x)),
{
    let a = unique(unique(s).push(x));
    let b = unique(s.push(x));
    lemma_unique(s);
    lemma_unique(unique(s).push(x));
    lemma_unique(s.push(x));
    assert forall|y: Seq<char>| #[trigger] a.contains(y) <==> b.contains(y) by {
        lemma_push_contains(unique(s), x, y);
        lemma_push_contains(s, x, y);
        assert(unique(s).contains(y) <==> s.contains(y));
        assert(a.contains(y) <==> unique(s).push(x).contains(y));
        assert(b.contains(y) <==> s.push(x).contains(y));
    }
    lemma_strictly_ascending_unique(a, b);
}

proof fn lemma_inserted(
    s: Seq<(Seq<char>, Seq<Seq<char>>)>,
    n: Seq<char>,
    v: Seq<Seq<char>>,
    p: int,
    q: int,
    r: Seq<(Seq<char>, Seq<Seq<char>>)>,
)
    requires
        strictly_ascending(names_of(s)),
        0 <= p <= q <= s.len(),
        forall|j: int| 0 <= j < p ==> le((#[trigger] s[j]).0, n) && s[j].0 != n,
        q == p || (q == p + 1 && s[p].0 == n),
        q == p && p < s.len() ==> !le(s[p].0, n),
        r == s.take(p).push((n, v)) + s.subrange(q, s.len() as int),
    ensures
        strictly_ascending(names_of(r)),
        names_of(r) == unique(names_of(s).push(n)),
        packages_in(r, n) == v,
        forall|m: Seq<char>| m != n ==> #[trigger] packages_in(r, m) == packages_in(s, m),
{
    let a = names_of(s);
    let b = names_of(r);
    let d = 1 + p - q;
    assert(forall|i: int| 0 <= i < p ==> #[trigger] r[i] == s[i]);
    assert(r[p] == (n, v));
    assert forall|i: int| p < i < r.len() implies #[trigger] r[i] == s[i - d] by {}
    assert forall|i: int| q <= i < s.len() implies le(n, (#[trigger] s[i]).0) && s[i].0 != n by {
        if q == p {
            lemma_le_total(s[p].0, n);
            if i > p {
                assert(le(a[p], a[i]) && a[p] != a[i]);
                lemma_le_transitive(n, s[p].0, s[i].0);
                if s[i].0 == n {
                    assert(le(s[p].0, n));
                }
            } else {
                if s[p].0 == n {
                    lemma_le_total(n, n);
                }
            }
        } else {
            assert(le(a[p], a[i]) && a[p] != a[i]);
        }
    }
    assert forall|i: int, j: int| 0 <= i < j < b.len() implies le(
        #[trigger] b[i],
        #[trigger] b[j],
    ) && b[i] != b[j] by {
        if j < p {
            assert(b[i] == a[i] && b[j] == a[j]);
        } else if j == p {
            assert(r[i] == s[i]);
        } else if i == p {
            assert(r[j] == s[j - d]);
        } else if i < p {
            assert(b[i] == a[i] && b[j] == a[j - d]);
        } else {
            assert(b[i] == a[i - d] && b[j] == a[j - d]);
        }
    }
    let u = unique(a.push(n));
    lemma_unique(a.push(n));
    assert forall|x: Seq<char>| #[trigger] b.contains(x) <==> u.contains(x) by {
        lemma_push_contains(a, n, x);
        assert(u.contains(x) <==> a.push(n).contains(x));
        if b.contains(x) {
            let i = choose|i: int| 0 <= i < b.len() && b[i] == x;
            if i < p {
                assert(a[i] == x);
            } else if i > p {
                assert(a[i - d] == x);
            }
        }
        if a.contains(x) {
            let i = choose|i: int| 0 <= i < a.len() && a[i] == x;
            if i < p {
                assert(b[i] == x);
            } else if i >= q {
                assert(r[i + d] == s[i]);
                assert(b[i + d] == x);
            } else {
                assert(b[p] == x);
            }
        }
        if x == n {
            assert(b[p] == x);
        }
    }
    lemma_strictly_ascending_unique(b, u);
    lemma_position_is(r, n, p);
    assert forall|m: Seq<char>| m != n implies #[trigger] packages_in(r, m) == packages_in(s, m) by {
        lemma_position_of(s, m);
        let k = position_of(s, m);
        if k < p {
            assert(r[k] == s[k]);
            lemma_position_is(r, m, k);
        } else {
            assert(k >= q);
            assert forall|j: int| 0 <= j < k + d implies (#[trigger] r[j]).0 != m by {
                if j < p {
                    assert(r[j] == s[j]);
                } else if j > p {
                    assert(r[j] == s[j - d]);
                }
            }
            if k < s.len() {
                assert(r[k + d] == s[k]);
            }
            lemma_position_is(r, m, k + d);
        }
    }
}

// ---------------------------------------------------------------------------
// Differences
// ---------------------------------------------------------------------------

/// The packages that one category has gained and lost.
#[derive(Debug)]
pub struct CategoryDiff {
    pub category: String,
    pub added: Vec<String>,
    pub removed: Vec<String>,
}

/// A [`CategoryDiff`] with its texts as character sequences.
pub struct DiffView {
    pub category: Seq<char>,
    pub added: Seq<Seq<char>>,
    pub removed: Seq<Seq<char>>,
}

impl View for CategoryDiff {
    type V = DiffView;

    open spec fn view(&self) -> DiffView {
        DiffView {
            category: self.category@,
            added: views(self.added@),
            removed: views(self.removed@),
        }
    }
}

/// The views of some differences.
pub open spec fn diff_views(v: Seq<CategoryDiff>) -> Seq<DiffView> {
    Seq::new(v.len(), |i: int| v[i]@)
}

/// The texts of `a` that are not in `b`.
pub open spec fn minus(a: Seq<Seq<char>>, b: Seq<Seq<char>>) -> Seq<Seq<char>>
    decreases a.len(),
{
    if a.len() == 0 {
        a
    } else if b.contains(a.last()) {
        minus(a.drop_last(), b)
    } else {
        minus(a.drop_last(), b).push(a.last())
    }
}

/// What a category has gained and lost.
pub open spec fn change(
    before: Seq<(Seq<char>, Seq<Seq<char>>)>,
    after: Seq<(Seq<char>, Seq<Seq<char>>)>,
    name: Seq<char>,
) -> DiffView {
    DiffView {
        category: name,
        added: minus(packages_in(after, name), packages_in(before, name)),
        removed: minus(packages_in(before, name), packages_in(after, name)),
    }
}

/// The changes of those of the categories that have changed.
pub open spec fn changes_among(
    before: Seq<(Seq<char>, Seq<Seq<char>>)>,
    after: Seq<(Seq<char>, Seq<Seq<char>>)>,
    names: Seq<Seq<char>>,
) -> Seq<DiffView>
    decreases names.len(),
{
    if names.len() == 0 {
        Seq::empty()
    } else {
        let rest = changes_among(before, after, names.drop_last());
        let c = change(before, after, names.last());
        if c.added.len() > 0 || c.removed.len() > 0 {
            rest.push(c)
        } else {
            rest
        }
    }
}

/// Every category that has changed, in ascending order of the names, with what it has gained and
/// lost.
pub open spec fn changes(
    before: Seq<(Seq<char>, Seq<Seq<char>>)>,
    after: Seq<(Seq<char>, Seq<Seq<char>>)>,
) -> Seq<DiffView> {
    changes_among(before, after, unique(names_of(before) + names_of(after)))
}

fn without_all(a: &Vec<String>, b: &Vec<String>) -> (r: Vec<String>)
    ensures
        views(r@) == minus(views(a@), views(b@)),
{
    let mut out: Vec<String> = Vec::new();
    let ghost w = views(a@);
    assert(views(out@) =~= minus(w.take(0), views(b@)));
    for i in 0..a.len()
        invariant
            w == views(a@),
            views(out@) == minus(w.take(i as int), views(b@)),
    {
        proof {
            assert(w.take(i + 1).drop_last() =~= w.take(i as int));
            assert(w.take(i + 1).last() == a@[i as int]@);
        }
        if !holds(b, &a[i]) {
            let s: String = a[i].clone();
            proof {
                lemma_views_push(out@, s);
            }
            out.push(s);
        }
    }
    assert(w.take(w.len() as int) =~= w);
    out
}

fn all_names(before: &State, after: &State) -> (r: Vec<String>)
    ensures
        views(r@) == names_of(before@) + names_of(after@),
{
    let mut out: Vec<String> = Vec::new();
    let a: &Vec<(String, Vec<String>)> = before.categories();
    let b: &Vec<(String, Vec<String>)> = after.categories();
    let ghost x = names_of(before@);
    let ghost y = names_of(after@);
    assert(views(out@) =~= x.take(0));
    for i in 0..a.len()
        invariant
            x == names_of(list_views(a@)),
            views(out@) == x.take(i as int),
    {
        let s: String = a[i].0.clone();
        proof {
            lemma_views_push(out@, s);
            assert(x.take(i + 1) =~= x.take(i as int).push(s@));
        }
        out.push(s);
    }
    assert(x.take(x.len() as int) + y.take(0) =~= x);
    for i in 0..b.len()
        invariant
            y == names_of(list_views(b@)),
            views(out@) == x + y.take(i as int),
    {
        let s: String = b[i].0.clone();
        proof {
            lemma_views_push(out@, s);
            assert((x + y.take(i as int)).push(s@) =~= x + y.take(i + 1));
        }
        out.push(s);
    }
    assert(y.take(y.len() as int) =~= y);
    out
}

/// What has changed from one state to another, category by category. A category without changes
/// is left out.
pub fn diff(old_state: &State, new_state: &State) -> (r: Vec<CategoryDiff>)
    ensures
        diff_views(r@) == changes(old_state@, new_state@),
{
    let names: Vec<String> = sort_unique(&all_names(old_state, new_state));
    let ghost a = old_state@;
    let ghost b = new_state@;
    let ghost w = views(names@);
    let mut out: Vec<CategoryDiff> = Vec::new();
    assert(diff_views(out@) =~= changes_among(a, b, w.take(0)));
    for i in 0..names.len()
        invariant
            w == views(names@),
            a == old_state@,
            b == new_state@,
            diff_views(out@) == changes_among(a, b, w.take(i as int)),
    {
        proof {
            assert(w.take(i + 1).drop_last() =~= w.take(i as int));
            assert(w.take(i + 1).last() == names@[i as int]@);
        }
        let old_pkgs: Vec<String> = old_state.packages(&names[i]);
        let new_pkgs: Vec<String> = new_state.packages(&names[i]);
        let added: Vec<String> = without_all(&new_pkgs, &old_pkgs);
        let removed: Vec<String> = without_all(&old_pkgs, &new_pkgs);
        assert(views(added@).len() == added@.len());
        assert(views(removed@).len() == removed@.len());
        if added.len() > 0 || removed.len() > 0 {
            let ghost before = out@;
            let d: CategoryDiff = CategoryDiff { category: names[i].clone(), added, removed };
            let ghost dv = d@;
            out.push(d);
            assert(diff_views(out@) =~= diff_views(before).push(dv));
        }
    }
    assert(w.take(w.len() as int) =~= w);
    out
}

// ---------------------------------------------------------------------------
// Laws
// ---------------------------------------------------------------------------

/// A difference of texts holds what is in the one and not in the other.
pub proof fn lemma_minus(a: Seq<Seq<char>>, b: Seq<Seq<char>>, x: Seq<char>)
    ensures
        minus(a, b).contains(x) <==> a.contains(x) && !b.contains(x),
        minus(a, b).len() > 0 ==> exists|y: Seq<char>| #[trigger] a.contains(y) && !b.contains(y),
    decreases a.len(),
{
    if a.len() > 0 {
        let t = a.drop_last();
        lemma_minus(t, b, x);
        assert(a =~= t.push(a.last()));
        lemma_push_contains(t, a.last(), x);
        if b.contains(a.last()) {
            if minus(a, b).len() > 0 {
                let y = choose|y: Seq<char>| #[trigger] t.contains(y) && !b.contains(y);
                lemma_push_contains(t, a.last(), y);
                assert(a.contains(y) && !b.contains(y));
            }
        } else {
            lemma_push_contains(minus(t, b), a.last(), x);
            lemma_push_contains(t, a.last(), a.last());
            assert(a.contains(a.last()) && !b.contains(a.last()));
        }
    }
}

proof fn lemma_changes_among(
    before: Seq<(Seq<char>, Seq<Seq<char>>)>,
    after: Seq<(Seq<char>, Seq<Seq<char>>)>,
    names: Seq<Seq<char>>,
)
    ensures
        forall|i: int|
            0 <= i < changes_among(before, after, names).len() ==> {
                let c = #[trigger] changes_among(before, after, names)[i];
                c == change(before, after, c.category) && (c.added.len() > 0 || c.removed.len() > 0)
            },
        forall|k: int|
            0 <= k < names.len() && (change(before, after, #[trigger] names[k]).added.len() > 0
                || change(before, after, names[k]).removed.len() > 0) ==> changes_among(
                before,
                after,
                names,
            ).contains(change(before, after, names[k])),
    decreases names.len(),
{
    if names.len() > 0 {
        let t = names.drop_last();
        let rest = changes_among(before, after, t);
        let now = changes_among(before, after, names);
        lemma_changes_among(before, after, t);
        assert forall|i: int| 0 <= i < now.len() implies ({
            let c = #[trigger] now[i];
            c == change(before, after, c.category) && (c.added.len() > 0 || c.removed.len() > 0)
        }) by {
            if i < rest.len() {
                assert(now[i] == rest[i]);
            }
        }
        assert forall|k: int|
            0 <= k < names.len() && (change(before, after, #[trigger] names[k]).added.len() > 0
                || change(before, after, names[k]).removed.len() > 0) implies now.contains(
            change(before, after, names[k]),
        ) by {
            let c = change(before, after, names[k]);
            if k < t.len() {
                assert(t[k] == names[k]);
                assert(rest.contains(c));
                let i = choose|i: int| 0 <= i < rest.len() && rest[i] == c;
                assert(now[i] == c);
            } else {
                assert(now[now.len() - 1] == c);
            }
        }
    }
}

/// A category is reported exactly where it has gained or lost a package, and it is reported with
/// what it has gained and lost.
pub proof fn changes_are_reported(
    before: Seq<(Seq<char>, Seq<Seq<char>>)>,
    after: Seq<(Seq<char>, Seq<Seq<char>>)>,
    name: Seq<char>,
    pkg: Seq<char>,
)
    ensures
        ({
            let c = change(before, after, name);
            let was = packages_in(before, name);
            let now = packages_in(after, name);
            &&& c.added.contains(pkg) <==> now.contains(pkg) && !was.contains(pkg)
            &&& c.removed.contains(pkg) <==> was.contains(pkg) && !now.contains(pkg)
            &&& changes(before, after).contains(c) <==> c.added.len() > 0 || c.removed.len() > 0
        }),
        forall|i: int|
            0 <= i < changes(before, after).len() ==> (#[trigger] changes(before, after)[i]) == change(
                before,
                after,
                changes(before, after)[i].category,
            ),
{
    let c = change(before, after, name);
    let was = packages_in(before, name);
    let now = packages_in(after, name);
    lemma_minus(now, was, pkg);
    lemma_minus(was, now, pkg);
    let a = names_of(before);
    let b = names_of(after);
    let all = a + b;
    let names = unique(all);
    lemma_unique(all);
    lemma_changes_among(before, after, names);
    lemma_position_of(before, name);
    lemma_position_of(after, name);
    if c.added.len() > 0 || c.removed.len() > 0 {
        if a.contains(name) {
            let i = choose|i: int| 0 <= i < a.len() && a[i] == name;
            assert(all[i] == name);
        } else {
            assert(was.len() == 0);
            assert(b.contains(name)) by {
                if !b.contains(name) {
                    assert(now.len() == 0);
                    assert(minus(now, was).len() == 0);
                    assert(minus(was, now).len() == 0);
                }
            }
            let i = choose|i: int| 0 <= i < b.len() && b[i] == name;
            assert(all[a.len() + i] == name);
        }
        assert(all.contains(name));
        assert(names.contains(name));
        let k = choose|k: int| 0 <= k < names.len() && names[k] == name;
        assert(names[k] == name);
    }
    if changes(before, after).contains(c) {
        let i = choose|i: int| 0 <= i < changes(before, after).len() && changes(before, after)[i] == c;
        assert(changes(before, after)[i] == c);
    }
}

/// Nothing has changed where every category has the packages that it had: so nothing is pending
/// right after a rebuild.
pub proof fn no_changes_without_change(
    before: Seq<(Seq<char>, Seq<Seq<char>>)>,
    after: Seq<(Seq<char>, Seq<Seq<char>>)>,
)
    requires
        forall|n: Seq<char>| #[trigger] packages_in(before, n) == packages_in(after, n),
    ensures
        changes(before, after).len() == 0,
{
    let names = unique(names_of(before) + names_of(after));
    lemma_changes_among(before, after, names);
    if changes(before, after).len() > 0 {
        let c = changes(before, after)[0];
        assert(packages_in(before, c.category) == packages_in(after, c.category));
        let p = packages_in(before, c.category);
        lemma_minus(p, p, Seq::empty());
    }
}

/// Gained and lost are swapped.
pub open spec fn turned(c: DiffView) -> DiffView {
    DiffView { category: c.category, added: c.removed, removed: c.added }
}

/// The categories that some changes are about.
pub open spec fn changed_names(v: Seq<DiffView>) -> Seq<Seq<char>> {
    v.map_values(|c: DiffView| c.category)
}

proof fn lemma_changes_turned(
    before: Seq<(Seq<char>, Seq<Seq<char>>)>,
    after: Seq<(Seq<char>, Seq<Seq<char>>)>,
    names: Seq<Seq<char>>,
)
    ensures
        changes_among(after, before, names) == changes_among(before, after, names).map_values(
            |c: DiffView| turned(c),
        ),
    decreases names.len(),
{
    if names.len() > 0 {
        lemma_changes_turned(before, after, names.drop_last());
        assert(change(after, before, names.last()) == turned(change(before, after, names.last())));
    }
    assert(changes_among(after, before, names) =~= changes_among(before, after, names).map_values(
        |c: DiffView| turned(c),
    ));
}

proof fn lemma_changes_ascend(
    before: Seq<(Seq<char>, Seq<Seq<char>>)>,
    after: Seq<(Seq<char>, Seq<Seq<char>>)>,
    names: Seq<Seq<char>>,
)
    requires
        strictly_ascending(names),
    ensures
        strictly_ascending(changed_names(changes_among(before, after, names))),
        forall|x: Seq<char>|
            #[trigger] changed_names(changes_among(before, after, names)).contains(x) ==> names.contains(
                x,
            ),
    decreases names.len(),
{
    if names.len() > 0 {
        let t = names.drop_last();
        let n = names.last();
        lemma_changes_ascend(before, after, t);
        let rest = changed_names(changes_among(before, after, t));
        let now = changed_names(changes_among(before, after, names));
        assert(now =~= rest || now =~= rest.push(n));
        assert forall|x: Seq<char>| #[trigger] now.contains(x) implies names.contains(x) by {
            let i = choose|i: int| 0 <= i < now.len() && now[i] == x;
            if i < rest.len() {
                assert(rest[i] == x);
                assert(rest.contains(x));
                let k = choose|k: int| 0 <= k < t.len() && t[k] == x;
                assert(names[k] == x);
            } else {
                assert(names[names.len() - 1] == x);
            }
        }
        assert forall|i: int, j: int| 0 <= i < j < now.len() implies le(
            #[trigger] now[i],
            #[trigger] now[j],
        ) && now[i] != now[j] by {
            if j < rest.len() {
                assert(le(rest[i], rest[j]) && rest[i] != rest[j]);
            } else {
                assert(rest[i] == now[i]);
                assert(rest.contains(now[i]));
                let k = choose|k: int| 0 <= k < t.len() && t[k] == now[i];
                assert(le(names[k], names[names.len() - 1]));
            }
        }
    }
}

/// The changes come in strictly ascending order of the categories; and seen the other way round,
/// what was gained is lost and what was lost is gained.
pub proof fn changes_ascend_and_turn(
    before: Seq<(Seq<char>, Seq<Seq<char>>)>,
    after: Seq<(Seq<char>, Seq<Seq<char>>)>,
)
    ensures
        strictly_ascending(changed_names(changes(before, after))),
        changes(after, before) == changes(before, after).map_values(|c: DiffView| turned(c)),
{
    let a = names_of(before) + names_of(after);
    let b = names_of(after) + names_of(before);
    lemma_unique(a);
    assert forall|x: Seq<char>| a.contains(x) <==> b.contains(x) by {
        if a.contains(x) {
            let i = choose|i: int| 0 <= i < a.len() && a[i] == x;
            let n = names_of(before).len() as int;
            let m = names_of(after).len() as int;
            assert(b[if i < n { m + i } else { i - n }] == x);
        }
        if b.contains(x) {
            let i = choose|i: int| 0 <= i < b.len() && b[i] == x;
            let n = names_of(before).len() as int;
            let m = names_of(after).len() as int;
            assert(a[if i < m { n + i } else { i - m }] == x);
        }
    }
    lemma_unique_of_same(a, b);
    lemma_changes_ascend(before, after, unique(a));
    lemma_changes_turned(before, after, unique(a));
}

} // verus!

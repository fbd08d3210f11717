//! Laws of editing categories: what an edit changes, what it leaves alone, and what undoes it.

use vstd::prelude::*;

use crate::category::{
    all_declared, conflicts, declares, declaring, duplicates, empty_category, entry_name, entry_of,
    identifiers, lemma_source_at, lemma_without_len, rendered, source_at, source_names, with_entry,
    with_package, with_source, without, without_entry, CategoryView, EntryView,
};
use crate::error::ErrorView;
use crate::order::{
    itself, le, lemma_push_contains, lemma_sort_by_key, lemma_sort_contains, lemma_sort_distinct,
    lemma_strictly_ascending_unique, lemma_unique, sorted, strictly_ascending, unique,
};
use crate::sources::SourceView;

verus! {

/// No name is declared twice in a category, neither by two sources nor by a package and a
/// source.
pub open spec fn clash_free(c: CategoryView) -> bool {
    &&& forall|i: int, j: int|
        0 <= i < j < c.github.len() ==> (#[trigger] c.github[i]).name != (#[trigger] c.github[j]).name
    &&& forall|i: int| 0 <= i < c.github.len() ==> !c.packages.contains((#[trigger] c.github[i]).name)
}

proof fn lemma_sorted_push(s: Seq<Seq<char>>, x: Seq<char>, y: Seq<char>)
    ensures
        sorted(s.push(x)).contains(y) <==> s.contains(y) || x == y,
{
    lemma_sort_contains(s.push(x), itself(), y);
    lemma_push_contains(s, x, y);
}

proof fn lemma_names_push(s: Seq<SourceView>, g: SourceView)
    ensures
        source_names(s.push(g)) == source_names(s).push(g.name),
{
    assert(source_names(s.push(g)) =~= source_names(s).push(g.name));
}

/// An inserted entry is declared, and no other name changes.
pub proof fn inserting_declares(c: CategoryView, e: EntryView, id: Seq<char>)
    ensures
        declares(with_entry(c, e), id) <==> declares(c, id) || id == entry_name(e),
{
    match e {
        EntryView::Plain(p) => {
            lemma_sorted_push(c.packages, p, id);
        },
        EntryView::Github(g) => {
            lemma_names_push(c.github, g);
            lemma_push_contains(source_names(c.github), g.name, id);
        },
    }
}

/// Inserting the same entry again changes nothing.
pub proof fn inserting_twice_is_inserting_once(c: CategoryView, e: EntryView)
    ensures
        with_entry(with_entry(c, e), e) == with_entry(c, e),
{
    inserting_declares(c, e, entry_name(e));
}

/// Inserting keeps a category free of clashes.
pub proof fn inserting_keeps_clash_free(c: CategoryView, e: EntryView)
    requires
        clash_free(c),
    ensures
        clash_free(with_entry(c, e)),
{
    let d = with_entry(c, e);
    if !declares(c, entry_name(e)) {
        match e {
            EntryView::Plain(p) => {
                assert forall|i: int| 0 <= i < d.github.len() implies !d.packages.contains(
                    (#[trigger] d.github[i]).name,
                ) by {
                    lemma_sorted_push(c.packages, p, d.github[i].name);
                    assert(source_names(c.github)[i] == c.github[i].name);
                }
            },
            EntryView::Github(g) => {
                assert forall|i: int, j: int| 0 <= i < j < d.github.len() implies (
                #[trigger] d.github[i]).name != (#[trigger] d.github[j]).name by {
                    assert(source_names(c.github)[i] == c.github[i].name);
                    if j < c.github.len() {
                        assert(d.github[j] == c.github[j]);
                    }
                }
                assert forall|i: int| 0 <= i < d.github.len() implies !d.packages.contains(
                    (#[trigger] d.github[i]).name,
                ) by {
                    if i < c.github.len() {
                        assert(d.github[i] == c.github[i]);
                    }
                }
            },
        }
    }
}

/// There is an entry to take exactly where the name is declared, and it has that name.
pub proof fn declared_names_have_entries(c: CategoryView, id: Seq<char>)
    ensures
        entry_of(c, id) is Some <==> declares(c, id),
        entry_of(c, id) matches Some(e) ==> entry_name(e) == id,
{
    lemma_source_at(c.github, id);
}

/// Taking an entry out of a category without clashes leaves its name undeclared, changes no
/// other name, and keeps the category free of clashes.
pub proof fn taking_undeclares(c: CategoryView, id: Seq<char>, other: Seq<char>)
    requires
        clash_free(c),
    ensures
        !declares(without_entry(c, id), id),
        other != id ==> (declares(without_entry(c, id), other) <==> declares(c, other)),
        clash_free(without_entry(c, id)),
{
    let d = without_entry(c, id);
    lemma_without_len(c.packages, id);
    lemma_source_at(c.github, id);
    let k = source_at(c.github, id);
    if c.packages.contains(id) {
        assert(!source_names(c.github).contains(id)) by {
            if source_names(c.github).contains(id) {
                assert(c.packages.contains(c.github[k].name));
            }
        }
        assert forall|i: int| 0 <= i < d.github.len() implies !d.packages.contains(
            (#[trigger] d.github[i]).name,
        ) by {
            let n = c.github[i].name;
            if n != id {
                assert(without(c.packages, id).contains(n) <==> c.packages.contains(n));
            }
        }
        if other != id {
            assert(without(c.packages, id).contains(other) <==> c.packages.contains(other));
        }
    } else if k < c.github.len() {
        let a = source_names(c.github);
        let b = source_names(d.github);
        assert forall|i: int| 0 <= i < d.github.len() implies #[trigger] d.github[i] == c.github[if i
            < k {
            i
        } else {
            i + 1
        }] by {}
        if b.contains(id) {
            let i = choose|i: int| 0 <= i < b.len() && b[i] == id;
            let j = if i < k { i } else { i + 1 };
            assert(d.github[i] == c.github[j]);
            assert(c.github[j].name == c.github[k].name);
        }
        if other != id {
            if b.contains(other) {
                let i = choose|i: int| 0 <= i < b.len() && b[i] == other;
                let j = if i < k { i } else { i + 1 };
                assert(d.github[i] == c.github[j]);
                assert(a[j] == other);
            }
            if a.contains(other) {
                let j = choose|j: int| 0 <= j < a.len() && a[j] == other;
                let i = if j < k { j } else { j - 1 };
                assert(j != k);
                assert(d.github[i] == c.github[j]);
                assert(b[i] == other);
            }
        }
    }
}

/// An entry that is moved is the entry that was taken: it arrives unchanged where its name is
/// free, be it a package or a GitHub source.
pub proof fn moving_keeps_the_entry(from: CategoryView, to: CategoryView, id: Seq<char>)
    requires
        clash_free(to),
        declares(from, id),
        !declares(to, id),
    ensures
        entry_of(with_entry(to, entry_of(from, id)->0), id) == entry_of(from, id),
{
    declared_names_have_entries(from, id);
    let e = entry_of(from, id)->0;
    let d = with_entry(to, e);
    match e {
        EntryView::Plain(p) => {
            lemma_sorted_push(to.packages, p, id);
        },
        EntryView::Github(g) => {
            lemma_source_at(d.github, id);
            lemma_names_push(to.github, g);
            lemma_push_contains(source_names(to.github), g.name, id);
            let k = source_at(d.github, id);
            if k < to.github.len() {
                assert(source_names(to.github)[k] == d.github[k].name);
            }
        },
    }
}

/// Taking an added package out again leaves the file as it would have been written before.
pub proof fn taking_undoes_adding(c: CategoryView, p: Seq<char>)
    requires
        !declares(c, p),
    ensures
        unique(without_entry(with_package(c, p), p).packages) == unique(c.packages),
        without_entry(with_package(c, p), p).github == c.github,
        rendered(without_entry(with_package(c, p), p)) == rendered(c),
{
    let d = with_package(c, p);
    let e = without_entry(d, p);
    lemma_sorted_push(c.packages, p, p);
    lemma_without_len(d.packages, p);
    lemma_unique(e.packages);
    lemma_unique(c.packages);
    assert forall|x: Seq<char>| #[trigger] unique(e.packages).contains(x) <==> unique(
        c.packages,
    ).contains(x) by {
        lemma_sorted_push(c.packages, p, x);
        if x != p {
            assert(without(d.packages, p).contains(x) <==> d.packages.contains(x));
        }
        assert(unique(e.packages).contains(x) <==> e.packages.contains(x));
        assert(unique(c.packages).contains(x) <==> c.packages.contains(x));
    }
    lemma_strictly_ascending_unique(unique(e.packages), unique(c.packages));
}

// ---------------------------------------------------------------------------
// Duplicates
// ---------------------------------------------------------------------------

proof fn lemma_declared_somewhere(
    all: Seq<(Seq<char>, Result<CategoryView, ErrorView>)>,
    id: Seq<char>,
)
    requires
        declaring(all, id).len() > 0,
    ensures
        all_declared(all).contains(id),
    decreases all.len(),
{
    let before = all_declared(all.drop_last());
    match all.last().1 {
        Ok(c) => {
            if declares(c, id) {
                let ids = identifiers(c);
                if c.packages.contains(id) {
                    let i = choose|i: int| 0 <= i < c.packages.len() && c.packages[i] == id;
                    assert(all_declared(all)[before.len() + i] == id);
                } else {
                    let n = source_names(c.github);
                    let i = choose|i: int| 0 <= i < n.len() && n[i] == id;
                    assert(ids[c.packages.len() + i] == id);
                    assert(all_declared(all)[before.len() + c.packages.len() + i] == id);
                }
            } else {
                lemma_declared_somewhere(all.drop_last(), id);
                let i = choose|i: int| 0 <= i < before.len() && before[i] == id;
                assert(all_declared(all)[i] == id);
            }
        },
        Err(_) => {
            lemma_declared_somewhere(all.drop_last(), id);
        },
    }
}

proof fn lemma_conflicts(
    all: Seq<(Seq<char>, Result<CategoryView, ErrorView>)>,
    ids: Seq<Seq<char>>,
)
    ensures
        forall|i: int|
            0 <= i < conflicts(all, ids).len() ==> {
                let d = #[trigger] conflicts(all, ids)[i];
                d.1 == declaring(all, d.0) && d.1.len() > 1 && ids.contains(d.0)
            },
        forall|k: int|
            0 <= k < ids.len() && declaring(all, #[trigger] ids[k]).len() > 1 ==> conflicts(
                all,
                ids,
            ).contains((ids[k], declaring(all, ids[k]))),
    decreases ids.len(),
{
    if ids.len() > 0 {
        let t = ids.drop_last();
        let before = conflicts(all, t);
        let now = conflicts(all, ids);
        lemma_conflicts(all, t);
        assert forall|i: int| 0 <= i < now.len() implies ({
            let d = #[trigger] now[i];
            d.1 == declaring(all, d.0) && d.1.len() > 1 && ids.contains(d.0)
        }) by {
            if i < before.len() {
                assert(now[i] == before[i]);
                let k = choose|k: int| 0 <= k < t.len() && t[k] == before[i].0;
                assert(ids[k] == now[i].0);
            } else {
                assert(ids[ids.len() - 1] == now[i].0);
            }
        }
        assert forall|k: int|
            0 <= k < ids.len() && declaring(all, #[trigger] ids[k]).len() > 1 implies now.contains(
            (ids[k], declaring(all, ids[k])),
        ) by {
            let want = (ids[k], declaring(all, ids[k]));
            if k < t.len() {
                assert(t[k] == ids[k]);
                assert(before.contains(want));
                let i = choose|i: int| 0 <= i < before.len() && before[i] == want;
                assert(now[i] == want);
            } else {
                assert(now[now.len() - 1] == want);
            }
        }
    }
}

/// A name is reported as a duplicate exactly where more than one category declares it, and it is
/// reported with those categories.
pub proof fn duplicates_are_reported(
    all: Seq<(Seq<char>, Result<CategoryView, ErrorView>)>,
    id: Seq<char>,
)
    ensures
        declaring(all, id).len() > 1 <==> duplicates(all).contains((id, declaring(all, id))),
        forall|i: int|
            0 <= i < duplicates(all).len() ==> {
                let d = #[trigger] duplicates(all)[i];
                d.1 == declaring(all, d.0) && d.1.len() > 1
            },
        duplicates(all).len() == 0 ==> declaring(all, id).len() <= 1,
{
    let ids = unique(all_declared(all));
    lemma_conflicts(all, ids);
    lemma_unique(all_declared(all));
    if declaring(all, id).len() > 1 {
        lemma_declared_somewhere(all, id);
        assert(ids.contains(id));
        let k = choose|k: int| 0 <= k < ids.len() && ids[k] == id;
        assert(declaring(all, ids[k]).len() > 1);
    }
    if duplicates(all).contains((id, declaring(all, id))) {
        let i = choose|i: int|
            0 <= i < duplicates(all).len() && duplicates(all)[i] == (id, declaring(all, id));
        assert(duplicates(all)[i].1.len() > 1);
    }
}

/// The packages of a category stand in ascending order, each once.
pub open spec fn orderly(c: CategoryView) -> bool {
    strictly_ascending(c.packages)
}

/// A strictly ascending row stays so where texts are left out.
proof fn lemma_without_ascends(s: Seq<Seq<char>>, x: Seq<char>)
    requires
        strictly_ascending(s),
    ensures
        strictly_ascending(without(s, x)),
    decreases s.len(),
{
    if s.len() > 0 {
        let t = s.drop_last();
        assert forall|i: int, j: int| 0 <= i < j < t.len() implies le(
            #[trigger] t[i],
            #[trigger] t[j],
        ) && t[i] != t[j] by {
            assert(le(s[i], s[j]) && s[i] != s[j]);
        }
        lemma_without_ascends(t, x);
        lemma_without_len(t, x);
        let w = without(s, x);
        let v = without(t, x);
        if s.last() != x {
            assert forall|i: int, j: int| 0 <= i < j < w.len() implies le(
                #[trigger] w[i],
                #[trigger] w[j],
            ) && w[i] != w[j] by {
                assert(w[i] == v[i]);
                if j < v.len() {
                    assert(w[j] == v[j]);
                } else {
                    assert(v.contains(v[i]));
                    assert(t.contains(v[i])) by {
                        if v[i] == x {
                            assert(!v.contains(x));
                        }
                    }
                    let k = choose|k: int| 0 <= k < t.len() && t[k] == v[i];
                    assert(le(s[k], s[s.len() - 1]) && s[k] != s[s.len() - 1]);
                }
            }
        }
    }
}

/// A strictly ascending row with one more text, sorted, is strictly ascending.
proof fn lemma_with_ascends(s: Seq<Seq<char>>, x: Seq<char>)
    requires
        strictly_ascending(s),
        !s.contains(x),
    ensures
        strictly_ascending(sorted(s.push(x))),
{
    let p = s.push(x);
    let w = sorted(p);
    assert forall|i: int, j: int| 0 <= i < j < p.len() implies #[trigger] itself()(p[i])
        != #[trigger] itself()(p[j]) by {
        if j < s.len() {
            assert(s[i] != s[j]);
        } else {
            assert(s.contains(s[i]));
        }
    }
    lemma_sort_distinct(p, itself());
    lemma_sort_by_key(p, itself());
    assert forall|i: int, j: int| 0 <= i < j < w.len() implies le(
        #[trigger] w[i],
        #[trigger] w[j],
    ) && w[i] != w[j] by {
        assert(le(itself()(w[i]), itself()(w[j])));
        assert(itself()(w[i]) != itself()(w[j]));
    }
}

/// A new category is orderly, and no edit makes an orderly category disorderly.
pub proof fn categories_stay_orderly(
    name: Seq<char>,
    path: Seq<char>,
    c: CategoryView,
    p: Seq<char>,
    g: SourceView,
    e: EntryView,
    id: Seq<char>,
)
    ensures
        orderly(empty_category(name, path)),
        orderly(c) ==> {
            &&& orderly(with_package(c, p))
            &&& orderly(with_source(c, g))
            &&& orderly(with_entry(c, e))
            &&& orderly(without_entry(c, id))
            &&& strictly_ascending(without(c.packages, id))
        },
{
    if orderly(c) {
        lemma_without_ascends(c.packages, id);
        if !c.packages.contains(p) {
            lemma_with_ascends(c.packages, p);
        }
        if let EntryView::Plain(q) = e {
            if !c.packages.contains(q) {
                lemma_with_ascends(c.packages, q);
            }
        }
    }
}

} // verus!

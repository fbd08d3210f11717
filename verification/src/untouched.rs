//! Laws of what an edit leaves alone, of which categories declare a name, and of the requests that
//! are refused.

use vstd::prelude::*;

use crate::category::{
    declares, declaring, entry_of, is_name, lemma_source_at, lemma_without_len, loaded, name_error,
    source_at, source_names, with_entry, with_package, with_source, without_entry, without_source,
    CategoryView, EntryView,
};
use crate::commands::{add_plan, broken_steps, chosen_category, move_plan, remove_plan, AddOptions};
use crate::error::ErrorView;
use crate::order::{itself, lemma_push_contains, lemma_sort_by_key, lemma_sort_contains};
use crate::outcomes::{adding_writes_one_file, lemma_failed_addition};
use crate::paths::{FileView, Found, PathsView};
use crate::plan::{no_steps, writes, OutcomeView, PlanView, StepView};
use crate::rebuild::Mode;
use crate::resolver::InfoView;
use crate::shown::{complains, shows, warned};
use crate::sources::SourceView;
use crate::sourcing::{outdated, remove_source_plan, requested_source};
use crate::text::join;

verus! {

// ---------------------------------------------------------------------------
// Edits
// ---------------------------------------------------------------------------

/// Two categories have the same name, path and text, the same packages but for `id`, and the same
/// sources but for those called `id`.
pub open spec fn same_but_for(c: CategoryView, d: CategoryView, id: Seq<char>) -> bool {
    &&& c.name == d.name && c.path == d.path && c.raw == d.raw
    &&& forall|x: Seq<char>|
        x != id ==> (#[trigger] c.packages.contains(x) <==> d.packages.contains(x))
    &&& forall|s: SourceView|
        s.name != id ==> (#[trigger] c.github.contains(s) <==> d.github.contains(s))
}

proof fn lemma_without_sources(v: Seq<SourceView>, id: Seq<char>, s: SourceView)
    ensures
        without_source(v, id).contains(s) <==> v.contains(s) && s.name != id,
    decreases v.len(),
{
    if v.len() > 0 {
        let t = v.drop_last();
        let w = without_source(v, id);
        let u = without_source(t, id);
        lemma_without_sources(t, id, s);
        if w.contains(s) {
            let i = choose|i: int| 0 <= i < w.len() && w[i] == s;
            if i < u.len() {
                assert(u[i] == s);
                let k = choose|k: int| 0 <= k < t.len() && t[k] == s;
                assert(v[k] == s);
            } else {
                assert(v[v.len() - 1] == s);
            }
        }
        if v.contains(s) && s.name != id {
            let i = choose|i: int| 0 <= i < v.len() && v[i] == s;
            if i < t.len() {
                assert(t[i] == s);
                let k = choose|k: int| 0 <= k < u.len() && u[k] == s;
                assert(w[k] == s);
            } else {
                assert(w[w.len() - 1] == s);
            }
        }
    }
}

/// Every edit is about one name, and leaves everything else of the category as it was.
pub proof fn edits_leave_the_rest_alone(
    c: CategoryView,
    p: Seq<char>,
    g: SourceView,
    e: EntryView,
    id: Seq<char>,
)
    ensures
        same_but_for(c, with_package(c, p), p),
        same_but_for(c, with_source(c, g), g.name),
        same_but_for(
            c,
            with_entry(c, e),
            match e {
                EntryView::Plain(q) => q,
                EntryView::Github(h) => h.name,
            },
        ),
        same_but_for(c, without_entry(c, id), id),
        same_but_for(c, CategoryView { github: without_source(c.github, id), ..c }, id),
{
    lemma_with_package_alone(c, p);
    lemma_with_source_alone(c, g);
    match e {
        EntryView::Plain(q) => lemma_with_package_alone(c, q),
        EntryView::Github(h) => lemma_with_source_alone(c, h),
    }
    assert forall|s: SourceView| s.name != id implies (#[trigger] c.github.contains(s)
        <==> without_source(c.github, id).contains(s)) by {
        lemma_without_sources(c.github, id, s);
    }
    lemma_without_len(c.packages, id);
    lemma_source_at(c.github, id);
    let k = source_at(c.github, id);
    if k < c.github.len() {
        let w = c.github.remove(k);
        assert forall|s: SourceView| s.name != id implies (#[trigger] c.github.contains(s)
            <==> w.contains(s)) by {
            if c.github.contains(s) {
                let i = choose|i: int| 0 <= i < c.github.len() && c.github[i] == s;
                assert(w[if i < k { i } else { i - 1 }] == s);
            }
            if w.contains(s) {
                let i = choose|i: int| 0 <= i < w.len() && w[i] == s;
                assert(c.github[if i < k { i } else { i + 1 }] == s);
            }
        }
    }
}

proof fn lemma_with_package_alone(c: CategoryView, p: Seq<char>)
    ensures
        same_but_for(c, with_package(c, p), p),
{
    let d = with_package(c, p);
    assert forall|x: Seq<char>| x != p implies (#[trigger] c.packages.contains(x)
        <==> d.packages.contains(x)) by {
        lemma_push_contains(c.packages, p, x);
        lemma_sort_contains(c.packages.push(p), itself(), x);
    }
}

proof fn lemma_with_source_alone(c: CategoryView, g: SourceView)
    ensures
        same_but_for(c, with_source(c, g), g.name),
{
    let d = with_source(c, g);
    assert forall|s: SourceView| s.name != g.name implies (#[trigger] c.github.contains(s)
        <==> d.github.contains(s)) by {
        if c.github.contains(s) {
            let i = choose|i: int| 0 <= i < c.github.len() && c.github[i] == s;
            assert(d.github[i] == s);
        }
        if d.github.contains(s) {
            let i = choose|i: int| 0 <= i < d.github.len() && d.github[i] == s;
            assert(i < c.github.len());
            assert(c.github[i] == s);
        }
    }
}

/// What an edit is for: an added package and an added source are there afterwards, a source with
/// all that it had, and what is taken out or removed is not.
pub proof fn edits_do_what_they_are_for(c: CategoryView, p: Seq<char>, g: SourceView, id: Seq<char>)
    ensures
        !declares(c, p) ==> with_package(c, p).packages.contains(p) && with_package(
            c,
            p,
        ).packages.len() == c.packages.len() + 1,
        !declares(c, g.name) ==> with_source(c, g).github == c.github.push(g),
        declares(c, p) ==> with_package(c, p) == c,
        declares(c, g.name) ==> with_source(c, g) == c,
        c.packages.contains(id) ==> !without_entry(c, id).packages.contains(id)
            && without_entry(c, id).github == c.github,
        forall|i: int|
            0 <= i < without_source(c.github, id).len() ==> (#[trigger] without_source(
                c.github,
                id,
            )[i]).name != id,
{
    lemma_sort_by_key(c.packages.push(p), itself());
    lemma_push_contains(c.packages, p, p);
    lemma_sort_contains(c.packages.push(p), itself(), p);
    lemma_without_len(c.packages, id);
    let w = without_source(c.github, id);
    assert forall|i: int| 0 <= i < w.len() implies (#[trigger] w[i]).name != id by {
        assert(w.contains(w[i]));
        lemma_without_sources(c.github, id, w[i]);
    }
}

/// What stands under a name: the package of that name, where it is listed; otherwise the first
/// source of that name, with all that it has; otherwise nothing. Putting it into a category puts a
/// package among the packages and a source among the sources.
pub proof fn names_stand_for_their_entries(c: CategoryView, id: Seq<char>, i: int, g: SourceView)
    ensures
        c.packages.contains(id) ==> entry_of(c, id) == Some(EntryView::Plain(id)),
        !c.packages.contains(id) && 0 <= i < c.github.len() && c.github[i].name == id && (forall|j: int|
            0 <= j < i ==> (#[trigger] c.github[j]).name != id) ==> entry_of(c, id) == Some(
            EntryView::Github(c.github[i]),
        ),
        !c.packages.contains(id) && (forall|j: int|
            0 <= j < c.github.len() ==> (#[trigger] c.github[j]).name != id) ==> entry_of(c, id) is None,
        !declares(c, id) ==> with_entry(c, EntryView::Plain(id)).packages.contains(id),
        !declares(c, g.name) ==> with_entry(c, EntryView::Github(g)).github == c.github.push(g),
{
    lemma_source_at(c.github, id);
    let k = source_at(c.github, id);
    if 0 <= i < c.github.len() && c.github[i].name == id {
        assert(source_names(c.github)[i] == id);
        if k < i {
            assert(c.github[k].name == id);
        }
    }
    edits_do_what_they_are_for(c, id, g, id);
}

// ---------------------------------------------------------------------------
// Declarations
// ---------------------------------------------------------------------------

/// A category that could be read and lists the name, as a package or as a source.
pub open spec fn lists_name(id: Seq<char>) -> spec_fn(
    (Seq<char>, Result<CategoryView, ErrorView>),
) -> bool {
    |e: (Seq<char>, Result<CategoryView, ErrorView>)|
        e.1 is Ok && ((e.1->Ok_0).packages.contains(id) || exists|j: int|
            0 <= j < (e.1->Ok_0).github.len() && (#[trigger] (e.1->Ok_0).github[j]).name == id)
}

/// The categories that declare a name are exactly those that could be read and list it, in their
/// order.
pub proof fn declaring_categories_list_the_name(
    all: Seq<(Seq<char>, Result<CategoryView, ErrorView>)>,
    id: Seq<char>,
)
    ensures
        declaring(all, id) == all.filter(lists_name(id)).map_values(
            |e: (Seq<char>, Result<CategoryView, ErrorView>)| e.0,
        ),
    decreases all.len(),
{
    reveal(Seq::filter);
    let f = |e: (Seq<char>, Result<CategoryView, ErrorView>)| e.0;
    if all.len() > 0 {
        declaring_categories_list_the_name(all.drop_last(), id);
        if all.last().1 is Ok {
            let c = all.last().1->Ok_0;
            if source_names(c.github).contains(id) {
                let j = choose|j: int| 0 <= j < c.github.len() && source_names(c.github)[j] == id;
                assert(c.github[j].name == id);
            }
            if exists|j: int| 0 <= j < c.github.len() && (#[trigger] c.github[j]).name == id {
                let j = choose|j: int| 0 <= j < c.github.len() && (#[trigger] c.github[j]).name == id;
                assert(source_names(c.github)[j] == id);
            }
            assert(lists_name(id)(all.last()) <==> declares(c, id));
        }
    }
    assert(declaring(all, id) =~= all.filter(lists_name(id)).map_values(f));
}

// ---------------------------------------------------------------------------
// Requests that are refused
// ---------------------------------------------------------------------------

/// The command fails with the given error and does nothing, not even show something.
pub open spec fn refused(plan: PlanView, e: ErrorView) -> bool {
    plan.steps.len() == 0 && plan.outcome == OutcomeView::Fail(e)
}

/// Where nothing is set up, every command that needs a setup says so, and does nothing.
pub proof fn nothing_works_before_setting_up(
    p: PathsView,
    found: Found,
    files: Seq<FileView>,
    id: Seq<char>,
    name: Option<Seq<char>>,
    target: Seq<char>,
    dry_run: bool,
    colors: bool,
)
    requires
        !found.dir || !found.default_nix,
    ensures
        refused(
            remove_plan(p, found, files, id, dry_run, colors),
            ErrorView::NotInitialized(p.nixlayer_dir),
        ),
        refused(
            remove_source_plan(p, found, files, id, dry_run, colors),
            ErrorView::NotInitialized(p.nixlayer_dir),
        ),
        refused(
            move_plan(p, found, files, id, target, dry_run, colors),
            ErrorView::NotInitialized(p.nixlayer_dir),
        ),
        chosen_category(p, found, name, target) == Err::<Seq<char>, ErrorView>(
            ErrorView::NotInitialized(p.nixlayer_dir),
        ),
        requested_source(p, found, files, id, name) == Err::<
            (Seq<char>, Seq<char>, Seq<char>),
            ErrorView,
        >(ErrorView::NotInitialized(p.nixlayer_dir)),
        outdated(p, found, files, id) == Err::<(CategoryView, SourceView), ErrorView>(
            ErrorView::NotInitialized(p.nixlayer_dir),
        ),
{
}

/// What no category declares cannot be removed, moved or updated, and what is there already
/// cannot be moved or added anew.
pub proof fn unknown_names_are_refused(
    p: PathsView,
    found: Found,
    files: Seq<FileView>,
    id: Seq<char>,
    target: Seq<char>,
    dry_run: bool,
    colors: bool,
)
    requires
        found.dir && found.default_nix,
    ensures
        ({
            let names = loaded(p, files).filter(lists_name(id));
            let unknown = ErrorView::PackageNotManaged(id);
            &&& names.len() == 0 ==> {
                &&& refused(remove_plan(p, found, files, id, dry_run, colors), unknown)
                &&& refused(remove_source_plan(p, found, files, id, dry_run, colors), unknown)
                &&& is_name(target) ==> refused(
                    move_plan(p, found, files, id, target, dry_run, colors),
                    unknown,
                )
                &&& outdated(p, found, files, id) == Err::<(CategoryView, SourceView), ErrorView>(
                    unknown,
                )
            }
            &&& names.len() == 1 && names[0].0 == target && is_name(target) ==> move_plan(
                p,
                found,
                files,
                id,
                target,
                dry_run,
                colors,
            ) == (PlanView {
                steps: seq![
                    shows("'"@ + id + "' is already in '"@ + target + "' — nothing to do."@),
                ],
                outcome: OutcomeView::Done,
            })
        }),
{
    declaring_categories_list_the_name(loaded(p, files), id);
    let names = loaded(p, files).filter(lists_name(id));
    if names.len() == 1 && names[0].0 == target {
        assert(declaring(loaded(p, files), id) =~= seq![target]);
        assert(no_steps().push(
            shows("'"@ + id + "' is already in '"@ + target + "' — nothing to do."@),
        ) =~= seq![shows("'"@ + id + "' is already in '"@ + target + "' — nothing to do."@)]);
    }
}

/// The name of a category is made of letters, digits, dashes and underscores, and starts with a
/// letter. Any other name is refused.
pub proof fn only_proper_names_are_accepted(
    p: PathsView,
    found: Found,
    files: Seq<FileView>,
    name: Seq<char>,
    default: Seq<char>,
    id: Seq<char>,
    dry_run: bool,
    colors: bool,
)
    requires
        found.dir && found.default_nix,
    ensures
        ({
            let letter = |c: char| ('a' <= c && c <= 'z') || ('A' <= c && c <= 'Z');
            let fine = {
                &&& name.len() > 0
                &&& letter(name[0])
                &&& forall|i: int|
                    0 <= i < name.len() ==> letter(#[trigger] name[i]) || ('0' <= name[i] && name[i]
                        <= '9') || name[i] == '-' || name[i] == '_'
            };
            let complaint = ErrorView::Other(
                "'"@ + name
                    + "' isn't a valid category name (use letters, digits, - or _, starting with a letter)"@,
            );
            &&& chosen_category(p, found, Some(name), default) == if fine {
                Ok::<Seq<char>, ErrorView>(name)
            } else {
                Err::<Seq<char>, ErrorView>(complaint)
            }
            &&& chosen_category(p, found, None, name) == chosen_category(
                p,
                found,
                Some(name),
                default,
            )
            &&& !fine ==> refused(move_plan(p, found, files, id, name, dry_run, colors), complaint)
        }),
{
    let letter = |c: char| ('a' <= c && c <= 'z') || ('A' <= c && c <= 'Z');
    let fine = {
        &&& name.len() > 0
        &&& letter(name[0])
        &&& forall|i: int|
            0 <= i < name.len() ==> letter(#[trigger] name[i]) || ('0' <= name[i] && name[i] <= '9')
                || name[i] == '-' || name[i] == '_'
    };
    assert(fine ==> is_name(name));
    assert(is_name(name) ==> fine);
    assert(name_error(name) == ErrorView::Other(
        "'"@ + name
            + "' isn't a valid category name (use letters, digits, - or _, starting with a letter)"@,
    ));
}

/// Adding: an unfree package is refused, with what to do about it, unless that was allowed; a
/// package that some category lists is refused, and the first such category is named; and where
/// the package is written, a rebuild follows exactly where one was asked for.
pub proof fn adding_is_refused_where_it_must_be(
    p: PathsView,
    files: Seq<FileView>,
    info: InfoView,
    category: Seq<char>,
    options: AddOptions,
    colors: bool,
)
    ensures
        ({
            let plan = add_plan(p, files, info, category, options, colors);
            let names = loaded(p, files).filter(lists_name(info.attribute));
            let barred = !info.free && !options.allow_unfree;
            let warning = if info.broken {
                seq![
                    shows(
                        warned(
                            colors,
                            "'"@ + info.attribute
                                + "' is currently marked BROKEN in nixpkgs — it may fail to build."@,
                        ),
                    ),
                ]
            } else {
                Seq::empty()
            };
            &&& barred ==> plan.outcome == OutcomeView::Done && plan.steps == warning + seq![
                complains(
                    colors,
                    "'"@ + info.attribute + "' is unfree (license: "@ + (if info.license.len() == 0 {
                        "proprietary"@
                    } else {
                        join(info.license, ", "@)
                    }) + ")."@,
                ),
                shows(
                    "NixOS will refuse to build unfree packages until allowUnfree is turned on."@,
                ),
                shows(
                    "Add `nixpkgs.config.allowUnfree = true;` to your own configuration (or run `nixlayer allow-unfree`), then re-run with --allow-unfree."@,
                ),
            ]
            &&& !barred && names.len() > 0 ==> plan.steps == warning && plan.outcome
                == OutcomeView::Fail(
                ErrorView::PackageAlreadyExists(info.attribute, names[0].0),
            )
            &&& writes(plan.steps).len() > 0 ==> plan.outcome == if options.rebuild {
                OutcomeView::Rebuild(Mode::Switch)
            } else {
                OutcomeView::Done
            }
        }),
{
    let plan = add_plan(p, files, info, category, options, colors);
    declaring_categories_list_the_name(loaded(p, files), info.attribute);
    let names = loaded(p, files).filter(lists_name(info.attribute));
    let steps = broken_steps(info, colors);
    adding_writes_one_file(p, files, info, category, options, colors);
    let none: Seq<StepView> = Seq::empty();
    let warning = if info.broken {
        seq![
            shows(
                warned(
                    colors,
                    "'"@ + info.attribute
                        + "' is currently marked BROKEN in nixpkgs — it may fail to build."@,
                ),
            ),
        ]
    } else {
        none
    };
    assert(steps =~= warning);
    if !info.free && !options.allow_unfree {
        let n = steps.len() as int;
        assert(plan.steps =~= warning + seq![plan.steps[n], plan.steps[n + 1], plan.steps[n + 2]]);
    } else {
        lemma_failed_addition(p, files, info, category, options, colors);
    }
}

} // verus!

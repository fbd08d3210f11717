//! Laws of what the commands that edit tell the user: what was done, or would be done, to which
//! file, and nothing else.

use vstd::prelude::*;

use crate::category::{
    declares, declaring, entry_of, is_name, lemma_source_at, load_named, loaded, rendered,
    source_at, source_names, with_package, with_source, without_entry, without_source, CategoryView,
    DEFAULT_CATEGORY,
};
use crate::commands::{
    add_plan, broken_steps, chosen_category, move_plan, previewed, removing, target_category,
    would_take, AddOptions,
};
use crate::error::ErrorView;
use crate::github::PinnedView;
use crate::import::IMPORT_CATEGORY;
use crate::nixfile::shorten;
use crate::paths::{category_path, FileView, Found, PathsView};
use crate::plan::{no_steps, OutcomeView, PlanView, StepView};
use crate::rebuild::Mode;
use crate::resolver::InfoView;
use crate::shown::{confirmed, dimmed, field, lemma_field, shows, warned};
use crate::sources::SourceView;
use crate::sourcing::{
    add_source_plan, outdated, pinned_lines, removing_sources, requested_source, update_plan,
};
use crate::text::{join, lemma_until, lines, until};
use crate::untouched::{declaring_categories_list_the_name, lists_name};

verus! {

// ---------------------------------------------------------------------------
// Lines
// ---------------------------------------------------------------------------

/// The hint that ends every edit.
pub open spec fn hinted(colors: bool) -> StepView {
    shows(dimmed(colors, "Run `nixlayer rebuild` to apply."@))
}

/// What a dry run would add.
pub open spec fn adds(colors: bool, id: Seq<char>, path: Seq<char>) -> StepView {
    shows(dimmed(colors, "[dry-run]"@) + " would add '"@ + id + "' to "@ + path)
}

/// What a dry run would remove.
pub open spec fn removes(colors: bool, id: Seq<char>, path: Seq<char>) -> StepView {
    shows(dimmed(colors, "[dry-run]"@) + " would remove '"@ + id + "' from "@ + path)
}

/// The preview of a file: each of its lines, indented.
pub open spec fn preview(text: Seq<char>) -> Seq<StepView> {
    Seq::new(lines(text).len(), |i: int| shows("    "@ + lines(text)[i]))
}

proof fn lemma_preview(steps: Seq<StepView>, ls: Seq<Seq<char>>)
    ensures
        previewed(steps, ls) == steps + Seq::new(ls.len(), |i: int| shows("    "@ + ls[i])),
    decreases ls.len(),
{
    if ls.len() > 0 {
        lemma_preview(steps, ls.drop_last());
    }
    assert(previewed(steps, ls) =~= steps + Seq::new(ls.len(), |i: int| shows("    "@ + ls[i])));
}

// ---------------------------------------------------------------------------
// add, remove and move
// ---------------------------------------------------------------------------

/// The warning about a broken package, where it is one.
pub open spec fn warning(info: InfoView, colors: bool) -> Seq<StepView> {
    if info.broken {
        seq![
            shows(
                warned(
                    colors,
                    "'"@ + info.attribute
                        + "' is currently marked BROKEN in nixpkgs — it may fail to build."@,
                ),
            ),
        ]
    } else {
        Seq::empty()
    }
}

/// Adding a package that is nowhere listed writes the category that lists it as well, tells so,
/// and starts a rebuild where one was asked for. A dry run shows the file instead.
pub proof fn additions_are_told(
    p: PathsView,
    files: Seq<FileView>,
    info: InfoView,
    category: Seq<char>,
    options: AddOptions,
    colors: bool,
)
    requires
        info.free || options.allow_unfree,
        loaded(p, files).filter(lists_name(info.attribute)).len() == 0,
        target_category(p, files, category) is Ok,
        rendered(with_package(target_category(p, files, category)->Ok_0, info.attribute)) is Ok,
    ensures
        ({
            let plan = add_plan(p, files, info, category, options, colors);
            let id = info.attribute;
            let d = with_package(target_category(p, files, category)->Ok_0, id);
            let text = rendered(d)->Ok_0;
            &&& !options.dry_run ==> plan == (PlanView {
                steps: warning(info, colors) + seq![
                    StepView::Write(d.path, text),
                    shows(confirmed(colors, "added '"@ + id + "' to "@ + d.path)),
                    hinted(colors),
                ],
                outcome: if options.rebuild {
                    OutcomeView::Rebuild(Mode::Switch)
                } else {
                    OutcomeView::Done
                },
            })
            &&& options.dry_run ==> plan == (PlanView {
                steps: warning(info, colors) + seq![adds(colors, id, d.path)] + preview(text),
                outcome: OutcomeView::Done,
            })
        }),
{
    declaring_categories_list_the_name(loaded(p, files), info.attribute);
    let plan = add_plan(p, files, info, category, options, colors);
    let id = info.attribute;
    let d = with_package(target_category(p, files, category)->Ok_0, id);
    let text = rendered(d)->Ok_0;
    let w = warning(info, colors);
    assert(broken_steps(info, colors) =~= w);
    if options.dry_run {
        lemma_preview(w.push(adds(colors, id, d.path)), lines(text));
        assert(w.push(adds(colors, id, d.path)) =~= w + seq![adds(colors, id, d.path)]);
    } else {
        let n = w.len() as int;
        assert(plan.steps =~= w + seq![plan.steps[n], plan.steps[n + 1], plan.steps[n + 2]]);
    }
}

proof fn lemma_first_part(steps: Seq<StepView>, each: Seq<Seq<StepView>>)
    requires
        each.len() > 0,
    ensures
        (steps + each[0]) + each.drop_first().flatten() == steps + each.flatten(),
{
    assert(each.flatten() == each.first() + each.drop_first().flatten());
    assert((steps + each[0]) + each.drop_first().flatten() =~= steps + each.flatten());
}

proof fn lemma_no_part(steps: Seq<StepView>, each: Seq<Seq<StepView>>)
    requires
        each.len() == 0,
    ensures
        steps + each.flatten() == steps,
{
    assert(each.flatten() =~= Seq::empty());
    assert(steps + each.flatten() =~= steps);
}

proof fn lemma_end(steps: Seq<StepView>, dry_run: bool, x: StepView)
    ensures
        (if dry_run {
            steps
        } else {
            steps.push(x)
        }) == steps + (if dry_run {
            Seq::empty()
        } else {
            seq![x]
        }),
{
    assert(steps + Seq::<StepView>::empty() =~= steps);
    assert(steps.push(x) =~= steps + seq![x]);
}

/// What is done and told of removing a name from one category.
pub open spec fn removal_steps(
    p: PathsView,
    files: Seq<FileView>,
    id: Seq<char>,
    name: Seq<char>,
    dry_run: bool,
    colors: bool,
) -> Seq<StepView> {
    let d = without_entry(load_named(p, files, name)->Ok_0, id);
    if dry_run {
        seq![removes(colors, id, d.path)]
    } else {
        seq![
            StepView::Write(d.path, rendered(d)->Ok_0),
            shows(confirmed(colors, "removed '"@ + id + "' from "@ + d.path)),
        ]
    }
}

proof fn lemma_removing_first(
    p: PathsView,
    files: Seq<FileView>,
    id: Seq<char>,
    names: Seq<Seq<char>>,
    dry_run: bool,
    colors: bool,
    steps: Seq<StepView>,
)
    requires
        names.len() > 0,
        load_named(p, files, names[0]) is Ok,
        declares(load_named(p, files, names[0])->Ok_0, id),
        rendered(without_entry(load_named(p, files, names[0])->Ok_0, id)) is Ok,
    ensures
        removing(p, files, id, names, dry_run, colors, steps) == removing(
            p,
            files,
            id,
            names.drop_first(),
            dry_run,
            colors,
            steps + removal_steps(p, files, id, names[0], dry_run, colors),
        ),
{
    let c = load_named(p, files, names[0])->Ok_0;
    let d = without_entry(c, id);
    lemma_source_at(c.github, id);
    assert(entry_of(c, id) is Some);
    let next = steps + removal_steps(p, files, id, names[0], dry_run, colors);
    if dry_run {
        assert(steps.push(removes(colors, id, d.path)) =~= next);
    } else {
        assert(steps.push(StepView::Write(d.path, rendered(d)->Ok_0)).push(
            shows(confirmed(colors, "removed '"@ + id + "' from "@ + d.path)),
        ) =~= next);
    }
}

/// A name is removed from every category that lists it, one after the other, and each removal is
/// told; a dry run tells each and writes nothing.
pub proof fn removals_are_told(
    p: PathsView,
    files: Seq<FileView>,
    id: Seq<char>,
    names: Seq<Seq<char>>,
    dry_run: bool,
    colors: bool,
    steps: Seq<StepView>,
)
    requires
        forall|i: int|
            0 <= i < names.len() ==> load_named(p, files, #[trigger] names[i]) is Ok && declares(
                load_named(p, files, names[i])->Ok_0,
                id,
            ) && rendered(without_entry(load_named(p, files, names[i])->Ok_0, id)) is Ok,
    ensures
        ({
            let each = Seq::new(
                names.len(),
                |i: int| removal_steps(p, files, id, names[i], dry_run, colors),
            );
            removing(p, files, id, names, dry_run, colors, steps) == (PlanView {
                steps: steps + each.flatten() + (if dry_run {
                    Seq::empty()
                } else {
                    seq![hinted(colors)]
                }),
                outcome: OutcomeView::Done,
            })
        }),
    decreases names.len(),
{
    let each = Seq::new(
        names.len(),
        |i: int| removal_steps(p, files, id, names[i], dry_run, colors),
    );
    if names.len() == 0 {
        lemma_no_part(steps, each);
        lemma_end(steps, dry_run, hinted(colors));
    } else {
        let rest = names.drop_first();
        let next = steps + each[0];
        lemma_removing_first(p, files, id, names, dry_run, colors, steps);
        assert forall|i: int| 0 <= i < rest.len() implies load_named(p, files, #[trigger] rest[i]) is Ok
            && declares(load_named(p, files, rest[i])->Ok_0, id) && rendered(
            without_entry(load_named(p, files, rest[i])->Ok_0, id),
        ) is Ok by {
            assert(rest[i] == names[i + 1]);
        }
        removals_are_told(p, files, id, rest, dry_run, colors, next);
        assert(each.drop_first() =~= Seq::new(
            rest.len(),
            |i: int| removal_steps(p, files, id, rest[i], dry_run, colors),
        ));
        lemma_first_part(steps, each);
    }
}

/// A dry run of a move tells from which categories the name would be taken, in order, and to which
/// it would be added.
pub proof fn dry_moves_are_told(
    p: PathsView,
    found: Found,
    files: Seq<FileView>,
    id: Seq<char>,
    target: Seq<char>,
    colors: bool,
)
    requires
        found.dir && found.default_nix,
        is_name(target),
        loaded(p, files).filter(lists_name(id)).len() > 0,
        !(loaded(p, files).filter(lists_name(id)).len() == 1 && loaded(p, files).filter(
            lists_name(id),
        )[0].0 == target),
    ensures
        ({
            let names = loaded(p, files).filter(lists_name(id));
            move_plan(p, found, files, id, target, true, colors) == (PlanView {
                steps: Seq::new(
                    names.len(),
                    |i: int| removes(colors, id, category_path(p, names[i].0)),
                ) + seq![adds(colors, id, category_path(p, target))],
                outcome: OutcomeView::Done,
            })
        }),
{
    let all = loaded(p, files).filter(lists_name(id));
    declaring_categories_list_the_name(loaded(p, files), id);
    let names = declaring(loaded(p, files), id);
    assert(names.len() == all.len());
    assert(names[0] == all[0].0);
    assert(names != seq![target]) by {
        if names == seq![target] {
            assert(names[0] == seq![target][0]);
        }
    }
    lemma_would_take(p, id, names, colors);
    let taken = Seq::new(names.len(), |i: int| removes(colors, id, category_path(p, names[i])));
    assert(taken =~= Seq::new(
        all.len(),
        |i: int| removes(colors, id, category_path(p, all[i].0)),
    ));
    let last = adds(colors, id, category_path(p, target));
    assert(taken.push(last) =~= taken + seq![last]);
}

proof fn lemma_would_take(p: PathsView, id: Seq<char>, names: Seq<Seq<char>>, colors: bool)
    ensures
        would_take(p, id, names, colors) == Seq::new(
            names.len(),
            |i: int| removes(colors, id, category_path(p, names[i])),
        ),
    decreases names.len(),
{
    if names.len() > 0 {
        lemma_would_take(p, id, names.drop_last(), colors);
    }
    assert(would_take(p, id, names, colors) =~= Seq::new(
        names.len(),
        |i: int| removes(colors, id, category_path(p, names[i])),
    ));
}

/// A move that succeeds ends by telling what was moved, from which categories and to which.
pub proof fn moves_are_told(
    p: PathsView,
    found: Found,
    files: Seq<FileView>,
    id: Seq<char>,
    target: Seq<char>,
    colors: bool,
)
    ensures
        ({
            let plan = move_plan(p, found, files, id, target, false, colors);
            let all = loaded(p, files).filter(lists_name(id));
            let names = all.map_values(|e: (Seq<char>, Result<CategoryView, ErrorView>)| e.0);
            let n = plan.steps.len();
            plan.outcome == OutcomeView::Done && names != seq![target] ==> {
                &&& n >= 3
                &&& plan.steps[n - 3] is Write
                &&& plan.steps[n - 2] == shows(
                    confirmed(
                        colors,
                        "moved '"@ + id + "' from "@ + join(names, ", "@) + " to "@ + target,
                    ),
                )
                &&& plan.steps[n - 1] == hinted(colors)
            }
        }),
{
    declaring_categories_list_the_name(loaded(p, files), id);
}

// ---------------------------------------------------------------------------
// github
// ---------------------------------------------------------------------------

/// A request names the owner and the repository on the two sides of its first slash. The source is
/// called like the repository unless it is given a name; that name must be a proper one that no
/// category lists.
pub proof fn requests_name_owner_and_repository(
    p: PathsView,
    found: Found,
    files: Seq<FileView>,
    owner: Seq<char>,
    repo: Seq<char>,
    name: Option<Seq<char>>,
)
    requires
        found.dir && found.default_nix,
        forall|i: int| 0 <= i < owner.len() ==> owner[i] != '/',
    ensures
        ({
            let called = match name {
                Some(n) => n,
                None => repo,
            };
            let names = loaded(p, files).filter(lists_name(called));
            let r = requested_source(p, found, files, owner + seq!['/'] + repo, name);
            &&& !is_name(called) ==> r is Err
            &&& is_name(called) && names.len() > 0 ==> r == Err::<
                (Seq<char>, Seq<char>, Seq<char>),
                ErrorView,
            >(ErrorView::PackageAlreadyExists(called, names[0].0))
            &&& is_name(called) && names.len() == 0 ==> r == Ok::<
                (Seq<char>, Seq<char>, Seq<char>),
                ErrorView,
            >((owner, repo, called))
            &&& requested_source(p, found, files, owner, name) == Err::<
                (Seq<char>, Seq<char>, Seq<char>),
                ErrorView,
            >(
                ErrorView::Other(
                    "'"@ + owner + "' should look like owner/repo, e.g. hyprwm/Hyprland"@,
                ),
            )
        }),
{
    let s = owner + seq!['/'] + repo;
    let called = match name {
        Some(n) => n,
        None => repo,
    };
    declaring_categories_list_the_name(loaded(p, files), called);
    let n = owner.len() as int;
    assert(s[n] == '/');
    assert forall|i: int| 0 <= i < n implies s[i] != '/' by {
        assert(s[i] == owner[i]);
    }
    lemma_until(s, '/');
    assert(until(s, '/') == n);
    assert(s.take(n) =~= owner);
    assert(s.skip(n + 1) =~= repo);
    lemma_until(owner, '/');
    assert(until(owner, '/') == owner.len());
}

/// What is told of a pinned source: its commit, shortened, where it comes from, and what the flake
/// says of itself.
pub proof fn pins_are_told(name: Seq<char>, g: PinnedView, colors: bool)
    ensures
        pinned_lines(name, g, colors) == seq![
            shows(
                confirmed(
                    colors,
                    "pinned to commit "@ + shorten(g.rev, 12) + " ("@ + ("github:"@ + g.owner + "/"@
                        + g.repo + "/"@ + g.rev) + ")"@,
                ),
            ),
        ] + field("  description: "@, g.description) + field("  homepage: "@, g.homepage),
{
    let s = pinned_lines(name, g, colors);
    let first = no_steps().push(s[0]);
    assert(first =~= seq![s[0]]);
    lemma_field(first, "  description: "@, g.description);
    lemma_field(
        first + field("  description: "@, g.description),
        "  homepage: "@,
        g.homepage,
    );
}

/// Adding a source writes the category that lists it as well and tells where it comes from. A dry
/// run shows the file instead. Without a category, the source goes to `app`.
pub proof fn added_sources_are_told(
    p: PathsView,
    files: Seq<FileView>,
    request: (Seq<char>, Seq<char>),
    name: Seq<char>,
    g: PinnedView,
    category: Seq<char>,
    colors: bool,
)
    requires
        is_name(category),
        target_category(p, files, category) is Ok,
        rendered(
            with_source(
                target_category(p, files, category)->Ok_0,
                SourceView {
                    name,
                    owner: g.owner,
                    repo: g.repo,
                    rev: g.rev,
                    git_ref: g.git_ref,
                    attr: g.attr,
                },
            ),
        ) is Ok,
    ensures
        ({
            let d = with_source(
                target_category(p, files, category)->Ok_0,
                SourceView {
                    name,
                    owner: g.owner,
                    repo: g.repo,
                    rev: g.rev,
                    git_ref: g.git_ref,
                    attr: g.attr,
                },
            );
            let text = rendered(d)->Ok_0;
            &&& add_source_plan(p, files, request, name, g, Some(category), false, colors) == (PlanView {
                steps: pinned_lines(name, g, colors) + seq![
                    StepView::Write(d.path, text),
                    shows(
                        confirmed(
                            colors,
                            "added '"@ + name + "' (from github:"@ + request.0 + "/"@ + request.1
                                + ") to "@ + d.path,
                        ),
                    ),
                    hinted(colors),
                ],
                outcome: OutcomeView::Done,
            })
            &&& add_source_plan(p, files, request, name, g, Some(category), true, colors) == (PlanView {
                steps: pinned_lines(name, g, colors) + seq![adds(colors, name, d.path)] + preview(
                    text,
                ),
                outcome: OutcomeView::Done,
            })
        }),
        add_source_plan(p, files, request, name, g, None, false, colors) == add_source_plan(
            p,
            files,
            request,
            name,
            g,
            Some("app"@),
            false,
            colors,
        ),
{
    let w = pinned_lines(name, g, colors);
    let n = w.len() as int;
    let plan = add_source_plan(p, files, request, name, g, Some(category), false, colors);
    assert(plan.steps =~= w + seq![plan.steps[n], plan.steps[n + 1], plan.steps[n + 2]]);
    let d = with_source(
        target_category(p, files, category)->Ok_0,
        SourceView {
            name,
            owner: g.owner,
            repo: g.repo,
            rev: g.rev,
            git_ref: g.git_ref,
            attr: g.attr,
        },
    );
    lemma_preview(w.push(adds(colors, name, d.path)), lines(rendered(d)->Ok_0));
    assert(w.push(adds(colors, name, d.path)) =~= w + seq![adds(colors, name, d.path)]);
}

/// The source that is updated is the first one of that name in the first category that lists it;
/// where that category lists a plain package of that name, the user is told.
pub proof fn the_first_source_is_updated(p: PathsView, found: Found, files: Seq<FileView>, name: Seq<char>)
    requires
        found.dir && found.default_nix,
        loaded(p, files).filter(lists_name(name)).len() > 0,
    ensures
        ({
            let first = loaded(p, files).filter(lists_name(name))[0].0;
            match load_named(p, files, first) {
                Err(e) => outdated(p, found, files, name) == Err::<(CategoryView, SourceView), ErrorView>(
                    e,
                ),
                Ok(c) => {
                    &&& forall|i: int|
                        0 <= i < c.github.len() && (#[trigger] c.github[i]).name == name && (forall|j: int|
                            0 <= j < i ==> (#[trigger] c.github[j]).name != name) ==> outdated(
                            p,
                            found,
                            files,
                            name,
                        ) == Ok::<(CategoryView, SourceView), ErrorView>((c, c.github[i]))
                    &&& (forall|i: int| 0 <= i < c.github.len() ==> (#[trigger] c.github[i]).name != name)
                        ==> outdated(p, found, files, name) == Err::<
                        (CategoryView, SourceView),
                        ErrorView,
                    >(
                        ErrorView::Other(
                            "'"@ + name + "' is in "@ + first + " but isn't a GitHub source."@,
                        ),
                    )
                },
            }
        }),
{
    declaring_categories_list_the_name(loaded(p, files), name);
    let first = loaded(p, files).filter(lists_name(name))[0].0;
    if let Ok(c) = load_named(p, files, first) {
        lemma_source_at(c.github, name);
        let k = source_at(c.github, name);
        assert forall|i: int|
            0 <= i < c.github.len() && (#[trigger] c.github[i]).name == name && (forall|j: int|
                0 <= j < i ==> (#[trigger] c.github[j]).name != name) implies i == k by {
            assert(source_names(c.github)[i] == name);
            if k < i {
                assert(c.github[k].name == name);
            }
        }
    }
}

/// An update tells the two commits, shortened: that nothing is newer, what a dry run would move,
/// or what was moved. Nothing is written unless the commit is another one.
pub proof fn updates_are_told(
    c: CategoryView,
    existing: SourceView,
    name: Seq<char>,
    g: PinnedView,
    dry_run: bool,
    colors: bool,
)
    ensures
        ({
            let plan = update_plan(c, existing, name, g, dry_run, colors);
            let was = shorten(existing.rev, 12);
            let now = shorten(g.rev, 12);
            &&& g.rev == existing.rev ==> plan == (PlanView {
                steps: seq![
                    shows(
                        "'"@ + name + "' is already pinned to the latest commit ("@ + was + ")."@,
                    ),
                ],
                outcome: OutcomeView::Done,
            })
            &&& g.rev != existing.rev && dry_run ==> plan == (PlanView {
                steps: seq![
                    shows(
                        dimmed(colors, "[dry-run]"@) + " would move '"@ + name + "' from "@ + was
                            + " to "@ + now,
                    ),
                ],
                outcome: OutcomeView::Done,
            })
            &&& g.rev != existing.rev && !dry_run && plan.outcome == OutcomeView::Done ==> {
                &&& plan.steps.len() == 3
                &&& plan.steps[0] matches StepView::Write(path, _) && path == c.path
                &&& plan.steps[1] == shows(
                    confirmed(colors, "updated '"@ + name + "': "@ + was + " -> "@ + now),
                )
                &&& plan.steps[2] == hinted(colors)
            }
        }),
{
    let plan = update_plan(c, existing, name, g, dry_run, colors);
    if g.rev == existing.rev || dry_run {
        assert(plan.steps =~= seq![plan.steps[0]]);
    }
}

/// What is done and told of removing a source from one category that declares its name.
pub open spec fn source_removal_steps(
    p: PathsView,
    files: Seq<FileView>,
    name: Seq<char>,
    category: Seq<char>,
    dry_run: bool,
    colors: bool,
) -> Seq<StepView> {
    let c = load_named(p, files, category)->Ok_0;
    let d = CategoryView { github: without_source(c.github, name), ..c };
    if forall|i: int| 0 <= i < c.github.len() ==> (#[trigger] c.github[i]).name != name {
        seq![
            shows(
                warned(
                    colors,
                    "'"@ + name + "' is declared in "@ + category
                        + " but not as a GitHub source — skipping (use `nixlayer remove` for plain packages)."@,
                ),
            ),
        ]
    } else if dry_run {
        seq![removes(colors, name, c.path)]
    } else {
        seq![
            StepView::Write(c.path, rendered(d)->Ok_0),
            shows(confirmed(colors, "removed '"@ + name + "' from "@ + c.path)),
        ]
    }
}

proof fn lemma_removing_first_source(
    p: PathsView,
    files: Seq<FileView>,
    name: Seq<char>,
    names: Seq<Seq<char>>,
    dry_run: bool,
    colors: bool,
    steps: Seq<StepView>,
)
    requires
        names.len() > 0,
        load_named(p, files, names[0]) is Ok,
        ({
            let c = load_named(p, files, names[0])->Ok_0;
            rendered(CategoryView { github: without_source(c.github, name), ..c }) is Ok
        }),
    ensures
        removing_sources(p, files, name, names, dry_run, colors, steps) == removing_sources(
            p,
            files,
            name,
            names.drop_first(),
            dry_run,
            colors,
            steps + source_removal_steps(p, files, name, names[0], dry_run, colors),
        ),
{
    let c = load_named(p, files, names[0])->Ok_0;
    let first = source_removal_steps(p, files, name, names[0], dry_run, colors);
    let next = steps + first;
    lemma_source_at(c.github, name);
    assert(source_names(c.github).contains(name) <==> !(forall|i: int|
        0 <= i < c.github.len() ==> (#[trigger] c.github[i]).name != name)) by {
        if source_names(c.github).contains(name) {
            assert(c.github[source_at(c.github, name)].name == name);
        }
        if !(forall|i: int| 0 <= i < c.github.len() ==> (#[trigger] c.github[i]).name != name) {
            let i = choose|i: int| 0 <= i < c.github.len() && (#[trigger] c.github[i]).name == name;
            assert(source_names(c.github)[i] == name);
        }
    }
    if first.len() == 1 {
        assert(steps.push(first[0]) =~= next);
    } else {
        assert(steps.push(first[0]).push(first[1]) =~= next);
    }
}

/// A source is removed from every category that has one of its name, and a category that lists a
/// plain package of that name is left alone, which is told.
pub proof fn source_removals_are_told(
    p: PathsView,
    files: Seq<FileView>,
    name: Seq<char>,
    names: Seq<Seq<char>>,
    dry_run: bool,
    colors: bool,
    steps: Seq<StepView>,
)
    requires
        forall|i: int|
            0 <= i < names.len() ==> {
                let c = load_named(p, files, #[trigger] names[i])->Ok_0;
                &&& load_named(p, files, names[i]) is Ok
                &&& rendered(CategoryView { github: without_source(c.github, name), ..c }) is Ok
            },
    ensures
        ({
            let each = Seq::new(
                names.len(),
                |i: int| source_removal_steps(p, files, name, names[i], dry_run, colors),
            );
            removing_sources(p, files, name, names, dry_run, colors, steps) == (PlanView {
                steps: steps + each.flatten() + (if dry_run {
                    Seq::empty()
                } else {
                    seq![hinted(colors)]
                }),
                outcome: OutcomeView::Done,
            })
        }),
    decreases names.len(),
{
    let each = Seq::new(
        names.len(),
        |i: int| source_removal_steps(p, files, name, names[i], dry_run, colors),
    );
    if names.len() == 0 {
        lemma_no_part(steps, each);
        lemma_end(steps, dry_run, hinted(colors));
    } else {
        let rest = names.drop_first();
        let next = steps + each[0];
        lemma_removing_first_source(p, files, name, names, dry_run, colors, steps);
        assert forall|i: int| 0 <= i < rest.len() implies {
            let c = load_named(p, files, #[trigger] rest[i])->Ok_0;
            &&& load_named(p, files, rest[i]) is Ok
            &&& rendered(CategoryView { github: without_source(c.github, name), ..c }) is Ok
        } by {
            assert(rest[i] == names[i + 1]);
        }
        source_removals_are_told(p, files, name, rest, dry_run, colors, next);
        assert(each.drop_first() =~= Seq::new(
            rest.len(),
            |i: int| source_removal_steps(p, files, name, rest[i], dry_run, colors),
        ));
        lemma_first_part(steps, each);
    }
}

// ---------------------------------------------------------------------------
// Defaults
// ---------------------------------------------------------------------------

/// Without a name, packages go to `app` and imports to `import`.
pub proof fn categories_have_defaults(p: PathsView, found: Found)
    ensures
        chosen_category(p, found, None, DEFAULT_CATEGORY@) == chosen_category(
            p,
            found,
            Some("app"@),
            DEFAULT_CATEGORY@,
        ),
        chosen_category(p, found, None, IMPORT_CATEGORY@) == chosen_category(
            p,
            found,
            Some("import"@),
            IMPORT_CATEGORY@,
        ),
        found.dir && found.default_nix ==> chosen_category(p, found, None, DEFAULT_CATEGORY@) == Ok::<
            Seq<char>,
            ErrorView,
        >("app"@),
        found.dir && found.default_nix ==> chosen_category(p, found, None, IMPORT_CATEGORY@) == Ok::<
            Seq<char>,
            ErrorView,
        >("import"@),
{
    reveal_strlit("app");
    reveal_strlit("import");
}

} // verus!

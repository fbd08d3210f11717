//! The commands that change and show package lists.
//!
//! Each command takes what was read from disk and hands out a plan.

use vstd::prelude::*;

use crate::category::{
    declaring, declares, empty_category, ensure_valid_category_name, entry_name, entry_of,
    find_package, is_name, load_all, load_named, load_stored, load_text, loaded, name_error,
    read_category, rendered, result_view, with_entry, with_package, without_entry, Category,
    CategoryView, Entry, EntryView, DEFAULT_CATEGORY,
};
use crate::error::{ErrorView, NixlayerError};
use crate::paths::{
    category_file_name, category_names, category_path, file_views, find_file, managed, text_at,
    FileView, Found, Paths, PathsView, StoredFile,
};
use crate::plan::{
    done, fail, failed, finish, no_steps, said, say, start, step_views, store, stored, Outcome,
    OutcomeView, Plan, PlanView, Step, StepView,
};
use crate::rebuild::Mode;
use crate::resolver::{InfoView, PackageInfo};
use crate::sources::opt_view;
use crate::text::{concat2, concat3, join, joined, lines, lines_of, same, views};
use crate::ui::{dim, dim_text, error_line, ok_line, plain, plain_line, warn_line, Line, LineView};

verus! {

// ---------------------------------------------------------------------------
// Shared parts
// ---------------------------------------------------------------------------

pub open spec fn rebuild_hint(colors: bool) -> LineView {
    plain_line(dim_text(colors, "Run `nixlayer rebuild` to apply."@))
}

pub open spec fn dry_mark(colors: bool) -> Seq<char> {
    dim_text(colors, "[dry-run]"@)
}

pub open spec fn would_add(colors: bool, id: Seq<char>, path: Seq<char>) -> LineView {
    plain_line(dry_mark(colors) + " would add '"@ + id + "' to "@ + path)
}

pub open spec fn would_remove(colors: bool, id: Seq<char>, path: Seq<char>) -> LineView {
    plain_line(dry_mark(colors) + " would remove '"@ + id + "' from "@ + path)
}

pub fn hint(colors: bool) -> (r: Line)
    ensures
        r@ == rebuild_hint(colors),
{
    plain(dim(colors, "Run `nixlayer rebuild` to apply."))
}

/// A line of a dry run.
pub fn would(colors: bool, verb: &str, id: &str, link: &str, path: &str) -> (r: Line)
    ensures
        r@ == plain_line(dry_mark(colors) + verb@ + id@ + link@ + path@),
{
    let mut s: String = concat3(&dim(colors, "[dry-run]"), verb, id);
    s.append(link);
    s.append(path);
    plain(s)
}

/// The category `name`: what its file holds, or an empty one where it has no file.
pub open spec fn target_category(p: PathsView, files: Seq<FileView>, name: Seq<char>) -> Result<
    CategoryView,
    ErrorView,
> {
    match text_at(files, category_file_name(name)) {
        Some(t) => load_text(name, category_path(p, name), t),
        None => Ok(empty_category(name, category_path(p, name))),
    }
}

/// The category `name`: what its file holds, or an empty one where it has no file.
pub fn load_or_new(paths: &Paths, files: &Vec<StoredFile>, name: &str) -> (r: Result<
    Category,
    NixlayerError,
>)
    ensures
        result_view(r) == target_category(paths@, file_views(files@), name@),
{
    let path: String = paths.category_file(name);
    match find_file(files, &concat2(name, ".nix")) {
        Some(f) => load_stored(name, path, &f.text),
        None => Ok(Category::new_empty(name, path)),
    }
}

/// The lines of a text, indented.
pub open spec fn previewed(steps: Seq<StepView>, ls: Seq<Seq<char>>) -> Seq<StepView>
    decreases ls.len(),
{
    if ls.len() == 0 {
        steps
    } else {
        said(previewed(steps, ls.drop_last()), plain_line("    "@ + ls.last()))
    }
}

/// Show the lines of a text, indented.
pub fn preview(steps: &mut Vec<Step>, text: &str)
    ensures
        step_views(final(steps)@) == previewed(step_views(old(steps)@), lines(text@)),
{
    let ls: Vec<String> = lines_of(text);
    let ghost w = views(ls@);
    let ghost before = step_views(steps@);
    assert(previewed(before, w.take(0)) == before);
    for i in 0..ls.len()
        invariant
            w == views(ls@),
            step_views(steps@) == previewed(before, w.take(i as int)),
    {
        say(steps, plain(concat2("    ", &ls[i])));
        proof {
            assert(w.take(i + 1).drop_last() =~= w.take(i as int));
            assert(w.take(i + 1).last() == ls@[i as int]@);
        }
    }
    assert(w.take(w.len() as int) =~= w);
}

// ---------------------------------------------------------------------------
// add
// ---------------------------------------------------------------------------

pub open spec fn or_default(category: Option<Seq<char>>, default: Seq<char>) -> Seq<char> {
    match category {
        Some(c) => c,
        None => default,
    }
}

/// The category that a command is about, checked before anything is asked or read.
pub open spec fn chosen_category(
    p: PathsView,
    found: Found,
    category: Option<Seq<char>>,
    default: Seq<char>,
) -> Result<Seq<char>, ErrorView> {
    let name = or_default(category, default);
    if !(found.dir && found.default_nix) {
        Err(ErrorView::NotInitialized(p.nixlayer_dir))
    } else if !is_name(name) {
        Err(name_error(name))
    } else {
        Ok(name)
    }
}

/// The category that a command is about, checked before anything is asked or read.
pub fn begin(paths: &Paths, found: &Found, category: &Option<String>, default: &str) -> (r: Result<
    String,
    NixlayerError,
>)
    ensures
        match r {
            Ok(c) => chosen_category(paths@, *found, opt_view(*category), default@) == Ok::<
                Seq<char>,
                ErrorView,
            >(c@),
            Err(e) => chosen_category(paths@, *found, opt_view(*category), default@) == Err::<
                Seq<char>,
                ErrorView,
            >(e@),
        },
{
    match paths.require_initialized(found) {
        Ok(_) => {},
        Err(e) => {
            return Err(e);
        },
    }
    let name: String = match category {
        Some(c) => c.clone(),
        None => default.to_string(),
    };
    match ensure_valid_category_name(&name) {
        Ok(_) => Ok(name),
        Err(e) => Err(e),
    }
}

/// The category that a package is added to: the default one, where none is named.
pub fn begin_add(paths: &Paths, found: &Found, category: &Option<String>) -> (r: Result<
    String,
    NixlayerError,
>)
    ensures
        match r {
            Ok(c) => chosen_category(paths@, *found, opt_view(*category), DEFAULT_CATEGORY@) == Ok::<
                Seq<char>,
                ErrorView,
            >(c@),
            Err(e) => chosen_category(paths@, *found, opt_view(*category), DEFAULT_CATEGORY@)
                == Err::<Seq<char>, ErrorView>(e@),
        },
{
    begin(paths, found, category, DEFAULT_CATEGORY)
}

pub open spec fn license_text(license: Seq<Seq<char>>) -> Seq<char> {
    if license.len() == 0 {
        "proprietary"@
    } else {
        join(license, ", "@)
    }
}

/// What is said of a package that is marked broken.
pub open spec fn broken_steps(info: InfoView, colors: bool) -> Seq<StepView> {
    if info.broken {
        said(
            no_steps(),
            warn_line(
                colors,
                "'"@ + info.attribute
                    + "' is currently marked BROKEN in nixpkgs — it may fail to build."@,
            ),
        )
    } else {
        no_steps()
    }
}

/// What is said of a package that is unfree, instead of adding it.
pub open spec fn unfree_steps(steps: Seq<StepView>, info: InfoView, colors: bool) -> Seq<StepView> {
    let told = said(
        steps,
        error_line(
            colors,
            "'"@ + info.attribute + "' is unfree (license: "@ + license_text(info.license) + ")."@,
        ),
    );
    let why = said(
        told,
        plain_line(
            "NixOS will refuse to build unfree packages until allowUnfree is turned on."@,
        ),
    );
    said(
        why,
        plain_line(
            "Add `nixpkgs.config.allowUnfree = true;` to your own configuration (or run `nixlayer allow-unfree`), then re-run with --allow-unfree."@,
        ),
    )
}

/// Adding a package that was resolved. An unfree package is refused unless it is allowed
/// explicitly, and the setting is left alone either way.
pub open spec fn add_plan(
    p: PathsView,
    files: Seq<FileView>,
    info: InfoView,
    category: Seq<char>,
    options: AddOptions,
    colors: bool,
) -> PlanView {
    let id = info.attribute;
    let steps = broken_steps(info, colors);
    let existing = declaring(loaded(p, files), id);
    if !info.free && !options.allow_unfree {
        done(unfree_steps(steps, info, colors))
    } else if existing.len() > 0 {
        failed(steps, ErrorView::PackageAlreadyExists(id, existing[0]))
    } else {
        match target_category(p, files, category) {
            Err(e) => failed(steps, e),
            Ok(c) => {
                let d = with_package(c, id);
                if options.dry_run {
                    let told = said(steps, would_add(colors, id, d.path));
                    match rendered(d) {
                        Err(e) => failed(told, e),
                        Ok(text) => done(previewed(told, lines(text))),
                    }
                } else {
                    match rendered(d) {
                        Err(e) => failed(steps, e),
                        Ok(text) => PlanView {
                            steps: said(
                                said(
                                    stored(steps, d.path, text),
                                    ok_line(colors, "added '"@ + id + "' to "@ + d.path),
                                ),
                                rebuild_hint(colors),
                            ),
                            outcome: if options.rebuild {
                                OutcomeView::Rebuild(Mode::Switch)
                            } else {
                                OutcomeView::Done
                            },
                        },
                    }
                }
            },
        }
    }
}

/// How a package is added.
#[derive(Debug, Clone, Copy)]
pub struct AddOptions {
    /// Show what would change, and write nothing.
    pub dry_run: bool,
    /// Add an unfree package too.
    pub allow_unfree: bool,
    /// Rebuild right after.
    pub rebuild: bool,
}

fn say_unfree(steps: &mut Vec<Step>, info: &PackageInfo, colors: bool)
    ensures
        step_views(final(steps)@) == unfree_steps(step_views(old(steps)@), info@, colors),
{
    let license: String = if info.license.len() == 0 {
        "proprietary".to_string()
    } else {
        joined(&info.license, ", ")
    };
    assert(views(info.license@).len() == info.license@.len());
    let mut s: String = concat3("'", &info.attribute, "' is unfree (license: ");
    s.append(&license);
    s.append(").");
    say(steps, crate::ui::error(colors, &s));
    say(
        steps,
        plain(
            "NixOS will refuse to build unfree packages until allowUnfree is turned on.".to_string(),
        ),
    );
    say(
        steps,
        plain(
            "Add `nixpkgs.config.allowUnfree = true;` to your own configuration (or run `nixlayer allow-unfree`), then re-run with --allow-unfree.".to_string(),
        ),
    );
}

/// Add a package that was resolved.
pub fn add(
    paths: &Paths,
    files: &Vec<StoredFile>,
    info: &PackageInfo,
    category: &str,
    options: &AddOptions,
    colors: bool,
) -> (r: Plan)
    ensures
        r@ == add_plan(paths@, file_views(files@), info@, category@, *options, colors),
{
    let mut steps: Vec<Step> = start();
    if info.broken {
        say(
            &mut steps,
            crate::ui::warn(
                colors,
                &concat3(
                    "'",
                    &info.attribute,
                    "' is currently marked BROKEN in nixpkgs — it may fail to build.",
                ),
            ),
        );
    }
    if !info.free && !options.allow_unfree {
        say_unfree(&mut steps, info, colors);
        return finish(steps);
    }
    let all: Vec<(String, Result<Category, NixlayerError>)> = load_all(paths, files);
    let existing: Vec<String> = find_package(&all, &info.attribute);
    assert(views(existing@).len() == existing@.len());
    if existing.len() > 0 {
        return fail(
            steps,
            NixlayerError::PackageAlreadyExists(info.attribute.clone(), existing[0].clone()),
        );
    }
    let mut c: Category = match load_or_new(paths, files, category) {
        Ok(c) => c,
        Err(e) => {
            return fail(steps, e);
        },
    };
    c.add(&info.attribute);
    if options.dry_run {
        say(&mut steps, would(colors, " would add '", &info.attribute, "' to ", &c.path));
    }
    let text: String = match c.render() {
        Ok(t) => t,
        Err(e) => {
            return fail(steps, e);
        },
    };
    if options.dry_run {
        preview(&mut steps, &text);
        return finish(steps);
    }
    let mut s: String = concat3("added '", &info.attribute, "' to ");
    s.append(&c.path);
    store(&mut steps, c.path.clone(), text);
    say(&mut steps, crate::ui::ok(colors, &s));
    say(&mut steps, hint(colors));
    let outcome: Outcome = if options.rebuild {
        Outcome::Rebuild(Mode::Switch)
    } else {
        Outcome::Done
    };
    Plan { steps, outcome }
}

// ---------------------------------------------------------------------------
// remove
// ---------------------------------------------------------------------------

/// Taking `id` out of the categories `names`, one after the other.
pub open spec fn removing(
    p: PathsView,
    files: Seq<FileView>,
    id: Seq<char>,
    names: Seq<Seq<char>>,
    dry_run: bool,
    colors: bool,
    steps: Seq<StepView>,
) -> PlanView
    decreases names.len(),
{
    if names.len() == 0 {
        done(
            if dry_run {
                steps
            } else {
                said(steps, rebuild_hint(colors))
            },
        )
    } else {
        match load_named(p, files, names[0]) {
            Err(e) => failed(steps, e),
            Ok(c) => {
                let d = without_entry(c, id);
                let rest = names.drop_first();
                if entry_of(c, id) is None {
                    removing(p, files, id, rest, dry_run, colors, steps)
                } else if dry_run {
                    removing(
                        p,
                        files,
                        id,
                        rest,
                        dry_run,
                        colors,
                        said(steps, would_remove(colors, id, d.path)),
                    )
                } else {
                    match rendered(d) {
                        Err(e) => failed(steps, e),
                        Ok(text) => removing(
                            p,
                            files,
                            id,
                            rest,
                            dry_run,
                            colors,
                            said(
                                stored(steps, d.path, text),
                                ok_line(colors, "removed '"@ + id + "' from "@ + d.path),
                            ),
                        ),
                    }
                }
            },
        }
    }
}

/// Removing `id` from wherever it is declared.
pub open spec fn remove_plan(
    p: PathsView,
    found: Found,
    files: Seq<FileView>,
    id: Seq<char>,
    dry_run: bool,
    colors: bool,
) -> PlanView {
    let names = declaring(loaded(p, files), id);
    if !(found.dir && found.default_nix) {
        failed(no_steps(), ErrorView::NotInitialized(p.nixlayer_dir))
    } else if names.len() == 0 {
        failed(no_steps(), ErrorView::PackageNotManaged(id))
    } else {
        removing(p, files, id, names, dry_run, colors, no_steps())
    }
}

proof fn lemma_declaring_loaded(
    all: Seq<(Seq<char>, Result<CategoryView, ErrorView>)>,
    id: Seq<char>,
)
    ensures
        forall|k: int|
            0 <= k < declaring(all, id).len() ==> exists|i: int|
                0 <= i < all.len() && (#[trigger] all[i]).0 == (#[trigger] declaring(all, id)[k])
                    && all[i].1 is Ok && declares(all[i].1->Ok_0, id),
    decreases all.len(),
{
    if all.len() > 0 {
        let t = all.drop_last();
        let before = declaring(t, id);
        let now = declaring(all, id);
        lemma_declaring_loaded(t, id);
        assert forall|k: int| 0 <= k < now.len() implies exists|i: int|
            0 <= i < all.len() && (#[trigger] all[i]).0 == (#[trigger] now[k]) && all[i].1 is Ok
                && declares(all[i].1->Ok_0, id) by {
            if k < before.len() {
                assert(now[k] == before[k]);
                let i = choose|i: int|
                    0 <= i < t.len() && (#[trigger] t[i]).0 == before[k] && t[i].1 is Ok && declares(
                        t[i].1->Ok_0,
                        id,
                    );
                assert(all[i] == t[i]);
            } else {
                assert(all[all.len() - 1].0 == now[k]);
            }
        }
    }
}

/// A category that declares a name has a file.
pub proof fn lemma_declaring_has_file(p: PathsView, files: Seq<FileView>, id: Seq<char>, k: int)
    requires
        0 <= k < declaring(loaded(p, files), id).len(),
    ensures
        ({
            let n = declaring(loaded(p, files), id)[k];
            &&& category_names(files).contains(n)
            &&& text_at(files, category_file_name(n)) is Some
            &&& load_named(p, files, n) is Ok
            &&& declares(load_named(p, files, n)->Ok_0, id)
        }),
{
    let all = loaded(p, files);
    let n = declaring(all, id)[k];
    lemma_declaring_loaded(all, id);
    let i = choose|i: int|
        0 <= i < all.len() && (#[trigger] all[i]).0 == n && all[i].1 is Ok && declares(
            all[i].1->Ok_0,
            id,
        );
    assert(category_names(files)[i] == n);
    assert(category_names(files).contains(n));
    crate::category::lemma_listed_has_file(files, n);
}

/// Load a category that is listed.
fn load_listed(paths: &Paths, files: &Vec<StoredFile>, name: &str) -> (r: Result<
    Category,
    NixlayerError,
>)
    requires
        text_at(file_views(files@), category_file_name(name@)) is Some,
    ensures
        result_view(r) == load_named(paths@, file_views(files@), name@),
{
    load_or_new(paths, files, name)
}

/// Remove a package, or a GitHub source, from wherever it is declared.
pub fn remove(
    paths: &Paths,
    found: &Found,
    files: &Vec<StoredFile>,
    package: &str,
    dry_run: bool,
    colors: bool,
) -> (r: Plan)
    ensures
        r@ == remove_plan(paths@, *found, file_views(files@), package@, dry_run, colors),
{
    let mut steps: Vec<Step> = start();
    match paths.require_initialized(found) {
        Ok(_) => {},
        Err(e) => {
            return fail(steps, e);
        },
    }
    let all: Vec<(String, Result<Category, NixlayerError>)> = load_all(paths, files);
    let names: Vec<String> = find_package(&all, package);
    let ghost fv = file_views(files@);
    let ghost w = views(names@);
    assert(w.len() == names@.len());
    if names.len() == 0 {
        return fail(steps, NixlayerError::PackageNotManaged(package.to_string()));
    }
    assert(w.skip(0) =~= w);
    for i in 0..names.len()
        invariant
            fv == file_views(files@),
            w == views(names@),
            w == declaring(loaded(paths@, fv), package@),
            removing(paths@, fv, package@, w, dry_run, colors, no_steps()) == removing(
                paths@,
                fv,
                package@,
                w.skip(i as int),
                dry_run,
                colors,
                step_views(steps@),
            ),
            w.len() > 0,
            found.dir && found.default_nix,
    {
        proof {
            lemma_declaring_has_file(paths@, fv, package@, i as int);
            assert(w.skip(i as int)[0] == names@[i as int]@);
            assert(w.skip(i as int).drop_first() =~= w.skip(i + 1));
        }
        let mut c: Category = match load_listed(paths, files, &names[i]) {
            Ok(c) => c,
            Err(e) => {
                return fail(steps, e);
            },
        };
        if c.take_entry(package).is_some() {
            if dry_run {
                say(&mut steps, would(colors, " would remove '", package, "' from ", &c.path));
            } else {
                let text: String = match c.render() {
                    Ok(t) => t,
                    Err(e) => {
                        return fail(steps, e);
                    },
                };
                let mut s: String = concat3("removed '", package, "' from ");
                s.append(&c.path);
                store(&mut steps, c.path.clone(), text);
                say(&mut steps, crate::ui::ok(colors, &s));
            }
        }
    }
    assert(w.skip(w.len() as int) =~= Seq::<Seq<char>>::empty());
    if !dry_run {
        say(&mut steps, hint(colors));
    }
    finish(steps)
}

// ---------------------------------------------------------------------------
// move
// ---------------------------------------------------------------------------

/// Taking `id` out of the categories `names` and writing each of them: the steps so far and the
/// entry that was taken last, or what went wrong.
pub open spec fn taking(
    p: PathsView,
    files: Seq<FileView>,
    id: Seq<char>,
    names: Seq<Seq<char>>,
    steps: Seq<StepView>,
    taken: Option<EntryView>,
) -> Result<(Seq<StepView>, Option<EntryView>), ErrorView>
    decreases names.len(),
{
    if names.len() == 0 {
        Ok((steps, taken))
    } else {
        match load_named(p, files, names[0]) {
            Err(e) => Err(e),
            Ok(c) => match rendered(without_entry(c, id)) {
                Err(e) => Err(e),
                Ok(text) => taking(
                    p,
                    files,
                    id,
                    names.drop_first(),
                    stored(steps, c.path, text),
                    if entry_of(c, id) is Some {
                        entry_of(c, id)
                    } else {
                        taken
                    },
                ),
            },
        }
    }
}

/// The category that `id` goes to, as it is once `id` has been taken out of `names`.
pub open spec fn target_after(
    p: PathsView,
    files: Seq<FileView>,
    id: Seq<char>,
    names: Seq<Seq<char>>,
    target: Seq<char>,
) -> Result<CategoryView, ErrorView> {
    if names.contains(target) {
        let text = rendered(without_entry(load_named(p, files, target)->Ok_0, id))->Ok_0;
        read_category(target, category_path(p, target), text)
    } else {
        target_category(p, files, target)
    }
}

/// What a dry run says of the categories that `id` would be taken out of.
pub open spec fn would_take(
    p: PathsView,
    id: Seq<char>,
    names: Seq<Seq<char>>,
    colors: bool,
) -> Seq<StepView>
    decreases names.len(),
{
    if names.len() == 0 {
        no_steps()
    } else {
        said(
            would_take(p, id, names.drop_last(), colors),
            would_remove(colors, id, category_path(p, names.last())),
        )
    }
}

/// Moving `id` to the category `target`. Nothing is written unless all of it can be: the
/// categories that `id` leaves and the one that it goes to are read, checked and rendered first.
pub open spec fn move_plan(
    p: PathsView,
    found: Found,
    files: Seq<FileView>,
    id: Seq<char>,
    target: Seq<char>,
    dry_run: bool,
    colors: bool,
) -> PlanView {
    let names = declaring(loaded(p, files), id);
    if !(found.dir && found.default_nix) {
        failed(no_steps(), ErrorView::NotInitialized(p.nixlayer_dir))
    } else if !is_name(target) {
        failed(no_steps(), name_error(target))
    } else if names.len() == 0 {
        failed(no_steps(), ErrorView::PackageNotManaged(id))
    } else if names == seq![target] {
        done(
            said(
                no_steps(),
                plain_line("'"@ + id + "' is already in '"@ + target + "' — nothing to do."@),
            ),
        )
    } else if dry_run {
        done(
            said(
                would_take(p, id, names, colors),
                would_add(colors, id, category_path(p, target)),
            ),
        )
    } else {
        match taking(p, files, id, names, no_steps(), None) {
            Err(e) => failed(no_steps(), e),
            Ok((_, None)) => failed(
                no_steps(),
                ErrorView::Other(
                    "'"@ + id
                        + "' was reported as managed but couldn't be found when moving — this shouldn't happen, please report it."@,
                ),
            ),
            Ok((steps, Some(entry))) => match target_after(p, files, id, names, target) {
                Err(e) => failed(no_steps(), e),
                Ok(c) => if declares(c, entry_name(entry)) {
                    failed(no_steps(), ErrorView::PackageAlreadyExists(id, target))
                } else {
                    let d = with_entry(c, entry);
                    match rendered(d) {
                        Err(e) => failed(no_steps(), e),
                        Ok(text) => done(
                            said(
                                said(
                                    stored(steps, d.path, text),
                                    ok_line(
                                        colors,
                                        "moved '"@ + id + "' from "@ + join(names, ", "@) + " to "@
                                            + target,
                                    ),
                                ),
                                rebuild_hint(colors),
                            ),
                        ),
                    }
                },
            },
        }
    }
}

fn only_in(names: &Vec<String>, target: &str) -> (r: bool)
    ensures
        r == (views(names@) == seq![target@]),
{
    let ghost w = views(names@);
    if names.len() == 1 && same(&names[0], target) {
        assert(w =~= seq![target@]);
        true
    } else {
        assert(w.len() == names@.len());
        assert(w == seq![target@] ==> w[0] == target@);
        false
    }
}

/// What `taking` gives, as values.
struct Taken {
    steps: Vec<Step>,
    entry: Option<Entry>,
    /// The new text of the category that the entry goes to, where it was among those written.
    target_text: Option<String>,
}

pub open spec fn entry_view(e: Option<Entry>) -> Option<EntryView> {
    match e {
        Some(x) => Some(x@),
        None => None,
    }
}

fn take_from_all(
    paths: &Paths,
    files: &Vec<StoredFile>,
    package: &str,
    names: &Vec<String>,
    target: &str,
) -> (r: Result<Taken, NixlayerError>)
    requires
        views(names@) == declaring(loaded(paths@, file_views(files@)), package@),
    ensures
        ({
            let fv = file_views(files@);
            let all = taking(paths@, fv, package@, views(names@), no_steps(), None);
            match r {
                Err(e) => all == Err::<(Seq<StepView>, Option<EntryView>), ErrorView>(e@),
                Ok(t) => {
                    &&& all == Ok::<(Seq<StepView>, Option<EntryView>), ErrorView>(
                        (step_views(t.steps@), entry_view(t.entry)),
                    )
                    &&& match t.target_text {
                        Some(text) => views(names@).contains(target@) && rendered(
                            without_entry(load_named(paths@, fv, target@)->Ok_0, package@),
                        ) == Ok::<Seq<char>, ErrorView>(text@),
                        None => !views(names@).contains(target@),
                    }
                },
            }
        }),
{
    let mut steps: Vec<Step> = start();
    let mut entry: Option<Entry> = None;
    let mut target_text: Option<String> = None;
    let ghost fv = file_views(files@);
    let ghost w = views(names@);
    assert(w.skip(0) =~= w);
    for i in 0..names.len()
        invariant
            fv == file_views(files@),
            w == views(names@),
            w == declaring(loaded(paths@, fv), package@),
            taking(paths@, fv, package@, w, no_steps(), None) == taking(
                paths@,
                fv,
                package@,
                w.skip(i as int),
                step_views(steps@),
                entry_view(entry),
            ),
            match target_text {
                Some(text) => w.contains(target@) && rendered(
                    without_entry(load_named(paths@, fv, target@)->Ok_0, package@),
                ) == Ok::<Seq<char>, ErrorView>(text@),
                None => forall|j: int| 0 <= j < i ==> #[trigger] w[j] != target@,
            },
    {
        proof {
            lemma_declaring_has_file(paths@, fv, package@, i as int);
            assert(w.skip(i as int)[0] == names@[i as int]@);
            assert(w[i as int] == names@[i as int]@);
            assert(w.skip(i as int).drop_first() =~= w.skip(i + 1));
        }
        let mut c: Category = match load_listed(paths, files, &names[i]) {
            Ok(c) => c,
            Err(e) => {
                return Err(e);
            },
        };
        let got: Option<Entry> = c.take_entry(package);
        let text: String = match c.render() {
            Ok(t) => t,
            Err(e) => {
                return Err(e);
            },
        };
        if same(&names[i], target) {
            target_text = Some(text.clone());
        }
        store(&mut steps, c.path.clone(), text);
        if got.is_some() {
            entry = got;
        }
    }
    assert(w.skip(w.len() as int) =~= Seq::<Seq<char>>::empty());
    Ok(Taken { steps, entry, target_text })
}

/// Move a package, or a GitHub source, to another category. Where it is declared in several, it
/// is taken out of all of them and put into the one. A move that cannot be finished is not begun.
pub fn move_pkg(
    paths: &Paths,
    found: &Found,
    files: &Vec<StoredFile>,
    package: &str,
    target: &str,
    dry_run: bool,
    colors: bool,
) -> (r: Plan)
    ensures
        r@ == move_plan(paths@, *found, file_views(files@), package@, target@, dry_run, colors),
{
    let mut steps: Vec<Step> = start();
    match paths.require_initialized(found) {
        Ok(_) => {},
        Err(e) => {
            return fail(steps, e);
        },
    }
    match ensure_valid_category_name(target) {
        Ok(_) => {},
        Err(e) => {
            return fail(steps, e);
        },
    }
    let all: Vec<(String, Result<Category, NixlayerError>)> = load_all(paths, files);
    let names: Vec<String> = find_package(&all, package);
    let ghost fv = file_views(files@);
    let ghost w = views(names@);
    assert(w.len() == names@.len());
    if names.len() == 0 {
        return fail(steps, NixlayerError::PackageNotManaged(package.to_string()));
    }
    if only_in(&names, target) {
        let mut s: String = concat3("'", package, "' is already in '");
        s.append(target);
        s.append("' — nothing to do.");
        say(&mut steps, plain(s));
        return finish(steps);
    }
    if dry_run {
        assert(would_take(paths@, package@, w.take(0), colors) == no_steps());
        for i in 0..names.len()
            invariant
                w == views(names@),
                step_views(steps@) == would_take(paths@, package@, w.take(i as int), colors),
        {
            let path: String = paths.category_file(&names[i]);
            say(&mut steps, would(colors, " would remove '", package, "' from ", &path));
            proof {
                assert(w.take(i + 1).drop_last() =~= w.take(i as int));
                assert(w.take(i + 1).last() == names@[i as int]@);
            }
        }
        assert(w.take(w.len() as int) =~= w);
        let path: String = paths.category_file(target);
        say(&mut steps, would(colors, " would add '", package, "' to ", &path));
        return finish(steps);
    }
    let taken: Taken = match take_from_all(paths, files, package, &names, target) {
        Ok(t) => t,
        Err(e) => {
            return fail(steps, e);
        },
    };
    let entry: Entry = match taken.entry {
        Some(e) => e,
        None => {
            return fail(
                steps,
                NixlayerError::Other(
                    concat3(
                        "'",
                        package,
                        "' was reported as managed but couldn't be found when moving — this shouldn't happen, please report it.",
                    ),
                ),
            );
        },
    };
    let loaded_target: Result<Category, NixlayerError> = match taken.target_text {
        Some(text) => Category::load(target, paths.category_file(target), text),
        None => load_or_new(paths, files, target),
    };
    let mut c: Category = match loaded_target {
        Ok(c) => c,
        Err(e) => {
            return fail(steps, e);
        },
    };
    if !c.insert_entry(entry) {
        return fail(
            steps,
            NixlayerError::PackageAlreadyExists(package.to_string(), target.to_string()),
        );
    }
    let text: String = match c.render() {
        Ok(t) => t,
        Err(e) => {
            return fail(steps, e);
        },
    };
    let mut steps: Vec<Step> = taken.steps;
    let mut s: String = concat3("moved '", package, "' from ");
    s.append(&joined(&names, ", "));
    s.append(" to ");
    s.append(target);
    store(&mut steps, c.path.clone(), text);
    say(&mut steps, crate::ui::ok(colors, &s));
    say(&mut steps, hint(colors));
    finish(steps)
}

} // verus!

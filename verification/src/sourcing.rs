//! The commands for packages from GitHub.

use vstd::prelude::*;

use crate::category::{
    declaring, ensure_valid_category_name, ensure_valid_source_name, find_package, is_name,
    load_all, load_named, loaded, name_error, rendered, source_at, source_names, with_source,
    without_source, Category, CategoryView, GithubSource, DEFAULT_CATEGORY,
};
use crate::commands::{
    dry_mark, hint, lemma_declaring_has_file, load_or_new, or_default, preview, previewed,
    rebuild_hint, target_category, would, would_add, would_remove,
};
use crate::error::{ErrorView, NixlayerError};
use crate::github::{GithubPackageInfo, PinnedView};
use crate::nixfile::{shorten, shortened};
use crate::paths::{file_views, FileView, Found, Paths, PathsView, StoredFile};
use crate::plan::{
    done, fail, failed, finish, no_steps, said, say, start, step_views, store, stored, Plan,
    PlanView, Step, StepView,
};
use crate::show::{or_text, said_field};
use crate::sources::{clone_opt, flake_ref, opt_view, source_views, SourceView};
use crate::text::{concat2, concat3, cut_first, lines, same, split_once, views};
use crate::ui::{
    heading, heading_line, ok, ok_line, plain, plain_line, warn, warn_line, Line, LineView,
};

verus! {

// ---------------------------------------------------------------------------
// github add
// ---------------------------------------------------------------------------

/// What is to be added: the owner, the repository, and the name that it gets here.
pub open spec fn requested_source(
    p: PathsView,
    found: Found,
    files: Seq<FileView>,
    owner_repo: Seq<char>,
    name: Option<Seq<char>>,
) -> Result<(Seq<char>, Seq<char>, Seq<char>), ErrorView> {
    if !(found.dir && found.default_nix) {
        Err(ErrorView::NotInitialized(p.nixlayer_dir))
    } else {
        match split_once(owner_repo, '/') {
            None => Err(
                ErrorView::Other(
                    "'"@ + owner_repo + "' should look like owner/repo, e.g. hyprwm/Hyprland"@,
                ),
            ),
            Some((owner, repo)) => {
                let local = or_default(name, repo);
                let existing = declaring(loaded(p, files), local);
                if !is_name(local) {
                    Err(name_error(local))
                } else if existing.len() > 0 {
                    Err(ErrorView::PackageAlreadyExists(local, existing[0]))
                } else {
                    Ok((owner, repo, local))
                }
            },
        }
    }
}

/// Find out what is to be added, before anything is asked.
pub fn begin_source(
    paths: &Paths,
    found: &Found,
    files: &Vec<StoredFile>,
    owner_repo: &str,
    name: &Option<String>,
) -> (r: Result<(String, String, String), NixlayerError>)
    ensures
        ({
            let want = requested_source(
                paths@,
                *found,
                file_views(files@),
                owner_repo@,
                opt_view(*name),
            );
            match r {
                Ok(t) => want == Ok::<(Seq<char>, Seq<char>, Seq<char>), ErrorView>(
                    (t.0@, t.1@, t.2@),
                ),
                Err(e) => want == Err::<(Seq<char>, Seq<char>, Seq<char>), ErrorView>(e@),
            }
        }),
{
    match paths.require_initialized(found) {
        Ok(_) => {},
        Err(e) => {
            return Err(e);
        },
    }
    let (owner, repo): (String, String) = match cut_first(owner_repo, '/') {
        Some(t) => t,
        None => {
            return Err(
                NixlayerError::Other(
                    concat3(
                        "'",
                        owner_repo,
                        "' should look like owner/repo, e.g. hyprwm/Hyprland",
                    ),
                ),
            );
        },
    };
    let local: String = match name {
        Some(n) => n.clone(),
        None => repo.clone(),
    };
    match ensure_valid_source_name(&local) {
        Ok(_) => {},
        Err(e) => {
            return Err(e);
        },
    }
    let all: Vec<(String, Result<Category, NixlayerError>)> = load_all(paths, files);
    let existing: Vec<String> = find_package(&all, &local);
    assert(views(existing@).len() == existing@.len());
    if existing.len() > 0 {
        return Err(NixlayerError::PackageAlreadyExists(local, existing[0].clone()));
    }
    Ok((owner, repo, local))
}

/// Show that a repository is being resolved.
pub fn resolving(owner: &str, repo: &str, colors: bool) -> (r: Line)
    ensures
        r@ == heading_line(
            colors,
            "resolving "@ + owner@ + "/"@ + repo@ + " via nix flake metadata..."@,
        ),
{
    let mut s: String = concat3("resolving ", owner, "/");
    s.append(repo);
    s.append(" via nix flake metadata...");
    heading(colors, &s)
}

/// The source that a pinned package becomes.
pub open spec fn source_of(name: Seq<char>, g: PinnedView) -> SourceView {
    SourceView { name, owner: g.owner, repo: g.repo, rev: g.rev, git_ref: g.git_ref, attr: g.attr }
}

fn make_source(name: &str, g: &GithubPackageInfo) -> (r: GithubSource)
    ensures
        r@ == source_of(name@, g@),
{
    GithubSource {
        name: name.to_string(),
        owner: g.owner.clone(),
        repo: g.repo.clone(),
        rev: g.rev.clone(),
        git_ref: clone_opt(&g.git_ref),
        attr: g.attr.clone(),
    }
}

/// What is shown of a pinned package.
pub open spec fn pinned_lines(name: Seq<char>, g: PinnedView, colors: bool) -> Seq<StepView> {
    said_field(
        said_field(
            said(
                no_steps(),
                ok_line(
                    colors,
                    "pinned to commit "@ + shorten(g.rev, 12) + " ("@ + flake_ref(source_of(name, g))
                        + ")"@,
                ),
            ),
            "  description: "@,
            g.description,
        ),
        "  homepage: "@,
        g.homepage,
    )
}

/// Adding a pinned package under the name `name`. `request` is the owner and the repository that
/// were asked for.
pub open spec fn add_source_plan(
    p: PathsView,
    files: Seq<FileView>,
    request: (Seq<char>, Seq<char>),
    name: Seq<char>,
    g: PinnedView,
    category: Option<Seq<char>>,
    dry_run: bool,
    colors: bool,
) -> PlanView {
    let steps = pinned_lines(name, g, colors);
    let target = or_default(category, DEFAULT_CATEGORY@);
    if !is_name(target) {
        failed(steps, name_error(target))
    } else {
        match target_category(p, files, target) {
            Err(e) => failed(steps, e),
            Ok(c) => {
                let d = with_source(c, source_of(name, g));
                if dry_run {
                    let told = said(steps, would_add(colors, name, d.path));
                    match rendered(d) {
                        Err(e) => failed(told, e),
                        Ok(text) => done(previewed(told, lines(text))),
                    }
                } else {
                    match rendered(d) {
                        Err(e) => failed(steps, e),
                        Ok(text) => done(
                            said(
                                said(
                                    stored(steps, d.path, text),
                                    ok_line(
                                        colors,
                                        "added '"@ + name + "' (from github:"@ + request.0 + "/"@
                                            + request.1 + ") to "@ + d.path,
                                    ),
                                ),
                                rebuild_hint(colors),
                            ),
                        ),
                    }
                }
            },
        }
    }
}

fn say_pinned(steps: &mut Vec<Step>, name: &str, g: &GithubPackageInfo, colors: bool)
    requires
        step_views(old(steps)@) == no_steps(),
    ensures
        step_views(final(steps)@) == pinned_lines(name@, g@, colors),
{
    let source: GithubSource = make_source(name, g);
    let mut s: String = concat3("pinned to commit ", &shortened(&g.rev, 12), " (");
    s.append(&source.flake_ref());
    s.append(")");
    say(steps, ok(colors, &s));
    match &g.description {
        Some(d) => {
            say(steps, plain(concat2("  description: ", d)));
        },
        None => {},
    }
    match &g.homepage {
        Some(h) => {
            say(steps, plain(concat2("  homepage: ", h)));
        },
        None => {},
    }
}

/// Add a pinned package.
pub fn github_add(
    paths: &Paths,
    files: &Vec<StoredFile>,
    request: &(String, String),
    name: &str,
    g: &GithubPackageInfo,
    category: &Option<String>,
    dry_run: bool,
    colors: bool,
) -> (r: Plan)
    ensures
        r@ == add_source_plan(
            paths@,
            file_views(files@),
            (request.0@, request.1@),
            name@,
            g@,
            opt_view(*category),
            dry_run,
            colors,
        ),
{
    let mut steps: Vec<Step> = start();
    say_pinned(&mut steps, name, g, colors);
    let target: String = match category {
        Some(c) => c.clone(),
        None => DEFAULT_CATEGORY.to_string(),
    };
    match ensure_valid_category_name(&target) {
        Ok(_) => {},
        Err(e) => {
            return fail(steps, e);
        },
    }
    let mut c: Category = match load_or_new(paths, files, &target) {
        Ok(c) => c,
        Err(e) => {
            return fail(steps, e);
        },
    };
    c.add_github(make_source(name, g));
    if dry_run {
        say(&mut steps, would(colors, " would add '", name, "' to ", &c.path));
    }
    let text: String = match c.render() {
        Ok(t) => t,
        Err(e) => {
            return fail(steps, e);
        },
    };
    if dry_run {
        preview(&mut steps, &text);
        return finish(steps);
    }
    let mut s: String = concat3("added '", name, "' (from github:");
    s.append(&request.0);
    s.append("/");
    s.append(&request.1);
    s.append(") to ");
    s.append(&c.path);
    store(&mut steps, c.path.clone(), text);
    say(&mut steps, ok(colors, &s));
    say(&mut steps, hint(colors));
    finish(steps)
}

// ---------------------------------------------------------------------------
// github remove
// ---------------------------------------------------------------------------

pub open spec fn not_a_source(colors: bool, name: Seq<char>, category: Seq<char>) -> LineView {
    warn_line(
        colors,
        "'"@ + name + "' is declared in "@ + category
            + " but not as a GitHub source — skipping (use `nixlayer remove` for plain packages)."@,
    )
}

/// Removing the sources called `name` from the categories `names`, one after the other.
pub open spec fn removing_sources(
    p: PathsView,
    files: Seq<FileView>,
    name: Seq<char>,
    names: Seq<Seq<char>>,
    dry_run: bool,
    colors: bool,
    steps: Seq<StepView>,
) -> PlanView
    decreases names.len(),
{
    if names.len() == 0 {
        done(
            if dry_run {
                steps
            } else {
                said(steps, rebuild_hint(colors))
            },
        )
    } else {
        let rest = names.drop_first();
        match load_named(p, files, names[0]) {
            Err(e) => failed(steps, e),
            Ok(c) => {
                let d = CategoryView { github: without_source(c.github, name), ..c };
                if !source_names(c.github).contains(name) {
                    removing_sources(
                        p,
                        files,
                        name,
                        rest,
                        dry_run,
                        colors,
                        said(steps, not_a_source(colors, name, names[0])),
                    )
                } else if dry_run {
                    removing_sources(
                        p,
                        files,
                        name,
                        rest,
                        dry_run,
                        colors,
                        said(steps, would_remove(colors, name, d.path)),
                    )
                } else {
                    match rendered(d) {
                        Err(e) => failed(steps, e),
                        Ok(text) => removing_sources(
                            p,
                            files,
                            name,
                            rest,
                            dry_run,
                            colors,
                            said(
                                stored(steps, d.path, text),
                                ok_line(colors, "removed '"@ + name + "' from "@ + d.path),
                            ),
                        ),
                    }
                }
            },
        }
    }
}

pub open spec fn remove_source_plan(
    p: PathsView,
    found: Found,
    files: Seq<FileView>,
    name: Seq<char>,
    dry_run: bool,
    colors: bool,
) -> PlanView {
    let names = declaring(loaded(p, files), name);
    if !(found.dir && found.default_nix) {
        failed(no_steps(), ErrorView::NotInitialized(p.nixlayer_dir))
    } else if names.len() == 0 {
        failed(no_steps(), ErrorView::PackageNotManaged(name))
    } else {
        removing_sources(p, files, name, names, dry_run, colors, no_steps())
    }
}

/// Remove a GitHub source from wherever it is declared. A plain package of that name stays.
pub fn github_remove(
    paths: &Paths,
    found: &Found,
    files: &Vec<StoredFile>,
    name: &str,
    dry_run: bool,
    colors: bool,
) -> (r: Plan)
    ensures
        r@ == remove_source_plan(paths@, *found, file_views(files@), name@, dry_run, colors),
{
    let mut steps: Vec<Step> = start();
    match paths.require_initialized(found) {
        Ok(_) => {},
        Err(e) => {
            return fail(steps, e);
        },
    }
    let all: Vec<(String, Result<Category, NixlayerError>)> = load_all(paths, files);
    let names: Vec<String> = find_package(&all, name);
    let ghost fv = file_views(files@);
    let ghost w = views(names@);
    assert(w.len() == names@.len());
    if names.len() == 0 {
        return fail(steps, NixlayerError::PackageNotManaged(name.to_string()));
    }
    assert(w.skip(0) =~= w);
    for i in 0..names.len()
        invariant
            fv == file_views(files@),
            w == views(names@),
            w == declaring(loaded(paths@, fv), name@),
            w.len() > 0,
            found.dir && found.default_nix,
            removing_sources(paths@, fv, name@, w, dry_run, colors, no_steps())
                == removing_sources(
                paths@,
                fv,
                name@,
                w.skip(i as int),
                dry_run,
                colors,
                step_views(steps@),
            ),
    {
        proof {
            lemma_declaring_has_file(paths@, fv, name@, i as int);
            assert(w.skip(i as int)[0] == names@[i as int]@);
            assert(w.skip(i as int).drop_first() =~= w.skip(i + 1));
        }
        let mut c: Category = match load_or_new(paths, files, &names[i]) {
            Ok(c) => c,
            Err(e) => {
                return fail(steps, e);
            },
        };
        if !c.remove_github(name) {
            let mut s: String = concat3("'", name, "' is declared in ");
            s.append(&names[i]);
            s.append(
                " but not as a GitHub source — skipping (use `nixlayer remove` for plain packages).",
            );
            say(&mut steps, warn(colors, &s));
        } else if dry_run {
            say(&mut steps, would(colors, " would remove '", name, "' from ", &c.path));
        } else {
            let text: String = match c.render() {
                Ok(t) => t,
                Err(e) => {
                    return fail(steps, e);
                },
            };
            let mut s: String = concat3("removed '", name, "' from ");
            s.append(&c.path);
            store(&mut steps, c.path.clone(), text);
            say(&mut steps, ok(colors, &s));
        }
    }
    assert(w.skip(w.len() as int) =~= Seq::<Seq<char>>::empty());
    if !dry_run {
        say(&mut steps, hint(colors));
    }
    finish(steps)
}

// ---------------------------------------------------------------------------
// github update
// ---------------------------------------------------------------------------

/// The first category that declares `name`, and the source of that name in it.
pub open spec fn outdated(
    p: PathsView,
    found: Found,
    files: Seq<FileView>,
    name: Seq<char>,
) -> Result<(CategoryView, SourceView), ErrorView> {
    let names = declaring(loaded(p, files), name);
    if !(found.dir && found.default_nix) {
        Err(ErrorView::NotInitialized(p.nixlayer_dir))
    } else if names.len() == 0 {
        Err(ErrorView::PackageNotManaged(name))
    } else {
        match load_named(p, files, names[0]) {
            Err(e) => Err(e),
            Ok(c) => if source_at(c.github, name) < c.github.len() {
                Ok((c, c.github[source_at(c.github, name)]))
            } else {
                Err(
                    ErrorView::Other(
                        "'"@ + name + "' is in "@ + names[0] + " but isn't a GitHub source."@,
                    ),
                )
            },
        }
    }
}

/// Find the source that is to be updated, with its category.
pub fn begin_update(paths: &Paths, found: &Found, files: &Vec<StoredFile>, name: &str) -> (r: Result<
    (Category, GithubSource),
    NixlayerError,
>)
    ensures
        ({
            let want = outdated(paths@, *found, file_views(files@), name@);
            match r {
                Ok(t) => want == Ok::<(CategoryView, SourceView), ErrorView>((t.0@, t.1@)),
                Err(e) => want == Err::<(CategoryView, SourceView), ErrorView>(e@),
            }
        }),
{
    match paths.require_initialized(found) {
        Ok(_) => {},
        Err(e) => {
            return Err(e);
        },
    }
    let all: Vec<(String, Result<Category, NixlayerError>)> = load_all(paths, files);
    let names: Vec<String> = find_package(&all, name);
    let ghost w = views(names@);
    assert(w.len() == names@.len());
    if names.len() == 0 {
        return Err(NixlayerError::PackageNotManaged(name.to_string()));
    }
    proof {
        lemma_declaring_has_file(paths@, file_views(files@), name@, 0);
        assert(w[0] == names@[0]@);
    }
    let c: Category = match load_or_new(paths, files, &names[0]) {
        Ok(c) => c,
        Err(e) => {
            return Err(e);
        },
    };
    let ghost g = c@.github;
    let mut i: usize = 0;
    assert(g.skip(0) =~= g);
    while i < c.github.len()
        invariant
            i <= c.github@.len(),
            g == source_views(c.github@),
            g == c@.github,
            source_at(g, name@) == i + source_at(g.skip(i as int), name@),
            w == views(names@),
            w == declaring(loaded(paths@, file_views(files@)), name@),
            w.len() > 0,
            found.dir && found.default_nix,
            load_named(paths@, file_views(files@), w[0]) == Ok::<CategoryView, ErrorView>(c@),
        decreases c.github@.len() - i,
    {
        assert(g.skip(i as int)[0] == c.github@[i as int]@);
        if same(&c.github[i].name, name) {
            let s: GithubSource = c.github[i].copy();
            return Ok((c, s));
        }
        assert(g.skip(i as int).drop_first() =~= g.skip(i + 1));
        i = i + 1;
    }
    let mut s: String = concat3("'", name, "' is in ");
    s.append(&names[0]);
    s.append(" but isn't a GitHub source.");
    Err(NixlayerError::Other(s))
}

/// Show that a source is being resolved again.
pub fn re_resolving(s: &GithubSource, colors: bool) -> (r: Line)
    ensures
        r@ == heading_line(
            colors,
            "re-resolving "@ + s@.owner + "/"@ + s@.repo + "@"@ + or_text(
                s@.git_ref,
                "(default branch)"@,
            ) + "..."@,
        ),
{
    let mut t: String = concat3("re-resolving ", &s.owner, "/");
    t.append(&s.repo);
    t.append("@");
    match &s.git_ref {
        Some(g) => {
            t.append(g);
        },
        None => {
            t.append("(default branch)");
        },
    }
    t.append("...");
    heading(colors, &t)
}

/// Updating the source `existing` of the category `c` to what it was resolved to.
pub open spec fn update_plan(
    c: CategoryView,
    existing: SourceView,
    name: Seq<char>,
    g: PinnedView,
    dry_run: bool,
    colors: bool,
) -> PlanView {
    let was = shorten(existing.rev, 12);
    let now = shorten(g.rev, 12);
    if g.rev == existing.rev {
        done(
            said(
                no_steps(),
                plain_line("'"@ + name + "' is already pinned to the latest commit ("@ + was + ")."@),
            ),
        )
    } else if dry_run {
        done(
            said(
                no_steps(),
                plain_line(
                    dry_mark(colors) + " would move '"@ + name + "' from "@ + was + " to "@ + now,
                ),
            ),
        )
    } else {
        let d = with_source(
            CategoryView { github: without_source(c.github, name), ..c },
            source_of(name, g),
        );
        match rendered(d) {
            Err(e) => failed(no_steps(), e),
            Ok(text) => done(
                said(
                    said(
                        stored(no_steps(), d.path, text),
                        ok_line(colors, "updated '"@ + name + "': "@ + was + " -> "@ + now),
                    ),
                    rebuild_hint(colors),
                ),
            ),
        }
    }
}

/// Update a source to what it was resolved to.
pub fn github_update(
    c: Category,
    existing: &GithubSource,
    name: &str,
    g: &GithubPackageInfo,
    dry_run: bool,
    colors: bool,
) -> (r: Plan)
    ensures
        r@ == update_plan(c@, existing@, name@, g@, dry_run, colors),
{
    let mut steps: Vec<Step> = start();
    let was: String = shortened(&existing.rev, 12);
    let now: String = shortened(&g.rev, 12);
    if same(&g.rev, &existing.rev) {
        let mut s: String = concat3("'", name, "' is already pinned to the latest commit (");
        s.append(&was);
        s.append(").");
        say(&mut steps, plain(s));
        return finish(steps);
    }
    if dry_run {
        let mut from: String = concat2("' from ", &was);
        from.append(" to ");
        let l: Line = would(colors, " would move '", name, &from, &now);
        assert(dry_mark(colors) + " would move '"@ + name@ + ("' from "@ + was@ + " to "@) + now@
            =~= dry_mark(colors) + " would move '"@ + name@ + "' from "@ + was@ + " to "@ + now@);
        say(&mut steps, l);
        return finish(steps);
    }
    let mut d: Category = c;
    d.remove_github(name);
    d.add_github(make_source(name, g));
    let text: String = match d.render() {
        Ok(t) => t,
        Err(e) => {
            return fail(steps, e);
        },
    };
    let mut s: String = concat3("updated '", name, "': ");
    s.append(&was);
    s.append(" -> ");
    s.append(&now);
    store(&mut steps, d.path.clone(), text);
    say(&mut steps, ok(colors, &s));
    say(&mut steps, hint(colors));
    finish(steps)
}

} // verus!

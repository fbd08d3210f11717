//! The commands that show things.

use vstd::prelude::*;

use crate::category::{
    declaring, find_package, load_stored, load_text, loaded_views, result_view, Category,
    CategoryView, GithubSource, DEFAULT_CATEGORY,
};
use crate::commands::{hint, rebuild_hint};
use crate::default_nix::module_text;
use crate::doctor::{finding_views, has_error, Finding, FindingView, Level, Report};
use crate::error::{message_of, ErrorView, NixlayerError};
use crate::init::{InitReport, ReportView};
use crate::nixfile::{shorten, shortened};
use crate::paths::{category_path, managed, text_view, Found, Paths, PathsView};
use crate::plan::{
    done, fail, failed, finish, no_steps, said, say, start, step_views, store, stored, Outcome,
    OutcomeView, Plan, PlanView, Step, StepView,
};
use crate::rebuild::{mode_arg, Mode, Validation, ValidationView};
use crate::resolver::{info_views, Backend, InfoView, PackageInfo};
use crate::settings::{sync_default_nix, Settings, StoredSettings};
use crate::sources::{opt_view, source_views, SourceView};
use crate::state::{diff_views, CategoryDiff, DiffView};
use crate::text::{
    concat2, concat3, count_text, decimal, decimal_of, join, joined, pad_right, padded, views,
};
use crate::ui::{
    bold, bold_text, dim, dim_text, error, error_line, heading, heading_line, ok, ok_line, plain,
    plain_line, warn, warn_line, Line, LineView,
};

verus! {

// ---------------------------------------------------------------------------
// init
// ---------------------------------------------------------------------------

/// The steps, with one more line where `when` holds.
pub open spec fn said_if(steps: Seq<StepView>, when: bool, l: LineView) -> Seq<StepView> {
    if when {
        said(steps, l)
    } else {
        steps
    }
}

pub open spec fn dry_prefix(dry_run: bool) -> Seq<char> {
    if dry_run {
        "[dry-run] "@
    } else {
        ""@
    }
}

/// What is shown of setting up.
pub open spec fn init_lines(report: ReportView, dry_run: bool, colors: bool) -> Seq<StepView> {
    let prefix = dry_prefix(dry_run);
    let a = said_if(
        no_steps(),
        report.created_dir,
        ok_line(colors, prefix + "create modules/nixlayer/"@),
    );
    let b = said_if(
        a,
        report.created_default_nix,
        ok_line(colors, prefix + "write modules/nixlayer/default.nix"@),
    );
    let c = said_if(
        b,
        report.created_default_category,
        ok_line(
            colors,
            prefix + "write modules/nixlayer/"@ + DEFAULT_CATEGORY@ + ".nix (empty default category)"@,
        ),
    );
    let d = if report.configuration_nix_already_ok {
        said(
            c,
            ok_line(
                colors,
                "configuration.nix already imports nixlayer — nothing to change."@,
            ),
        )
    } else {
        said_if(
            c,
            report.configuration_nix_patched,
            ok_line(
                colors,
                prefix + "add `./modules/nixlayer/default.nix` to configuration.nix's imports"@,
            ),
        )
    };
    let e = match report.manual_step_needed {
        Some(m) => said(
            said(d, warn_line(colors, "one manual step is needed:"@)),
            plain_line("\n"@ + m),
        ),
        None => d,
    };
    if dry_run {
        said(
            e,
            plain_line(
                "\n"@ + dim_text(
                    colors,
                    "Dry run — nothing was written. Re-run without --dry-run to apply."@,
                ),
            ),
        )
    } else {
        said_if(
            e,
            report.manual_step_needed is None,
            plain_line(
                "\n"@ + bold_text(colors, "Done —"@)
                    + " nixlayer is ready. Try `nixlayer add firefox`, then `nixlayer rebuild`."@,
            ),
        )
    }
}

/// Show what setting up did, or would do.
pub fn init(report: &InitReport, dry_run: bool, colors: bool) -> (r: Plan)
    ensures
        r@ == done(init_lines(report@, dry_run, colors)),
{
    let mut steps: Vec<Step> = start();
    let prefix: &str = if dry_run {
        "[dry-run] "
    } else {
        ""
    };
    if report.created_dir {
        say(&mut steps, ok(colors, &concat2(prefix, "create modules/nixlayer/")));
    }
    if report.created_default_nix {
        say(&mut steps, ok(colors, &concat2(prefix, "write modules/nixlayer/default.nix")));
    }
    if report.created_default_category {
        let mut s: String = concat3(prefix, "write modules/nixlayer/", DEFAULT_CATEGORY);
        s.append(".nix (empty default category)");
        say(&mut steps, ok(colors, &s));
    }
    if report.configuration_nix_already_ok {
        say(
            &mut steps,
            ok(colors, "configuration.nix already imports nixlayer — nothing to change."),
        );
    } else if report.configuration_nix_patched {
        say(
            &mut steps,
            ok(
                colors,
                &concat2(
                    prefix,
                    "add `./modules/nixlayer/default.nix` to configuration.nix's imports",
                ),
            ),
        );
    }
    match &report.manual_step_needed {
        Some(m) => {
            say(&mut steps, warn(colors, "one manual step is needed:"));
            say(&mut steps, plain(concat2("\n", m)));
        },
        None => {},
    }
    if dry_run {
        say(
            &mut steps,
            plain(
                concat2(
                    "\n",
                    &dim(
                        colors,
                        "Dry run — nothing was written. Re-run without --dry-run to apply.",
                    ),
                ),
            ),
        );
    } else if report.manual_step_needed.is_none() {
        say(
            &mut steps,
            plain(
                concat3(
                    "\n",
                    &bold(colors, "Done —"),
                    " nixlayer is ready. Try `nixlayer add firefox`, then `nixlayer rebuild`.",
                ),
            ),
        );
    }
    finish(steps)
}

// ---------------------------------------------------------------------------
// search and info
// ---------------------------------------------------------------------------

pub open spec fn or_text(o: Option<Seq<char>>, default: Seq<char>) -> Seq<char> {
    match o {
        Some(s) => s,
        None => default,
    }
}

/// A row of search results.
pub open spec fn search_row(p: InfoView, colors: bool) -> LineView {
    plain_line(
        "  "@ + pad_right(bold_text(colors, p.attribute), 28) + " "@ + pad_right(
            or_text(p.version, "?"@),
            12,
        ) + " "@ + or_text(p.description, ""@),
    )
}

pub open spec fn search_rows(steps: Seq<StepView>, v: Seq<InfoView>, colors: bool) -> Seq<StepView>
    decreases v.len(),
{
    if v.len() == 0 {
        steps
    } else {
        said(search_rows(steps, v.drop_last(), colors), search_row(v.last(), colors))
    }
}

/// What is shown of the results of a search.
pub open spec fn search_lines(query: Seq<char>, v: Seq<InfoView>, colors: bool) -> Seq<StepView> {
    if v.len() == 0 {
        said(no_steps(), plain_line("No nixpkgs packages matched '"@ + query + "'."@))
    } else {
        let head = said(
            no_steps(),
            heading_line(colors, decimal(v.len()) + " match(es) for '"@ + query + "':\n"@),
        );
        said(
            search_rows(head, v, colors),
            plain_line(
                "\n"@ + dim_text(
                    colors,
                    "Run `nixlayer info <attribute>` for full details, or `nixlayer add <attribute>` to add one."@,
                ),
            ),
        )
    }
}

fn text_or(o: &Option<String>, default: &str) -> (r: String)
    ensures
        r@ == or_text(opt_view(*o), default@),
{
    match o {
        Some(s) => s.clone(),
        None => default.to_string(),
    }
}

/// Show the results of a search.
pub fn search(query: &str, results: &Vec<PackageInfo>, colors: bool) -> (r: Plan)
    ensures
        r@ == done(search_lines(query@, info_views(results@), colors)),
{
    let mut steps: Vec<Step> = start();
    let ghost w = info_views(results@);
    assert(w.len() == results@.len());
    if results.len() == 0 {
        say(&mut steps, plain(concat3("No nixpkgs packages matched '", query, "'.")));
        return finish(steps);
    }
    let mut s: String = concat3(&count_text(results.len()), " match(es) for '", query);
    s.append("':\n");
    say(&mut steps, heading(colors, &s));
    let ghost head = step_views(steps@);
    assert(search_rows(head, w.take(0), colors) == head);
    for i in 0..results.len()
        invariant
            w == info_views(results@),
            step_views(steps@) == search_rows(head, w.take(i as int), colors),
    {
        let p: &PackageInfo = &results[i];
        let mut row: String = concat3(
            "  ",
            &padded(&bold(colors, &p.attribute), 28),
            " ",
        );
        row.append(&padded(&text_or(&p.version, "?"), 12));
        row.append(" ");
        row.append(&text_or(&p.description, ""));
        say(&mut steps, plain(row));
        proof {
            assert(w.take(i + 1).drop_last() =~= w.take(i as int));
            assert(w.take(i + 1).last() == results@[i as int]@);
        }
    }
    assert(w.take(w.len() as int) =~= w);
    say(
        &mut steps,
        plain(
            concat2(
                "\n",
                &dim(
                    colors,
                    "Run `nixlayer info <attribute>` for full details, or `nixlayer add <attribute>` to add one.",
                ),
            ),
        ),
    );
    finish(steps)
}

/// The steps, with a line for a field that is known.
pub open spec fn said_field(steps: Seq<StepView>, label: Seq<char>, o: Option<Seq<char>>) -> Seq<StepView> {
    match o {
        Some(s) => said(steps, plain_line(label + s)),
        None => steps,
    }
}

pub open spec fn unfree_note() -> Seq<char> {
    "This package is unfree. NixOS will refuse to build it unless you allow unfree packages, e.g. `nixpkgs.config.allowUnfree = true;` (globally) or via `nixpkgs.config.allowUnfreePredicate` (per-package) in your own configuration.\nnixlayer will not change that setting for you — add it yourself, then `nixlayer add` with `--allow-unfree`."@
}

/// What is shown of a package.
pub open spec fn info_lines(p: InfoView, colors: bool) -> Seq<StepView> {
    let a = said(no_steps(), heading_line(colors, p.attribute));
    let b = said_field(a, "  package name : "@, p.pname);
    let c = said_field(b, "  version      : "@, p.version);
    let d = said_field(c, "  description  : "@, p.description);
    let e = said_field(d, "  homepage     : "@, p.homepage);
    let f = said_if(
        e,
        p.license.len() > 0,
        plain_line("  license      : "@ + join(p.license, ", "@)),
    );
    let g = said(
        f,
        plain_line(
            "  status       : "@ + (if p.free {
                "free"@
            } else {
                "UNFREE"@
            }),
        ),
    );
    let h = said_if(g, !p.free, plain_line("\n"@ + dim_text(colors, unfree_note())));
    let i = said_if(
        h,
        p.broken,
        warn_line(colors, "this package is currently marked broken in nixpkgs."@),
    );
    said(
        i,
        plain_line(
            "\n"@ + dim_text(
                colors,
                match p.source {
                    Backend::Flakes => "source: nix eval (flakes, nixpkgs registry)"@,
                    Backend::Legacy => "source: nix-env (legacy/channel mode — reduced metadata)"@,
                },
            ),
        ),
    )
}

fn say_field(steps: &mut Vec<Step>, label: &str, o: &Option<String>)
    ensures
        step_views(final(steps)@) == said_field(step_views(old(steps)@), label@, opt_view(*o)),
{
    match o {
        Some(s) => {
            say(steps, plain(concat2(label, s)));
        },
        None => {},
    }
}

/// Show a package.
pub fn info(p: &PackageInfo, colors: bool) -> (r: Plan)
    ensures
        r@ == done(info_lines(p@, colors)),
{
    let mut steps: Vec<Step> = start();
    say(&mut steps, heading(colors, &p.attribute));
    say_field(&mut steps, "  package name : ", &p.pname);
    say_field(&mut steps, "  version      : ", &p.version);
    say_field(&mut steps, "  description  : ", &p.description);
    say_field(&mut steps, "  homepage     : ", &p.homepage);
    assert(views(p.license@).len() == p.license@.len());
    if p.license.len() > 0 {
        say(&mut steps, plain(concat2("  license      : ", &joined(&p.license, ", "))));
    }
    let status: &str = if p.free {
        "free"
    } else {
        "UNFREE"
    };
    say(&mut steps, plain(concat2("  status       : ", status)));
    if !p.free {
        say(
            &mut steps,
            plain(
                concat2(
                    "\n",
                    &dim(
                        colors,
                        "This package is unfree. NixOS will refuse to build it unless you allow unfree packages, e.g. `nixpkgs.config.allowUnfree = true;` (globally) or via `nixpkgs.config.allowUnfreePredicate` (per-package) in your own configuration.\nnixlayer will not change that setting for you — add it yourself, then `nixlayer add` with `--allow-unfree`.",
                    ),
                ),
            ),
        );
    }
    if p.broken {
        say(&mut steps, warn(colors, "this package is currently marked broken in nixpkgs."));
    }
    let source: &str = match p.source {
        Backend::Flakes => "source: nix eval (flakes, nixpkgs registry)",
        Backend::Legacy => "source: nix-env (legacy/channel mode — reduced metadata)",
    };
    say(&mut steps, plain(concat2("\n", &dim(colors, source))));
    finish(steps)
}

// ---------------------------------------------------------------------------
// list, categories and where
// ---------------------------------------------------------------------------

/// A GitHub source in a list.
pub open spec fn source_row(g: SourceView, colors: bool) -> LineView {
    plain_line(
        "  "@ + dim_text(colors, "[github]"@) + " "@ + g.name + " -> "@ + g.owner + "/"@ + g.repo + "@"@
            + shorten(g.rev, 10) + " ("@ + g.attr + ")"@,
    )
}

pub open spec fn package_rows(steps: Seq<StepView>, v: Seq<Seq<char>>) -> Seq<StepView>
    decreases v.len(),
{
    if v.len() == 0 {
        steps
    } else {
        said(package_rows(steps, v.drop_last()), plain_line("  "@ + v.last()))
    }
}

pub open spec fn source_rows(steps: Seq<StepView>, v: Seq<SourceView>, colors: bool) -> Seq<StepView>
    decreases v.len(),
{
    if v.len() == 0 {
        steps
    } else {
        said(source_rows(steps, v.drop_last(), colors), source_row(v.last(), colors))
    }
}

/// What is shown of a category.
pub open spec fn category_lines(steps: Seq<StepView>, c: CategoryView, colors: bool) -> Seq<StepView> {
    let total = c.packages.len() + c.github.len();
    let a = said(steps, heading_line(colors, c.name + " ("@ + decimal(total) + ")"@));
    let b = said_if(a, total == 0, plain_line("  "@ + dim_text(colors, "(empty)"@)));
    source_rows(package_rows(b, c.packages), c.github, colors)
}

fn total_of(c: &Category) -> (r: String)
    ensures
        r@ == decimal(c@.packages.len() + c@.github.len()),
{
    assert(c@.packages.len() == c.packages@.len());
    assert(c@.github.len() == c.github@.len());
    decimal_of(c.packages.len() as u128 + c.github.len() as u128)
}

/// Show a category.
pub fn say_category(steps: &mut Vec<Step>, c: &Category, colors: bool)
    ensures
        step_views(final(steps)@) == category_lines(step_views(old(steps)@), c@, colors),
{
    let ghost p = c@.packages;
    let ghost g = c@.github;
    assert(p.len() == c.packages@.len());
    assert(g.len() == c.github@.len());
    let mut s: String = concat3(&c.name, " (", &total_of(c));
    s.append(")");
    say(steps, heading(colors, &s));
    if c.packages.len() == 0 && c.github.len() == 0 {
        say(steps, plain(concat2("  ", &dim(colors, "(empty)"))));
    }
    let ghost head = step_views(steps@);
    assert(package_rows(head, p.take(0)) == head);
    for i in 0..c.packages.len()
        invariant
            p == views(c.packages@),
            step_views(steps@) == package_rows(head, p.take(i as int)),
    {
        say(steps, plain(concat2("  ", &c.packages[i])));
        proof {
            assert(p.take(i + 1).drop_last() =~= p.take(i as int));
            assert(p.take(i + 1).last() == c.packages@[i as int]@);
        }
    }
    assert(p.take(p.len() as int) =~= p);
    let ghost body = step_views(steps@);
    assert(source_rows(body, g.take(0), colors) == body);
    for i in 0..c.github.len()
        invariant
            g == source_views(c.github@),
            step_views(steps@) == source_rows(body, g.take(i as int), colors),
    {
        let x: &GithubSource = &c.github[i];
        let mut row: String = concat3("  ", &dim(colors, "[github]"), " ");
        row.append(&x.name);
        row.append(" -> ");
        row.append(&x.owner);
        row.append("/");
        row.append(&x.repo);
        row.append("@");
        row.append(&shortened(&x.rev, 10));
        row.append(" (");
        row.append(&x.attr);
        row.append(")");
        say(steps, plain(row));
        proof {
            assert(g.take(i + 1).drop_last() =~= g.take(i as int));
            assert(g.take(i + 1).last() == c.github@[i as int]@);
        }
    }
    assert(g.take(g.len() as int) =~= g);
}

/// Every category, each followed by an empty line.
pub open spec fn all_lines(
    all: Seq<(Seq<char>, Result<CategoryView, ErrorView>)>,
    colors: bool,
) -> Seq<StepView>
    decreases all.len(),
{
    if all.len() == 0 {
        no_steps()
    } else {
        let before = all_lines(all.drop_last(), colors);
        let here = match all.last().1 {
            Ok(c) => category_lines(before, c, colors),
            Err(e) => said(
                before,
                error_line(colors, all.last().0 + ": "@ + message_of(e)),
            ),
        };
        said(here, plain_line(""@))
    }
}

/// Some category could not be loaded.
pub open spec fn any_broken(all: Seq<(Seq<char>, Result<CategoryView, ErrorView>)>) -> bool {
    exists|i: int| 0 <= i < all.len() && (#[trigger] all[i]).1 is Err
}

/// Listing every category. The command fails, once all is shown, where one could not be loaded.
pub open spec fn list_plan(
    all: Seq<(Seq<char>, Result<CategoryView, ErrorView>)>,
    colors: bool,
) -> PlanView {
    if all.len() == 0 {
        done(
            said(
                no_steps(),
                plain_line("No categories yet. `nixlayer add <package>` to create one."@),
            ),
        )
    } else {
        PlanView {
            steps: all_lines(all, colors),
            outcome: if any_broken(all) {
                OutcomeView::Exit
            } else {
                OutcomeView::Done
            },
        }
    }
}

/// List every category.
pub fn list(all: &Vec<(String, Result<Category, NixlayerError>)>, colors: bool) -> (r: Plan)
    ensures
        r@ == list_plan(loaded_views(all@), colors),
{
    let mut steps: Vec<Step> = start();
    let ghost w = loaded_views(all@);
    assert(w.len() == all@.len());
    if all.len() == 0 {
        say(
            &mut steps,
            plain("No categories yet. `nixlayer add <package>` to create one.".to_string()),
        );
        return finish(steps);
    }
    let mut had_error: bool = false;
    assert(all_lines(w.take(0), colors) == no_steps());
    for i in 0..all.len()
        invariant
            w == loaded_views(all@),
            step_views(steps@) == all_lines(w.take(i as int), colors),
            had_error == exists|j: int| 0 <= j < i && (#[trigger] w[j]).1 is Err,
    {
        proof {
            assert(w.take(i + 1).drop_last() =~= w.take(i as int));
            assert(w.take(i + 1).last() == (all@[i as int].0@, result_view(all@[i as int].1)));
            assert(w[i as int] == (all@[i as int].0@, result_view(all@[i as int].1)));
        }
        match &all[i].1 {
            Ok(c) => {
                say_category(&mut steps, c, colors);
            },
            Err(e) => {
                say(&mut steps, error(colors, &concat3(&all[i].0, ": ", &e.message())));
                had_error = true;
            },
        }
        say(&mut steps, plain("".to_string()));
    }
    assert(w.take(w.len() as int) =~= w);
    let outcome: Outcome = if had_error {
        Outcome::Exit
    } else {
        Outcome::Done
    };
    Plan { steps, outcome }
}

/// List one category: what its file holds, nothing where there is no such file. `known` are the
/// categories that there are.
pub fn list_one(
    paths: &Paths,
    name: &str,
    text: &Option<Result<String, String>>,
    known: &Vec<String>,
    colors: bool,
) -> (r: Plan)
    ensures
        r@ == match *text {
            None => failed(
                no_steps(),
                ErrorView::UnknownCategory(name@, join(views(known@), ", "@)),
            ),
            Some(t) => match load_text(name@, category_path(paths@, name@), text_view(t)) {
                Ok(c) => done(category_lines(no_steps(), c, colors)),
                Err(e) => failed(no_steps(), e),
            },
        },
{
    let mut steps: Vec<Step> = start();
    match text {
        None => fail(
            steps,
            NixlayerError::UnknownCategory(name.to_string(), joined(known, ", ")),
        ),
        Some(t) => match load_stored(name, paths.category_file(name), t) {
            Ok(c) => {
                say_category(&mut steps, &c, colors);
                finish(steps)
            },
            Err(e) => fail(steps, e),
        },
    }
}

/// A category and how much it holds.
pub open spec fn count_row(name: Seq<char>, result: Result<CategoryView, ErrorView>) -> LineView {
    let count = match result {
        Ok(c) => c.packages.len() + c.github.len(),
        Err(_) => 0,
    };
    plain_line(
        "  "@ + pad_right(name, 20) + " "@ + decimal(count) + " package(s)"@ + (if result is Err {
            " (parse error!)"@
        } else {
            ""@
        }),
    )
}

pub open spec fn count_rows(all: Seq<(Seq<char>, Result<CategoryView, ErrorView>)>) -> Seq<StepView>
    decreases all.len(),
{
    if all.len() == 0 {
        no_steps()
    } else {
        said(count_rows(all.drop_last()), count_row(all.last().0, all.last().1))
    }
}

/// List the categories with how much each holds.
pub fn categories(all: &Vec<(String, Result<Category, NixlayerError>)>) -> (r: Plan)
    ensures
        r@ == done(
            if all@.len() == 0 {
                said(no_steps(), plain_line("No categories yet."@))
            } else {
                count_rows(loaded_views(all@))
            },
        ),
{
    let mut steps: Vec<Step> = start();
    let ghost w = loaded_views(all@);
    if all.len() == 0 {
        say(&mut steps, plain("No categories yet.".to_string()));
        return finish(steps);
    }
    assert(count_rows(w.take(0)) == no_steps());
    for i in 0..all.len()
        invariant
            w == loaded_views(all@),
            step_views(steps@) == count_rows(w.take(i as int)),
    {
        proof {
            assert(w.take(i + 1).drop_last() =~= w.take(i as int));
            assert(w.take(i + 1).last() == (all@[i as int].0@, result_view(all@[i as int].1)));
        }
        let (count, status): (String, &str) = match &all[i].1 {
            Ok(c) => (total_of(c), ""),
            Err(_) => (count_text(0), " (parse error!)"),
        };
        let mut row: String = concat3("  ", &padded(&all[i].0, 20), " ");
        row.append(&count);
        row.append(" package(s)");
        row.append(status);
        say(&mut steps, plain(row));
    }
    assert(w.take(w.len() as int) =~= w);
    finish(steps)
}

/// Which category declares a name.
pub open spec fn where_plan(
    p: PathsView,
    names: Seq<Seq<char>>,
    id: Seq<char>,
    colors: bool,
) -> Seq<StepView> {
    if names.len() == 0 {
        said(no_steps(), plain_line("'"@ + id + "' is not managed by nixlayer."@))
    } else if names.len() == 1 {
        said(
            no_steps(),
            plain_line(
                "'"@ + id + "' is in category '"@ + names[0] + "' ("@ + category_path(p, names[0])
                    + ")"@,
            ),
        )
    } else {
        said(
            said(
                no_steps(),
                warn_line(
                    colors,
                    "'"@ + id + "' is declared in "@ + decimal(names.len())
                        + " categories (this is a conflict): "@ + join(names, ", "@),
                ),
            ),
            plain_line("Resolve with: nixlayer move "@ + id + " <category>"@),
        )
    }
}

/// Show which category declares a name.
pub fn where_pkg(
    paths: &Paths,
    all: &Vec<(String, Result<Category, NixlayerError>)>,
    package: &str,
    colors: bool,
) -> (r: Plan)
    ensures
        r@ == done(
            where_plan(paths@, declaring(loaded_views(all@), package@), package@, colors),
        ),
{
    let mut steps: Vec<Step> = start();
    let names: Vec<String> = find_package(all, package);
    assert(views(names@).len() == names@.len());
    if names.len() == 0 {
        say(&mut steps, plain(concat3("'", package, "' is not managed by nixlayer.")));
    } else if names.len() == 1 {
        let mut s: String = concat3("'", package, "' is in category '");
        s.append(&names[0]);
        s.append("' (");
        s.append(&paths.category_file(&names[0]));
        s.append(")");
        say(&mut steps, plain(s));
    } else {
        let mut s: String = concat3("'", package, "' is declared in ");
        s.append(&count_text(names.len()));
        s.append(" categories (this is a conflict): ");
        s.append(&joined(&names, ", "));
        say(&mut steps, warn(colors, &s));
        say(&mut steps, plain(concat3("Resolve with: nixlayer move ", package, " <category>")));
    }
    finish(steps)
}

// ---------------------------------------------------------------------------
// diff
// ---------------------------------------------------------------------------

pub open spec fn marked_rows(steps: Seq<StepView>, mark: Seq<char>, v: Seq<Seq<char>>) -> Seq<StepView>
    decreases v.len(),
{
    if v.len() == 0 {
        steps
    } else {
        said(marked_rows(steps, mark, v.drop_last()), plain_line(mark + v.last()))
    }
}

pub open spec fn change_rows(steps: Seq<StepView>, v: Seq<DiffView>, colors: bool) -> Seq<StepView>
    decreases v.len(),
{
    if v.len() == 0 {
        steps
    } else {
        let c = v.last();
        let head = said(change_rows(steps, v.drop_last(), colors), heading_line(colors, c.category));
        said(marked_rows(marked_rows(head, "  + "@, c.added), "  - "@, c.removed), plain_line(""@))
    }
}

/// What is shown of the changes since the last rebuild.
pub open spec fn diff_lines(first_time: bool, v: Seq<DiffView>, colors: bool) -> Seq<StepView> {
    let head = said_if(
        no_steps(),
        first_time,
        plain_line(
            dim_text(
                colors,
                "No rebuild recorded yet — the first `nixlayer rebuild` will apply everything below."@,
            ),
        ),
    );
    if v.len() == 0 {
        said(head, plain_line("No pending changes since the last rebuild."@))
    } else {
        change_rows(head, v, colors)
    }
}

fn say_marked(steps: &mut Vec<Step>, mark: &str, v: &Vec<String>)
    ensures
        step_views(final(steps)@) == marked_rows(step_views(old(steps)@), mark@, views(v@)),
{
    let ghost w = views(v@);
    let ghost before = step_views(steps@);
    assert(marked_rows(before, mark@, w.take(0)) == before);
    for i in 0..v.len()
        invariant
            w == views(v@),
            step_views(steps@) == marked_rows(before, mark@, w.take(i as int)),
    {
        say(steps, plain(concat2(mark, &v[i])));
        proof {
            assert(w.take(i + 1).drop_last() =~= w.take(i as int));
            assert(w.take(i + 1).last() == v@[i as int]@);
        }
    }
    assert(w.take(w.len() as int) =~= w);
}

/// Show what has changed since the last rebuild. `first_time` tells that no rebuild is recorded.
pub fn diff(first_time: bool, changes: &Vec<CategoryDiff>, colors: bool) -> (r: Plan)
    ensures
        r@ == done(diff_lines(first_time, diff_views(changes@), colors)),
{
    let mut steps: Vec<Step> = start();
    let ghost w = diff_views(changes@);
    assert(w.len() == changes@.len());
    if first_time {
        say(
            &mut steps,
            plain(
                dim(
                    colors,
                    "No rebuild recorded yet — the first `nixlayer rebuild` will apply everything below.",
                ),
            ),
        );
    }
    if changes.len() == 0 {
        say(&mut steps, plain("No pending changes since the last rebuild.".to_string()));
        return finish(steps);
    }
    let ghost head = step_views(steps@);
    assert(change_rows(head, w.take(0), colors) == head);
    for i in 0..changes.len()
        invariant
            w == diff_views(changes@),
            step_views(steps@) == change_rows(head, w.take(i as int), colors),
    {
        proof {
            assert(w.take(i + 1).drop_last() =~= w.take(i as int));
            assert(w.take(i + 1).last() == changes@[i as int]@);
        }
        say(&mut steps, heading(colors, &changes[i].category));
        say_marked(&mut steps, "  + ", &changes[i].added);
        say_marked(&mut steps, "  - ", &changes[i].removed);
        say(&mut steps, plain("".to_string()));
    }
    assert(w.take(w.len() as int) =~= w);
    finish(steps)
}

// ---------------------------------------------------------------------------
// rebuild, doctor and allow-unfree
// ---------------------------------------------------------------------------

/// What is shown once everything is validated, and what comes next.
pub open spec fn validated_plan(mode: Mode, dry_run: bool, colors: bool) -> PlanView {
    let head = said(
        no_steps(),
        ok_line(colors, "all nixlayer-managed files are valid, no duplicates found."@),
    );
    if dry_run {
        done(
            said(
                head,
                plain_line(
                    dim_text(
                        colors,
                        "[dry-run] validation passed; not invoking nixos-rebuild."@,
                    ),
                ),
            ),
        )
    } else {
        PlanView {
            steps: said(
                head,
                plain_line("Running `nixos-rebuild "@ + mode_arg(mode) + "`..."@),
            ),
            outcome: OutcomeView::Rebuild(mode),
        }
    }
}

/// Go on from a validation: show that everything is valid and go on to the rebuild, unless this
/// is a dry run, or fail with what is wrong. Nothing is shown while a check is outstanding.
pub fn rebuild(validation: Validation, mode: Mode, dry_run: bool, colors: bool) -> (r: Option<Plan>)
    ensures
        match validation@ {
            ValidationView::Check(_) => r is None,
            ValidationView::Refused(e) => r matches Some(p) && p@ == failed(no_steps(), e),
            ValidationView::Passed => r matches Some(p) && p@ == validated_plan(
                mode,
                dry_run,
                colors,
            ),
        },
{
    let mut steps: Vec<Step> = start();
    match validation {
        Validation::Check(_) => {
            return None;
        },
        Validation::Refused(e) => {
            return Some(fail(steps, e));
        },
        Validation::Passed => {},
    }
    say(
        &mut steps,
        ok(colors, "all nixlayer-managed files are valid, no duplicates found."),
    );
    if dry_run {
        say(
            &mut steps,
            plain(dim(colors, "[dry-run] validation passed; not invoking nixos-rebuild.")),
        );
        return Some(finish(steps));
    }
    say(&mut steps, plain(concat3("Running `nixos-rebuild ", mode.as_arg(), "`...")));
    Some(Plan { steps, outcome: Outcome::Rebuild(mode) })
}

pub open spec fn finding_line(f: FindingView, colors: bool) -> LineView {
    match f.level {
        Level::Fine => ok_line(colors, f.message),
        Level::Warn => warn_line(colors, f.message),
        Level::Error => error_line(colors, f.message),
    }
}

pub open spec fn finding_lines(v: Seq<FindingView>, colors: bool) -> Seq<StepView>
    decreases v.len(),
{
    if v.len() == 0 {
        no_steps()
    } else {
        said(finding_lines(v.drop_last(), colors), finding_line(v.last(), colors))
    }
}

/// Show a report. The command fails, once all is shown, where something is wrong.
pub fn doctor(report: &Report, colors: bool) -> (r: Plan)
    ensures
        r@ == (PlanView {
            steps: finding_lines(finding_views(report.findings@), colors),
            outcome: if has_error(finding_views(report.findings@)) {
                OutcomeView::Exit
            } else {
                OutcomeView::Done
            },
        }),
{
    let mut steps: Vec<Step> = start();
    let ghost w = finding_views(report.findings@);
    assert(finding_lines(w.take(0), colors) == no_steps());
    for i in 0..report.findings.len()
        invariant
            w == finding_views(report.findings@),
            step_views(steps@) == finding_lines(w.take(i as int), colors),
    {
        proof {
            assert(w.take(i + 1).drop_last() =~= w.take(i as int));
            assert(w.take(i + 1).last() == report.findings@[i as int]@);
        }
        let f: &Finding = &report.findings[i];
        let l: Line = match f.level {
            Level::Fine => ok(colors, &f.message),
            Level::Warn => warn(colors, &f.message),
            Level::Error => error(colors, &f.message),
        };
        say(&mut steps, l);
    }
    assert(w.take(w.len() as int) =~= w);
    let outcome: Outcome = if report.has_errors() {
        proof {
            let i = choose|i: int|
                0 <= i < report.findings@.len() && (#[trigger] report.findings@[i]).level
                    == Level::Error;
            assert(w[i].level == Level::Error);
        }
        Outcome::Exit
    } else {
        proof {
            if has_error(w) {
                let i = choose|i: int| 0 <= i < w.len() && (#[trigger] w[i]).level == Level::Error;
                assert(report.findings@[i].level == Level::Error);
            }
        }
        Outcome::Done
    };
    Plan { steps, outcome }
}

/// Allowing unfree packages, or no longer: the module is written for the new setting.
pub open spec fn unfree_plan(p: PathsView, disable: bool, colors: bool) -> Seq<StepView> {
    said(
        said(
            stored(no_steps(), managed(p, "default.nix"@), module_text(!disable)),
            ok_line(
                colors,
                if disable {
                    "disabled allowUnfree in modules/nixlayer/default.nix"@
                } else {
                    "enabled allowUnfree in modules/nixlayer/default.nix (nixpkgs.config.allowUnfree = true;)"@
                },
            ),
        ),
        rebuild_hint(colors),
    )
}

/// Allow unfree packages, or no longer: the new settings, which are to be saved first, and what
/// follows. Where the command fails there is nothing to save.
pub fn allow_unfree(
    paths: &Paths,
    found: &Found,
    stored: &StoredSettings,
    disable: bool,
    colors: bool,
) -> (r: (Option<Settings>, Plan))
    ensures
        if !(found.dir && found.default_nix) {
            r.0 is None && r.1@ == failed(
                no_steps(),
                ErrorView::NotInitialized(paths@.nixlayer_dir),
            )
        } else {
            match *stored {
                StoredSettings::Unreadable(m) => r.0 is None && r.1@ == failed(
                    no_steps(),
                    ErrorView::Io(m@),
                ),
                _ => r.0 == Some(Settings { allow_unfree: !disable }) && r.1@ == done(
                    unfree_plan(paths@, disable, colors),
                ),
            }
        },
{
    let mut steps: Vec<Step> = start();
    match paths.require_initialized(found) {
        Ok(_) => {},
        Err(e) => {
            return (None, fail(steps, e));
        },
    }
    let mut settings: Settings = match Settings::load(stored) {
        Ok(s) => s,
        Err(e) => {
            return (None, fail(steps, e));
        },
    };
    settings.allow_unfree = !disable;
    let (path, text): (String, String) = sync_default_nix(paths, &settings);
    store(&mut steps, path, text);
    if disable {
        say(&mut steps, ok(colors, "disabled allowUnfree in modules/nixlayer/default.nix"));
    } else {
        say(
            &mut steps,
            ok(
                colors,
                "enabled allowUnfree in modules/nixlayer/default.nix (nixpkgs.config.allowUnfree = true;)",
            ),
        );
    }
    say(&mut steps, hint(colors));
    (Some(settings), finish(steps))
}

// ---------------------------------------------------------------------------
// github list
// ---------------------------------------------------------------------------

/// A GitHub source with the category that declares it.
pub open spec fn pinned_row(g: SourceView, category: Seq<char>, colors: bool) -> LineView {
    plain_line(
        "  "@ + pad_right(bold_text(colors, g.name), 20) + " "@ + g.owner + "/"@ + g.repo + "@"@
            + shorten(g.rev, 10) + " ["@ + or_text(g.git_ref, "(unpinned ref)"@) + "] -> "@ + g.attr
            + " ("@ + category + ")"@,
    )
}

pub open spec fn pinned_rows(
    steps: Seq<StepView>,
    v: Seq<SourceView>,
    category: Seq<char>,
    colors: bool,
) -> Seq<StepView>
    decreases v.len(),
{
    if v.len() == 0 {
        steps
    } else {
        said(
            pinned_rows(steps, v.drop_last(), category, colors),
            pinned_row(v.last(), category, colors),
        )
    }
}

pub open spec fn all_pinned(
    all: Seq<(Seq<char>, Result<CategoryView, ErrorView>)>,
    colors: bool,
) -> Seq<StepView>
    decreases all.len(),
{
    if all.len() == 0 {
        no_steps()
    } else {
        let before = all_pinned(all.drop_last(), colors);
        match all.last().1 {
            Ok(c) => pinned_rows(before, c.github, all.last().0, colors),
            Err(_) => before,
        }
    }
}

/// What is shown of the GitHub sources of all categories.
pub open spec fn github_lines(
    all: Seq<(Seq<char>, Result<CategoryView, ErrorView>)>,
    colors: bool,
) -> Seq<StepView> {
    let rows = all_pinned(all, colors);
    said_if(
        rows,
        rows.len() == 0,
        plain_line(
            "No GitHub-sourced packages yet. `nixlayer github add <owner>/<repo>` to add one."@,
        ),
    )
}

fn say_pinned(steps: &mut Vec<Step>, c: &Category, category: &str, colors: bool)
    ensures
        step_views(final(steps)@) == pinned_rows(
            step_views(old(steps)@),
            c@.github,
            category@,
            colors,
        ),
{
    let ghost g = c@.github;
    let ghost before = step_views(steps@);
    assert(pinned_rows(before, g.take(0), category@, colors) == before);
    for i in 0..c.github.len()
        invariant
            g == source_views(c.github@),
            step_views(steps@) == pinned_rows(before, g.take(i as int), category@, colors),
    {
        let x: &GithubSource = &c.github[i];
        let mut row: String = concat3("  ", &padded(&bold(colors, &x.name), 20), " ");
        row.append(&x.owner);
        row.append("/");
        row.append(&x.repo);
        row.append("@");
        row.append(&shortened(&x.rev, 10));
        row.append(" [");
        row.append(&text_or(&x.git_ref, "(unpinned ref)"));
        row.append("] -> ");
        row.append(&x.attr);
        row.append(" (");
        row.append(category);
        row.append(")");
        say(steps, plain(row));
        proof {
            assert(g.take(i + 1).drop_last() =~= g.take(i as int));
            assert(g.take(i + 1).last() == c.github@[i as int]@);
        }
    }
    assert(g.take(g.len() as int) =~= g);
}

/// Show the GitHub sources of all categories.
pub fn github_list(all: &Vec<(String, Result<Category, NixlayerError>)>, colors: bool) -> (r: Plan)
    ensures
        r@ == done(github_lines(loaded_views(all@), colors)),
{
    let mut steps: Vec<Step> = start();
    let ghost w = loaded_views(all@);
    assert(all_pinned(w.take(0), colors) == no_steps());
    for i in 0..all.len()
        invariant
            w == loaded_views(all@),
            step_views(steps@) == all_pinned(w.take(i as int), colors),
    {
        proof {
            assert(w.take(i + 1).drop_last() =~= w.take(i as int));
            assert(w.take(i + 1).last() == (all@[i as int].0@, result_view(all@[i as int].1)));
        }
        match &all[i].1 {
            Ok(c) => {
                say_pinned(&mut steps, c, &all[i].0, colors);
            },
            Err(_) => {},
        }
    }
    assert(w.take(w.len() as int) =~= w);
    assert(step_views(steps@).len() == steps@.len());
    if steps.len() == 0 {
        say(
            &mut steps,
            plain(
                "No GitHub-sourced packages yet. `nixlayer github add <owner>/<repo>` to add one.".to_string(),
            ),
        );
    }
    finish(steps)
}

} // verus!

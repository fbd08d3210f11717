//! Laws of setting up: where everything lies, what is written and what is reported, and the text
//! of every file that is made.

use vstd::prelude::*;

use crate::category::{github_text, list_inner, package_lines, plain_text, source_lines};
use crate::default_nix::{module_follows_the_setting, module_text, OPEN_MODULE};
use crate::error::ErrorView;
use crate::imports::{line_is_there, only_the_whole_line_counts};
use crate::init::{edit_plan, init_plan, patch_of, BeforeInit, PatchView, ReportView};
use crate::nixfile::CheckView;
use crate::order::unique;
use crate::paths::{
    backup_of, backups_stand_next_to_the_original, category_path, join, path_file_name,
    path_with_file_name, paths_at, text_view, PathsView,
};
use crate::plan::{no_steps, OutcomeView, PlanView, StepView};
use crate::show::{init_lines, said_if, unfree_plan};
use crate::shown::{confirmed, dimmed, in_bold, lemma_only_if, only_if, shows, warned};
use crate::sources::SourceView;
use crate::text::decimal;
use crate::ui::LineView;

verus! {

// ---------------------------------------------------------------------------
// Places
// ---------------------------------------------------------------------------

/// A path that is joined to a directory lies in it, behind one separator, unless it starts at the
/// root.
pub proof fn joined_paths_lie_in_the_directory(base: Seq<char>, part: Seq<char>)
    ensures
        part.len() > 0 && part[0] == '/' ==> join(base, part) == part,
        (part.len() == 0 || part[0] != '/') && base.len() > 0 && base.last() != '/' ==> join(base, part)
            == base + "/"@ + part,
        (part.len() == 0 || part[0] != '/') && (base.len() == 0 || base.last() == '/') ==> join(
            base,
            part,
        ) == base + part,
{
}

/// Below a configuration directory, the managed directory is `modules/nixlayer`, next to
/// `configuration.nix` and `flake.nix`, which are known exactly where they are there. The file of
/// a category bears its name.
pub proof fn everything_has_its_place(
    root: Seq<char>,
    has_configuration: bool,
    has_flake: bool,
    category: Seq<char>,
)
    requires
        root.len() > 0,
        root.last() != '/',
        category.len() > 0,
        category[0] != '/',
    ensures
        ({
            let p = paths_at(root, has_configuration, has_flake);
            &&& p.config_root == root
            &&& p.nixlayer_dir == root + "/"@ + "modules"@ + "/"@ + "nixlayer"@
            &&& p.configuration_nix == if has_configuration {
                Some(root + "/"@ + "configuration.nix"@)
            } else {
                None
            }
            &&& p.flake_nix == if has_flake {
                Some(root + "/"@ + "flake.nix"@)
            } else {
                None
            }
            &&& category_path(p, category) == p.nixlayer_dir + "/"@ + (category + ".nix"@)
        }),
{
    reveal_strlit("modules");
    reveal_strlit("nixlayer");
    reveal_strlit("configuration.nix");
    reveal_strlit("flake.nix");
    let p = paths_at(root, has_configuration, has_flake);
    let m = root + "/"@ + "modules"@;
    assert(m.last() == 's');
    assert(p.nixlayer_dir.last() == 'r');
    assert((category + ".nix"@)[0] == category[0]);
}

/// A backup of a file stands in the same directory, under the name of the file with the time in
/// decimal digits behind it; separators at the end of a path change nothing.
pub proof fn backups_are_named_after_the_file(
    dir: Seq<char>,
    name: Seq<char>,
    secs: nat,
    path: Seq<char>,
)
    requires
        dir.len() > 0,
        dir.last() != '/' && dir.last() != '.',
        name.len() > 0,
        forall|i: int| 0 <= i < name.len() ==> #[trigger] name[i] != '/',
        name != "."@,
        name != ".."@,
    ensures
        path_file_name(dir + "/"@ + name) == Some(name),
        path_with_file_name(
            dir + "/"@ + name,
            backup_of(path_file_name(dir + "/"@ + name), secs),
        ) == dir + "/"@ + name + ".bak-"@ + decimal(secs),
        path.len() > 0 ==> path_file_name(path + seq!['/']) == path_file_name(path),
        backup_of(None, secs) == "file"@ + ".bak-"@ + decimal(secs),
{
    backups_stand_next_to_the_original(dir, name, secs);
    if path.len() > 0 {
        assert((path + seq!['/']).drop_last() =~= path);
    }
}

// ---------------------------------------------------------------------------
// Texts
// ---------------------------------------------------------------------------

/// The text of the module, for either setting.
pub proof fn the_module_is_written_out(allow_unfree: bool)
    ensures
        module_text(allow_unfree) == "# This file is managed by nixlayer. Do not hand-edit.\n#\n# It automatically imports every category file next to it (any *.nix file\n# in this directory other than this one). Adding a new category with\n# `nixlayer add <package> --category <name>` does not require touching this file.\n{ lib, ... }:\nlet\n  dir = ./.;\n  entries = builtins.readDir dir;\n  isCategoryFile = name: type:\n    type == \"regular\" && name != \"default.nix\" && lib.hasSuffix \".nix\" name;\n  categoryFiles = builtins.attrNames (lib.filterAttrs isCategoryFile entries);\nin\n{\n  imports = map (name: dir + \"/${name}\") categoryFiles;\n"@ + (if allow_unfree {
            "  nixpkgs.config.allowUnfree = true;\n"@
        } else {
            ""@
        }) + "}\n"@,
{
    module_follows_the_setting(allow_unfree);
    reveal_strlit("");
    let o = OPEN_MODULE@;
    assert(o + ""@ =~= o);
}

/// The text of a category file, with and without GitHub sources: the name of the category stands
/// in its head, and the packages in the one list.
pub proof fn category_files_are_written_out(name: Seq<char>, gh: Seq<char>, inner: Seq<char>)
    ensures
        plain_text(name, inner) == "# This file is managed by nixlayer.\n# Category: "@ + name + "\n# Do not hand-edit the package list unless you know what you're doing —\n# nixlayer may reorder or rewrite it when you run `nixlayer add/remove/move`.\n# Anything other than the environment.systemPackages list below is left alone.\n\n{ pkgs, ... }:\n\n{\n  "@
            + "environment.systemPackages"@ + " = with pkgs; ["@ + inner + "];\n}\n"@,
        github_text(name, gh, inner) == "# This file is managed by nixlayer.\n# Category: "@ + name + "\n# This category includes GitHub-sourced packages, pinned to exact commits.\n# nixlayer manages this whole file once GitHub sources are present —\n# avoid hand-editing it; use `nixlayer github` / `nixlayer add|remove|move` instead.\n\n{ pkgs, ... }:\nlet\n  "@
            + "ghPkgs = "@ + "{\n"@ + gh + "  };\nin\n{\n  "@ + "environment.systemPackages"@
            + " = with pkgs; ["@ + inner + "]"@ + " ++ (builtins.attrValues ghPkgs)"@ + ";\n}\n"@,
{
}

/// A package is written on a line of its own, and a GitHub source as the output of the flake that
/// is pinned to its commit, under the name that it was given, with the reference that it was asked
/// for remembered in a comment before it.
pub proof fn entries_are_written_out(v: Seq<Seq<char>>, x: Seq<char>, s: SourceView)
    ensures
        package_lines(v.push(x)) == package_lines(v) + "    "@ + x
            + "\n"@,
        package_lines(Seq::empty()).len() == 0,
        list_inner(v) == "\n"@ + package_lines(unique(v)) + "  "@,
        s.git_ref is None ==> source_lines(s) == "    "@ + s.name + " = (builtins.getFlake \""@ + (
        "github:"@ + s.owner + "/"@ + s.repo + "/"@ + s.rev) + "\").packages.${pkgs.system}."@ + s.attr
            + ";\n"@,
        s.git_ref matches Some(r) ==> source_lines(s) == "    # nixlayer-source-ref: "@ + r + "\n"@
            + "    "@ + s.name + " = (builtins.getFlake \""@ + ("github:"@ + s.owner + "/"@ + s.repo
            + "/"@ + s.rev) + "\").packages.${pkgs.system}."@ + s.attr + ";\n"@,
{
    assert(v.push(x).drop_last() =~= v);
    let none: Seq<char> = Seq::empty();
    assert(none + "    "@ =~= "    "@);
}

// ---------------------------------------------------------------------------
// Setting up
// ---------------------------------------------------------------------------

/// What is set up already is not set up again.
pub proof fn setting_up_twice_is_refused(p: PathsView, before: BeforeInit, dry_run: bool)
    requires
        before.found.dir && before.found.default_nix,
    ensures
        init_plan(p, before, dry_run).report == Err::<ReportView, ErrorView>(
            ErrorView::AlreadyInitialized(p.nixlayer_dir),
        ),
        init_plan(p, before, dry_run).steps.len() == 0,
        init_plan(p, before, dry_run).create_dir is None,
{
}

/// The report tells the truth: what was missing is what was made, and of `configuration.nix` it
/// tells that the line was there already, that it was added, or what the user has to do.
pub proof fn reports_tell_the_truth(
    p: PathsView,
    before: BeforeInit,
    dry_run: bool,
    path: Seq<char>,
    text: Seq<char>,
)
    requires
        !(before.found.dir && before.found.default_nix),
        p.configuration_nix == Some(path),
        text_view(before.configuration) == Ok::<Seq<char>, Seq<char>>(text),
    ensures
        ({
            let r = init_plan(p, before, dry_run).report->Ok_0;
            &&& init_plan(p, before, dry_run).report is Ok
            &&& r.created_dir == !before.found.dir
            &&& r.created_default_nix == !before.found.default_nix
            &&& r.created_default_category == !before.default_category
            &&& r.configuration_nix_already_ok <==> line_is_there(text)
            &&& r.configuration_nix_patched <==> patch_of(path, text) is Edit
            &&& patch_of(path, text) matches PatchView::ByHand(m) ==> r.manual_step_needed == Some(m)
            &&& r.manual_step_needed is None <==> r.configuration_nix_patched
                || r.configuration_nix_already_ok
        }),
{
    only_the_whole_line_counts(path, text);
}

/// Where there is no `configuration.nix`, the user is told which line to add, and where it cannot
/// be read, setting up fails.
pub proof fn missing_configurations_are_reported(p: PathsView, before: BeforeInit, dry_run: bool)
    requires
        !(before.found.dir && before.found.default_nix),
    ensures
        p.configuration_nix is None ==> init_plan(p, before, dry_run).report is Ok && init_plan(
            p,
            before,
            dry_run,
        ).report->Ok_0.manual_step_needed == Some(
            "No configuration.nix found at "@ + p.config_root
                + ". Add this import to whichever module makes up your system config:\n\n    "@
                + "./modules/nixlayer/default.nix"@ + "\n"@,
        ),
        p.configuration_nix is Some ==> (text_view(before.configuration) matches Err(m) ==> init_plan(
            p,
            before,
            dry_run,
        ).report == Err::<ReportView, ErrorView>(ErrorView::Io(m))),
{
}

/// What setting up writes, in order: the module; the empty default category, unless there is one;
/// and, where `configuration.nix` is edited, its backup and then its new text. The directory is
/// made first.
pub proof fn setting_up_writes_what_is_missing(p: PathsView, before: BeforeInit)
    requires
        !(before.found.dir && before.found.default_nix),
    ensures
        ({
            let plan = init_plan(p, before, false);
            let n: int = if before.default_category {
                1
            } else {
                2
            };
            &&& plan.create_dir == Some(p.nixlayer_dir)
            &&& plan.steps.len() >= n
            &&& plan.steps[0] == StepView::Write(
                join(p.nixlayer_dir, "default.nix"@),
                module_text(false),
            )
            &&& !before.default_category ==> plan.steps[1] == StepView::Write(
                join(p.nixlayer_dir, "app"@ + ".nix"@),
                plain_text("app"@, "\n  "@),
            )
            &&& plan.original is None ==> plan.steps.len() == n
            &&& plan.original is Some ==> plan.steps.len() == n + 2
            &&& plan.original is Some <==> p.configuration_nix is Some && text_view(
                before.configuration,
            ) is Ok && patch_of(p.configuration_nix->0, text_view(before.configuration)->Ok_0) is Edit
        }),
{
}

/// What is shown of setting up: one line for each thing that was made, whether the import was
/// there, was added or is left to the user, and at the end that all is ready, or that nothing was
/// written.
pub proof fn reports_are_shown(report: ReportView, dry_run: bool, colors: bool)
    ensures
        ({
            let mark = if dry_run {
                "[dry-run] "@
            } else {
                ""@
            };
            init_lines(report, dry_run, colors) == only_if(
                report.created_dir,
                shows(confirmed(colors, mark + "create modules/nixlayer/"@)),
            ) + only_if(
                report.created_default_nix,
                shows(confirmed(colors, mark + "write modules/nixlayer/default.nix"@)),
            ) + only_if(
                report.created_default_category,
                shows(
                    confirmed(
                        colors,
                        mark + "write modules/nixlayer/"@ + "app"@
                            + ".nix (empty default category)"@,
                    ),
                ),
            ) + only_if(
                report.configuration_nix_already_ok,
                shows(
                    confirmed(
                        colors,
                        "configuration.nix already imports nixlayer — nothing to change."@,
                    ),
                ),
            ) + only_if(
                report.configuration_nix_patched && !report.configuration_nix_already_ok,
                shows(
                    confirmed(
                        colors,
                        mark + "add `./modules/nixlayer/default.nix` to configuration.nix's imports"@,
                    ),
                ),
            ) + only_if(
                report.manual_step_needed is Some,
                shows(warned(colors, "one manual step is needed:"@)),
            ) + only_if(
                report.manual_step_needed is Some,
                shows("\n"@ + report.manual_step_needed->0),
            ) + only_if(
                dry_run,
                shows(
                    "\n"@ + dimmed(
                        colors,
                        "Dry run — nothing was written. Re-run without --dry-run to apply."@,
                    ),
                ),
            ) + only_if(
                !dry_run && report.manual_step_needed is None,
                shows(
                    "\n"@ + in_bold(colors, "Done —"@)
                        + " nixlayer is ready. Try `nixlayer add firefox`, then `nixlayer rebuild`."@,
                ),
            )
        }),
{
    let r = report;
    let none: Seq<StepView> = Seq::empty();
    let mark = if dry_run {
        "[dry-run] "@
    } else {
        ""@
    };
    let l1 = told(confirmed(colors, mark + "create modules/nixlayer/"@));
    let l2 = told(confirmed(colors, mark + "write modules/nixlayer/default.nix"@));
    let l3 = told(
        confirmed(
            colors,
            mark + "write modules/nixlayer/"@ + "app"@ + ".nix (empty default category)"@,
        ),
    );
    let l4 = told(
        confirmed(colors, "configuration.nix already imports nixlayer — nothing to change."@),
    );
    let l5 = told(
        confirmed(
            colors,
            mark + "add `./modules/nixlayer/default.nix` to configuration.nix's imports"@,
        ),
    );
    let l6 = told(warned(colors, "one manual step is needed:"@));
    let l7 = told("\n"@ + r.manual_step_needed->0);
    let l8 = told(
        "\n"@ + dimmed(
            colors,
            "Dry run — nothing was written. Re-run without --dry-run to apply."@,
        ),
    );
    let l9 = told(
        "\n"@ + in_bold(colors, "Done —"@)
            + " nixlayer is ready. Try `nixlayer add firefox`, then `nixlayer rebuild`."@,
    );
    let ok = r.configuration_nix_already_ok;
    let some = r.manual_step_needed is Some;
    let s1 = said_if(no_steps(), r.created_dir, l1);
    let s2 = said_if(s1, r.created_default_nix, l2);
    let s3 = said_if(s2, r.created_default_category, l3);
    let s4 = said_if(s3, ok, l4);
    let s5 = said_if(s4, r.configuration_nix_patched && !ok, l5);
    let s6 = said_if(s5, some, l6);
    let s7 = said_if(s6, some, l7);
    let s8 = said_if(s7, dry_run, l8);
    let s9 = said_if(s8, !dry_run && !some, l9);
    assert(init_lines(r, dry_run, colors) == s9);
    lemma_only_if(no_steps(), r.created_dir, l1.text);
    assert(s1 =~= only_if(r.created_dir, StepView::Print(l1)));
    lemma_only_if(s1, r.created_default_nix, l2.text);
    lemma_only_if(s2, r.created_default_category, l3.text);
    lemma_only_if(s3, ok, l4.text);
    lemma_only_if(s4, r.configuration_nix_patched && !ok, l5.text);
    lemma_only_if(s5, some, l6.text);
    lemma_only_if(s6, some, l7.text);
    lemma_only_if(s7, dry_run, l8.text);
    lemma_only_if(s8, !dry_run && !some, l9.text);
}

spec fn told(text: Seq<char>) -> LineView {
    LineView { text, to_stderr: false }
}

/// An edit that turns out to be invalid is taken back, and the command fails with what was wrong
/// and with the line that the user has to add.
pub proof fn taken_back_edits_are_reported(path: Seq<char>, original: Seq<char>, m: Seq<char>)
    ensures
        edit_plan(path, original, CheckView::Invalid(m)) == (PlanView {
            steps: seq![StepView::Write(path, original)],
            outcome: OutcomeView::Fail(
                ErrorView::Other(
                    "patching "@ + path
                        + " would have produced invalid Nix syntax, so nixlayer reverted it:\n"@ + m
                        + "\n\nPlease add this line to your imports list by hand:\n\n    "@
                        + "./modules/nixlayer/default.nix"@ + "\n"@,
                ),
            ),
        }),
        edit_plan(path, original, CheckView::Valid).steps.len() == 0,
        edit_plan(path, original, CheckView::Valid).outcome == OutcomeView::Done,
        edit_plan(path, original, CheckView::Skipped).steps.len() == 0,
        edit_plan(path, original, CheckView::Skipped).outcome == OutcomeView::Done,
{
    let s = edit_plan(path, original, CheckView::Invalid(m)).steps;
    assert(s =~= seq![s[0]]);
}

/// Allowing and disallowing unfree packages writes the module with and without the line that
/// allows them, and tells which of the two was done.
pub proof fn the_setting_is_written_and_told(p: PathsView, colors: bool)
    ensures
        ({
            let hint = shows(dimmed(colors, "Run `nixlayer rebuild` to apply."@));
            &&& unfree_plan(p, false, colors) == seq![
                StepView::Write(join(p.nixlayer_dir, "default.nix"@), module_text(true)),
                shows(
                    confirmed(
                        colors,
                        "enabled allowUnfree in modules/nixlayer/default.nix (nixpkgs.config.allowUnfree = true;)"@,
                    ),
                ),
                hint,
            ]
            &&& unfree_plan(p, true, colors) == seq![
                StepView::Write(join(p.nixlayer_dir, "default.nix"@), module_text(false)),
                shows(
                    confirmed(colors, "disabled allowUnfree in modules/nixlayer/default.nix"@),
                ),
                hint,
            ]
        }),
{
    let a = unfree_plan(p, false, colors);
    let b = unfree_plan(p, true, colors);
    assert(a =~= seq![a[0], a[1], a[2]]);
    assert(b =~= seq![b[0], b[1], b[2]]);
}

} // verus!

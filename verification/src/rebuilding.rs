//! Laws of rebuilding: what is launched for each mode, what is shown before it, and which files
//! are checked first.

use vstd::prelude::*;

use crate::category::{declaring, duplicates, CategoryView};
use crate::cli::{mode_of, RebuildMode};
use crate::edits::duplicates_are_reported;
use crate::error::{message_of, ErrorView};
use crate::nixfile::CheckView;
use crate::paths::{join, Found, PathsView};
use crate::plan::{OutcomeView, PlanView};
use crate::rebuild::{
    first_broken, first_invalid, lemma_first_broken, lemma_first_invalid, rebuild_step, validation,
    Mode, RebuildStepView, ValidationView,
};
use crate::show::validated_plan;
use crate::shown::{confirmed, dimmed, shows};
use crate::text::decimal;
use crate::tools::CallView;

verus! {

/// A setup that is not sound is refused with what is wrong with it, and a check that is outstanding
/// is made, whatever was asked for. A sound one ends a dry run, and is refused where there is no
/// tool to launch.
pub proof fn nothing_else_is_launched(
    e: ErrorView,
    file: Seq<char>,
    mode: Mode,
    dry_run: bool,
    tool_found: bool,
)
    ensures
        rebuild_step(ValidationView::Refused(e), mode, dry_run, tool_found)
            == RebuildStepView::Refused(e),
        rebuild_step(ValidationView::Check(file), mode, dry_run, tool_found)
            == RebuildStepView::Check(file),
        rebuild_step(ValidationView::Passed, mode, true, tool_found) == RebuildStepView::Done,
        rebuild_step(ValidationView::Passed, mode, false, false) == RebuildStepView::Refused(
            ErrorView::Other(
                "`nixos-rebuild` not found on PATH. nixlayer drives the system's own rebuild tool rather than reimplementing it — install/enable it, or run this on an actual NixOS system."@,
            ),
        ),
{
}

/// The step that launches `nixos-rebuild` with one argument.
pub open spec fn launches(argument: Seq<char>) -> RebuildStepView {
    RebuildStepView::Launch(CallView { program: "nixos-rebuild"@, args: seq![argument] })
}

/// Each mode launches `nixos-rebuild` with its own one argument: `switch`, `boot` or `test`, and
/// with no other.
pub proof fn every_mode_has_its_own_argument(v: ValidationView, dry_run: bool, tool_found: bool)
    ensures
        rebuild_step(ValidationView::Passed, Mode::Switch, false, true) == launches("switch"@),
        rebuild_step(ValidationView::Passed, Mode::Boot, false, true) == launches("boot"@),
        rebuild_step(ValidationView::Passed, Mode::Test, false, true) == launches("test"@),
        rebuild_step(v, Mode::Switch, dry_run, tool_found) is Launch ==> rebuild_step(
            v,
            Mode::Switch,
            dry_run,
            tool_found,
        ) == launches("switch"@),
        rebuild_step(v, Mode::Boot, dry_run, tool_found) is Launch ==> rebuild_step(
            v,
            Mode::Boot,
            dry_run,
            tool_found,
        ) == launches("boot"@),
        rebuild_step(v, Mode::Test, dry_run, tool_found) is Launch ==> rebuild_step(
            v,
            Mode::Test,
            dry_run,
            tool_found,
        ) == launches("test"@),
        launches("switch"@) != launches("boot"@),
        launches("boot"@) != launches("test"@),
        launches("switch"@) != launches("test"@),
{
    reveal_strlit("switch");
    reveal_strlit("boot");
    reveal_strlit("test");
    let none: Seq<Seq<char>> = Seq::empty();
    assert(none.push("switch"@) =~= seq!["switch"@]);
    assert(none.push("boot"@) =~= seq!["boot"@]);
    assert(none.push("test"@) =~= seq!["test"@]);
    assert("switch"@.len() == 6);
    assert("boot"@.len() == 4 && "test"@.len() == 4);
    assert("boot"@[0] == 'b' && "test"@[0] == 't');
    assert(seq!["switch"@][0] == "switch"@);
    assert(seq!["boot"@][0] == "boot"@);
    assert(seq!["test"@][0] == "test"@);
}

/// Where everything is valid, the mode that was asked for is the one that is run, and the command
/// that is shown is the one that is launched. A dry run launches nothing.
pub proof fn the_mode_asked_for_is_run(asked: RebuildMode, colors: bool)
    ensures
        ({
            let valid = shows(
                confirmed(colors, "all nixlayer-managed files are valid, no duplicates found."@),
            );
            let plan = validated_plan(mode_of(asked), false, colors);
            &&& asked is Switch ==> plan == (PlanView {
                steps: seq![valid, shows("Running `nixos-rebuild "@ + "switch"@ + "`..."@)],
                outcome: OutcomeView::Rebuild(Mode::Switch),
            })
            &&& asked is Boot ==> plan == (PlanView {
                steps: seq![valid, shows("Running `nixos-rebuild "@ + "boot"@ + "`..."@)],
                outcome: OutcomeView::Rebuild(Mode::Boot),
            })
            &&& asked is Test ==> plan == (PlanView {
                steps: seq![valid, shows("Running `nixos-rebuild "@ + "test"@ + "`..."@)],
                outcome: OutcomeView::Rebuild(Mode::Test),
            })
            &&& validated_plan(mode_of(asked), true, colors) == (PlanView {
                steps: seq![
                    valid,
                    shows(
                        dimmed(
                            colors,
                            "[dry-run] validation passed; not invoking nixos-rebuild."@,
                        ),
                    ),
                ],
                outcome: OutcomeView::Done,
            })
        }),
{
    let plan = validated_plan(mode_of(asked), false, colors);
    let dry = validated_plan(mode_of(asked), true, colors);
    assert(plan.steps =~= seq![plan.steps[0], plan.steps[1]]);
    assert(dry.steps =~= seq![dry.steps[0], dry.steps[1]]);
}

/// The module is checked first and then each category file, in order, and the first one that is
/// invalid is named, with what is wrong with it. `k` is the number of files that were checked.
pub proof fn files_are_checked_one_after_the_other(
    p: PathsView,
    found: Found,
    all: Seq<(Seq<char>, Result<CategoryView, ErrorView>)>,
    checks: Seq<CheckView>,
    k: int,
)
    requires
        found.dir && found.default_nix,
        forall|id: Seq<char>| (#[trigger] declaring(all, id)).len() <= 1,
        forall|i: int| 0 <= i < all.len() ==> (#[trigger] all[i]).1 is Ok,
        0 <= k <= all.len(),
        k <= checks.len(),
        forall|i: int| 0 <= i < k ==> !(#[trigger] checks[i] is Invalid),
    ensures
        ({
            let file = if k == 0 {
                join(p.nixlayer_dir, "default.nix"@)
            } else {
                join(p.nixlayer_dir, all[k - 1].0 + ".nix"@)
            };
            &&& checks.len() == k ==> validation(p, found, all, checks) == ValidationView::Check(
                file,
            )
            &&& checks.len() > k && checks[k] is Invalid ==> validation(p, found, all, checks)
                == ValidationView::Refused(
                ErrorView::UnsafeToRebuild(
                    file + " has invalid Nix syntax:\n"@ + checks[k]->Invalid_0,
                ),
            )
        }),
{
    lemma_first_broken(all);
    lemma_first_invalid(checks);
    if duplicates(all).len() > 0 {
        duplicates_are_reported(all, duplicates(all)[0].0);
        assert(declaring(all, duplicates(all)[0].0).len() > 1);
    }
    let j = first_invalid(checks);
    if checks.len() > k && checks[k] is Invalid {
        if j < k {
            assert(checks[j] is Invalid);
        }
        if j > k {
            assert(!(checks[k] is Invalid));
        }
    }
}

/// A name that two categories list, and a category that cannot be read, are named before any file
/// is checked: first the name, then the category.
pub proof fn obstacles_are_named(
    p: PathsView,
    found: Found,
    all: Seq<(Seq<char>, Result<CategoryView, ErrorView>)>,
    checks: Seq<CheckView>,
    k: int,
)
    requires
        found.dir && found.default_nix,
    ensures
        duplicates(all).len() > 0 ==> {
            let (id, names) = duplicates(all)[0];
            &&& names == declaring(all, id)
            &&& names.len() > 1
            &&& validation(p, found, all, checks) == ValidationView::Refused(
                ErrorView::UnsafeToRebuild(
                    "duplicate package declaration: '"@ + id + "' appears in "@
                        + decimal(names.len()) + " category files ("@
                        + crate::text::join(names, ", "@) + ")."@,
                ),
            )
        },
        duplicates(all).len() == 0 && 0 <= k < all.len() && all[k].1 is Err && (forall|i: int|
            0 <= i < k ==> (#[trigger] all[i]).1 is Ok) ==> validation(p, found, all, checks)
            == ValidationView::Refused(
            ErrorView::UnsafeToRebuild(
                "category '"@ + all[k].0 + "' failed to parse: "@ + message_of(
                    all[k].1->Err_0,
                ),
            ),
        ),
{
    lemma_first_broken(all);
    if duplicates(all).len() > 0 {
        duplicates_are_reported(all, duplicates(all)[0].0);
        assert(duplicates(all)[0].1 == declaring(all, duplicates(all)[0].0));
    } else if 0 <= k < all.len() && all[k].1 is Err && (forall|i: int|
        0 <= i < k ==> (#[trigger] all[i]).1 is Ok) {
        let j = first_broken(all);
        if j < k {
            assert(all[j].1 is Ok);
        }
        if k < j {
            assert(all[k].1 is Ok);
        }
    }
}

} // verus!

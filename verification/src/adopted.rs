//! Laws of importing what was installed imperatively: what becomes of each entry, what is shown of
//! it, and what is removed afterwards.

use vstd::prelude::*;

use crate::calls::packages_are_removed_by_their_key;
use crate::category::{declares, rendered, CategoryView};
use crate::commands::target_category;
use crate::error::{message_of, ErrorView};
use crate::import::{
    by_hand_rows, fate, import_plan, import_rows, imported_entries, imports, left_over,
    managed_ones, managed_rows, removal_calls, removal_question, unresolved_ones, unresolved_rows,
    with_imports, worth_asking, Answer, FateView,
};
use crate::order::{itself, lemma_push_contains, lemma_sort_contains};
use crate::paths::{FileView, PathsView};
use crate::plan::{OutcomeView, StepView};
use crate::profile::{InstalledView, ProfileBackend};
use crate::shown::{confirmed, dimmed, shows, warned};
use crate::text::decimal;
use crate::tools::CallView;
use crate::ui::agrees;
use crate::untouched::{declaring_categories_list_the_name, lists_name};

verus! {

/// What becomes of an entry: it stays where it does not seem to come from nixpkgs; it is left to
/// the first category that lists it, where there is one; otherwise it is imported under the
/// attribute that was found, or stays with the reason for which none was.
pub proof fn fates_follow_from_the_answers(
    all: Seq<(Seq<char>, Result<CategoryView, ErrorView>)>,
    e: InstalledView,
    answer: Answer,
)
    ensures
        ({
            let names = all.filter(lists_name(e.guessed_attr));
            let f = fate(all, e, answer);
            &&& !e.likely_nixpkgs ==> f == FateView::Unresolved(
                e,
                "not clearly from nixpkgs — see `nixlayer github add` for non-nixpkgs sources"@,
            )
            &&& e.likely_nixpkgs && names.len() > 0 ==> f == FateView::Managed(e, names[0].0)
            &&& e.likely_nixpkgs && names.len() == 0 ==> {
                &&& answer matches Answer::Found(p) ==> f == FateView::Import(e, p.attribute@)
                &&& answer matches Answer::Failed(m) ==> f == FateView::Unresolved(
                    e,
                    message_of(m@),
                )
            }
            &&& worth_asking(all, e) <==> e.likely_nixpkgs && names.len() == 0
        }),
{
    declaring_categories_list_the_name(all, e.guessed_attr);
}

/// The fates of the entries that are imported.
pub open spec fn is_import() -> spec_fn(FateView) -> bool {
    |f: FateView| f is Import
}

/// The fates of the entries that some category declares already.
pub open spec fn is_managed() -> spec_fn(FateView) -> bool {
    |f: FateView| f is Managed
}

/// The fates of the entries that stay.
pub open spec fn is_unresolved() -> spec_fn(FateView) -> bool {
    |f: FateView| f is Unresolved
}

/// How an imported entry is shown.
pub open spec fn import_row() -> spec_fn(FateView) -> StepView {
    |f: FateView|
        shows("    "@ + f->Import_1 + " (from "@ + (f->Import_0).display_name + ")"@)
}

/// How an entry that is declared already is shown.
pub open spec fn managed_row() -> spec_fn(FateView) -> StepView {
    |f: FateView|
        shows(
            "    "@ + (f->Managed_0).display_name + " (already in '"@ + f->Managed_1 + "')"@,
        )
}

/// How an entry that stays is shown.
pub open spec fn unresolved_row() -> spec_fn(FateView) -> StepView {
    |f: FateView| shows("    "@ + (f->Unresolved_0).display_name + " — "@ + f->Unresolved_1)
}

/// How an entry can be removed by hand.
pub open spec fn by_hand_row() -> spec_fn(FateView) -> StepView {
    |f: FateView|
        shows(
            match (f->Import_0).backend {
                ProfileBackend::NixEnv => "    nix-env -e "@ + (f->Import_0).removal_key,
                ProfileBackend::NixProfile => "    nix profile remove "@
                    + (f->Import_0).removal_key,
            },
        )
}

/// Every entry is shown once, among those of its fate and in order, and each number that is shown
/// is the number of such entries.
pub proof fn every_fate_is_shown(steps: Seq<StepView>, v: Seq<FateView>)
    ensures
        import_rows(steps, v) == steps + v.filter(is_import()).map_values(import_row()),
        managed_rows(steps, v) == steps + v.filter(is_managed()).map_values(managed_row()),
        unresolved_rows(steps, v) == steps + v.filter(is_unresolved()).map_values(
            unresolved_row(),
        ),
        by_hand_rows(steps, v) == steps + v.filter(is_import()).map_values(by_hand_row()),
        imported_entries(v) == v.filter(is_import()).map_values(|f: FateView| f->Import_0),
        imports(v) == v.filter(is_import()).len(),
        managed_ones(v) == v.filter(is_managed()).len(),
        unresolved_ones(v) == v.filter(is_unresolved()).len(),
    decreases v.len(),
{
    reveal(Seq::filter);
    if v.len() > 0 {
        every_fate_is_shown(steps, v.drop_last());
    }
    assert(import_rows(steps, v) =~= steps + v.filter(is_import()).map_values(import_row()));
    assert(managed_rows(steps, v) =~= steps + v.filter(is_managed()).map_values(managed_row()));
    assert(unresolved_rows(steps, v) =~= steps + v.filter(is_unresolved()).map_values(
        unresolved_row(),
    ));
    assert(by_hand_rows(steps, v) =~= steps + v.filter(is_import()).map_values(by_hand_row()));
    assert(imported_entries(v) =~= v.filter(is_import()).map_values(|f: FateView| f->Import_0));
}

/// What is shown of the entries that are not imported: those that are declared already, and those
/// that stay, each group behind a warning that counts it, and neither where it is empty.
pub proof fn what_is_left_over_is_shown(steps: Seq<StepView>, v: Seq<FateView>, colors: bool)
    ensures
        ({
            let m = v.filter(is_managed());
            let u = v.filter(is_unresolved());
            let none: Seq<StepView> = Seq::empty();
            left_over(steps, v, colors) == steps + (if m.len() > 0 {
                seq![
                    shows(warned(colors, decimal(m.len()) + " already managed elsewhere, skipped:"@)),
                ] + m.map_values(managed_row())
            } else {
                none
            }) + (if u.len() > 0 {
                seq![
                    shows(
                        warned(
                            colors,
                            decimal(u.len()) + " couldn't be confidently matched, not imported:"@,
                        ),
                    ),
                ] + u.map_values(unresolved_row())
            } else {
                none
            })
        }),
{
    let m = v.filter(is_managed());
    let u = v.filter(is_unresolved());
    let none: Seq<StepView> = Seq::empty();
    let x = shows(warned(colors, decimal(m.len()) + " already managed elsewhere, skipped:"@));
    let y = shows(
        warned(colors, decimal(u.len()) + " couldn't be confidently matched, not imported:"@),
    );
    every_fate_is_shown(steps.push(x), v);
    let a = if m.len() > 0 {
        seq![x] + m.map_values(managed_row())
    } else {
        none
    };
    assert(steps.push(x) + m.map_values(managed_row()) =~= steps + (seq![x] + m.map_values(
        managed_row(),
    )));
    assert(steps + none =~= steps);
    let s = steps + a;
    every_fate_is_shown(s.push(y), v);
    assert(s.push(y) + u.map_values(unresolved_row()) =~= s + (seq![y] + u.map_values(
        unresolved_row(),
    )));
    assert(s + none =~= s);
}

/// The whole of an import: nothing to import is said so; a dry run tells what would be added and
/// writes nothing; otherwise the file of the category is written, each imported package is shown,
/// and then what is left over.
pub proof fn imports_are_reported(
    p: PathsView,
    files: Seq<FileView>,
    category: Seq<char>,
    v: Seq<FateView>,
    colors: bool,
)
    requires
        target_category(p, files, category) is Ok,
        rendered(with_imports(target_category(p, files, category)->Ok_0, v)) is Ok,
    ensures
        ({
            let i = v.filter(is_import());
            let d = with_imports(target_category(p, files, category)->Ok_0, v);
            let n = decimal(i.len());
            let rows = i.map_values(import_row());
            let none: Seq<StepView> = Seq::empty();
            let plan = import_plan(p, files, category, v, false, colors);
            let dry = import_plan(p, files, category, v, true, colors);
            &&& plan.outcome == OutcomeView::Done && dry.outcome == OutcomeView::Done
            &&& v.len() == 0 ==> plan.steps == seq![
                shows("Nothing found installed imperatively — nothing to import."@),
            ] && dry == plan
            &&& v.len() > 0 && i.len() == 0 ==> plan.steps == left_over(
                seq![shows("No new packages to import."@)],
                v,
                colors,
            ) && dry == plan
            &&& i.len() > 0 ==> {
                &&& plan.steps == left_over(
                    seq![
                        StepView::Write(d.path, rendered(d)->Ok_0),
                        shows(confirmed(colors, "imported "@ + n + " package(s) into "@ + d.path)),
                    ] + rows,
                    v,
                    colors,
                ).push(
                    shows(
                        dimmed(
                            colors,
                            "Run `nixlayer rebuild` once you're happy with import.nix."@,
                        ),
                    ),
                )
                &&& dry.steps == left_over(
                    seq![
                        shows(
                            dimmed(colors, "[dry-run]"@) + " would add "@ + n + " package(s) to "@
                                + d.path + ":"@,
                        ),
                    ] + rows,
                    v,
                    colors,
                )
            }
        }),
{
    let none: Seq<StepView> = Seq::empty();
    let d = with_imports(target_category(p, files, category)->Ok_0, v);
    every_fate_is_shown(none, v);
    reveal(Seq::filter);
    let n = decimal(v.filter(is_import()).len());
    let w = StepView::Write(d.path, rendered(d)->Ok_0);
    let told = shows(confirmed(colors, "imported "@ + n + " package(s) into "@ + d.path));
    let would = shows(
        dimmed(colors, "[dry-run]"@) + " would add "@ + n + " package(s) to "@ + d.path + ":"@,
    );
    assert(none.push(w).push(told) =~= seq![w, told]);
    assert(none.push(would) =~= seq![would]);
    every_fate_is_shown(seq![w, told], v);
    every_fate_is_shown(seq![would], v);
    let a = shows("Nothing found installed imperatively — nothing to import."@);
    let b = shows("No new packages to import."@);
    assert(none.push(a) =~= seq![a]);
    assert(none.push(b) =~= seq![b]);
}

/// The user is asked about removals exactly where something was imported, and told how many there
/// are. A yes removes exactly the imported entries, each with its own program and key, in order,
/// and any other answer removes nothing.
pub proof fn imported_entries_are_removed(v: Seq<FateView>, answer: Option<Seq<char>>, i: int)
    ensures
        ({
            let imported = v.filter(is_import());
            let calls = removal_calls(v, answer);
            &&& removal_question(v, true) is None
            &&& removal_question(v, false) == if imported.len() == 0 {
                None
            } else {
                Some(
                    "\nRemove these "@ + decimal(imported.len())
                        + " package(s) from your nix-env/profile now? (only do this after you've confirmed the rebuild works)"@,
                )
            }
            &&& !agrees(answer) ==> calls.len() == 0
            &&& agrees(answer) ==> calls.len() == imported.len() && (0 <= i < imported.len() ==> {
                let e = imported[i]->Import_0;
                &&& e.backend is NixEnv ==> calls[i] == (CallView {
                    program: "nix-env"@,
                    args: seq!["-e"@, e.removal_key],
                })
                &&& e.backend is NixProfile ==> calls[i] == (CallView {
                    program: "nix"@,
                    args: seq![
                        "--extra-experimental-features"@,
                        "nix-command flakes"@,
                        "profile"@,
                        "remove"@,
                        e.removal_key,
                    ],
                })
            })
        }),
{
    every_fate_is_shown(Seq::empty(), v);
    let imported = v.filter(is_import());
    if agrees(answer) && 0 <= i < imported.len() {
        let e = imported[i]->Import_0;
        assert(imported_entries(v)[i] == e);
        packages_are_removed_by_their_key(e);
    }
}

/// A category that takes imports gets each imported attribute, unless it lists that name as a
/// source, and keeps its packages and its sources.
pub proof fn imports_add_what_was_found(c: CategoryView, v: Seq<FateView>, x: Seq<char>)
    ensures
        ({
            let d = with_imports(c, v);
            &&& d.name == c.name && d.path == c.path && d.github == c.github
            &&& d.packages.contains(x) <==> c.packages.contains(x) || (!declares(c, x) && exists|i: int|
                0 <= i < v.len() && #[trigger] v[i] is Import && v[i]->Import_1 == x)
        }),
    decreases v.len(),
{
    if v.len() > 0 {
        let t = v.drop_last();
        let before = with_imports(c, t);
        imports_add_what_was_found(c, t, x);
        assert forall|i: int| 0 <= i < t.len() implies t[i] == v[i] by {}
        if v.last() is Import {
            let a = v.last()->Import_1;
            imports_add_what_was_found(c, t, a);
            if !declares(before, a) {
                lemma_push_contains(before.packages, a, x);
                lemma_sort_contains(before.packages.push(a), itself(), x);
            }
            if x == a {
                assert(v[v.len() - 1] is Import);
            }
        }
        if exists|i: int| 0 <= i < v.len() && #[trigger] v[i] is Import && v[i]->Import_1 == x {
            let i = choose|i: int|
                0 <= i < v.len() && #[trigger] v[i] is Import && v[i]->Import_1 == x;
            if i < t.len() {
                assert(t[i] is Import);
            }
        }
        if exists|i: int| 0 <= i < t.len() && #[trigger] t[i] is Import && t[i]->Import_1 == x {
            let i = choose|i: int|
                0 <= i < t.len() && #[trigger] t[i] is Import && t[i]->Import_1 == x;
            assert(v[i] is Import);
        }
    }
}

} // verus!

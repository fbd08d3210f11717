//! Rebuilding: what is checked before, what is run, and what is kept after.

use vstd::prelude::*;

use crate::category::{
    conflict_views, declaring, duplicates, find_duplicates, loaded_views, result_view, Category,
    CategoryView,
};
use crate::edits::duplicates_are_reported;
use crate::error::{message_of, ErrorView, NixlayerError};
use crate::nixfile::{CheckView, SyntaxCheck};
use crate::order::unique;
use crate::paths::{category_path, managed, Found, Paths, PathsView};
use crate::state::{current_packages, loaded_names, names_of, packages_in, State};
use crate::text::{concat2, concat3, count_text, decimal, join, joined, views};
use crate::tools::{call, CallView, ToolCall};

verus! {

/// What `nixos-rebuild` is asked to do.
#[derive(Debug, Clone, Copy, PartialEq, Eq, Structural)]
pub enum Mode {
    Switch,
    Boot,
    Test,
}

pub open spec fn mode_arg(m: Mode) -> Seq<char> {
    match m {
        Mode::Switch => "switch"@,
        Mode::Boot => "boot"@,
        Mode::Test => "test"@,
    }
}

impl Mode {
    /// The argument for `nixos-rebuild`.
    pub fn as_arg(self) -> (r: &'static str)
        ensures
            r@ == mode_arg(self),
    {
        match self {
            Mode::Switch => "switch",
            Mode::Boot => "boot",
            Mode::Test => "test",
        }
    }
}

// ---------------------------------------------------------------------------
// What a rebuild has to pass
// ---------------------------------------------------------------------------

/// The next thing to do in validating what is managed.
#[derive(Debug)]
pub enum Validation {
    /// Check the syntax of this file.
    Check(String),
    /// A rebuild may go on.
    Passed,
    /// A rebuild must not go on.
    Refused(NixlayerError),
}

/// A [`Validation`] with its texts as character sequences.
pub enum ValidationView {
    Check(Seq<char>),
    Passed,
    Refused(ErrorView),
}

impl View for Validation {
    type V = ValidationView;

    open spec fn view(&self) -> ValidationView {
        match *self {
            Validation::Check(p) => ValidationView::Check(p@),
            Validation::Passed => ValidationView::Passed,
            Validation::Refused(e) => ValidationView::Refused(e@),
        }
    }
}

/// The first category that could not be loaded, counted from 0; the number of categories where
/// all could.
pub open spec fn first_broken(all: Seq<(Seq<char>, Result<CategoryView, ErrorView>)>) -> int
    decreases all.len(),
{
    if all.len() == 0 || all[0].1 is Err {
        0
    } else {
        1 + first_broken(all.drop_first())
    }
}

/// The first check that failed, counted from 0; the number of checks where none did.
pub open spec fn first_invalid(checks: Seq<CheckView>) -> int
    decreases checks.len(),
{
    if checks.len() == 0 || checks[0] is Invalid {
        0
    } else {
        1 + first_invalid(checks.drop_first())
    }
}

/// The views of some checks.
pub open spec fn check_views(v: Seq<SyntaxCheck>) -> Seq<CheckView> {
    Seq::new(v.len(), |i: int| v[i]@)
}

/// The files whose syntax is checked: the module, then every category.
pub open spec fn checked_files(
    p: PathsView,
    all: Seq<(Seq<char>, Result<CategoryView, ErrorView>)>,
) -> Seq<Seq<char>> {
    Seq::new(
        all.len() + 1,
        |i: int|
            if i == 0 {
                managed(p, "default.nix"@)
            } else {
                category_path(p, all[i - 1].0)
            },
    )
}

pub open spec fn duplicate_text(d: (Seq<char>, Seq<Seq<char>>)) -> Seq<char> {
    "duplicate package declaration: '"@ + d.0 + "' appears in "@ + decimal(d.1.len())
        + " category files ("@ + join(d.1, ", "@) + ")."@
}

pub open spec fn broken_text(name: Seq<char>, e: ErrorView) -> Seq<char> {
    "category '"@ + name + "' failed to parse: "@ + message_of(e)
}

/// What stands in the way of a rebuild, apart from syntax: a directory that is not set up, a name
/// that is declared twice, a category that cannot be read.
pub open spec fn obstacle(
    p: PathsView,
    found: Found,
    all: Seq<(Seq<char>, Result<CategoryView, ErrorView>)>,
) -> Option<ErrorView> {
    if !(found.dir && found.default_nix) {
        Some(ErrorView::NotInitialized(p.nixlayer_dir))
    } else if duplicates(all).len() > 0 {
        Some(ErrorView::UnsafeToRebuild(duplicate_text(duplicates(all)[0])))
    } else if first_broken(all) < all.len() {
        let b = all[first_broken(all)];
        Some(ErrorView::UnsafeToRebuild(broken_text(b.0, b.1->Err_0)))
    } else {
        None
    }
}

/// Where validating stands after the given checks of the first files.
pub open spec fn validation(
    p: PathsView,
    found: Found,
    all: Seq<(Seq<char>, Result<CategoryView, ErrorView>)>,
    checks: Seq<CheckView>,
) -> ValidationView {
    let files = checked_files(p, all);
    let k = first_invalid(checks);
    if obstacle(p, found, all) is Some {
        ValidationView::Refused(obstacle(p, found, all)->0)
    } else if k < checks.len() && k < files.len() {
        ValidationView::Refused(
            ErrorView::UnsafeToRebuild(
                files[k] + " has invalid Nix syntax:\n"@ + checks[k]->Invalid_0,
            ),
        )
    } else if checks.len() < files.len() {
        ValidationView::Check(files[checks.len() as int])
    } else {
        ValidationView::Passed
    }
}

fn duplicate_message(d: &(String, Vec<String>)) -> (r: String)
    ensures
        r@ == duplicate_text((d.0@, views(d.1@))),
{
    let mut s: String = concat3("duplicate package declaration: '", &d.0, "' appears in ");
    assert(views(d.1@).len() == d.1@.len());
    s.append(&count_text(d.1.len()));
    s.append(" category files (");
    s.append(&joined(&d.1, ", "));
    s.append(").");
    s
}

fn find_obstacle(
    paths: &Paths,
    found: &Found,
    all: &Vec<(String, Result<Category, NixlayerError>)>,
) -> (r: Option<NixlayerError>)
    ensures
        match r {
            Some(e) => obstacle(paths@, *found, loaded_views(all@)) == Some(e@),
            None => obstacle(paths@, *found, loaded_views(all@)) is None,
        },
{
    match paths.require_initialized(found) {
        Ok(_) => {},
        Err(e) => {
            return Some(e);
        },
    }
    let dups: Vec<(String, Vec<String>)> = find_duplicates(all);
    assert(conflict_views(dups@).len() == dups@.len());
    if dups.len() > 0 {
        assert(conflict_views(dups@)[0] == (dups@[0].0@, views(dups@[0].1@)));
        return Some(NixlayerError::UnsafeToRebuild(duplicate_message(&dups[0])));
    }
    let ghost w = loaded_views(all@);
    let mut i: usize = 0;
    assert(w.skip(0) =~= w);
    while i < all.len()
        invariant
            i <= all@.len(),
            w == loaded_views(all@),
            first_broken(w) == i + first_broken(w.skip(i as int)),
            found.dir && found.default_nix,
            duplicates(w).len() == 0,
        decreases all@.len() - i,
    {
        assert(w.skip(i as int)[0] == (all@[i as int].0@, result_view(all@[i as int].1)));
        match &all[i].1 {
            Ok(_) => {},
            Err(e) => {
                let mut s: String = concat3("category '", &all[i].0, "' failed to parse: ");
                s.append(&e.message());
                return Some(NixlayerError::UnsafeToRebuild(s));
            },
        }
        assert(w.skip(i as int).drop_first() =~= w.skip(i + 1));
        i = i + 1;
    }
    None
}

/// Everything that is checked before a rebuild may go on. `checks` holds what came of the syntax
/// checks so far, in the order in which they were asked for.
pub fn validate(
    paths: &Paths,
    found: &Found,
    all: &Vec<(String, Result<Category, NixlayerError>)>,
    checks: &Vec<SyntaxCheck>,
) -> (r: Validation)
    ensures
        r@ == validation(paths@, *found, loaded_views(all@), check_views(checks@)),
{
    match find_obstacle(paths, found, all) {
        Some(e) => {
            return Validation::Refused(e);
        },
        None => {},
    }
    let ghost w = loaded_views(all@);
    let ghost c = check_views(checks@);
    let mut k: usize = 0;
    assert(c.skip(0) =~= c);
    while k < checks.len() && k <= all.len()
        invariant
            k <= checks@.len(),
            k <= all@.len() + 1,
            w == loaded_views(all@),
            c == check_views(checks@),
            first_invalid(c) == k + first_invalid(c.skip(k as int)),
            obstacle(paths@, *found, w) is None,
        decreases checks@.len() - k,
    {
        assert(c.skip(k as int)[0] == checks@[k as int]@);
        match &checks[k] {
            SyntaxCheck::Invalid(m) => {
                let file: String = checked_file(paths, all, k);
                return Validation::Refused(
                    NixlayerError::UnsafeToRebuild(
                        concat3(&file, " has invalid Nix syntax:\n", m),
                    ),
                );
            },
            SyntaxCheck::Valid => {},
            SyntaxCheck::Skipped => {},
        }
        assert(c.skip(k as int).drop_first() =~= c.skip(k + 1));
        k = k + 1;
    }
    proof {
        lemma_first_invalid(c.skip(k as int));
    }
    if checks.len() <= all.len() {
        Validation::Check(checked_file(paths, all, checks.len()))
    } else {
        Validation::Passed
    }
}

fn checked_file(
    paths: &Paths,
    all: &Vec<(String, Result<Category, NixlayerError>)>,
    k: usize,
) -> (r: String)
    requires
        k <= all@.len(),
    ensures
        r@ == checked_files(paths@, loaded_views(all@))[k as int],
{
    if k == 0 {
        paths.default_nix()
    } else {
        paths.category_file(&all[k - 1].0)
    }
}

pub proof fn lemma_first_invalid(checks: Seq<CheckView>)
    ensures
        0 <= first_invalid(checks) <= checks.len(),
        first_invalid(checks) < checks.len() ==> checks[first_invalid(checks)] is Invalid,
        forall|j: int| 0 <= j < first_invalid(checks) ==> !(#[trigger] checks[j] is Invalid),
    decreases checks.len(),
{
    if checks.len() > 0 && !(checks[0] is Invalid) {
        let t = checks.drop_first();
        lemma_first_invalid(t);
        assert forall|j: int| 0 <= j < first_invalid(checks) implies !(#[trigger] checks[j] is Invalid) by {
            if j > 0 {
                assert(checks[j] == t[j - 1]);
            }
        }
    }
}

pub proof fn lemma_first_broken(all: Seq<(Seq<char>, Result<CategoryView, ErrorView>)>)
    ensures
        0 <= first_broken(all) <= all.len(),
        first_broken(all) < all.len() ==> all[first_broken(all)].1 is Err,
        forall|j: int| 0 <= j < first_broken(all) ==> (#[trigger] all[j]).1 is Ok,
    decreases all.len(),
{
    if all.len() > 0 && all[0].1 is Ok {
        let t = all.drop_first();
        lemma_first_broken(t);
        assert forall|j: int| 0 <= j < first_broken(all) implies (#[trigger] all[j]).1 is Ok by {
            if j > 0 {
                assert(all[j] == t[j - 1]);
            }
        }
    }
}

/// A rebuild may go on exactly where the directory is set up, no name is declared in two
/// categories, every category could be read, and every file was checked and none found invalid.
pub proof fn only_sound_setups_pass(
    p: PathsView,
    found: Found,
    all: Seq<(Seq<char>, Result<CategoryView, ErrorView>)>,
    checks: Seq<CheckView>,
)
    ensures
        validation(p, found, all, checks) == ValidationView::Passed <==> {
            &&& found.dir && found.default_nix
            &&& forall|id: Seq<char>| (#[trigger] declaring(all, id)).len() <= 1
            &&& forall|i: int| 0 <= i < all.len() ==> (#[trigger] all[i]).1 is Ok
            &&& checks.len() > all.len()
            &&& forall|i: int| 0 <= i <= all.len() ==> !(#[trigger] checks[i] is Invalid)
        },
{
    lemma_first_broken(all);
    lemma_first_invalid(checks);
    assert forall|id: Seq<char>| duplicates(all).len() == 0 implies (#[trigger] declaring(
        all,
        id,
    )).len() <= 1 by {
        duplicates_are_reported(all, id);
    }
    if duplicates(all).len() > 0 {
        duplicates_are_reported(all, duplicates(all)[0].0);
        assert(declaring(all, duplicates(all)[0].0).len() > 1);
    }
    let k = first_invalid(checks);
    if k < checks.len() && k <= all.len() {
        assert(checks[k] is Invalid);
    }
}

// ---------------------------------------------------------------------------
// The rebuild
// ---------------------------------------------------------------------------

/// What came of running `nixos-rebuild`.
#[derive(Debug)]
pub enum RebuildResult {
    /// It could not be launched; the text says why.
    NotLaunched(String),
    /// It ended, with success or not, and with an exit code unless a signal ended it.
    Ended(bool, Option<i32>),
}

/// The call that rebuilds the system. The tool of the system does the work.
pub open spec fn rebuild_call(mode: Mode) -> CallView {
    CallView { program: "nixos-rebuild"@, args: Seq::empty().push(mode_arg(mode)) }
}

/// The next thing to do in rebuilding.
#[derive(Debug)]
pub enum RebuildStep {
    /// Check the syntax of this file.
    Check(String),
    /// Rebuild the system.
    Launch(ToolCall),
    /// There is nothing left to do.
    Done,
    /// Stop; nothing is rebuilt.
    Refused(NixlayerError),
}

/// A [`RebuildStep`] with its texts as character sequences.
pub enum RebuildStepView {
    Check(Seq<char>),
    Launch(CallView),
    Done,
    Refused(ErrorView),
}

impl View for RebuildStep {
    type V = RebuildStepView;

    open spec fn view(&self) -> RebuildStepView {
        match *self {
            RebuildStep::Check(p) => RebuildStepView::Check(p@),
            RebuildStep::Launch(c) => RebuildStepView::Launch(c@),
            RebuildStep::Done => RebuildStepView::Done,
            RebuildStep::Refused(e) => RebuildStepView::Refused(e@),
        }
    }
}

/// What follows from a validation. The rebuild is launched only once everything has passed, not
/// in a dry run, and only where there is a tool to launch.
pub open spec fn rebuild_step(
    v: ValidationView,
    mode: Mode,
    dry_run: bool,
    tool_found: bool,
) -> RebuildStepView {
    match v {
        ValidationView::Check(p) => RebuildStepView::Check(p),
        ValidationView::Refused(e) => RebuildStepView::Refused(e),
        ValidationView::Passed => if dry_run {
            RebuildStepView::Done
        } else if tool_found {
            RebuildStepView::Launch(rebuild_call(mode))
        } else {
            RebuildStepView::Refused(
                ErrorView::Other(
                    "`nixos-rebuild` not found on PATH. nixlayer drives the system's own rebuild tool rather than reimplementing it — install/enable it, or run this on an actual NixOS system."@,
                ),
            )
        },
    }
}

/// Decide what follows from a validation.
pub fn step(validation: Validation, mode: Mode, dry_run: bool, tool_found: bool) -> (r: RebuildStep)
    ensures
        r@ == rebuild_step(validation@, mode, dry_run, tool_found),
        r@ is Launch <==> validation@ is Passed && !dry_run && tool_found,
{
    match validation {
        Validation::Check(p) => RebuildStep::Check(p),
        Validation::Refused(e) => RebuildStep::Refused(e),
        Validation::Passed => {
            if dry_run {
                return RebuildStep::Done;
            }
            if !tool_found {
                return RebuildStep::Refused(
                    NixlayerError::Other(
                        "`nixos-rebuild` not found on PATH. nixlayer drives the system's own rebuild tool rather than reimplementing it — install/enable it, or run this on an actual NixOS system.".to_string(),
                    ),
                );
            }
            RebuildStep::Launch(call("nixos-rebuild").arg(mode.as_arg()))
        },
    }
}

/// The next thing to do in rebuilding: validate everything, and only then launch the rebuild.
/// `checks` holds what came of the syntax checks so far, in the order in which they were asked
/// for.
pub fn run(
    paths: &Paths,
    found: &Found,
    all: &Vec<(String, Result<Category, NixlayerError>)>,
    checks: &Vec<SyntaxCheck>,
    mode: Mode,
    dry_run: bool,
    tool_found: bool,
) -> (r: RebuildStep)
    ensures
        r@ == rebuild_step(
            validation(paths@, *found, loaded_views(all@), check_views(checks@)),
            mode,
            dry_run,
            tool_found,
        ),
{
    step(validate(paths, found, all, checks), mode, dry_run, tool_found)
}

/// Validation is a hard condition: a rebuild is launched exactly where the setup is sound, this
/// is no dry run and there is a tool, and then with the mode as its one argument.
pub proof fn only_sound_setups_are_rebuilt(
    p: PathsView,
    found: Found,
    all: Seq<(Seq<char>, Result<CategoryView, ErrorView>)>,
    checks: Seq<CheckView>,
    mode: Mode,
    dry_run: bool,
    tool_found: bool,
)
    ensures
        ({
            let next = rebuild_step(validation(p, found, all, checks), mode, dry_run, tool_found);
            &&& next is Launch <==> {
                &&& found.dir && found.default_nix
                &&& forall|id: Seq<char>| (#[trigger] declaring(all, id)).len() <= 1
                &&& forall|i: int| 0 <= i < all.len() ==> (#[trigger] all[i]).1 is Ok
                &&& checks.len() > all.len()
                &&& forall|i: int| 0 <= i <= all.len() ==> !(#[trigger] checks[i] is Invalid)
                &&& !dry_run && tool_found
            }
            &&& next is Launch ==> next == RebuildStepView::Launch(
                CallView { program: "nixos-rebuild"@, args: seq![mode_arg(mode)] },
            )
        }),
{
    only_sound_setups_pass(p, found, all, checks);
    assert(rebuild_call(mode).args =~= seq![mode_arg(mode)]);
}

/// What is recorded after a rebuild: the packages as they are declared now, and only where the
/// rebuild succeeded. `all` holds the categories, or what went wrong in listing them.
pub fn record(
    result: &RebuildResult,
    all: Result<Vec<(String, Result<Category, NixlayerError>)>, NixlayerError>,
) -> (r: Result<State, NixlayerError>)
    ensures
        match *result {
            RebuildResult::NotLaunched(m) => r matches Err(e) && e@ == ErrorView::Other(
                "failed to launch nixos-rebuild: "@ + m@,
            ),
            RebuildResult::Ended(success, code) => if !success {
                r matches Err(e) && e@ == ErrorView::RebuildFailed(
                    match code {
                        Some(c) => c,
                        None => -1i32,
                    },
                )
            } else {
                match all {
                    Err(m) => r matches Err(e) && e@ == m@,
                    Ok(all) => r matches Ok(s) && names_of(s@) == unique(
                        loaded_names(loaded_views(all@)),
                    ) && forall|n: Seq<char>|
                        #[trigger] packages_in(s@, n) == current_packages(loaded_views(all@), n),
                }
            },
        },
{
    match result {
        RebuildResult::NotLaunched(m) => Err(
            NixlayerError::Other(concat2("failed to launch nixos-rebuild: ", m)),
        ),
        RebuildResult::Ended(success, code) => {
            if !*success {
                let c: i32 = match code {
                    Some(c) => *c,
                    None => -1,
                };
                return Err(NixlayerError::RebuildFailed(c));
            }
            match all {
                Ok(all) => Ok(State::capture_current(&all)),
                Err(e) => Err(e),
            }
        },
    }
}

} // verus!

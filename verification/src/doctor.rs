//! The health of a setup.

use vstd::prelude::*;

use crate::category::{
    conflict_views, duplicates, find_duplicates, loaded_views, result_view, Category, CategoryView,
};
use crate::error::{message_of, ErrorView, NixlayerError};
use crate::nixfile::{CheckView, SyntaxCheck};
use crate::paths::{category_path, Found, Paths, PathsView};
use crate::rebuild::check_views;
use crate::text::{concat2, concat3, contains, includes, join, joined, views};

verus! {

/// How serious a finding is.
#[derive(Debug, Clone, Copy, PartialEq, Eq, Structural)]
pub enum Level {
    Fine,
    Warn,
    Error,
}

#[derive(Debug)]
pub struct Finding {
    pub level: Level,
    pub message: String,
}

/// A [`Finding`] with its text as a character sequence.
pub struct FindingView {
    pub level: Level,
    pub message: Seq<char>,
}

impl View for Finding {
    type V = FindingView;

    open spec fn view(&self) -> FindingView {
        FindingView { level: self.level, message: self.message@ }
    }
}

/// The views of some findings.
pub open spec fn finding_views(v: Seq<Finding>) -> Seq<FindingView> {
    Seq::new(v.len(), |i: int| v[i]@)
}

pub struct Report {
    pub findings: Vec<Finding>,
}

impl Report {
    /// Whether something is wrong.
    pub fn has_errors(&self) -> (r: bool)
        ensures
            r == exists|i: int|
                0 <= i < self.findings@.len() && (#[trigger] self.findings@[i]).level == Level::Error,
    {
        let mut i: usize = 0;
        while i < self.findings.len()
            invariant
                i <= self.findings@.len(),
                forall|j: int|
                    0 <= j < i ==> (#[trigger] self.findings@[j]).level != Level::Error,
            decreases self.findings@.len() - i,
        {
            if self.findings[i].level == Level::Error {
                return true;
            }
            i = i + 1;
        }
        false
    }
}

/// What was seen of the machine and of the setup.
pub struct Observed {
    pub has_nix: bool,
    pub has_nix_env: bool,
    pub has_nix_instantiate: bool,
    pub paths: Result<Paths, NixlayerError>,
    pub found: Found,
    /// The syntax of `default.nix`; nothing where there is no such file.
    pub default_nix: Option<SyntaxCheck>,
    /// The text of `configuration.nix`; empty where it could not be read.
    pub configuration: String,
    /// Every category, or what went wrong in listing them.
    pub categories: Result<Vec<(String, Result<Category, NixlayerError>)>, NixlayerError>,
    /// The syntax of the file of each category, in the same order.
    pub checks: Vec<SyntaxCheck>,
}

pub open spec fn good(m: Seq<char>) -> FindingView {
    FindingView { level: Level::Fine, message: m }
}

pub open spec fn doubtful(m: Seq<char>) -> FindingView {
    FindingView { level: Level::Warn, message: m }
}

pub open spec fn bad(m: Seq<char>) -> FindingView {
    FindingView { level: Level::Error, message: m }
}

/// Which Nix there is.
pub open spec fn tool_findings(
    has_nix: bool,
    has_nix_env: bool,
    has_nix_instantiate: bool,
) -> Seq<FindingView> {
    let first = Seq::empty().push(
        if has_nix {
            good("`nix` found — using flake-based search/eval."@)
        } else if has_nix_env {
            doubtful(
                "`nix` not found but `nix-env` is — running in legacy mode (reduced package metadata: no license/homepage). Install a modern `nix` for full search results."@,
            )
        } else {
            bad(
                "no Nix package manager found at all (checked `nix`, `nix-env`). nixlayer needs Nix to search/validate packages."@,
            )
        },
    );
    if !has_nix_instantiate && !has_nix {
        first.push(
            doubtful(
                "no `nix-instantiate` or `nix` found — nixlayer cannot validate generated Nix syntax on this machine."@,
            ),
        )
    } else {
        first
    }
}

/// `default.nix` is there and is Nix.
pub open spec fn module_findings(so_far: Seq<FindingView>, check: Option<CheckView>) -> Seq<FindingView> {
    match check {
        None => so_far.push(bad("modules/nixlayer/default.nix is missing."@)),
        Some(CheckView::Invalid(m)) => so_far.push(bad("default.nix has invalid Nix syntax: "@ + m)),
        _ => so_far,
    }
}

/// `configuration.nix` imports the module.
pub open spec fn import_finding(has_configuration: bool, text: Seq<char>) -> FindingView {
    if !has_configuration {
        doubtful(
            "no configuration.nix found at the config root — could not verify the nixlayer import. If you wire imports through flake.nix or another module, make sure modules/nixlayer/default.nix is imported somewhere."@,
        )
    } else if contains(text, "modules/nixlayer/default.nix"@) {
        good("configuration.nix imports the nixlayer module."@)
    } else {
        doubtful(
            "configuration.nix does not appear to import modules/nixlayer/default.nix — nixlayer's packages won't be built. Run `nixlayer init` again or add the import by hand."@,
        )
    }
}

/// The category is readable, is Nix, and is not empty.
pub open spec fn with_category(
    so_far: Seq<FindingView>,
    p: PathsView,
    name: Seq<char>,
    result: Result<CategoryView, ErrorView>,
    check: CheckView,
) -> Seq<FindingView> {
    match result {
        Ok(c) => {
            let checked = match check {
                CheckView::Invalid(m) => so_far.push(
                    bad(category_path(p, name) + ": invalid Nix syntax: "@ + m),
                ),
                _ => so_far,
            };
            if c.packages.len() == 0 {
                checked.push(doubtful("category '"@ + name + "' has no packages."@))
            } else {
                checked
            }
        },
        Err(e) => so_far.push(
            bad("category '"@ + name + "' could not be parsed: "@ + message_of(e)),
        ),
    }
}

/// The check of the category at position `i`; nothing is known where there is none.
pub open spec fn check_at(checks: Seq<CheckView>, i: int) -> CheckView {
    if 0 <= i < checks.len() {
        checks[i]
    } else {
        CheckView::Skipped
    }
}

/// The first `n` categories.
pub open spec fn category_findings(
    so_far: Seq<FindingView>,
    p: PathsView,
    all: Seq<(Seq<char>, Result<CategoryView, ErrorView>)>,
    checks: Seq<CheckView>,
    n: int,
) -> Seq<FindingView>
    decreases n,
{
    if n <= 0 {
        so_far
    } else {
        with_category(
            category_findings(so_far, p, all, checks, n - 1),
            p,
            all[n - 1].0,
            all[n - 1].1,
            check_at(checks, n - 1),
        )
    }
}

/// The first `n` names that are declared twice.
pub open spec fn duplicate_findings(
    so_far: Seq<FindingView>,
    dups: Seq<(Seq<char>, Seq<Seq<char>>)>,
    n: int,
) -> Seq<FindingView>
    decreases n,
{
    if n <= 0 {
        so_far
    } else {
        duplicate_findings(so_far, dups, n - 1).push(
            bad(
                "duplicate package declaration: '"@ + dups[n - 1].0 + "' appears in: "@ + join(
                    dups[n - 1].1,
                    ", "@,
                ),
            ),
        )
    }
}

pub open spec fn categories_view(
    r: Result<Vec<(String, Result<Category, NixlayerError>)>, NixlayerError>,
) -> Result<Seq<(Seq<char>, Result<CategoryView, ErrorView>)>, ErrorView> {
    match r {
        Ok(v) => Ok(loaded_views(v@)),
        Err(e) => Err(e@),
    }
}

/// What is found of the categories and of duplicates among them.
pub open spec fn content_findings(
    so_far: Seq<FindingView>,
    p: PathsView,
    categories: Result<Seq<(Seq<char>, Result<CategoryView, ErrorView>)>, ErrorView>,
    checks: Seq<CheckView>,
) -> Seq<FindingView> {
    let none = doubtful(
        "no category files exist yet — `nixlayer add <package>` to create one."@,
    );
    match categories {
        Err(e) => so_far.push(none).push(bad("could not check for duplicates: "@ + message_of(e))),
        Ok(all) => {
            let counted = if all.len() == 0 {
                so_far.push(none)
            } else {
                so_far
            };
            let each = category_findings(counted, p, all, checks, all.len() as int);
            if duplicates(all).len() > 0 {
                duplicate_findings(each, duplicates(all), duplicates(all).len() as int)
            } else {
                each.push(good("no duplicate package declarations across categories."@))
            }
        },
    }
}

/// Everything that is found.
pub open spec fn diagnosis(o: Observed) -> Seq<FindingView> {
    let tools = tool_findings(o.has_nix, o.has_nix_env, o.has_nix_instantiate);
    match o.paths {
        Err(e) => tools.push(bad(message_of(e@))),
        Ok(paths) => {
            let p = paths@;
            let located = tools.push(good("NixOS configuration found at "@ + p.config_root));
            if !(o.found.dir && o.found.default_nix) {
                located.push(
                    doubtful(
                        "nixlayer is not initialized yet ("@ + p.nixlayer_dir
                            + " missing). Run `nixlayer init`."@,
                    ),
                )
            } else {
                let present = located.push(good("nixlayer module present at "@ + p.nixlayer_dir));
                let module = module_findings(
                    present,
                    match o.default_nix {
                        Some(c) => Some(c@),
                        None => None,
                    },
                );
                let imported = module.push(
                    import_finding(p.configuration_nix is Some, o.configuration@),
                );
                content_findings(
                    imported,
                    p,
                    categories_view(o.categories),
                    check_views(o.checks@),
                ).push(
                    good(
                        "Tip: `nixlayer info <package>` shows whether a specific package is unfree before you add it."@,
                    ),
                )
            }
        },
    }
}

fn note(findings: &mut Vec<Finding>, level: Level, message: String)
    ensures
        finding_views(final(findings)@) == finding_views(old(findings)@).push(
            FindingView { level, message: message@ },
        ),
{
    let ghost before = findings@;
    let ghost m = message@;
    findings.push(Finding { level, message });
    assert(finding_views(findings@) =~= finding_views(before).push(FindingView { level, message: m }));
}

fn note_tools(findings: &mut Vec<Finding>, o: &Observed)
    requires
        old(findings)@.len() == 0,
    ensures
        finding_views(final(findings)@) == tool_findings(
            o.has_nix,
            o.has_nix_env,
            o.has_nix_instantiate,
        ),
{
    assert(finding_views(findings@) =~= Seq::<FindingView>::empty());
    if o.has_nix {
        note(findings, Level::Fine, "`nix` found — using flake-based search/eval.".to_string());
    } else if o.has_nix_env {
        note(
            findings,
            Level::Warn,
            "`nix` not found but `nix-env` is — running in legacy mode (reduced package metadata: no license/homepage). Install a modern `nix` for full search results.".to_string(),
        );
    } else {
        note(
            findings,
            Level::Error,
            "no Nix package manager found at all (checked `nix`, `nix-env`). nixlayer needs Nix to search/validate packages.".to_string(),
        );
    }
    if !o.has_nix_instantiate && !o.has_nix {
        note(
            findings,
            Level::Warn,
            "no `nix-instantiate` or `nix` found — nixlayer cannot validate generated Nix syntax on this machine.".to_string(),
        );
    }
}

fn note_category(
    findings: &mut Vec<Finding>,
    paths: &Paths,
    name: &String,
    result: &Result<Category, NixlayerError>,
    check: Option<&SyntaxCheck>,
)
    ensures
        finding_views(final(findings)@) == with_category(
            finding_views(old(findings)@),
            paths@,
            name@,
            result_view(*result),
            match check {
                Some(c) => c@,
                None => CheckView::Skipped,
            },
        ),
{
    match result {
        Ok(c) => {
            match check {
                Some(SyntaxCheck::Invalid(m)) => {
                    note(
                        findings,
                        Level::Error,
                        concat3(&paths.category_file(name), ": invalid Nix syntax: ", m),
                    );
                },
                _ => {},
            }
            assert(views(c.packages@).len() == c.packages@.len());
            if c.packages.len() == 0 {
                note(findings, Level::Warn, concat3("category '", name, "' has no packages."));
            }
        },
        Err(e) => {
            let mut s: String = concat3("category '", name, "' could not be parsed: ");
            s.append(&e.message());
            note(findings, Level::Error, s);
        },
    }
}

fn note_contents(findings: &mut Vec<Finding>, paths: &Paths, o: &Observed)
    ensures
        finding_views(final(findings)@) == content_findings(
            finding_views(old(findings)@),
            paths@,
            categories_view(o.categories),
            check_views(o.checks@),
        ),
{
    let all: &Vec<(String, Result<Category, NixlayerError>)> = match &o.categories {
        Ok(all) => all,
        Err(e) => {
            note(
                findings,
                Level::Warn,
                "no category files exist yet — `nixlayer add <package>` to create one.".to_string(),
            );
            note(
                findings,
                Level::Error,
                concat2("could not check for duplicates: ", &e.message()),
            );
            return;
        },
    };
    let ghost w = loaded_views(all@);
    let ghost c = check_views(o.checks@);
    if all.len() == 0 {
        note(
            findings,
            Level::Warn,
            "no category files exist yet — `nixlayer add <package>` to create one.".to_string(),
        );
    }
    let ghost counted = finding_views(findings@);
    for i in 0..all.len()
        invariant
            w == loaded_views(all@),
            c == check_views(o.checks@),
            finding_views(findings@) == category_findings(counted, paths@, w, c, i as int),
    {
        let check: Option<&SyntaxCheck> = if i < o.checks.len() {
            Some(&o.checks[i])
        } else {
            None
        };
        note_category(findings, paths, &all[i].0, &all[i].1, check);
        assert(w[i as int] == (all@[i as int].0@, result_view(all@[i as int].1)));
    }
    let dups: Vec<(String, Vec<String>)> = find_duplicates(all);
    let ghost each = finding_views(findings@);
    let ghost d = conflict_views(dups@);
    assert(d.len() == dups@.len());
    if dups.len() > 0 {
        for i in 0..dups.len()
            invariant
                d == conflict_views(dups@),
                finding_views(findings@) == duplicate_findings(each, d, i as int),
        {
            let mut s: String = concat3(
                "duplicate package declaration: '",
                &dups[i].0,
                "' appears in: ",
            );
            s.append(&joined(&dups[i].1, ", "));
            note(findings, Level::Error, s);
        }
    } else {
        note(
            findings,
            Level::Fine,
            "no duplicate package declarations across categories.".to_string(),
        );
    }
}

/// Everything that is found wrong, doubtful or good.
pub fn run(o: &Observed) -> (r: Report)
    ensures
        finding_views(r.findings@) == diagnosis(*o),
{
    let mut findings: Vec<Finding> = Vec::new();
    note_tools(&mut findings, o);
    let paths: &Paths = match &o.paths {
        Ok(p) => p,
        Err(e) => {
            note(&mut findings, Level::Error, e.message());
            return Report { findings };
        },
    };
    note(
        &mut findings,
        Level::Fine,
        concat2("NixOS configuration found at ", &paths.config_root),
    );
    if !paths.is_initialized(&o.found) {
        note(
            &mut findings,
            Level::Warn,
            concat3(
                "nixlayer is not initialized yet (",
                &paths.nixlayer_dir,
                " missing). Run `nixlayer init`.",
            ),
        );
        return Report { findings };
    }
    note(
        &mut findings,
        Level::Fine,
        concat2("nixlayer module present at ", &paths.nixlayer_dir),
    );
    match &o.default_nix {
        None => {
            note(
                &mut findings,
                Level::Error,
                "modules/nixlayer/default.nix is missing.".to_string(),
            );
        },
        Some(SyntaxCheck::Invalid(m)) => {
            note(
                &mut findings,
                Level::Error,
                concat2("default.nix has invalid Nix syntax: ", m),
            );
        },
        _ => {},
    }
    if paths.configuration_nix.is_none() {
        note(
            &mut findings,
            Level::Warn,
            "no configuration.nix found at the config root — could not verify the nixlayer import. If you wire imports through flake.nix or another module, make sure modules/nixlayer/default.nix is imported somewhere.".to_string(),
        );
    } else if includes(&o.configuration, "modules/nixlayer/default.nix") {
        note(
            &mut findings,
            Level::Fine,
            "configuration.nix imports the nixlayer module.".to_string(),
        );
    } else {
        note(
            &mut findings,
            Level::Warn,
            "configuration.nix does not appear to import modules/nixlayer/default.nix — nixlayer's packages won't be built. Run `nixlayer init` again or add the import by hand.".to_string(),
        );
    }
    note_contents(&mut findings, paths, o);
    note(
        &mut findings,
        Level::Fine,
        "Tip: `nixlayer info <package>` shows whether a specific package is unfree before you add it.".to_string(),
    );
    Report { findings }
}

// ---------------------------------------------------------------------------
// Laws
// ---------------------------------------------------------------------------

/// Something is wrong.
pub open spec fn has_error(v: Seq<FindingView>) -> bool {
    exists|i: int| 0 <= i < v.len() && (#[trigger] v[i]).level == Level::Error
}

proof fn lemma_push_error(v: Seq<FindingView>, f: FindingView)
    ensures
        has_error(v.push(f)) <==> has_error(v) || f.level == Level::Error,
{
    if has_error(v) {
        let i = choose|i: int| 0 <= i < v.len() && (#[trigger] v[i]).level == Level::Error;
        assert(v.push(f)[i].level == Level::Error);
    }
    if f.level == Level::Error {
        assert(v.push(f)[v.len() as int].level == Level::Error);
    }
    if has_error(v.push(f)) && f.level != Level::Error {
        let i = choose|i: int|
            0 <= i < v.push(f).len() && (#[trigger] v.push(f)[i]).level == Level::Error;
        assert(v[i].level == Level::Error);
    }
}

proof fn lemma_category_error(
    so_far: Seq<FindingView>,
    p: PathsView,
    all: Seq<(Seq<char>, Result<CategoryView, ErrorView>)>,
    checks: Seq<CheckView>,
    n: int,
)
    requires
        0 <= n <= all.len(),
    ensures
        has_error(category_findings(so_far, p, all, checks, n)) <==> has_error(so_far) || exists|i: int|
            0 <= i < n && ((#[trigger] all[i]).1 is Err || check_at(checks, i) is Invalid),
    decreases n,
{
    if n > 0 {
        let before = category_findings(so_far, p, all, checks, n - 1);
        lemma_category_error(so_far, p, all, checks, n - 1);
        let (name, result) = all[n - 1];
        let check = check_at(checks, n - 1);
        match result {
            Ok(c) => {
                let m = check->Invalid_0;
                let bad_syntax = bad(category_path(p, name) + ": invalid Nix syntax: "@ + m);
                lemma_push_error(before, bad_syntax);
                let checked = if check is Invalid {
                    before.push(bad_syntax)
                } else {
                    before
                };
                lemma_push_error(checked, doubtful("category '"@ + name + "' has no packages."@));
            },
            Err(e) => {
                lemma_push_error(
                    before,
                    bad("category '"@ + name + "' could not be parsed: "@ + message_of(e)),
                );
            },
        }
        let now = category_findings(so_far, p, all, checks, n);
        assert(has_error(now) <==> has_error(before) || result is Err || check is Invalid);
        if result is Err || check is Invalid {
            assert(all[n - 1].1 is Err || check_at(checks, n - 1) is Invalid);
        }
        if exists|i: int|
            0 <= i < n && ((#[trigger] all[i]).1 is Err || check_at(checks, i) is Invalid) {
            let i = choose|i: int|
                0 <= i < n && ((#[trigger] all[i]).1 is Err || check_at(checks, i) is Invalid);
            if i < n - 1 {
                assert(has_error(before));
            }
        }
    }
}

proof fn lemma_duplicate_error(
    so_far: Seq<FindingView>,
    dups: Seq<(Seq<char>, Seq<Seq<char>>)>,
    n: int,
)
    requires
        0 <= n,
    ensures
        has_error(duplicate_findings(so_far, dups, n)) <==> has_error(so_far) || n > 0,
    decreases n,
{
    if n > 0 {
        lemma_duplicate_error(so_far, dups, n - 1);
        lemma_push_error(
            duplicate_findings(so_far, dups, n - 1),
            bad(
                "duplicate package declaration: '"@ + dups[n - 1].0 + "' appears in: "@ + join(
                    dups[n - 1].1,
                    ", "@,
                ),
            ),
        );
    }
}

/// A setup is found wrong exactly where there is no Nix at all, no configuration, or where the
/// module is missing or invalid, a category cannot be read or is invalid, the categories cannot
/// be listed, or a name is declared in two categories.
pub proof fn errors_are_reported(o: Observed)
    ensures
        has_error(diagnosis(o)) <==> {
            ||| !o.has_nix && !o.has_nix_env
            ||| o.paths is Err
            ||| o.found.dir && o.found.default_nix && {
                ||| o.default_nix is None
                ||| o.default_nix->0@ is Invalid
                ||| o.categories is Err
                ||| duplicates(categories_view(o.categories)->Ok_0).len() > 0
                ||| exists|i: int|
                    0 <= i < categories_view(o.categories)->Ok_0.len() && ((
                    #[trigger] categories_view(o.categories)->Ok_0[i]).1 is Err || check_at(
                        check_views(o.checks@),
                        i,
                    ) is Invalid)
            }
        },
{
    let none = Seq::<FindingView>::empty();
    assert(!has_error(none));
    let first = if o.has_nix {
        good("`nix` found — using flake-based search/eval."@)
    } else if o.has_nix_env {
        doubtful(
            "`nix` not found but `nix-env` is — running in legacy mode (reduced package metadata: no license/homepage). Install a modern `nix` for full search results."@,
        )
    } else {
        bad(
            "no Nix package manager found at all (checked `nix`, `nix-env`). nixlayer needs Nix to search/validate packages."@,
        )
    };
    lemma_push_error(none, first);
    lemma_push_error(
        none.push(first),
        doubtful(
            "no `nix-instantiate` or `nix` found — nixlayer cannot validate generated Nix syntax on this machine."@,
        ),
    );
    let tools = tool_findings(o.has_nix, o.has_nix_env, o.has_nix_instantiate);
    assert(has_error(tools) <==> !o.has_nix && !o.has_nix_env);
    match o.paths {
        Err(e) => {
            lemma_push_error(tools, bad(message_of(e@)));
        },
        Ok(paths) => {
            let p = paths@;
            let f1 = good("NixOS configuration found at "@ + p.config_root);
            let located = tools.push(f1);
            lemma_push_error(tools, f1);
            let f2 = doubtful(
                "nixlayer is not initialized yet ("@ + p.nixlayer_dir
                    + " missing). Run `nixlayer init`."@,
            );
            lemma_push_error(located, f2);
            let f3 = good("nixlayer module present at "@ + p.nixlayer_dir);
            let present = located.push(f3);
            lemma_push_error(located, f3);
            let check = match o.default_nix {
                Some(c) => Some(c@),
                None => None,
            };
            let module = module_findings(present, check);
            lemma_push_error(present, bad("modules/nixlayer/default.nix is missing."@));
            if check is Some && check->0 is Invalid {
                lemma_push_error(
                    present,
                    bad("default.nix has invalid Nix syntax: "@ + check->0->Invalid_0),
                );
            }
            let f4 = import_finding(p.configuration_nix is Some, o.configuration@);
            let imported = module.push(f4);
            lemma_push_error(module, f4);
            let cats = categories_view(o.categories);
            let checks = check_views(o.checks@);
            let contents = content_findings(imported, p, cats, checks);
            let empty = doubtful(
                "no category files exist yet — `nixlayer add <package>` to create one."@,
            );
            lemma_push_error(imported, empty);
            match cats {
                Err(e) => {
                    lemma_push_error(
                        imported.push(empty),
                        bad("could not check for duplicates: "@ + message_of(e)),
                    );
                },
                Ok(all) => {
                    let counted = if all.len() == 0 {
                        imported.push(empty)
                    } else {
                        imported
                    };
                    let each = category_findings(counted, p, all, checks, all.len() as int);
                    lemma_category_error(counted, p, all, checks, all.len() as int);
                    lemma_duplicate_error(each, duplicates(all), duplicates(all).len() as int);
                    lemma_push_error(
                        each,
                        good("no duplicate package declarations across categories."@),
                    );
                },
            }
            lemma_push_error(
                contents,
                good(
                    "Tip: `nixlayer info <package>` shows whether a specific package is unfree before you add it."@,
                ),
            );
        },
    }
}

} // verus!

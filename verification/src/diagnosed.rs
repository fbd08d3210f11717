//! Laws of the diagnosis: every finding, with how serious it is and what it says, in order.

use vstd::prelude::*;

use crate::category::{declaring, duplicates, CategoryView};
use crate::doctor::{
    categories_view, category_findings, content_findings, diagnosis, duplicate_findings,
    import_finding, module_findings, tool_findings, FindingView, Level, Observed,
};
use crate::edits::duplicates_are_reported;
use crate::error::{message_of, ErrorView};
use crate::nixfile::CheckView;
use crate::paths::{join, PathsView};
use crate::rebuild::check_views;
use crate::text::{contains, occurs_at};

verus! {

/// Nothing is wrong.
pub open spec fn fine(message: Seq<char>) -> FindingView {
    FindingView { level: Level::Fine, message }
}

/// Something may be wrong.
pub open spec fn doubt(message: Seq<char>) -> FindingView {
    FindingView { level: Level::Warn, message }
}

/// Something is wrong.
pub open spec fn wrong(message: Seq<char>) -> FindingView {
    FindingView { level: Level::Error, message }
}

/// Which Nix there is comes first: `nix` is preferred to `nix-env`, and having neither is an
/// error. Where no program can check a file, that is said next.
pub proof fn tools_come_first(has_nix: bool, has_nix_env: bool, has_nix_instantiate: bool)
    ensures
        ({
            let v = tool_findings(has_nix, has_nix_env, has_nix_instantiate);
            let unchecked = doubt(
                "no `nix-instantiate` or `nix` found — nixlayer cannot validate generated Nix syntax on this machine."@,
            );
            let first = if has_nix {
                fine("`nix` found — using flake-based search/eval."@)
            } else if has_nix_env {
                doubt(
                    "`nix` not found but `nix-env` is — running in legacy mode (reduced package metadata: no license/homepage). Install a modern `nix` for full search results."@,
                )
            } else {
                wrong(
                    "no Nix package manager found at all (checked `nix`, `nix-env`). nixlayer needs Nix to search/validate packages."@,
                )
            };
            v == if has_nix || has_nix_instantiate {
                seq![first]
            } else {
                seq![first, unchecked]
            }
        }),
{
    let v = tool_findings(has_nix, has_nix_env, has_nix_instantiate);
    if has_nix || has_nix_instantiate {
        assert(v =~= seq![v[0]]);
    } else {
        assert(v =~= seq![v[0], v[1]]);
    }
}

/// Whether `configuration.nix` imports the module goes by the path of the module alone: it does
/// exactly where that path stands somewhere in its text.
pub proof fn the_import_is_looked_for(text: Seq<char>)
    ensures
        ({
            let path = "modules/nixlayer/default.nix"@;
            let there = exists|k: int|
                0 <= k && k + path.len() <= text.len() && #[trigger] text.subrange(
                    k,
                    k + path.len(),
                ) == path;
            &&& import_finding(true, text) == if there {
                fine("configuration.nix imports the nixlayer module."@)
            } else {
                doubt(
                    "configuration.nix does not appear to import modules/nixlayer/default.nix — nixlayer's packages won't be built. Run `nixlayer init` again or add the import by hand."@,
                )
            }
            &&& import_finding(false, text) == doubt(
                "no configuration.nix found at the config root — could not verify the nixlayer import. If you wire imports through flake.nix or another module, make sure modules/nixlayer/default.nix is imported somewhere."@,
            )
        }),
{
    let path = "modules/nixlayer/default.nix"@;
    if contains(text, path) {
        let k = choose|k: int| occurs_at(text, path, k);
        assert(text.subrange(k, k + path.len()) == path);
    }
    if exists|k: int|
        0 <= k && k + path.len() <= text.len() && #[trigger] text.subrange(k, k + path.len()) == path {
        let k = choose|k: int|
            0 <= k && k + path.len() <= text.len() && #[trigger] text.subrange(k, k + path.len())
                == path;
        assert(occurs_at(text, path, k));
    }
}

/// What is found of one category: that it could not be read, or that its file is invalid, that it
/// lists no package, or both.
pub open spec fn found_of(
    p: PathsView,
    name: Seq<char>,
    result: Result<CategoryView, ErrorView>,
    check: CheckView,
) -> Seq<FindingView> {
    match result {
        Err(e) => seq![wrong("category '"@ + name + "' could not be parsed: "@ + message_of(e))],
        Ok(c) => (match check {
            CheckView::Invalid(m) => seq![
                wrong(join(p.nixlayer_dir, name + ".nix"@) + ": invalid Nix syntax: "@ + m),
            ],
            _ => Seq::empty(),
        }) + (if c.packages.len() == 0 {
            seq![doubt("category '"@ + name + "' has no packages."@)]
        } else {
            Seq::empty()
        }),
    }
}

/// What is found of the first `n` categories.
pub open spec fn found_of_all(
    p: PathsView,
    all: Seq<(Seq<char>, Result<CategoryView, ErrorView>)>,
    checks: Seq<CheckView>,
    n: nat,
) -> Seq<Seq<FindingView>> {
    Seq::new(
        n,
        |i: int|
            found_of(
                p,
                all[i].0,
                all[i].1,
                if i < checks.len() {
                    checks[i]
                } else {
                    CheckView::Skipped
                },
            ),
    )
}

proof fn lemma_category_findings(
    so_far: Seq<FindingView>,
    p: PathsView,
    all: Seq<(Seq<char>, Result<CategoryView, ErrorView>)>,
    checks: Seq<CheckView>,
    n: nat,
)
    ensures
        category_findings(so_far, p, all, checks, n as int) == so_far + found_of_all(
            p,
            all,
            checks,
            n,
        ).flatten(),
    decreases n,
{
    let l = found_of_all(p, all, checks, n);
    let none: Seq<FindingView> = Seq::empty();
    if n == 0 {
        assert(l =~= Seq::empty());
        assert(l.flatten() =~= none);
        assert(so_far + none =~= so_far);
    } else {
        let m = (n - 1) as nat;
        lemma_category_findings(so_far, p, all, checks, m);
        let k = found_of_all(p, all, checks, m);
        assert(l =~= k.push(l.last()));
        k.lemma_flatten_push(l.last());
        let before = category_findings(so_far, p, all, checks, m as int);
        assert(category_findings(so_far, p, all, checks, n as int) =~= before + l.last());
        assert(before + l.last() =~= so_far + (k.flatten() + l.last()));
    }
}

/// How a name that several categories declare is told.
pub open spec fn told_twice(d: (Seq<char>, Seq<Seq<char>>)) -> FindingView {
    wrong(
        "duplicate package declaration: '"@ + d.0 + "' appears in: "@ + crate::text::join(d.1, ", "@),
    )
}

proof fn lemma_duplicate_findings(
    so_far: Seq<FindingView>,
    dups: Seq<(Seq<char>, Seq<Seq<char>>)>,
    n: nat,
)
    ensures
        duplicate_findings(so_far, dups, n as int) == so_far + Seq::new(
            n,
            |i: int| told_twice(dups[i]),
        ),
    decreases n,
{
    if n > 0 {
        lemma_duplicate_findings(so_far, dups, (n - 1) as nat);
    }
    assert(duplicate_findings(so_far, dups, n as int) =~= so_far + Seq::new(
        n,
        |i: int| told_twice(dups[i]),
    ));
}

/// What is found of the categories: that there is none, or what is found of each, in order; and
/// then every name that more than one of them declares, with all that do, or that there is none.
pub proof fn every_category_is_diagnosed(
    so_far: Seq<FindingView>,
    p: PathsView,
    all: Seq<(Seq<char>, Result<CategoryView, ErrorView>)>,
    checks: Seq<CheckView>,
)
    ensures
        ({
            let none: Seq<FindingView> = Seq::empty();
            let dups = duplicates(all);
            content_findings(so_far, p, Ok(all), checks) == so_far + (if all.len() == 0 {
                seq![doubt("no category files exist yet — `nixlayer add <package>` to create one."@)]
            } else {
                none
            }) + found_of_all(p, all, checks, all.len()).flatten() + (if dups.len() == 0 {
                seq![fine("no duplicate package declarations across categories."@)]
            } else {
                Seq::new(dups.len(), |i: int| told_twice(dups[i]))
            })
        }),
        forall|i: int|
            0 <= i < duplicates(all).len() ==> {
                let d = #[trigger] duplicates(all)[i];
                d.1 == declaring(all, d.0) && d.1.len() > 1
            },
{
    let none: Seq<FindingView> = Seq::empty();
    let dups = duplicates(all);
    let nothing = doubt("no category files exist yet — `nixlayer add <package>` to create one."@);
    let counted = so_far + (if all.len() == 0 {
        seq![nothing]
    } else {
        none
    });
    assert(so_far.push(nothing) =~= so_far + seq![nothing]);
    assert(so_far + none =~= so_far);
    lemma_category_findings(counted, p, all, checks, all.len());
    let each = counted + found_of_all(p, all, checks, all.len()).flatten();
    lemma_duplicate_findings(each, dups, dups.len());
    let clean = fine("no duplicate package declarations across categories."@);
    assert(each.push(clean) =~= each + seq![clean]);
    duplicates_are_reported(all, Seq::empty());
}

/// The whole diagnosis, from the tools to the closing tip. It stops where there is no
/// configuration, and where nothing is set up yet.
pub proof fn the_diagnosis_is_complete(o: Observed)
    ensures
        ({
            let tools = tool_findings(o.has_nix, o.has_nix_env, o.has_nix_instantiate);
            let none: Seq<FindingView> = Seq::empty();
            &&& o.paths matches Err(e) ==> diagnosis(o) == tools + seq![wrong(message_of(e@))]
            &&& o.paths matches Ok(paths) ==> {
                let p = paths@;
                let located = fine("NixOS configuration found at "@ + p.config_root);
                &&& !(o.found.dir && o.found.default_nix) ==> diagnosis(o) == tools + seq![
                    located,
                    doubt(
                        "nixlayer is not initialized yet ("@ + p.nixlayer_dir
                            + " missing). Run `nixlayer init`."@,
                    ),
                ]
                &&& o.found.dir && o.found.default_nix ==> {
                    let module = match o.default_nix {
                        None => seq![wrong("modules/nixlayer/default.nix is missing."@)],
                        Some(c) => match c@ {
                            CheckView::Invalid(m) => seq![
                                wrong("default.nix has invalid Nix syntax: "@ + m),
                            ],
                            _ => none,
                        },
                    };
                    let head = tools + seq![
                        located,
                        fine("nixlayer module present at "@ + p.nixlayer_dir),
                    ] + module + seq![
                        import_finding(p.configuration_nix is Some, o.configuration@),
                    ];
                    let tip = fine(
                        "Tip: `nixlayer info <package>` shows whether a specific package is unfree before you add it."@,
                    );
                    &&& o.categories is Ok ==> diagnosis(o) == content_findings(
                        head,
                        p,
                        categories_view(o.categories),
                        check_views(o.checks@),
                    ) + seq![tip]
                    &&& o.categories matches Err(e) ==> diagnosis(o) == head + seq![
                        doubt(
                            "no category files exist yet — `nixlayer add <package>` to create one."@,
                        ),
                        wrong("could not check for duplicates: "@ + message_of(e@)),
                        tip,
                    ]
                }
            }
        }),
{
    let tools = tool_findings(o.has_nix, o.has_nix_env, o.has_nix_instantiate);
    let none: Seq<FindingView> = Seq::empty();
    match o.paths {
        Err(e) => {
            assert(diagnosis(o) =~= tools + seq![wrong(message_of(e@))]);
        },
        Ok(paths) => {
            let p = paths@;
            let located = fine("NixOS configuration found at "@ + p.config_root);
            if !(o.found.dir && o.found.default_nix) {
                let d = diagnosis(o);
                let n = tools.len() as int;
                assert(d =~= tools + seq![d[n], d[n + 1]]);
            } else {
                let present = fine("nixlayer module present at "@ + p.nixlayer_dir);
                let two = tools.push(located).push(present);
                assert(two =~= tools + seq![located, present]);
                let module = match o.default_nix {
                    None => seq![wrong("modules/nixlayer/default.nix is missing."@)],
                    Some(c) => match c@ {
                        CheckView::Invalid(m) => seq![
                            wrong("default.nix has invalid Nix syntax: "@ + m),
                        ],
                        _ => none,
                    },
                };
                let check = match o.default_nix {
                    Some(c) => Some(c@),
                    None => None,
                };
                let checked = module_findings(two, check);
                assert(checked =~= two + module);
                let imported = import_finding(p.configuration_nix is Some, o.configuration@);
                let head = checked.push(imported);
                assert(head =~= two + module + seq![imported]);
                let tip = fine(
                    "Tip: `nixlayer info <package>` shows whether a specific package is unfree before you add it."@,
                );
                let contents = content_findings(
                    head,
                    p,
                    categories_view(o.categories),
                    check_views(o.checks@),
                );
                assert(diagnosis(o) == contents.push(tip));
                assert(contents.push(tip) =~= contents + seq![tip]);
                if let Err(e) = o.categories {
                    assert(contents.push(tip) =~= head + seq![
                        doubt(
                            "no category files exist yet — `nixlayer add <package>` to create one."@,
                        ),
                        wrong("could not check for duplicates: "@ + message_of(e@)),
                        tip,
                    ]);
                }
            }
        },
    }
}

} // verus!

//! Laws of what the commands show: nothing that was found is left out, and nothing is made up.

use vstd::prelude::*;

use crate::category::CategoryView;
use crate::doctor::{FindingView, Level};
use crate::error::{message_of, ErrorView};
use crate::nixfile::shorten;
use crate::paths::{category_path, PathsView};
use crate::plan::{no_steps, OutcomeView, StepView};
use crate::resolver::{Backend, InfoView};
use crate::show::{
    all_lines, all_pinned, category_lines, change_rows, count_rows, diff_lines, finding_lines,
    github_lines, info_lines, list_plan, marked_rows, package_rows, pinned_rows, said_field,
    said_if, search_lines, search_rows, source_rows, where_plan,
};
use crate::sources::SourceView;
use crate::state::DiffView;
use crate::text::{decimal, join, pad_right};
use crate::ui::LineView;

verus! {

/// A step that shows a text on standard output.
pub open spec fn shows(text: Seq<char>) -> StepView {
    StepView::Print(LineView { text, to_stderr: false })
}

/// A text in bold, where colours are on.
pub open spec fn in_bold(colors: bool, text: Seq<char>) -> Seq<char> {
    if colors {
        "\x1b[1m"@ + text + "\x1b[0m"@
    } else {
        text
    }
}

/// A dimmed text, where colours are on.
pub open spec fn dimmed(colors: bool, text: Seq<char>) -> Seq<char> {
    if colors {
        "\x1b[2m"@ + text + "\x1b[0m"@
    } else {
        text
    }
}

// ---------------------------------------------------------------------------
// diff
// ---------------------------------------------------------------------------

proof fn lemma_marked_rows(steps: Seq<StepView>, mark: Seq<char>, v: Seq<Seq<char>>)
    ensures
        marked_rows(steps, mark, v) == steps + Seq::new(v.len(), |i: int| shows(mark + v[i])),
    decreases v.len(),
{
    if v.len() > 0 {
        lemma_marked_rows(steps, mark, v.drop_last());
    }
    assert(marked_rows(steps, mark, v) =~= steps + Seq::new(v.len(), |i: int| shows(mark + v[i])));
}

/// How many lines the first `k` changes take: a heading, one for each package, and an empty one.
pub open spec fn lines_before(v: Seq<DiffView>, k: int) -> int
    decreases k,
{
    if k <= 0 {
        0
    } else {
        lines_before(v, k - 1) + v[k - 1].added.len() + v[k - 1].removed.len() + 2
    }
}

proof fn lemma_lines_before(v: Seq<DiffView>, w: Seq<DiffView>, k: int)
    requires
        k <= v.len(),
        k <= w.len(),
        forall|i: int| 0 <= i < k ==> v[i] == w[i],
    ensures
        lines_before(v, k) == lines_before(w, k),
        lines_before(v, k) >= 0,
    decreases k,
{
    if k > 0 {
        lemma_lines_before(v, w, k - 1);
    }
}

/// The lines from `from` on are those of the change `c`.
pub open spec fn block_at(s: Seq<StepView>, from: int, c: DiffView, colors: bool) -> bool {
    let a = c.added.len() as int;
    let r = c.removed.len() as int;
    &&& 0 <= from && from + a + r + 2 <= s.len()
    &&& s[from] == shows(in_bold(colors, c.category))
    &&& forall|i: int| 0 <= i < a ==> #[trigger] s[from + 1 + i] == shows("  + "@ + c.added[i])
    &&& forall|i: int|
        0 <= i < r ==> #[trigger] s[from + 1 + a + i] == shows("  - "@ + c.removed[i])
    &&& s[from + 1 + a + r] == shows(""@)
}

proof fn lemma_change_rows(steps: Seq<StepView>, v: Seq<DiffView>, colors: bool)
    ensures
        ({
            let s = change_rows(steps, v, colors);
            &&& s.len() == steps.len() + lines_before(v, v.len() as int)
            &&& s.take(steps.len() as int) == steps
            &&& forall|k: int|
                0 <= k < v.len() ==> #[trigger] block_at(
                    s,
                    steps.len() + lines_before(v, k),
                    v[k],
                    colors,
                )
        }),
    decreases v.len(),
{
    let s = change_rows(steps, v, colors);
    if v.len() == 0 {
        assert(s.take(steps.len() as int) =~= steps);
    } else {
        let t = v.drop_last();
        let c = v.last();
        let n = t.len() as int;
        let before = change_rows(steps, t, colors);
        lemma_change_rows(steps, t, colors);
        lemma_lines_before(v, t, n);
        let head = before.push(shows(in_bold(colors, c.category)));
        lemma_marked_rows(head, "  + "@, c.added);
        let plus = marked_rows(head, "  + "@, c.added);
        lemma_marked_rows(plus, "  - "@, c.removed);
        assert(s == marked_rows(plus, "  - "@, c.removed).push(shows(""@)));
        assert(s.take(before.len() as int) =~= before);
        assert(s.take(steps.len() as int) =~= before.take(steps.len() as int));
        assert(block_at(s, before.len() as int, c, colors));
        assert forall|k: int| 0 <= k < v.len() implies #[trigger] block_at(
            s,
            steps.len() + lines_before(v, k),
            v[k],
            colors,
        ) by {
            lemma_lines_before(v, t, k);
            if k < n {
                let from = steps.len() + lines_before(t, k);
                assert(block_at(before, from, t[k], colors));
                assert forall|j: int| 0 <= j < before.len() implies s[j] == before[j] by {
                    assert(s.take(before.len() as int)[j] == s[j]);
                }
            }
        }
    }
}

/// Every change is shown under its category, with one line for each package that was gained or
/// lost and no other: a gained package behind a plus, a lost one behind a minus, in order.
pub proof fn diff_shows_every_change(
    first_time: bool,
    v: Seq<DiffView>,
    colors: bool,
    k: int,
    x: Seq<char>,
)
    requires
        0 <= k < v.len(),
    ensures
        ({
            let s = diff_lines(first_time, v, colors);
            let first: int = if first_time {
                1
            } else {
                0
            };
            let from = first + lines_before(v, k);
            let last = from + 1 + v[k].added.len() + v[k].removed.len();
            &&& s.len() == first + lines_before(v, v.len() as int)
            &&& block_at(s, from, v[k], colors)
            &&& (exists|j: int| from < j < last && #[trigger] s[j] == shows("  + "@ + x))
                <==> v[k].added.contains(x)
            &&& (exists|j: int| from < j < last && #[trigger] s[j] == shows("  - "@ + x))
                <==> v[k].removed.contains(x)
        }),
{
    let s = diff_lines(first_time, v, colors);
    let first: int = if first_time {
        1
    } else {
        0
    };
    let head = if first_time {
        no_steps().push(
            shows(
                dimmed(
                    colors,
                    "No rebuild recorded yet — the first `nixlayer rebuild` will apply everything below."@,
                ),
            ),
        )
    } else {
        no_steps()
    };
    lemma_change_rows(head, v, colors);
    let c = v[k];
    let a = c.added.len() as int;
    let from = first + lines_before(v, k);
    let last = from + 1 + a + c.removed.len();
    assert(block_at(s, from, c, colors));
    reveal_strlit("  + ");
    reveal_strlit("  - ");
    assert forall|y: Seq<char>, z: Seq<char>| #[trigger] ("  + "@ + y) != #[trigger] ("  - "@ + z) by {
        assert(("  + "@ + y)[2] == '+');
        assert(("  - "@ + z)[2] == '-');
    }
    assert forall|y: Seq<char>| #[trigger] ("  + "@ + y) == "  + "@ + x implies y == x by {
        assert(("  + "@ + y).skip(4) =~= y);
        assert(("  + "@ + x).skip(4) =~= x);
    }
    assert forall|y: Seq<char>| #[trigger] ("  - "@ + y) == "  - "@ + x implies y == x by {
        assert(("  - "@ + y).skip(4) =~= y);
        assert(("  - "@ + x).skip(4) =~= x);
    }
    if exists|j: int| from < j < last && #[trigger] s[j] == shows("  + "@ + x) {
        let j = choose|j: int| from < j < last && #[trigger] s[j] == shows("  + "@ + x);
        let i = j - from - 1;
        if i < a {
            assert(s[from + 1 + i] == shows("  + "@ + c.added[i]));
        } else {
            assert(s[from + 1 + a + (i - a)] == shows("  - "@ + c.removed[i - a]));
        }
    }
    if exists|j: int| from < j < last && #[trigger] s[j] == shows("  - "@ + x) {
        let j = choose|j: int| from < j < last && #[trigger] s[j] == shows("  - "@ + x);
        let i = j - from - 1;
        if i < a {
            assert(s[from + 1 + i] == shows("  + "@ + c.added[i]));
        } else {
            assert(s[from + 1 + a + (i - a)] == shows("  - "@ + c.removed[i - a]));
        }
    }
    if c.added.contains(x) {
        let i = choose|i: int| 0 <= i < a && c.added[i] == x;
        assert(s[from + 1 + i] == shows("  + "@ + x));
    }
    if c.removed.contains(x) {
        let i = choose|i: int| 0 <= i < c.removed.len() && c.removed[i] == x;
        assert(s[from + 1 + a + i] == shows("  - "@ + x));
    }
}

/// Where nothing has changed, that is said; and before the first rebuild, that is said first.
pub proof fn diff_tells_when_nothing_changed(first_time: bool, v: Seq<DiffView>, colors: bool)
    ensures
        v.len() == 0 ==> diff_lines(first_time, v, colors).last() == shows(
            "No pending changes since the last rebuild."@,
        ) && diff_lines(first_time, v, colors).len() == if first_time {
            2int
        } else {
            1
        },
        first_time ==> diff_lines(first_time, v, colors)[0] == shows(
            dimmed(
                colors,
                "No rebuild recorded yet — the first `nixlayer rebuild` will apply everything below."@,
            ),
        ),
{
    if first_time && v.len() > 0 {
        let head = no_steps().push(
            shows(
                dimmed(
                    colors,
                    "No rebuild recorded yet — the first `nixlayer rebuild` will apply everything below."@,
                ),
            ),
        );
        lemma_change_rows(head, v, colors);
        let s = diff_lines(first_time, v, colors);
        assert(s.take(1)[0] == s[0]);
    }
}

// ---------------------------------------------------------------------------
// search and info
// ---------------------------------------------------------------------------

/// A known text, or another one.
pub open spec fn known_or(o: Option<Seq<char>>, other: Seq<char>) -> Seq<char> {
    match o {
        Some(t) => t,
        None => other,
    }
}

/// How a result of a search is shown.
pub open spec fn result_text(p: InfoView, colors: bool) -> Seq<char> {
    "  "@ + pad_right(in_bold(colors, p.attribute), 28) + " "@ + pad_right(
        known_or(p.version, "?"@),
        12,
    ) + " "@ + known_or(p.description, ""@)
}

proof fn lemma_search_rows(steps: Seq<StepView>, v: Seq<InfoView>, colors: bool)
    ensures
        search_rows(steps, v, colors) == steps + Seq::new(
            v.len(),
            |i: int| shows(result_text(v[i], colors)),
        ),
    decreases v.len(),
{
    if v.len() > 0 {
        lemma_search_rows(steps, v.drop_last(), colors);
    }
    assert(search_rows(steps, v, colors) =~= steps + Seq::new(
        v.len(),
        |i: int| shows(result_text(v[i], colors)),
    ));
}

/// Every result of a search is shown, in the order in which it was found, with what is known of
/// it, between a heading that tells how many there are and a hint. Where there is none, that is
/// said.
pub proof fn search_shows_every_result(query: Seq<char>, v: Seq<InfoView>, colors: bool)
    ensures
        ({
            let s = search_lines(query, v, colors);
            if v.len() == 0 {
                s == seq![shows("No nixpkgs packages matched '"@ + query + "'."@)]
            } else {
                &&& s.len() == v.len() + 2
                &&& s[0] == shows(
                    in_bold(colors, decimal(v.len()) + " match(es) for '"@ + query + "':\n"@),
                )
                &&& forall|i: int|
                    0 <= i < v.len() ==> #[trigger] s[i + 1] == shows(result_text(v[i], colors))
                &&& s[v.len() as int + 1] == shows(
                    "\n"@ + dimmed(
                        colors,
                        "Run `nixlayer info <attribute>` for full details, or `nixlayer add <attribute>` to add one."@,
                    ),
                )
            }
        }),
{
    if v.len() == 0 {
        assert(search_lines(query, v, colors) =~= seq![
            shows("No nixpkgs packages matched '"@ + query + "'."@),
        ]);
    } else {
        lemma_search_rows(
            no_steps().push(
                shows(in_bold(colors, decimal(v.len()) + " match(es) for '"@ + query + "':\n"@)),
            ),
            v,
            colors,
        );
    }
}

/// The line for a field, where the field is known.
pub open spec fn field(label: Seq<char>, o: Option<Seq<char>>) -> Seq<StepView> {
    match o {
        Some(t) => seq![shows(label + t)],
        None => Seq::empty(),
    }
}

/// One step, where `when` holds.
pub open spec fn only_if(when: bool, step: StepView) -> Seq<StepView> {
    if when {
        seq![step]
    } else {
        Seq::empty()
    }
}

pub proof fn lemma_field(steps: Seq<StepView>, label: Seq<char>, o: Option<Seq<char>>)
    ensures
        said_field(steps, label, o) == steps + field(label, o),
{
    assert(said_field(steps, label, o) =~= steps + field(label, o));
}

pub proof fn lemma_only_if(steps: Seq<StepView>, when: bool, text: Seq<char>)
    ensures
        said_if(steps, when, LineView { text, to_stderr: false }) == steps + only_if(
            when,
            shows(text),
        ),
{
    assert(said_if(steps, when, LineView { text, to_stderr: false }) =~= steps + only_if(
        when,
        shows(text),
    ));
}

/// What is known of a package is shown, field by field, and nothing else: its attribute, then its
/// name, version, description, homepage and licences where they are known, then whether it is
/// free, a note where it is not, a warning where it is broken, and where all this comes from.
pub proof fn info_shows_what_is_known(p: InfoView, colors: bool)
    ensures
        info_lines(p, colors) == seq![shows(in_bold(colors, p.attribute))] + field(
            "  package name : "@,
            p.pname,
        ) + field("  version      : "@, p.version) + field("  description  : "@, p.description)
            + field("  homepage     : "@, p.homepage) + only_if(
            p.license.len() > 0,
            shows("  license      : "@ + join(p.license, ", "@)),
        ) + only_if(p.free, shows("  status       : "@ + "free"@)) + only_if(
            !p.free,
            shows("  status       : "@ + "UNFREE"@),
        ) + only_if(
            !p.free,
            shows(
                "\n"@ + dimmed(
                    colors,
                    "This package is unfree. NixOS will refuse to build it unless you allow unfree packages, e.g. `nixpkgs.config.allowUnfree = true;` (globally) or via `nixpkgs.config.allowUnfreePredicate` (per-package) in your own configuration.\nnixlayer will not change that setting for you — add it yourself, then `nixlayer add` with `--allow-unfree`."@,
                ),
            ),
        ) + only_if(
            p.broken,
            shows(warned(colors, "this package is currently marked broken in nixpkgs."@)),
        ) + only_if(
            p.source == Backend::Flakes,
            shows("\n"@ + dimmed(colors, "source: nix eval (flakes, nixpkgs registry)"@)),
        ) + only_if(
            p.source == Backend::Legacy,
            shows(
                "\n"@ + dimmed(colors, "source: nix-env (legacy/channel mode — reduced metadata)"@),
            ),
        ),
{
    let a = no_steps().push(shows(in_bold(colors, p.attribute)));
    assert(a =~= seq![shows(in_bold(colors, p.attribute))]);
    lemma_field(a, "  package name : "@, p.pname);
    let b = said_field(a, "  package name : "@, p.pname);
    lemma_field(b, "  version      : "@, p.version);
    let c = said_field(b, "  version      : "@, p.version);
    lemma_field(c, "  description  : "@, p.description);
    let d = said_field(c, "  description  : "@, p.description);
    lemma_field(d, "  homepage     : "@, p.homepage);
    let e = said_field(d, "  homepage     : "@, p.homepage);
    lemma_only_if(e, p.license.len() > 0, "  license      : "@ + join(p.license, ", "@));
    let f = e + only_if(
        p.license.len() > 0,
        shows("  license      : "@ + join(p.license, ", "@)),
    );
    let free = "  status       : "@ + "free"@;
    let unfree = "  status       : "@ + "UNFREE"@;
    let g = f + only_if(p.free, shows(free)) + only_if(!p.free, shows(unfree));
    assert(g =~= f.push(
        shows(
            if p.free {
                free
            } else {
                unfree
            },
        ),
    ));
    let note = "\n"@ + dimmed(
        colors,
        "This package is unfree. NixOS will refuse to build it unless you allow unfree packages, e.g. `nixpkgs.config.allowUnfree = true;` (globally) or via `nixpkgs.config.allowUnfreePredicate` (per-package) in your own configuration.\nnixlayer will not change that setting for you — add it yourself, then `nixlayer add` with `--allow-unfree`."@,
    );
    lemma_only_if(g, !p.free, note);
    let h = g + only_if(!p.free, shows(note));
    let warning = warned(colors, "this package is currently marked broken in nixpkgs."@);
    lemma_only_if(h, p.broken, warning);
    let k = h + only_if(p.broken, shows(warning));
    let flakes = "\n"@ + dimmed(colors, "source: nix eval (flakes, nixpkgs registry)"@);
    let legacy = "\n"@ + dimmed(
        colors,
        "source: nix-env (legacy/channel mode — reduced metadata)"@,
    );
    assert(k + only_if(p.source == Backend::Flakes, shows(flakes)) + only_if(
        p.source == Backend::Legacy,
        shows(legacy),
    ) =~= k.push(
        shows(
            if p.source == Backend::Flakes {
                flakes
            } else {
                legacy
            },
        ),
    ));
}

/// A warning.
pub open spec fn warned(colors: bool, text: Seq<char>) -> Seq<char> {
    if colors {
        "\x1b[33m"@ + "!"@ + "\x1b[0m"@ + " "@ + text
    } else {
        "[warn] "@ + text
    }
}

/// Good news.
pub open spec fn confirmed(colors: bool, text: Seq<char>) -> Seq<char> {
    if colors {
        "\x1b[32m"@ + "✓"@ + "\x1b[0m"@ + " "@ + text
    } else {
        "[ok] "@ + text
    }
}

/// A step that shows an error, on standard error.
pub open spec fn complains(colors: bool, text: Seq<char>) -> StepView {
    StepView::Print(
        LineView {
            text: if colors {
                "\x1b[31m"@ + "✗"@ + "\x1b[0m"@ + " "@ + text
            } else {
                "[error] "@ + text
            },
            to_stderr: true,
        },
    )
}

// ---------------------------------------------------------------------------
// list and categories
// ---------------------------------------------------------------------------

proof fn lemma_package_rows(steps: Seq<StepView>, v: Seq<Seq<char>>)
    ensures
        package_rows(steps, v) == steps + Seq::new(v.len(), |i: int| shows("  "@ + v[i])),
    decreases v.len(),
{
    if v.len() > 0 {
        lemma_package_rows(steps, v.drop_last());
    }
    assert(package_rows(steps, v) =~= steps + Seq::new(v.len(), |i: int| shows("  "@ + v[i])));
}

/// How a GitHub source is listed.
pub open spec fn source_text(g: SourceView, colors: bool) -> Seq<char> {
    "  "@ + dimmed(colors, "[github]"@) + " "@ + g.name + " -> "@ + g.owner + "/"@ + g.repo + "@"@
        + shorten(g.rev, 10) + " ("@ + g.attr + ")"@
}

proof fn lemma_source_rows(steps: Seq<StepView>, v: Seq<SourceView>, colors: bool)
    ensures
        source_rows(steps, v, colors) == steps + Seq::new(
            v.len(),
            |i: int| shows(source_text(v[i], colors)),
        ),
    decreases v.len(),
{
    if v.len() > 0 {
        lemma_source_rows(steps, v.drop_last(), colors);
    }
    assert(source_rows(steps, v, colors) =~= steps + Seq::new(
        v.len(),
        |i: int| shows(source_text(v[i], colors)),
    ));
}

/// What is listed of a category: a heading with its name and how much it holds, one line for each
/// package and one for each GitHub source, in order.
pub open spec fn listing(c: CategoryView, colors: bool) -> Seq<StepView> {
    seq![
        shows(
            in_bold(
                colors,
                c.name + " ("@ + decimal(c.packages.len() + c.github.len()) + ")"@,
            ),
        ),
    ] + (if c.packages.len() == 0 && c.github.len() == 0 {
        seq![shows("  "@ + dimmed(colors, "(empty)"@))]
    } else {
        Seq::empty()
    }) + Seq::new(c.packages.len(), |i: int| shows("  "@ + c.packages[i])) + Seq::new(
        c.github.len(),
        |i: int| shows(source_text(c.github[i], colors)),
    )
}

/// Every package and every source of a category is listed.
pub proof fn categories_are_listed_in_full(steps: Seq<StepView>, c: CategoryView, colors: bool)
    ensures
        category_lines(steps, c, colors) == steps + listing(c, colors),
{
    let total = c.packages.len() + c.github.len();
    let a = steps.push(shows(in_bold(colors, c.name + " ("@ + decimal(total) + ")"@)));
    let b = if total == 0 {
        a.push(shows("  "@ + dimmed(colors, "(empty)"@)))
    } else {
        a
    };
    lemma_package_rows(b, c.packages);
    lemma_source_rows(package_rows(b, c.packages), c.github, colors);
    assert(category_lines(steps, c, colors) =~= steps + listing(c, colors));
}

/// What is listed of the categories, one after the other, each followed by an empty line. Of one
/// that could not be read, what is wrong with it.
pub open spec fn listings(
    all: Seq<(Seq<char>, Result<CategoryView, ErrorView>)>,
    colors: bool,
) -> Seq<Seq<StepView>> {
    Seq::new(
        all.len(),
        |i: int|
            (match all[i].1 {
                Ok(c) => listing(c, colors),
                Err(e) => seq![complains(colors, all[i].0 + ": "@ + message_of(e))],
            }).push(shows(""@)),
    )
}

/// Listing everything lists every category, in order, and fails afterwards exactly where one of
/// them could not be read.
pub proof fn everything_is_listed(
    all: Seq<(Seq<char>, Result<CategoryView, ErrorView>)>,
    colors: bool,
)
    ensures
        all.len() > 0 ==> list_plan(all, colors).steps == listings(all, colors).flatten(),
        all.len() > 0 ==> (list_plan(all, colors).outcome == OutcomeView::Exit <==> exists|i: int|
            0 <= i < all.len() && (#[trigger] all[i]).1 is Err),
        list_plan(all, colors).outcome == OutcomeView::Exit || list_plan(all, colors).outcome
            == OutcomeView::Done,
        all.len() == 0 ==> list_plan(all, colors).outcome == OutcomeView::Done && list_plan(
            all,
            colors,
        ).steps == seq![shows("No categories yet. `nixlayer add <package>` to create one."@)],
{
    lemma_all_lines(all, colors);
    if all.len() == 0 {
        assert(list_plan(all, colors).steps =~= seq![
            shows("No categories yet. `nixlayer add <package>` to create one."@),
        ]);
    }
}

proof fn lemma_all_lines(all: Seq<(Seq<char>, Result<CategoryView, ErrorView>)>, colors: bool)
    ensures
        all_lines(all, colors) == listings(all, colors).flatten(),
    decreases all.len(),
{
    let l = listings(all, colors);
    if all.len() == 0 {
        assert(l =~= Seq::empty());
        l.lemma_flatten_and_flatten_alt_are_equivalent();
        assert(all_lines(all, colors) =~= l.flatten());
    } else {
        let t = all.drop_last();
        lemma_all_lines(t, colors);
        assert(l.drop_last() =~= listings(t, colors));
        assert(l =~= l.drop_last().push(l.last()));
        l.drop_last().lemma_flatten_push(l.last());
        let before = all_lines(t, colors);
        if all.last().1 is Ok {
            categories_are_listed_in_full(before, all.last().1->Ok_0, colors);
        }
        assert(all_lines(all, colors) =~= before + l.last());
    }
}

/// Every category is counted, in order: how many packages and sources it holds, or none and a
/// remark where it could not be read.
pub proof fn every_category_is_counted(all: Seq<(Seq<char>, Result<CategoryView, ErrorView>)>)
    ensures
        count_rows(all) == Seq::new(
            all.len(),
            |i: int|
                shows(
                    match all[i].1 {
                        Ok(c) => "  "@ + pad_right(all[i].0, 20) + " "@ + decimal(
                            c.packages.len() + c.github.len(),
                        ) + " package(s)"@ + ""@,
                        Err(_) => "  "@ + pad_right(all[i].0, 20) + " "@ + decimal(0)
                            + " package(s)"@ + " (parse error!)"@,
                    },
                ),
        ),
    decreases all.len(),
{
    if all.len() > 0 {
        every_category_is_counted(all.drop_last());
    }
    assert(count_rows(all) =~= Seq::new(
        all.len(),
        |i: int|
            shows(
                match all[i].1 {
                    Ok(c) => "  "@ + pad_right(all[i].0, 20) + " "@ + decimal(
                        c.packages.len() + c.github.len(),
                    ) + " package(s)"@ + ""@,
                    Err(_) => "  "@ + pad_right(all[i].0, 20) + " "@ + decimal(0) + " package(s)"@
                        + " (parse error!)"@,
                },
            ),
    ));
}

/// Where a package is: nowhere, in one category with its file, or in several, which are all named.
pub proof fn where_names_every_category(
    p: PathsView,
    names: Seq<Seq<char>>,
    id: Seq<char>,
    colors: bool,
)
    ensures
        names.len() == 0 ==> where_plan(p, names, id, colors) == seq![
            shows("'"@ + id + "' is not managed by nixlayer."@),
        ],
        names.len() == 1 ==> where_plan(p, names, id, colors) == seq![
            shows(
                "'"@ + id + "' is in category '"@ + names[0] + "' ("@ + category_path(p, names[0])
                    + ")"@,
            ),
        ],
        names.len() > 1 ==> where_plan(p, names, id, colors) == seq![
            shows(
                warned(
                    colors,
                    "'"@ + id + "' is declared in "@ + decimal(names.len())
                        + " categories (this is a conflict): "@ + join(names, ", "@),
                ),
            ),
            shows("Resolve with: nixlayer move "@ + id + " <category>"@),
        ],
{
    let s = where_plan(p, names, id, colors);
    if names.len() <= 1 {
        assert(s =~= seq![s[0]]);
    } else {
        assert(s =~= seq![s[0], s[1]]);
    }
}

// ---------------------------------------------------------------------------
// doctor and github list
// ---------------------------------------------------------------------------

/// Every finding is shown, in order, under a mark that tells how serious it is.
pub proof fn every_finding_is_shown(v: Seq<FindingView>, colors: bool)
    ensures
        finding_lines(v, colors) == Seq::new(
            v.len(),
            |i: int|
                match v[i].level {
                    Level::Fine => shows(confirmed(colors, v[i].message)),
                    Level::Warn => shows(warned(colors, v[i].message)),
                    Level::Error => complains(colors, v[i].message),
                },
        ),
    decreases v.len(),
{
    if v.len() > 0 {
        every_finding_is_shown(v.drop_last(), colors);
    }
    assert(finding_lines(v, colors) =~= Seq::new(
        v.len(),
        |i: int|
            match v[i].level {
                Level::Fine => shows(confirmed(colors, v[i].message)),
                Level::Warn => shows(warned(colors, v[i].message)),
                Level::Error => complains(colors, v[i].message),
            },
    ));
}

/// How a pinned source is shown with its category.
pub open spec fn pinned_text(g: SourceView, category: Seq<char>, colors: bool) -> Seq<char> {
    "  "@ + pad_right(in_bold(colors, g.name), 20) + " "@ + g.owner + "/"@ + g.repo + "@"@ + shorten(
        g.rev,
        10,
    ) + " ["@ + known_or(g.git_ref, "(unpinned ref)"@) + "] -> "@ + g.attr + " ("@ + category + ")"@
}

proof fn lemma_pinned_rows(
    steps: Seq<StepView>,
    v: Seq<SourceView>,
    category: Seq<char>,
    colors: bool,
)
    ensures
        pinned_rows(steps, v, category, colors) == steps + Seq::new(
            v.len(),
            |i: int| shows(pinned_text(v[i], category, colors)),
        ),
    decreases v.len(),
{
    if v.len() > 0 {
        lemma_pinned_rows(steps, v.drop_last(), category, colors);
    }
    assert(pinned_rows(steps, v, category, colors) =~= steps + Seq::new(
        v.len(),
        |i: int| shows(pinned_text(v[i], category, colors)),
    ));
}

/// The GitHub sources of the categories, category by category.
pub open spec fn pinned_sources(
    all: Seq<(Seq<char>, Result<CategoryView, ErrorView>)>,
    colors: bool,
) -> Seq<Seq<StepView>> {
    Seq::new(
        all.len(),
        |i: int|
            match all[i].1 {
                Ok(c) => Seq::new(
                    c.github.len(),
                    |j: int| shows(pinned_text(c.github[j], all[i].0, colors)),
                ),
                Err(_) => Seq::empty(),
            },
    )
}

proof fn lemma_all_pinned(all: Seq<(Seq<char>, Result<CategoryView, ErrorView>)>, colors: bool)
    ensures
        all_pinned(all, colors) == pinned_sources(all, colors).flatten(),
    decreases all.len(),
{
    let l = pinned_sources(all, colors);
    if all.len() == 0 {
        assert(l =~= Seq::empty());
        l.lemma_flatten_and_flatten_alt_are_equivalent();
        assert(all_pinned(all, colors) =~= l.flatten());
    } else {
        let t = all.drop_last();
        lemma_all_pinned(t, colors);
        assert(l.drop_last() =~= pinned_sources(t, colors));
        assert(l =~= l.drop_last().push(l.last()));
        l.drop_last().lemma_flatten_push(l.last());
        let before = all_pinned(t, colors);
        match all.last().1 {
            Ok(c) => {
                lemma_pinned_rows(before, c.github, all.last().0, colors);
                assert(l.last() =~= Seq::new(
                    c.github.len(),
                    |j: int| shows(pinned_text(c.github[j], all.last().0, colors)),
                ));
            },
            Err(_) => {},
        }
        assert(all_pinned(all, colors) =~= before + l.last());
    }
}

/// Every GitHub source of every category that could be read is shown, with its category; where
/// there is none, that is said.
pub proof fn every_source_is_shown(
    all: Seq<(Seq<char>, Result<CategoryView, ErrorView>)>,
    colors: bool,
)
    ensures
        ({
            let rows = pinned_sources(all, colors).flatten();
            github_lines(all, colors) == if rows.len() > 0 {
                rows
            } else {
                seq![
                    shows(
                        "No GitHub-sourced packages yet. `nixlayer github add <owner>/<repo>` to add one."@,
                    ),
                ]
            }
        }),
{
    lemma_all_pinned(all, colors);
    let rows = pinned_sources(all, colors).flatten();
    if rows.len() == 0 {
        assert(github_lines(all, colors) =~= seq![
            shows(
                "No GitHub-sourced packages yet. `nixlayer github add <owner>/<repo>` to add one."@,
            ),
        ]);
    }
}

} // verus!

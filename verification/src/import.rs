//! Importing what was installed imperatively.

use vstd::prelude::*;

use crate::category::{
    declaring, find_package, loaded_views, rendered, with_package, Category, CategoryView,
};
use crate::commands::{begin, chosen_category, dry_mark, load_or_new, target_category};
use crate::error::{message_of, ErrorView, NixlayerError};
use crate::paths::{file_views, FileView, Found, Paths, PathsView, StoredFile};
use crate::plan::{
    done, fail, failed, finish, lemma_said, lemma_stored, no_steps, said, say, start, step_views,
    store, stored, writes, OutcomeView, Plan, PlanView, Step, StepView,
};
use crate::profile::{
    remove_from_profile, removal_call, InstalledView, ProfileBackend, ProfileEntry,
};
use crate::resolver::PackageInfo;
use crate::sources::opt_view;
use crate::text::{concat2, concat3, count_text, decimal, views};
use crate::tools::{CallView, ToolCall};
use crate::ui::{
    agrees, confirm, dim, dim_text, error, error_line, heading, heading_line, ok, ok_line, plain,
    plain_line, warn, warn_line, Line,
};

verus! {

/// The category that imports go to where none is named.
pub const IMPORT_CATEGORY: &'static str = "import";

/// What came of looking an entry up in nixpkgs.
#[derive(Debug)]
pub enum Answer {
    NotAsked,
    Found(PackageInfo),
    Failed(NixlayerError),
}

/// What becomes of an entry.
#[derive(Debug)]
pub enum Fate {
    /// It is imported, as this attribute.
    Import(ProfileEntry, String),
    /// It is declared already, in this category.
    Managed(ProfileEntry, String),
    /// It stays where it is, for this reason.
    Unresolved(ProfileEntry, String),
}

/// A [`Fate`] with its texts as character sequences.
pub enum FateView {
    Import(InstalledView, Seq<char>),
    Managed(InstalledView, Seq<char>),
    Unresolved(InstalledView, Seq<char>),
}

impl View for Fate {
    type V = FateView;

    open spec fn view(&self) -> FateView {
        match *self {
            Fate::Import(e, a) => FateView::Import(e@, a@),
            Fate::Managed(e, c) => FateView::Managed(e@, c@),
            Fate::Unresolved(e, m) => FateView::Unresolved(e@, m@),
        }
    }
}

/// The views of some fates.
pub open spec fn fate_views(v: Seq<Fate>) -> Seq<FateView> {
    Seq::new(v.len(), |i: int| v[i]@)
}

/// An entry is looked up where it seems to come from nixpkgs and is not declared yet.
pub open spec fn worth_asking(
    all: Seq<(Seq<char>, Result<CategoryView, ErrorView>)>,
    e: InstalledView,
) -> bool {
    e.likely_nixpkgs && declaring(all, e.guessed_attr).len() == 0
}

/// What becomes of an entry.
pub open spec fn fate(
    all: Seq<(Seq<char>, Result<CategoryView, ErrorView>)>,
    e: InstalledView,
    answer: Answer,
) -> FateView {
    let names = declaring(all, e.guessed_attr);
    if !e.likely_nixpkgs {
        FateView::Unresolved(
            e,
            "not clearly from nixpkgs — see `nixlayer github add` for non-nixpkgs sources"@,
        )
    } else if names.len() > 0 {
        FateView::Managed(e, names[0])
    } else {
        match answer {
            Answer::Found(p) => FateView::Import(e, p@.attribute),
            Answer::Failed(m) => FateView::Unresolved(e, message_of(m@)),
            Answer::NotAsked => FateView::Unresolved(e, "not looked up in nixpkgs"@),
        }
    }
}

/// Show that what is installed is being looked at.
pub fn scanning(colors: bool) -> (r: Line)
    ensures
        r@ == heading_line(
            colors,
            "scanning nix-env / nix profile for imperatively-installed packages..."@,
        ),
{
    heading(colors, "scanning nix-env / nix profile for imperatively-installed packages...")
}

/// Whether an entry is to be looked up.
pub fn needs_answer(all: &Vec<(String, Result<Category, NixlayerError>)>, e: &ProfileEntry) -> (r: bool)
    ensures
        r == worth_asking(loaded_views(all@), e@),
{
    if !e.likely_nixpkgs {
        return false;
    }
    let names: Vec<String> = find_package(all, &e.guessed_attr);
    assert(views(names@).len() == names@.len());
    names.len() == 0
}

fn fate_of(
    all: &Vec<(String, Result<Category, NixlayerError>)>,
    e: &ProfileEntry,
    answer: &Answer,
) -> (r: Fate)
    ensures
        r@ == fate(loaded_views(all@), e@, *answer),
{
    if !e.likely_nixpkgs {
        return Fate::Unresolved(
            e.copy(),
            "not clearly from nixpkgs — see `nixlayer github add` for non-nixpkgs sources".to_string(),
        );
    }
    let names: Vec<String> = find_package(all, &e.guessed_attr);
    assert(views(names@).len() == names@.len());
    if names.len() > 0 {
        assert(views(names@)[0] == names@[0]@);
        return Fate::Managed(e.copy(), names[0].clone());
    }
    match answer {
        Answer::Found(p) => Fate::Import(e.copy(), p.attribute.clone()),
        Answer::Failed(m) => Fate::Unresolved(e.copy(), m.message()),
        Answer::NotAsked => Fate::Unresolved(e.copy(), "not looked up in nixpkgs".to_string()),
    }
}

/// What becomes of each entry. Every entry comes with what came of looking it up.
pub fn sort_entries(
    all: &Vec<(String, Result<Category, NixlayerError>)>,
    entries: &Vec<(ProfileEntry, Answer)>,
) -> (r: Vec<Fate>)
    ensures
        fate_views(r@) == Seq::new(
            entries@.len(),
            |i: int| fate(loaded_views(all@), entries@[i].0@, entries@[i].1),
        ),
{
    let ghost want = Seq::new(
        entries@.len(),
        |i: int| fate(loaded_views(all@), entries@[i].0@, entries@[i].1),
    );
    let mut out: Vec<Fate> = Vec::new();
    assert(fate_views(out@) =~= want.take(0));
    for i in 0..entries.len()
        invariant
            want == Seq::new(
                entries@.len(),
                |i: int| fate(loaded_views(all@), entries@[i].0@, entries@[i].1),
            ),
            fate_views(out@) == want.take(i as int),
    {
        let f: Fate = fate_of(all, &entries[i].0, &entries[i].1);
        let ghost before = out@;
        let ghost fv = f@;
        out.push(f);
        proof {
            assert(want.take(i + 1) =~= want.take(i as int).push(want[i as int]));
            assert(fate_views(out@) =~= fate_views(before).push(fv));
        }
    }
    assert(want.take(want.len() as int) =~= want);
    out
}

// ---------------------------------------------------------------------------
// The plan
// ---------------------------------------------------------------------------

/// How many of some fates are imports, how many are declared already, how many stay.
pub open spec fn imports(v: Seq<FateView>) -> nat
    decreases v.len(),
{
    if v.len() == 0 {
        0
    } else {
        imports(v.drop_last()) + (if v.last() is Import {
            1nat
        } else {
            0
        })
    }
}

pub open spec fn managed_ones(v: Seq<FateView>) -> nat
    decreases v.len(),
{
    if v.len() == 0 {
        0
    } else {
        managed_ones(v.drop_last()) + (if v.last() is Managed {
            1nat
        } else {
            0
        })
    }
}

pub open spec fn unresolved_ones(v: Seq<FateView>) -> nat
    decreases v.len(),
{
    if v.len() == 0 {
        0
    } else {
        unresolved_ones(v.drop_last()) + (if v.last() is Unresolved {
            1nat
        } else {
            0
        })
    }
}

/// The category with every imported attribute.
pub open spec fn with_imports(c: CategoryView, v: Seq<FateView>) -> CategoryView
    decreases v.len(),
{
    if v.len() == 0 {
        c
    } else {
        match v.last() {
            FateView::Import(_, a) => with_package(with_imports(c, v.drop_last()), a),
            _ => with_imports(c, v.drop_last()),
        }
    }
}

/// A row for every import.
pub open spec fn import_rows(steps: Seq<StepView>, v: Seq<FateView>) -> Seq<StepView>
    decreases v.len(),
{
    if v.len() == 0 {
        steps
    } else {
        let before = import_rows(steps, v.drop_last());
        match v.last() {
            FateView::Import(e, a) => said(
                before,
                plain_line("    "@ + a + " (from "@ + e.display_name + ")"@),
            ),
            _ => before,
        }
    }
}

/// A row for every entry that is declared already.
pub open spec fn managed_rows(steps: Seq<StepView>, v: Seq<FateView>) -> Seq<StepView>
    decreases v.len(),
{
    if v.len() == 0 {
        steps
    } else {
        let before = managed_rows(steps, v.drop_last());
        match v.last() {
            FateView::Managed(e, c) => said(
                before,
                plain_line("    "@ + e.display_name + " (already in '"@ + c + "')"@),
            ),
            _ => before,
        }
    }
}

/// A row for every entry that stays.
pub open spec fn unresolved_rows(steps: Seq<StepView>, v: Seq<FateView>) -> Seq<StepView>
    decreases v.len(),
{
    if v.len() == 0 {
        steps
    } else {
        let before = unresolved_rows(steps, v.drop_last());
        match v.last() {
            FateView::Unresolved(e, m) => said(
                before,
                plain_line("    "@ + e.display_name + " — "@ + m),
            ),
            _ => before,
        }
    }
}

/// What is said of the entries that are not imported.
pub open spec fn left_over(steps: Seq<StepView>, v: Seq<FateView>, colors: bool) -> Seq<StepView> {
    let a = if managed_ones(v) > 0 {
        managed_rows(
            said(
                steps,
                warn_line(
                    colors,
                    decimal(managed_ones(v)) + " already managed elsewhere, skipped:"@,
                ),
            ),
            v,
        )
    } else {
        steps
    };
    if unresolved_ones(v) > 0 {
        unresolved_rows(
            said(
                a,
                warn_line(
                    colors,
                    decimal(unresolved_ones(v))
                        + " couldn't be confidently matched, not imported:"@,
                ),
            ),
            v,
        )
    } else {
        a
    }
}

/// The part of an import that is about the category: its steps, or how the command ends where
/// that fails.
pub open spec fn importing(
    p: PathsView,
    files: Seq<FileView>,
    category: Seq<char>,
    v: Seq<FateView>,
    dry_run: bool,
    colors: bool,
) -> Result<Seq<StepView>, PlanView> {
    let n = decimal(imports(v));
    if imports(v) == 0 {
        Ok(said(no_steps(), plain_line("No new packages to import."@)))
    } else {
        match target_category(p, files, category) {
            Err(e) => Err(failed(no_steps(), e)),
            Ok(c) => {
                let d = with_imports(c, v);
                if dry_run {
                    Ok(
                        import_rows(
                            said(
                                no_steps(),
                                plain_line(
                                    dry_mark(colors) + " would add "@ + n + " package(s) to "@ + d.path
                                        + ":"@,
                                ),
                            ),
                            v,
                        ),
                    )
                } else {
                    match rendered(d) {
                        Err(e) => Err(failed(no_steps(), e)),
                        Ok(text) => Ok(
                            import_rows(
                                said(
                                    stored(no_steps(), d.path, text),
                                    ok_line(
                                        colors,
                                        "imported "@ + n + " package(s) into "@ + d.path,
                                    ),
                                ),
                                v,
                            ),
                        ),
                    }
                }
            },
        }
    }
}

/// An import: what is written and shown.
pub open spec fn import_plan(
    p: PathsView,
    files: Seq<FileView>,
    category: Seq<char>,
    v: Seq<FateView>,
    dry_run: bool,
    colors: bool,
) -> PlanView {
    if v.len() == 0 {
        done(
            said(
                no_steps(),
                plain_line("Nothing found installed imperatively — nothing to import."@),
            ),
        )
    } else {
        import_some(p, files, category, v, dry_run, colors)
    }
}

/// An import of at least one entry.
pub open spec fn import_some(
    p: PathsView,
    files: Seq<FileView>,
    category: Seq<char>,
    v: Seq<FateView>,
    dry_run: bool,
    colors: bool,
) -> PlanView {
    match importing(p, files, category, v, dry_run, colors) {
        Err(plan) => plan,
        Ok(steps) => {
            let all = left_over(steps, v, colors);
            if dry_run || imports(v) == 0 {
                done(all)
            } else {
                done(
                    said(
                        all,
                        plain_line(
                            dim_text(
                                colors,
                                "Run `nixlayer rebuild` once you're happy with import.nix."@,
                            ),
                        ),
                    ),
                )
            }
        },
    }
}

/// What is asked after an import: whether the imported entries are to be removed from where they
/// were installed. Nothing is asked where nothing was imported.
pub open spec fn removal_question(v: Seq<FateView>, dry_run: bool) -> Option<Seq<char>> {
    if dry_run || imports(v) == 0 {
        None
    } else {
        Some(
            "\nRemove these "@ + decimal(imports(v))
                + " package(s) from your nix-env/profile now? (only do this after you've confirmed the rebuild works)"@,
        )
    }
}

fn counts(v: &Vec<Fate>) -> (r: (usize, usize, usize))
    ensures
        r.0 == imports(fate_views(v@)),
        r.1 == managed_ones(fate_views(v@)),
        r.2 == unresolved_ones(fate_views(v@)),
{
    let ghost w = fate_views(v@);
    let mut a: usize = 0;
    let mut b: usize = 0;
    let mut c: usize = 0;
    for i in 0..v.len()
        invariant
            w == fate_views(v@),
            a == imports(w.take(i as int)),
            b == managed_ones(w.take(i as int)),
            c == unresolved_ones(w.take(i as int)),
            a <= i,
            b <= i,
            c <= i,
    {
        proof {
            assert(w.take(i + 1).drop_last() =~= w.take(i as int));
            assert(w.take(i + 1).last() == v@[i as int]@);
        }
        match &v[i] {
            Fate::Import(_, _) => {
                a = a + 1;
            },
            Fate::Managed(_, _) => {
                b = b + 1;
            },
            Fate::Unresolved(_, _) => {
                c = c + 1;
            },
        }
    }
    assert(w.take(w.len() as int) =~= w);
    (a, b, c)
}

fn say_imports(steps: &mut Vec<Step>, v: &Vec<Fate>)
    ensures
        step_views(final(steps)@) == import_rows(step_views(old(steps)@), fate_views(v@)),
{
    let ghost w = fate_views(v@);
    let ghost before = step_views(steps@);
    assert(import_rows(before, w.take(0)) == before);
    for i in 0..v.len()
        invariant
            w == fate_views(v@),
            step_views(steps@) == import_rows(before, w.take(i as int)),
    {
        proof {
            assert(w.take(i + 1).drop_last() =~= w.take(i as int));
            assert(w.take(i + 1).last() == v@[i as int]@);
        }
        match &v[i] {
            Fate::Import(e, a) => {
                let mut s: String = concat3("    ", a, " (from ");
                s.append(&e.display_name);
                s.append(")");
                say(steps, plain(s));
            },
            _ => {},
        }
    }
    assert(w.take(w.len() as int) =~= w);
}

fn say_managed(steps: &mut Vec<Step>, v: &Vec<Fate>)
    ensures
        step_views(final(steps)@) == managed_rows(step_views(old(steps)@), fate_views(v@)),
{
    let ghost w = fate_views(v@);
    let ghost before = step_views(steps@);
    assert(managed_rows(before, w.take(0)) == before);
    for i in 0..v.len()
        invariant
            w == fate_views(v@),
            step_views(steps@) == managed_rows(before, w.take(i as int)),
    {
        proof {
            assert(w.take(i + 1).drop_last() =~= w.take(i as int));
            assert(w.take(i + 1).last() == v@[i as int]@);
        }
        match &v[i] {
            Fate::Managed(e, c) => {
                let mut s: String = concat3("    ", &e.display_name, " (already in '");
                s.append(c);
                s.append("')");
                say(steps, plain(s));
            },
            _ => {},
        }
    }
    assert(w.take(w.len() as int) =~= w);
}

fn say_unresolved(steps: &mut Vec<Step>, v: &Vec<Fate>)
    ensures
        step_views(final(steps)@) == unresolved_rows(step_views(old(steps)@), fate_views(v@)),
{
    let ghost w = fate_views(v@);
    let ghost before = step_views(steps@);
    assert(unresolved_rows(before, w.take(0)) == before);
    for i in 0..v.len()
        invariant
            w == fate_views(v@),
            step_views(steps@) == unresolved_rows(before, w.take(i as int)),
    {
        proof {
            assert(w.take(i + 1).drop_last() =~= w.take(i as int));
            assert(w.take(i + 1).last() == v@[i as int]@);
        }
        match &v[i] {
            Fate::Unresolved(e, m) => {
                let mut s: String = concat3("    ", &e.display_name, " — ");
                s.append(m);
                say(steps, plain(s));
            },
            _ => {},
        }
    }
    assert(w.take(w.len() as int) =~= w);
}

fn add_imports(c: &mut Category, v: &Vec<Fate>)
    ensures
        final(c)@ == with_imports(old(c)@, fate_views(v@)),
{
    let ghost w = fate_views(v@);
    let ghost before = c@;
    assert(with_imports(before, w.take(0)) == before);
    for i in 0..v.len()
        invariant
            w == fate_views(v@),
            c@ == with_imports(before, w.take(i as int)),
    {
        proof {
            assert(w.take(i + 1).drop_last() =~= w.take(i as int));
            assert(w.take(i + 1).last() == v@[i as int]@);
        }
        match &v[i] {
            Fate::Import(_, a) => {
                c.add(a);
            },
            _ => {},
        }
    }
    assert(w.take(w.len() as int) =~= w);
}

/// The category that is imported into: [`IMPORT_CATEGORY`], where none is named.
pub fn begin_import(paths: &Paths, found: &Found, category: &Option<String>) -> (r: Result<
    String,
    NixlayerError,
>)
    ensures
        match r {
            Ok(c) => chosen_category(paths@, *found, opt_view(*category), IMPORT_CATEGORY@) == Ok::<
                Seq<char>,
                ErrorView,
            >(c@),
            Err(e) => chosen_category(paths@, *found, opt_view(*category), IMPORT_CATEGORY@)
                == Err::<Seq<char>, ErrorView>(e@),
        },
{
    begin(paths, found, category, IMPORT_CATEGORY)
}

/// Import what is to be imported, and tell what becomes of the rest.
pub fn import_profile(
    paths: &Paths,
    files: &Vec<StoredFile>,
    category: &str,
    fates: &Vec<Fate>,
    dry_run: bool,
    colors: bool,
) -> (r: Plan)
    ensures
        r@ == import_plan(
            paths@,
            file_views(files@),
            category@,
            fate_views(fates@),
            dry_run,
            colors,
        ),
{
    let mut steps: Vec<Step> = start();
    assert(fate_views(fates@).len() == fates@.len());
    if fates.len() == 0 {
        say(
            &mut steps,
            plain("Nothing found installed imperatively — nothing to import.".to_string()),
        );
        return finish(steps);
    }
    let (n, managed, unresolved): (usize, usize, usize) = counts(fates);
    if n == 0 {
        say(&mut steps, plain("No new packages to import.".to_string()));
    } else {
        let mut c: Category = match load_or_new(paths, files, category) {
            Ok(c) => c,
            Err(e) => {
                return fail(steps, e);
            },
        };
        add_imports(&mut c, fates);
        if dry_run {
            let mut s: String = concat3(&dim(colors, "[dry-run]"), " would add ", &count_text(n));
            s.append(" package(s) to ");
            s.append(&c.path);
            s.append(":");
            say(&mut steps, plain(s));
        } else {
            let text: String = match c.render() {
                Ok(t) => t,
                Err(e) => {
                    return fail(steps, e);
                },
            };
            let mut s: String = concat3("imported ", &count_text(n), " package(s) into ");
            s.append(&c.path);
            store(&mut steps, c.path.clone(), text);
            say(&mut steps, ok(colors, &s));
        }
        say_imports(&mut steps, fates);
    }
    if managed > 0 {
        say(
            &mut steps,
            warn(colors, &concat2(&count_text(managed), " already managed elsewhere, skipped:")),
        );
        say_managed(&mut steps, fates);
    }
    if unresolved > 0 {
        say(
            &mut steps,
            warn(
                colors,
                &concat2(
                    &count_text(unresolved),
                    " couldn't be confidently matched, not imported:",
                ),
            ),
        );
        say_unresolved(&mut steps, fates);
    }
    if dry_run || n == 0 {
        return finish(steps);
    }
    say(
        &mut steps,
        plain(dim(colors, "Run `nixlayer rebuild` once you're happy with import.nix.")),
    );
    finish(steps)
}

/// What is asked after an import.
pub fn ask_removal(fates: &Vec<Fate>, dry_run: bool) -> (r: Option<String>)
    ensures
        match r {
            Some(q) => removal_question(fate_views(fates@), dry_run) == Some(q@),
            None => removal_question(fate_views(fates@), dry_run) is None,
        },
{
    let (n, _, _): (usize, usize, usize) = counts(fates);
    if dry_run || n == 0 {
        return None;
    }
    Some(
        concat3(
            "\nRemove these ",
            &count_text(n),
            " package(s) from your nix-env/profile now? (only do this after you've confirmed the rebuild works)",
        ),
    )
}

// ---------------------------------------------------------------------------
// After the question
// ---------------------------------------------------------------------------

/// The entries that are imported, in order.
pub open spec fn imported_entries(v: Seq<FateView>) -> Seq<InstalledView>
    decreases v.len(),
{
    if v.len() == 0 {
        Seq::empty()
    } else {
        match v.last() {
            FateView::Import(e, _) => imported_entries(v.drop_last()).push(e),
            _ => imported_entries(v.drop_last()),
        }
    }
}

/// What is run after an import: where the answer is a yes, one removal for each entry that was
/// imported, in order.
pub open spec fn removal_calls(v: Seq<FateView>, answer: Option<Seq<char>>) -> Seq<CallView> {
    if agrees(answer) {
        imported_entries(v).map_values(|e: InstalledView| removal_call(e))
    } else {
        Seq::empty()
    }
}

pub open spec fn entry_views(v: Seq<&ProfileEntry>) -> Seq<InstalledView> {
    v.map_values(|e: &ProfileEntry| e@)
}

pub open spec fn call_views(v: Seq<ToolCall>) -> Seq<CallView> {
    v.map_values(|c: ToolCall| c@)
}

/// The entries that are imported, in order.
pub fn imported<'a>(fates: &'a Vec<Fate>) -> (r: Vec<&'a ProfileEntry>)
    ensures
        entry_views(r@) == imported_entries(fate_views(fates@)),
{
    let mut out: Vec<&'a ProfileEntry> = Vec::new();
    let ghost w = fate_views(fates@);
    assert(entry_views(out@) =~= imported_entries(w.take(0)));
    for i in 0..fates.len()
        invariant
            w == fate_views(fates@),
            entry_views(out@) == imported_entries(w.take(i as int)),
    {
        let ghost before = out@;
        proof {
            assert(w.take(i + 1).drop_last() =~= w.take(i as int));
            assert(w.take(i + 1).last() == fates@[i as int]@);
        }
        match &fates[i] {
            Fate::Import(e, _) => {
                out.push(e);
                assert(entry_views(out@) =~= entry_views(before).push(e@));
            },
            _ => {},
        }
    }
    assert(w.take(w.len() as int) =~= w);
    out
}

/// The removals that follow an import, given the answer to the question about them.
pub fn removals(fates: &Vec<Fate>, answer: &Option<String>) -> (r: Vec<ToolCall>)
    ensures
        call_views(r@) == removal_calls(fate_views(fates@), opt_view(*answer)),
{
    let mut out: Vec<ToolCall> = Vec::new();
    if !confirm(answer) {
        assert(call_views(out@) =~= Seq::<CallView>::empty());
        return out;
    }
    let entries: Vec<&ProfileEntry> = imported(fates);
    let ghost w = imported_entries(fate_views(fates@));
    let ghost all = removal_calls(fate_views(fates@), opt_view(*answer));
    assert(call_views(out@) =~= all.take(0));
    for i in 0..entries.len()
        invariant
            w == entry_views(entries@),
            all == w.map_values(|e: InstalledView| removal_call(e)),
            call_views(out@) == all.take(i as int),
    {
        let ghost before = out@;
        let c: ToolCall = remove_from_profile(entries[i]);
        assert(w[i as int] == entries@[i as int]@);
        assert(all[i as int] == c@);
        out.push(c);
        assert(all.take(i + 1) =~= all.take(i as int).push(all[i as int]));
        assert(call_views(out@) =~= call_views(before).push(c@));
    }
    assert(all.take(all.len() as int) =~= all);
    out
}

/// How the user can remove an entry.
pub open spec fn by_hand(e: InstalledView) -> Seq<char> {
    match e.backend {
        ProfileBackend::NixEnv => "    nix-env -e "@ + e.removal_key,
        ProfileBackend::NixProfile => "    nix profile remove "@ + e.removal_key,
    }
}

pub open spec fn by_hand_rows(steps: Seq<StepView>, v: Seq<FateView>) -> Seq<StepView>
    decreases v.len(),
{
    if v.len() == 0 {
        steps
    } else {
        let before = by_hand_rows(steps, v.drop_last());
        match v.last() {
            FateView::Import(e, _) => said(before, plain_line(by_hand(e))),
            _ => before,
        }
    }
}

/// What is shown where the imported entries stay installed.
pub fn left_installed(fates: &Vec<Fate>) -> (r: Plan)
    ensures
        r@ == done(
            by_hand_rows(
                said(
                    no_steps(),
                    plain_line(
                        "Left your profile untouched. Remove them yourself later if you'd like:"@,
                    ),
                ),
                fate_views(fates@),
            ),
        ),
{
    let mut steps: Vec<Step> = start();
    say(
        &mut steps,
        plain("Left your profile untouched. Remove them yourself later if you'd like:".to_string()),
    );
    let ghost w = fate_views(fates@);
    let ghost before = step_views(steps@);
    assert(by_hand_rows(before, w.take(0)) == before);
    for i in 0..fates.len()
        invariant
            w == fate_views(fates@),
            step_views(steps@) == by_hand_rows(before, w.take(i as int)),
    {
        proof {
            assert(w.take(i + 1).drop_last() =~= w.take(i as int));
            assert(w.take(i + 1).last() == fates@[i as int]@);
        }
        match &fates[i] {
            Fate::Import(e, _) => {
                let s: String = match e.backend {
                    ProfileBackend::NixEnv => concat2("    nix-env -e ", &e.removal_key),
                    ProfileBackend::NixProfile => concat2("    nix profile remove ", &e.removal_key),
                };
                say(&mut steps, plain(s));
            },
            _ => {},
        }
    }
    assert(w.take(w.len() as int) =~= w);
    finish(steps)
}

/// What is shown of removing one entry.
pub fn removed_line(e: &ProfileEntry, result: &Result<(), NixlayerError>, colors: bool) -> (r: Line)
    ensures
        r@ == match *result {
            Ok(_) => ok_line(
                colors,
                "removed '"@ + e@.display_name + "' from your profile"@,
            ),
            Err(m) => error_line(
                colors,
                "couldn't remove '"@ + e@.display_name + "' automatically: "@ + message_of(m@)
                    + "\n  Check `nix profile list` / `nix-env -q` and remove it yourself if needed."@,
            ),
        },
{
    match result {
        Ok(_) => ok(colors, &concat3("removed '", &e.display_name, "' from your profile")),
        Err(m) => {
            let mut s: String = concat3(
                "couldn't remove '",
                &e.display_name,
                "' automatically: ",
            );
            s.append(&m.message());
            s.append(
                "\n  Check `nix profile list` / `nix-env -q` and remove it yourself if needed.",
            );
            error(colors, &s)
        },
    }
}

// ---------------------------------------------------------------------------
// Laws
// ---------------------------------------------------------------------------

/// Every entry has one fate: it is imported, or it is declared already, or it stays.
pub proof fn every_entry_has_one_fate(v: Seq<FateView>)
    ensures
        imports(v) + managed_ones(v) + unresolved_ones(v) == v.len(),
    decreases v.len(),
{
    if v.len() > 0 {
        every_entry_has_one_fate(v.drop_last());
    }
}

/// An entry is imported exactly where it is worth asking about and was found, and then under the
/// attribute that was found.
pub proof fn only_found_entries_are_imported(
    all: Seq<(Seq<char>, Result<CategoryView, ErrorView>)>,
    e: InstalledView,
    answer: Answer,
)
    ensures
        fate(all, e, answer) is Import <==> worth_asking(all, e) && answer is Found,
        fate(all, e, answer) is Import ==> fate(all, e, answer) == FateView::Import(
            e,
            answer->Found_0@.attribute,
        ),
{
}

proof fn lemma_rows_write_nothing(steps: Seq<StepView>, v: Seq<FateView>)
    ensures
        writes(import_rows(steps, v)) == writes(steps),
        writes(managed_rows(steps, v)) == writes(steps),
        writes(unresolved_rows(steps, v)) == writes(steps),
    decreases v.len(),
{
    if v.len() > 0 {
        let t = v.drop_last();
        lemma_rows_write_nothing(steps, t);
        match v.last() {
            FateView::Import(e, a) => {
                lemma_said(
                    import_rows(steps, t),
                    plain_line("    "@ + a + " (from "@ + e.display_name + ")"@),
                );
            },
            FateView::Managed(e, c) => {
                lemma_said(
                    managed_rows(steps, t),
                    plain_line("    "@ + e.display_name + " (already in '"@ + c + "')"@),
                );
            },
            FateView::Unresolved(e, m) => {
                lemma_said(
                    unresolved_rows(steps, t),
                    plain_line("    "@ + e.display_name + " — "@ + m),
                );
            },
        }
    }
}

proof fn lemma_left_over_writes_nothing(steps: Seq<StepView>, v: Seq<FateView>, colors: bool)
    ensures
        writes(left_over(steps, v, colors)) == writes(steps),
{
    let l1 = warn_line(
        colors,
        decimal(managed_ones(v)) + " already managed elsewhere, skipped:"@,
    );
    let l2 = warn_line(
        colors,
        decimal(unresolved_ones(v)) + " couldn't be confidently matched, not imported:"@,
    );
    let a = if managed_ones(v) > 0 {
        managed_rows(said(steps, l1), v)
    } else {
        steps
    };
    lemma_said(steps, l1);
    lemma_rows_write_nothing(said(steps, l1), v);
    lemma_said(a, l2);
    lemma_rows_write_nothing(said(a, l2), v);
}

/// An import writes at most the file of its category: it does where something is imported and the
/// category can be written. A dry run writes nothing.
pub proof fn imports_write_one_file(
    p: PathsView,
    files: Seq<FileView>,
    category: Seq<char>,
    v: Seq<FateView>,
    dry_run: bool,
    colors: bool,
)
    ensures
        ({
            let plan = import_plan(p, files, category, v, dry_run, colors);
            let w = writes(plan.steps);
            &&& w.len() <= 1
            &&& w.len() == 1 ==> {
                let d = with_imports(target_category(p, files, category)->Ok_0, v);
                &&& target_category(p, files, category) is Ok
                &&& rendered(d) is Ok
                &&& w[0] == (d.path, rendered(d)->Ok_0)
            }
            &&& dry_run || imports(v) == 0 ==> w.len() == 0
            &&& !dry_run && imports(v) > 0 && target_category(p, files, category) is Ok && rendered(
                with_imports(target_category(p, files, category)->Ok_0, v),
            ) is Ok ==> w.len() == 1 && plan.outcome == OutcomeView::Done
        }),
{
    let empty = no_steps();
    assert(writes(empty).len() == 0);
    lemma_said(empty, plain_line("No new packages to import."@));
    lemma_said(
        empty,
        plain_line("Nothing found installed imperatively — nothing to import."@),
    );
    match target_category(p, files, category) {
        Ok(c) => {
            let d = with_imports(c, v);
            let n = decimal(imports(v));
            let dry = plain_line(
                dry_mark(colors) + " would add "@ + n + " package(s) to "@ + d.path + ":"@,
            );
            lemma_said(empty, dry);
            lemma_rows_write_nothing(said(empty, dry), v);
            if rendered(d) is Ok {
                let text = rendered(d)->Ok_0;
                let one = stored(empty, d.path, text);
                let told = ok_line(colors, "imported "@ + n + " package(s) into "@ + d.path);
                lemma_stored(empty, d.path, text);
                lemma_said(one, told);
                lemma_rows_write_nothing(said(one, told), v);
            }
        },
        Err(_) => {},
    }
    if importing(p, files, category, v, dry_run, colors) is Ok {
        let steps = importing(p, files, category, v, dry_run, colors)->Ok_0;
        lemma_left_over_writes_nothing(steps, v, colors);
        lemma_said(
            left_over(steps, v, colors),
            plain_line(
                dim_text(colors, "Run `nixlayer rebuild` once you're happy with import.nix."@),
            ),
        );
    }
}

} // verus!

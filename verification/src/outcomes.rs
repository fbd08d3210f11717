//! What the commands leave behind: laws on the managed directory before and after.

use vstd::prelude::*;

use crate::category::{
    by_name, declares, declaring, entry_name, entry_of, is_name, lemma_listed_has_file,
    lemma_source_at, lemma_without_len, lemma_without_source_len, load_named, loaded, read_category,
    rendered, sorted_sources, source_at, source_names, with_entry, with_package, with_source,
    without, without_entry, without_source, CategoryView, EntryView, DEFAULT_CATEGORY, GH_MARKER,
};
use crate::commands::{
    add_plan, broken_steps, lemma_declaring_has_file, move_plan, or_default, previewed, rebuild_hint,
    remove_plan, removing, taking, target_after, target_category, unfree_steps, would_add,
    would_remove, would_take, AddOptions,
};
use crate::default_nix::module_text;
use crate::edits::{clash_free, declared_names_have_entries, inserting_declares, taking_undeclares};
use crate::error::ErrorView;
use crate::github::PinnedView;
use crate::import::{import_plan, imports, imports_write_one_file, with_imports, FateView};
use crate::order::{itself, lemma_sort_contains, lemma_unique, unique};
use crate::paths::{
    categories_and_files_match, categories_of, category_file_name, category_names, category_of,
    category_path, file_at, join, lemma_file_at, managed, text_at, FileView, Found, PathsView,
};
use crate::plan::{
    failed, lemma_said, lemma_stored, no_steps, said, stored, writes, OutcomeView, PlanView, StepView,
};
use crate::resolver::InfoView;
use crate::roundtrip::{
    all_simple, read_category_can_be_written, reread, the_module_is_no_category, writable,
    written_category_reads_back,
};
use crate::show::{said_field, unfree_plan};
use crate::sources::SourceView;
use crate::sourcing::{
    add_source_plan, not_a_source, outdated, pinned_lines, remove_source_plan, removing_sources,
    source_of, update_plan,
};
use crate::text::{contains, lines};
use crate::ui::{ok_line, plain_line, LineView};

verus! {

// ---------------------------------------------------------------------------
// The directory
// ---------------------------------------------------------------------------

/// `s` holds no separator.
pub open spec fn undivided(s: Seq<char>) -> bool {
    forall|i: int| 0 <= i < s.len() ==> #[trigger] s[i] != '/'
}

/// The files of a directory: their names are not empty and hold no separators.
pub open spec fn proper(files: Seq<FileView>) -> bool {
    forall|i: int|
        0 <= i < files.len() ==> (#[trigger] files[i]).name.len() > 0 && undivided(files[i].name)
}

/// The directory with a text in the file called `name`.
pub open spec fn put_file(files: Seq<FileView>, name: Seq<char>, text: Seq<char>) -> Seq<FileView> {
    let f = FileView { name, text: Ok(text) };
    if file_at(files, name) < files.len() {
        files.update(file_at(files, name), f)
    } else {
        files.push(f)
    }
}

/// The name of the file at a path in the managed directory.
pub open spec fn name_in(p: PathsView, path: Seq<char>) -> Seq<char> {
    if p.nixlayer_dir.len() == 0 || p.nixlayer_dir.last() == '/' {
        path.skip(p.nixlayer_dir.len() as int)
    } else {
        path.skip(p.nixlayer_dir.len() as int + 1)
    }
}

/// The directory once some files have been written.
pub open spec fn carried_out(
    p: PathsView,
    files: Seq<FileView>,
    ws: Seq<(Seq<char>, Seq<char>)>,
) -> Seq<FileView>
    decreases ws.len(),
{
    if ws.len() == 0 {
        files
    } else {
        put_file(
            carried_out(p, files, ws.drop_last()),
            name_in(p, ws.last().0),
            ws.last().1,
        )
    }
}

/// The directory once a plan has been carried out.
pub open spec fn after(p: PathsView, files: Seq<FileView>, plan: PlanView) -> Seq<FileView> {
    carried_out(p, files, writes(plan.steps))
}

proof fn lemma_name_in(p: PathsView, file: Seq<char>)
    requires
        file.len() > 0,
        file[0] != '/',
    ensures
        name_in(p, managed(p, file)) == file,
{
    reveal_strlit("/");
    let d = p.nixlayer_dir;
    assert((d + file).skip(d.len() as int) =~= file);
    assert((d + "/"@ + file).skip(d.len() as int + 1) =~= file);
}

proof fn lemma_put_file(files: Seq<FileView>, name: Seq<char>, text: Seq<char>, other: Seq<char>)
    ensures
        text_at(put_file(files, name, text), other) == if other == name {
            Some(Ok::<Seq<char>, Seq<char>>(text))
        } else {
            text_at(files, other)
        },
{
    let after = put_file(files, name, text);
    lemma_file_at(files, name);
    lemma_file_at(files, other);
    lemma_file_at(after, other);
    let k = file_at(files, name);
    let a = file_at(files, other);
    let b = file_at(after, other);
    if other == name {
        assert(after[k].name == other);
        assert forall|j: int| 0 <= j < k implies (#[trigger] after[j]).name != other by {
            assert(after[j] == files[j]);
        }
        assert(b == k);
    } else {
        assert forall|j: int| 0 <= j < files.len() implies ((#[trigger] after[j]).name == other <==> files[j].name
            == other) by {}
        if a < files.len() {
            assert(after[a].name == other);
            assert(b <= a);
            if b < a {
                assert(files[b].name != other);
            }
        } else {
            if b < after.len() {
                assert(after[b].name == other);
                if b < files.len() {
                    assert(files[b].name == other);
                }
            }
        }
    }
}

proof fn lemma_put_categories(files: Seq<FileView>, name: Seq<char>, text: Seq<char>, c: Seq<char>)
    ensures
        categories_of(put_file(files, name, text)).contains(c) <==> categories_of(files).contains(c)
            || category_of(name) == Some(c),
{
    let after = put_file(files, name, text);
    lemma_file_at(files, name);
    let k = file_at(files, name);
    lemma_categories(files, c);
    lemma_categories(after, c);
    if categories_of(files).contains(c) {
        let i = choose|i: int| 0 <= i < files.len() && category_of((#[trigger] files[i]).name) == Some(c);
        assert(after[i].name == files[i].name);
    }
    if category_of(name) == Some(c) {
        assert(after[k].name == name);
    }
    if categories_of(after).contains(c) {
        let i = choose|i: int| 0 <= i < after.len() && category_of((#[trigger] after[i]).name) == Some(c);
        if i != k {
            assert(after[i] == files[i]);
        }
    }
}

/// A category is listed exactly where a file holds it.
pub proof fn lemma_categories(files: Seq<FileView>, c: Seq<char>)
    ensures
        categories_of(files).contains(c) <==> exists|i: int|
            0 <= i < files.len() && category_of((#[trigger] files[i]).name) == Some(c),
    decreases files.len(),
{
    if files.len() > 0 {
        let t = files.drop_last();
        let before = categories_of(t);
        let now = categories_of(files);
        lemma_categories(t, c);
        if now.contains(c) {
            let k = choose|k: int| 0 <= k < now.len() && now[k] == c;
            if k < before.len() {
                assert(before[k] == c);
                let i = choose|i: int| 0 <= i < t.len() && category_of((#[trigger] t[i]).name) == Some(c);
                assert(files[i] == t[i]);
            } else {
                assert(category_of(files[files.len() - 1].name) == Some(c));
            }
        }
        if exists|i: int| 0 <= i < files.len() && category_of((#[trigger] files[i]).name) == Some(c) {
            let i = choose|i: int|
                0 <= i < files.len() && category_of((#[trigger] files[i]).name) == Some(c);
            if i < t.len() {
                assert(t[i] == files[i]);
                assert(before.contains(c));
                let k = choose|k: int| 0 <= k < before.len() && before[k] == c;
                assert(now[k] == c);
            } else {
                assert(now[now.len() - 1] == c);
            }
        }
    }
}

/// The directory lists the category `n`, and it declares `id`.
pub open spec fn declared_in(p: PathsView, files: Seq<FileView>, id: Seq<char>, n: Seq<char>) -> bool {
    &&& category_names(files).contains(n)
    &&& load_named(p, files, n) is Ok
    &&& declares(load_named(p, files, n)->Ok_0, id)
}

proof fn lemma_declaring_contains(
    all: Seq<(Seq<char>, Result<CategoryView, ErrorView>)>,
    id: Seq<char>,
    i: int,
)
    requires
        0 <= i < all.len(),
        all[i].1 is Ok,
        declares(all[i].1->Ok_0, id),
    ensures
        declaring(all, id).contains(all[i].0),
    decreases all.len(),
{
    let t = all.drop_last();
    let before = declaring(t, id);
    let now = declaring(all, id);
    if i < t.len() {
        assert(t[i] == all[i]);
        lemma_declaring_contains(t, id, i);
        let k = choose|k: int| 0 <= k < before.len() && before[k] == all[i].0;
        assert(now[k] == all[i].0);
    } else {
        assert(now[now.len() - 1] == all[i].0);
    }
}

/// The categories that declare a name are those that are listed and declare it.
pub proof fn lemma_declared_in(p: PathsView, files: Seq<FileView>, id: Seq<char>, n: Seq<char>)
    ensures
        declaring(loaded(p, files), id).contains(n) <==> declared_in(p, files, id, n),
{
    let all = loaded(p, files);
    let found = declaring(all, id);
    if found.contains(n) {
        let k = choose|k: int| 0 <= k < found.len() && found[k] == n;
        lemma_declaring_has_file(p, files, id, k);
    }
    if declared_in(p, files, id, n) {
        let names = category_names(files);
        let i = choose|i: int| 0 <= i < names.len() && names[i] == n;
        assert(all[i] == (n, load_named(p, files, n)));
        lemma_declaring_contains(all, id, i);
    }
}

// ---------------------------------------------------------------------------
// Writing categories
// ---------------------------------------------------------------------------

proof fn lemma_sorted_names(v: Seq<SourceView>, id: Seq<char>)
    ensures
        source_names(sorted_sources(v)).contains(id) <==> source_names(v).contains(id),
{
    let s = sorted_sources(v);
    if source_names(s).contains(id) {
        let i = choose|i: int| 0 <= i < s.len() && source_names(s)[i] == id;
        lemma_sort_contains(v, by_name(), s[i]);
        assert(s.contains(s[i]));
        let j = choose|j: int| 0 <= j < v.len() && v[j] == s[i];
        assert(source_names(v)[j] == id);
    }
    if source_names(v).contains(id) {
        let i = choose|i: int| 0 <= i < v.len() && source_names(v)[i] == id;
        lemma_sort_contains(v, by_name(), v[i]);
        assert(v.contains(v[i]));
        let j = choose|j: int| 0 <= j < s.len() && s[j] == v[i];
        assert(source_names(s)[j] == id);
    }
}

/// Writing a category and reading it back changes nothing of what it declares.
proof fn lemma_reread_declares(c: CategoryView, text: Seq<char>, id: Seq<char>)
    ensures
        declares(reread(c, text), id) <==> declares(c, id),
{
    lemma_unique(c.packages);
    assert(unique(c.packages).contains(id) <==> c.packages.contains(id));
    lemma_sorted_names(c.github, id);
}

/// A category that is listed has a file whose name does not start with a separator.
proof fn lemma_listed_file(p: PathsView, files: Seq<FileView>, n: Seq<char>)
    requires
        proper(files),
        category_names(files).contains(n),
    ensures
        name_in(p, category_path(p, n)) == category_file_name(n),
        category_of(category_file_name(n)) == Some(n),
{
    lemma_sort_contains(categories_of(files), itself(), n);
    lemma_categories(files, n);
    let i = choose|i: int| 0 <= i < files.len() && category_of((#[trigger] files[i]).name) == Some(n);
    categories_and_files_match(n, files[i].name);
    lemma_name_in(p, category_file_name(n));
}

/// What a load gives has the name and the path that it was asked for.
proof fn lemma_loaded_identity(p: PathsView, files: Seq<FileView>, n: Seq<char>)
    requires
        load_named(p, files, n) is Ok,
    ensures
        load_named(p, files, n)->Ok_0.name == n,
        load_named(p, files, n)->Ok_0.path == category_path(p, n),
{
}

/// The text that a category gets once `id` has been taken out of it.
pub open spec fn taken_text(p: PathsView, files: Seq<FileView>, id: Seq<char>, n: Seq<char>) -> Seq<char> {
    rendered(without_entry(load_named(p, files, n)->Ok_0, id))->Ok_0
}

/// Every category that declares `id` can give it up: it declares no name twice, and what is left
/// can be written and read back.
pub open spec fn can_give_up(p: PathsView, files: Seq<FileView>, id: Seq<char>) -> bool {
    forall|n: Seq<char>| #[trigger]
        declaring(loaded(p, files), id).contains(n) ==> {
            let c = load_named(p, files, n)->Ok_0;
            clash_free(c) && writable(without_entry(c, id))
        }
}

/// The writes of taking `id` out of the categories `names`.
pub open spec fn taken_writes(
    p: PathsView,
    files: Seq<FileView>,
    id: Seq<char>,
    names: Seq<Seq<char>>,
) -> Seq<(Seq<char>, Seq<char>)> {
    Seq::new(names.len(), |i: int| (category_path(p, names[i]), taken_text(p, files, id, names[i])))
}

/// The writes that give the files of some categories the texts that `text` makes for them.
pub open spec fn texts_for(
    p: PathsView,
    names: Seq<Seq<char>>,
    text: spec_fn(Seq<char>) -> Seq<char>,
) -> Seq<(Seq<char>, Seq<char>)> {
    Seq::new(names.len(), |i: int| (category_path(p, names[i]), text(names[i])))
}

proof fn lemma_texts_directory(
    p: PathsView,
    files: Seq<FileView>,
    names: Seq<Seq<char>>,
    text: spec_fn(Seq<char>) -> Seq<char>,
    n: Seq<char>,
)
    requires
        proper(files),
        forall|k: int| 0 <= k < names.len() ==> category_names(files).contains(#[trigger] names[k]),
    ensures
        ({
            let then = carried_out(p, files, texts_for(p, names, text));
            &&& text_at(then, category_file_name(n)) == if names.contains(n) {
                Some(Ok::<Seq<char>, Seq<char>>(text(n)))
            } else {
                text_at(files, category_file_name(n))
            }
            &&& categories_of(then).contains(n) <==> categories_of(files).contains(n)
        }),
    decreases names.len(),
{
    let ws = texts_for(p, names, text);
    if names.len() == 0 {
        assert(!names.contains(n));
    } else {
        let t = names.drop_last();
        let last = names.last();
        assert forall|k: int| 0 <= k < t.len() implies category_names(files).contains(#[trigger] t[k]) by {
            assert(t[k] == names[k]);
        }
        lemma_texts_directory(p, files, t, text, n);
        assert(ws.drop_last() =~= texts_for(p, t, text));
        assert(names[names.len() - 1] == last);
        assert(category_names(files).contains(last));
        lemma_listed_file(p, files, last);
        let before = carried_out(p, files, ws.drop_last());
        let f = category_file_name(last);
        lemma_put_file(before, f, text(last), category_file_name(n));
        lemma_put_categories(before, f, text(last), n);
        reveal_strlit(".nix");
        if category_file_name(n) == f {
            assert(n =~= f.take(f.len() - 4));
            assert(last =~= f.take(f.len() - 4));
        }
        if names.contains(n) && n != last {
            let k = choose|k: int| 0 <= k < names.len() && names[k] == n;
            assert(t[k] == n);
        }
        if t.contains(n) {
            let k = choose|k: int| 0 <= k < t.len() && t[k] == n;
            assert(names[k] == n);
        }
        lemma_sort_contains(categories_of(files), itself(), last);
    }
}

proof fn lemma_taken_directory(
    p: PathsView,
    files: Seq<FileView>,
    id: Seq<char>,
    names: Seq<Seq<char>>,
    n: Seq<char>,
)
    requires
        proper(files),
        forall|k: int| 0 <= k < names.len() ==> category_names(files).contains(#[trigger] names[k]),
    ensures
        ({
            let then = carried_out(p, files, taken_writes(p, files, id, names));
            &&& text_at(then, category_file_name(n)) == if names.contains(n) {
                Some(Ok::<Seq<char>, Seq<char>>(taken_text(p, files, id, n)))
            } else {
                text_at(files, category_file_name(n))
            }
            &&& categories_of(then).contains(n) <==> categories_of(files).contains(n)
        }),
{
    let text = |m: Seq<char>| taken_text(p, files, id, m);
    lemma_texts_directory(p, files, names, text, n);
    assert(texts_for(p, names, text) =~= taken_writes(p, files, id, names));
}

proof fn lemma_removing_writes(
    p: PathsView,
    files: Seq<FileView>,
    id: Seq<char>,
    names: Seq<Seq<char>>,
    colors: bool,
    steps: Seq<StepView>,
)
    requires
        forall|k: int|
            0 <= k < names.len() ==> {
                let r = load_named(p, files, #[trigger] names[k]);
                &&& r is Ok
                &&& declares(r->Ok_0, id)
                &&& writable(without_entry(r->Ok_0, id))
            },
    ensures
        ({
            let plan = removing(p, files, id, names, false, colors, steps);
            &&& plan.outcome == OutcomeView::Done
            &&& writes(plan.steps) == writes(steps) + taken_writes(p, files, id, names)
        }),
    decreases names.len(),
{
    if names.len() == 0 {
        lemma_said(steps, rebuild_hint(colors));
        assert(writes(steps) + taken_writes(p, files, id, names) =~= writes(steps));
    } else {
        let n = names[0];
        let rest = names.drop_first();
        let c = load_named(p, files, n)->Ok_0;
        let d = without_entry(c, id);
        assert forall|k: int| 0 <= k < rest.len() implies ({
            let r = load_named(p, files, #[trigger] rest[k]);
            &&& r is Ok
            &&& declares(r->Ok_0, id)
            &&& writable(without_entry(r->Ok_0, id))
        }) by {
            assert(rest[k] == names[k + 1]);
        }
        declared_names_have_entries(c, id);
        written_category_reads_back(d);
        let text = rendered(d)->Ok_0;
        let line = ok_line(colors, "removed '"@ + id + "' from "@ + d.path);
        let one = stored(steps, d.path, text);
        lemma_stored(steps, d.path, text);
        lemma_said(one, line);
        lemma_removing_writes(p, files, id, rest, colors, said(one, line));
        assert(writes(steps).push((d.path, text)) + taken_writes(p, files, id, rest) =~= writes(steps)
            + taken_writes(p, files, id, names));
    }
}

/// After a name has been removed, no category declares it, and every other name is declared where
/// it was.
pub proof fn removed_names_are_gone(
    p: PathsView,
    found: Found,
    files: Seq<FileView>,
    id: Seq<char>,
    colors: bool,
    n: Seq<char>,
    other: Seq<char>,
)
    requires
        proper(files),
        found.dir && found.default_nix,
        declaring(loaded(p, files), id).len() > 0,
        can_give_up(p, files, id),
        other != id,
    ensures
        ({
            let plan = remove_plan(p, found, files, id, false, colors);
            let then = after(p, files, plan);
            &&& plan.outcome == OutcomeView::Done
            &&& declaring(loaded(p, then), id).len() == 0
            &&& declaring(loaded(p, then), other).contains(n) <==> declaring(
                loaded(p, files),
                other,
            ).contains(n)
        }),
{
    let names = declaring(loaded(p, files), id);
    let plan = remove_plan(p, found, files, id, false, colors);
    let then = after(p, files, plan);
    lemma_given_up(p, files, id);
    lemma_removing_writes(p, files, id, names, colors, no_steps());
    assert(writes(no_steps()) + taken_writes(p, files, id, names) =~= taken_writes(p, files, id, names));
    lemma_taken_names(p, files, id, n, other);
    lemma_declared_in(p, files, other, n);
    lemma_declared_in(p, then, other, n);
    if declaring(loaded(p, then), id).len() > 0 {
        let m = declaring(loaded(p, then), id)[0];
        lemma_declared_in(p, then, id, m);
        lemma_taken_names(p, files, id, m, other);
    }
}

/// What is known of every category that gives a name up.
proof fn lemma_given_up(p: PathsView, files: Seq<FileView>, id: Seq<char>)
    requires
        can_give_up(p, files, id),
    ensures
        forall|k: int|
            0 <= k < declaring(loaded(p, files), id).len() ==> {
                let n = #[trigger] declaring(loaded(p, files), id)[k];
                let r = load_named(p, files, n);
                &&& category_names(files).contains(n)
                &&& r is Ok
                &&& declares(r->Ok_0, id)
                &&& clash_free(r->Ok_0)
                &&& writable(without_entry(r->Ok_0, id))
            },
{
    let names = declaring(loaded(p, files), id);
    assert forall|k: int| 0 <= k < names.len() implies ({
        let n = #[trigger] names[k];
        let r = load_named(p, files, n);
        &&& category_names(files).contains(n)
        &&& r is Ok
        &&& declares(r->Ok_0, id)
        &&& clash_free(r->Ok_0)
        &&& writable(without_entry(r->Ok_0, id))
    }) by {
        lemma_declaring_has_file(p, files, id, k);
        assert(names.contains(names[k]));
    }
}

/// Once `id` has been taken out of every category that declares it, no category declares it, and
/// every other name is declared where it was.
proof fn lemma_taken_names(
    p: PathsView,
    files: Seq<FileView>,
    id: Seq<char>,
    n: Seq<char>,
    other: Seq<char>,
)
    requires
        proper(files),
        can_give_up(p, files, id),
        other != id,
    ensures
        ({
            let names = declaring(loaded(p, files), id);
            let then = carried_out(p, files, taken_writes(p, files, id, names));
            &&& !declared_in(p, then, id, n)
            &&& declared_in(p, then, other, n) <==> declared_in(p, files, other, n)
            &&& category_names(then).contains(n) <==> category_names(files).contains(n)
            &&& names.contains(n) ==> load_named(p, then, n) == Ok::<CategoryView, ErrorView>(
                reread(
                    without_entry(load_named(p, files, n)->Ok_0, id),
                    taken_text(p, files, id, n),
                ),
            )
            &&& !names.contains(n) ==> load_named(p, then, n) == load_named(p, files, n)
            &&& text_at(then, category_file_name(n)) is Some <==> text_at(
                files,
                category_file_name(n),
            ) is Some
        }),
{
    let names = declaring(loaded(p, files), id);
    let then = carried_out(p, files, taken_writes(p, files, id, names));
    lemma_given_up(p, files, id);
    lemma_taken_directory(p, files, id, names, n);
    lemma_sort_contains(categories_of(files), itself(), n);
    lemma_sort_contains(categories_of(then), itself(), n);
    lemma_declared_in(p, files, id, n);
    if names.contains(n) {
        let k = choose|k: int| 0 <= k < names.len() && names[k] == n;
        let c = load_named(p, files, n)->Ok_0;
        let d = without_entry(c, id);
        let text = taken_text(p, files, id, n);
        lemma_loaded_identity(p, files, n);
        written_category_reads_back(d);
        taking_undeclares(c, id, other);
        lemma_reread_declares(d, text, id);
        lemma_reread_declares(d, text, other);
        lemma_listed_has_file(files, n);
    }
}

proof fn lemma_taking_writes(
    p: PathsView,
    files: Seq<FileView>,
    id: Seq<char>,
    names: Seq<Seq<char>>,
    steps: Seq<StepView>,
    taken: Option<EntryView>,
)
    requires
        forall|k: int|
            0 <= k < names.len() ==> {
                let r = load_named(p, files, #[trigger] names[k]);
                &&& r is Ok
                &&& declares(r->Ok_0, id)
                &&& writable(without_entry(r->Ok_0, id))
            },
        names.len() > 0 || (taken is Some && entry_name(taken->0) == id),
    ensures
        taking(p, files, id, names, steps, taken) matches Ok((then, Some(e))) && entry_name(e) == id
            && writes(then) == writes(steps) + taken_writes(p, files, id, names) && Some(e) == if names.len()
            > 0 {
            entry_of(load_named(p, files, names.last())->Ok_0, id)
        } else {
            taken
        },
    decreases names.len(),
{
    if names.len() == 0 {
        assert(writes(steps) + taken_writes(p, files, id, names) =~= writes(steps));
    } else {
        let n = names[0];
        let rest = names.drop_first();
        let c = load_named(p, files, n)->Ok_0;
        let d = without_entry(c, id);
        assert forall|k: int| 0 <= k < rest.len() implies ({
            let r = load_named(p, files, #[trigger] rest[k]);
            &&& r is Ok
            &&& declares(r->Ok_0, id)
            &&& writable(without_entry(r->Ok_0, id))
        }) by {
            assert(rest[k] == names[k + 1]);
        }
        declared_names_have_entries(c, id);
        written_category_reads_back(d);
        let text = rendered(d)->Ok_0;
        lemma_stored(steps, d.path, text);
        lemma_taking_writes(p, files, id, rest, stored(steps, c.path, text), entry_of(c, id));
        assert(rest.len() > 0 ==> rest.last() == names.last());
        assert(writes(steps).push((d.path, text)) + taken_writes(p, files, id, rest) =~= writes(steps)
            + taken_writes(p, files, id, names));
    }
}

/// The entry that a move takes along: of several, the one of the last category.
pub open spec fn moved_entry(p: PathsView, files: Seq<FileView>, id: Seq<char>) -> EntryView {
    (taking(p, files, id, declaring(loaded(p, files), id), no_steps(), None)->Ok_0).1->0
}

/// The category that a move leads to can take the name: it can be read once the name is gone from
/// where it was, it declares no name twice, and with the entry it can be written and read back.
pub open spec fn can_receive(
    p: PathsView,
    files: Seq<FileView>,
    id: Seq<char>,
    target: Seq<char>,
) -> bool {
    let names = declaring(loaded(p, files), id);
    &&& target_after(p, files, id, names, target) matches Ok(c) && !declares(c, id) && writable(
        with_entry(c, moved_entry(p, files, id)),
    )
}

/// An entry that was put into a category which did not declare its name is read back unchanged.
proof fn lemma_entry_read_back(c: CategoryView, e: EntryView, text: Seq<char>)
    requires
        !declares(c, entry_name(e)),
    ensures
        entry_of(reread(with_entry(c, e), text), entry_name(e)) == Some(e),
{
    let d = with_entry(c, e);
    match e {
        EntryView::Plain(q) => {
            lemma_unique(d.packages);
            assert(c.packages.push(q)[c.packages.len() as int] == q);
            lemma_sort_contains(c.packages.push(q), itself(), q);
            assert(unique(d.packages).contains(q) <==> d.packages.contains(q));
        },
        EntryView::Github(g) => {
            assert forall|i: int| 0 <= i < d.github.len() && (#[trigger] d.github[i]).name
                == g.name implies d.github[i] == g by {
                if i < c.github.len() {
                    assert(source_names(c.github)[i] == g.name);
                }
            }
            assert(d.github[c.github.len() as int] == g);
            lemma_source_read_back(d, text, g);
        },
    }
}

/// After a move, the name is declared in the target and nowhere else, however many categories
/// declared it before, and every other name is declared where it was. The entry arrives
/// unchanged: it is the one of the last category that declared it.
pub proof fn moved_names_are_in_the_target(
    p: PathsView,
    found: Found,
    files: Seq<FileView>,
    id: Seq<char>,
    target: Seq<char>,
    colors: bool,
    n: Seq<char>,
    other: Seq<char>,
)
    requires
        proper(files),
        found.dir && found.default_nix,
        is_name(target),
        target != "default"@,
        declaring(loaded(p, files), id).len() > 0,
        declaring(loaded(p, files), id) != seq![target],
        can_give_up(p, files, id),
        can_receive(p, files, id, target),
        other != id,
    ensures
        ({
            let plan = move_plan(p, found, files, id, target, false, colors);
            let then = after(p, files, plan);
            &&& plan.outcome == OutcomeView::Done
            &&& declaring(loaded(p, then), id).contains(n) <==> n == target
            &&& declaring(loaded(p, then), other).contains(n) <==> declaring(
                loaded(p, files),
                other,
            ).contains(n)
            &&& load_named(p, then, target) matches Ok(c) && entry_of(c, id) == Some(
                moved_entry(p, files, id),
            )
            &&& load_named(p, files, declaring(loaded(p, files), id).last()) matches Ok(c)
                && entry_of(c, id) == Some(moved_entry(p, files, id))
        }),
{
    let names = declaring(loaded(p, files), id);
    let plan = move_plan(p, found, files, id, target, false, colors);
    let then = after(p, files, plan);
    lemma_given_up(p, files, id);
    lemma_taking_writes(p, files, id, names, no_steps(), None);
    let (steps, taken) = taking(p, files, id, names, no_steps(), None)->Ok_0;
    let entry = taken->0;
    let ws = taken_writes(p, files, id, names);
    assert(writes(no_steps()) + ws =~= ws);
    let middle = carried_out(p, files, ws);
    let c = target_after(p, files, id, names, target)->Ok_0;
    let d = with_entry(c, entry);
    lemma_taken_names(p, files, id, target, other);
    lemma_target_identity(p, files, id, names, target);
    written_category_reads_back(d);
    let text = rendered(d)->Ok_0;
    let line = ok_line(
        colors,
        "moved '"@ + id + "' from "@ + crate::text::join(names, ", "@) + " to "@ + target,
    );
    lemma_stored(steps, d.path, text);
    lemma_said(stored(steps, d.path, text), line);
    lemma_said(said(stored(steps, d.path, text), line), rebuild_hint(colors));
    let all = ws.push((d.path, text));
    assert(writes(plan.steps) == all);
    assert(all.drop_last() =~= ws);
    let f = category_file_name(target);
    reveal_strlit(".nix");
    assert(f[0] == target[0]);
    lemma_name_in(p, f);
    assert(then == put_file(middle, f, text));
    categories_and_files_match(target, f);
    lemma_move_at(p, files, id, target, other, n, d, text);
    lemma_declared_in(p, then, id, n);
    lemma_declared_in(p, then, other, n);
    lemma_declared_in(p, files, other, n);
    lemma_put_file(middle, f, text, f);
    lemma_entry_read_back(c, entry, text);
    lemma_declaring_has_file(p, files, id, names.len() - 1);
}

/// The target of a move has the name and the path that belong to it.
proof fn lemma_target_identity(
    p: PathsView,
    files: Seq<FileView>,
    id: Seq<char>,
    names: Seq<Seq<char>>,
    target: Seq<char>,
)
    requires
        target_after(p, files, id, names, target) is Ok,
    ensures
        target_after(p, files, id, names, target)->Ok_0.name == target,
        target_after(p, files, id, names, target)->Ok_0.path == category_path(p, target),
{
}

/// What the directory declares once the target `d` of a move has been written as `text`.
proof fn lemma_move_at(
    p: PathsView,
    files: Seq<FileView>,
    id: Seq<char>,
    target: Seq<char>,
    other: Seq<char>,
    n: Seq<char>,
    d: CategoryView,
    text: Seq<char>,
)
    requires
        proper(files),
        can_give_up(p, files, id),
        can_receive(p, files, id, target),
        other != id,
        category_of(category_file_name(target)) == Some(target),
        d == with_entry(
            target_after(p, files, id, declaring(loaded(p, files), id), target)->Ok_0,
            moved_entry(p, files, id),
        ),
        entry_name(moved_entry(p, files, id)) == id,
        rendered(d) == Ok::<Seq<char>, ErrorView>(text),
    ensures
        ({
            let names = declaring(loaded(p, files), id);
            let middle = carried_out(p, files, taken_writes(p, files, id, names));
            let then = put_file(middle, category_file_name(target), text);
            &&& declared_in(p, then, id, n) <==> n == target
            &&& declared_in(p, then, other, n) <==> declared_in(p, files, other, n)
        }),
{
    let names = declaring(loaded(p, files), id);
    let middle = carried_out(p, files, taken_writes(p, files, id, names));
    let f = category_file_name(target);
    let then = put_file(middle, f, text);
    let c = target_after(p, files, id, names, target)->Ok_0;
    lemma_taken_names(p, files, id, n, other);
    lemma_put_file(middle, f, text, category_file_name(n));
    lemma_put_categories(middle, f, text, n);
    lemma_sort_contains(categories_of(middle), itself(), n);
    lemma_sort_contains(categories_of(then), itself(), n);
    reveal_strlit(".nix");
    if category_file_name(n) == f {
        assert(n =~= f.take(f.len() - 4));
        assert(target =~= f.take(f.len() - 4));
    }
    if n == target {
        lemma_target_identity(p, files, id, names, target);
        written_category_reads_back(d);
        lemma_reread_declares(d, text, id);
        lemma_reread_declares(d, text, other);
        inserting_declares(c, moved_entry(p, files, id), id);
        inserting_declares(c, moved_entry(p, files, id), other);
        lemma_target_declares(p, files, id, target, other);
    }
}

/// The target of a move declares, before the entry arrives, what it declared before the move.
proof fn lemma_target_declares(
    p: PathsView,
    files: Seq<FileView>,
    id: Seq<char>,
    target: Seq<char>,
    other: Seq<char>,
)
    requires
        proper(files),
        can_give_up(p, files, id),
        can_receive(p, files, id, target),
        category_of(category_file_name(target)) == Some(target),
        other != id,
    ensures
        declares(
            target_after(p, files, id, declaring(loaded(p, files), id), target)->Ok_0,
            other,
        ) <==> declared_in(p, files, other, target),
{
    let names = declaring(loaded(p, files), id);
    let f = category_file_name(target);
    lemma_declared_in(p, files, id, target);
    if names.contains(target) {
        lemma_given_up(p, files, id);
        let k = choose|k: int| 0 <= k < names.len() && names[k] == target;
        let c = load_named(p, files, target)->Ok_0;
        let e = without_entry(c, id);
        let text = taken_text(p, files, id, target);
        lemma_loaded_identity(p, files, target);
        written_category_reads_back(e);
        taking_undeclares(c, id, other);
        lemma_reread_declares(e, text, other);
    } else {
        lemma_sort_contains(categories_of(files), itself(), target);
        lemma_categories(files, target);
        lemma_file_at(files, f);
        let k = file_at(files, f);
        if k < files.len() {
            assert(category_of(files[k].name) == Some(target));
        } else {
            if exists|i: int| 0 <= i < files.len() && category_of((#[trigger] files[i]).name) == Some(target) {
                let i = choose|i: int|
                    0 <= i < files.len() && category_of((#[trigger] files[i]).name) == Some(target);
                categories_and_files_match(target, files[i].name);
            }
        }
    }
}

// ---------------------------------------------------------------------------
// Removing sources
// ---------------------------------------------------------------------------

/// The category `c` without its sources called `name`.
pub open spec fn unsourced(c: CategoryView, name: Seq<char>) -> CategoryView {
    CategoryView { github: without_source(c.github, name), ..c }
}

/// The category `n` has a source called `name`.
pub open spec fn sources_in(p: PathsView, files: Seq<FileView>, name: Seq<char>, n: Seq<char>) -> bool {
    source_names(load_named(p, files, n)->Ok_0.github).contains(name)
}

/// Those of some categories that have a source called `name`.
pub open spec fn with_sources(
    p: PathsView,
    files: Seq<FileView>,
    name: Seq<char>,
    names: Seq<Seq<char>>,
) -> Seq<Seq<char>>
    decreases names.len(),
{
    if names.len() == 0 {
        names
    } else {
        let rest = with_sources(p, files, name, names.drop_first());
        if sources_in(p, files, name, names[0]) {
            seq![names[0]] + rest
        } else {
            rest
        }
    }
}

/// The text that a category gets once its sources called `name` are gone.
pub open spec fn unsourced_text(p: PathsView, files: Seq<FileView>, name: Seq<char>) -> spec_fn(
    Seq<char>,
) -> Seq<char> {
    |n: Seq<char>| rendered(unsourced(load_named(p, files, n)->Ok_0, name))->Ok_0
}

proof fn lemma_with_sources(
    p: PathsView,
    files: Seq<FileView>,
    name: Seq<char>,
    names: Seq<Seq<char>>,
    n: Seq<char>,
)
    ensures
        with_sources(p, files, name, names).contains(n) <==> names.contains(n) && sources_in(
            p,
            files,
            name,
            n,
        ),
    decreases names.len(),
{
    if names.len() > 0 {
        let rest = names.drop_first();
        let kept = with_sources(p, files, name, rest);
        let all = with_sources(p, files, name, names);
        lemma_with_sources(p, files, name, rest, n);
        if names.contains(n) && n != names[0] {
            let k = choose|k: int| 0 <= k < names.len() && names[k] == n;
            assert(rest[k - 1] == n);
        }
        if rest.contains(n) {
            let k = choose|k: int| 0 <= k < rest.len() && rest[k] == n;
            assert(names[k + 1] == n);
        }
        if sources_in(p, files, name, names[0]) {
            assert(all[0] == names[0]);
            if kept.contains(n) {
                let k = choose|k: int| 0 <= k < kept.len() && kept[k] == n;
                assert(all[k + 1] == n);
            }
            if all.contains(n) && n != names[0] {
                let k = choose|k: int| 0 <= k < all.len() && all[k] == n;
                assert(kept[k - 1] == n);
            }
        }
    }
}

proof fn lemma_removing_sources_writes(
    p: PathsView,
    files: Seq<FileView>,
    name: Seq<char>,
    names: Seq<Seq<char>>,
    colors: bool,
    steps: Seq<StepView>,
)
    requires
        forall|k: int|
            0 <= k < names.len() ==> {
                let r = load_named(p, files, #[trigger] names[k]);
                r is Ok && (sources_in(p, files, name, names[k]) ==> writable(
                    unsourced(r->Ok_0, name),
                ))
            },
    ensures
        ({
            let plan = removing_sources(p, files, name, names, false, colors, steps);
            let kept = with_sources(p, files, name, names);
            &&& plan.outcome == OutcomeView::Done
            &&& writes(plan.steps) == writes(steps) + texts_for(
                p,
                kept,
                unsourced_text(p, files, name),
            )
        }),
    decreases names.len(),
{
    let text = unsourced_text(p, files, name);
    let kept = with_sources(p, files, name, names);
    if names.len() == 0 {
        lemma_said(steps, rebuild_hint(colors));
        assert(writes(steps) + texts_for(p, kept, text) =~= writes(steps));
    } else {
        let n = names[0];
        let rest = names.drop_first();
        let c = load_named(p, files, n)->Ok_0;
        let d = unsourced(c, name);
        assert forall|k: int| 0 <= k < rest.len() implies ({
            let r = load_named(p, files, #[trigger] rest[k]);
            r is Ok && (sources_in(p, files, name, rest[k]) ==> writable(unsourced(r->Ok_0, name)))
        }) by {
            assert(rest[k] == names[k + 1]);
        }
        if sources_in(p, files, name, n) {
            written_category_reads_back(d);
            lemma_loaded_identity(p, files, n);
            let line = ok_line(colors, "removed '"@ + name + "' from "@ + d.path);
            let one = stored(steps, d.path, text(n));
            lemma_stored(steps, d.path, text(n));
            lemma_said(one, line);
            lemma_removing_sources_writes(p, files, name, rest, colors, said(one, line));
            assert(writes(steps).push((d.path, text(n))) + texts_for(
                p,
                with_sources(p, files, name, rest),
                text,
            ) =~= writes(steps) + texts_for(p, kept, text));
        } else {
            let line = not_a_source(colors, name, n);
            lemma_said(steps, line);
            lemma_removing_sources_writes(p, files, name, rest, colors, said(steps, line));
        }
    }
}

/// After a GitHub source has been removed, no category has a source of that name. A plain package
/// of that name stays, and every other name is declared where it was.
pub proof fn removed_sources_are_gone(
    p: PathsView,
    found: Found,
    files: Seq<FileView>,
    name: Seq<char>,
    colors: bool,
    n: Seq<char>,
    other: Seq<char>,
)
    requires
        proper(files),
        found.dir && found.default_nix,
        declaring(loaded(p, files), name).len() > 0,
        forall|m: Seq<char>| #[trigger]
            declaring(loaded(p, files), name).contains(m) && sources_in(p, files, name, m) ==> writable(
                unsourced(load_named(p, files, m)->Ok_0, name),
            ),
        category_names(files).contains(n),
        load_named(p, files, n) is Ok,
        other != name,
    ensures
        ({
            let plan = remove_source_plan(p, found, files, name, false, colors);
            let then = after(p, files, plan);
            let c = load_named(p, files, n)->Ok_0;
            &&& plan.outcome == OutcomeView::Done
            &&& category_names(then).contains(n)
            &&& load_named(p, then, n) matches Ok(d) && {
                &&& !source_names(d.github).contains(name)
                &&& d.packages.contains(name) <==> c.packages.contains(name)
                &&& declares(d, other) <==> declares(c, other)
            }
        }),
{
    let names = declaring(loaded(p, files), name);
    let plan = remove_source_plan(p, found, files, name, false, colors);
    let kept = with_sources(p, files, name, names);
    let text = unsourced_text(p, files, name);
    let then = after(p, files, plan);
    let c = load_named(p, files, n)->Ok_0;
    assert forall|k: int| 0 <= k < names.len() implies ({
        let r = load_named(p, files, #[trigger] names[k]);
        r is Ok && (sources_in(p, files, name, names[k]) ==> writable(unsourced(r->Ok_0, name)))
    }) by {
        lemma_declaring_has_file(p, files, name, k);
        assert(names.contains(names[k]));
    }
    lemma_removing_sources_writes(p, files, name, names, colors, no_steps());
    assert(writes(no_steps()) + texts_for(p, kept, text) =~= texts_for(p, kept, text));
    assert forall|k: int| 0 <= k < kept.len() implies category_names(files).contains(#[trigger] kept[k]) by {
        assert(kept.contains(kept[k]));
        lemma_with_sources(p, files, name, names, kept[k]);
        let j = choose|j: int| 0 <= j < names.len() && names[j] == kept[k];
        lemma_declaring_has_file(p, files, name, j);
    }
    lemma_texts_directory(p, files, kept, text, n);
    lemma_with_sources(p, files, name, names, n);
    lemma_sort_contains(categories_of(files), itself(), n);
    lemma_sort_contains(categories_of(then), itself(), n);
    lemma_declared_in(p, files, name, n);
    if sources_in(p, files, name, n) {
        let d = unsourced(c, name);
        assert(declares(c, name));
        assert(names.contains(n) && kept.contains(n));
        written_category_reads_back(d);
        lemma_loaded_identity(p, files, n);
        lemma_reread_declares(d, text(n), other);
        lemma_without_source(c.github, name, other);
        lemma_sorted_names(d.github, name);
        lemma_unique(d.packages);
        assert(unique(d.packages).contains(name) <==> d.packages.contains(name));
    } else {
        assert(!kept.contains(n));
    }
}

// ---------------------------------------------------------------------------
// Plain categories
// ---------------------------------------------------------------------------

proof fn lemma_without_simple(s: Seq<Seq<char>>, id: Seq<char>)
    requires
        all_simple(s),
    ensures
        all_simple(without(s, id)),
{
    let t = without(s, id);
    lemma_without_len(s, id);
    assert forall|i: int| 0 <= i < t.len() implies crate::nixfile::simple_attr_path(#[trigger] t[i]) by {
        assert(t.contains(t[i]));
        assert(t[i] != id);
        assert(s.contains(t[i]));
        let j = choose|j: int| 0 <= j < s.len() && s[j] == t[i];
        assert(crate::nixfile::simple_attr_path(s[j]));
    }
}

/// A category whose file has no GitHub sources can always give a name up: it declares no name
/// twice, and what is left can be written and read back.
pub proof fn plain_categories_can_give_up(
    name: Seq<char>,
    path: Seq<char>,
    raw: Seq<char>,
    id: Seq<char>,
)
    requires
        read_category(name, path, raw) is Ok,
        !contains(raw, GH_MARKER@),
    ensures
        clash_free(read_category(name, path, raw)->Ok_0),
        writable(without_entry(read_category(name, path, raw)->Ok_0, id)),
{
    let c = read_category(name, path, raw)->Ok_0;
    read_category_can_be_written(name, path, raw);
    lemma_without_simple(c.packages, id);
    lemma_source_at(c.github, id);
}

// ---------------------------------------------------------------------------
// Adding
// ---------------------------------------------------------------------------

proof fn lemma_previewed(steps: Seq<StepView>, ls: Seq<Seq<char>>)
    ensures
        writes(previewed(steps, ls)) == writes(steps),
    decreases ls.len(),
{
    if ls.len() > 0 {
        lemma_previewed(steps, ls.drop_last());
        lemma_said(previewed(steps, ls.drop_last()), plain_line("    "@ + ls.last()));
    }
}

proof fn lemma_broken_steps(info: InfoView, colors: bool)
    ensures
        writes(broken_steps(info, colors)).len() == 0,
{
    assert(writes(no_steps()).len() == 0);
    if info.broken {
        lemma_said(
            no_steps(),
            crate::ui::warn_line(
                colors,
                "'"@ + info.attribute
                    + "' is currently marked BROKEN in nixpkgs — it may fail to build."@,
            ),
        );
    }
}

proof fn lemma_unfree_steps(steps: Seq<StepView>, info: InfoView, colors: bool)
    ensures
        writes(unfree_steps(steps, info, colors)) == writes(steps),
{
    let all = unfree_steps(steps, info, colors);
    assert(writes(all) == writes(all.drop_last()));
    let b = all.drop_last();
    assert(b.last() is Print);
    assert(writes(b) == writes(b.drop_last()));
    let c = b.drop_last();
    assert(c.last() is Print);
    assert(writes(c) == writes(c.drop_last()));
    assert(c.drop_last() =~= steps);
}

/// Adding writes at most the file of the category, so it never touches the setting for unfree
/// packages. A dry run writes nothing, and neither does an unfree package that is not allowed
/// explicitly.
pub proof fn adding_writes_one_file(
    p: PathsView,
    files: Seq<FileView>,
    info: InfoView,
    category: Seq<char>,
    options: AddOptions,
    colors: bool,
)
    ensures
        ({
            let plan = add_plan(p, files, info, category, options, colors);
            let w = writes(plan.steps);
            &&& w.len() <= 1
            &&& w.len() == 1 ==> w[0].0 == category_path(p, category)
            &&& options.dry_run || (!info.free && !options.allow_unfree) ==> w.len() == 0
            &&& !info.free && !options.allow_unfree ==> plan.outcome == OutcomeView::Done
            &&& plan.outcome is Rebuild ==> options.rebuild && !options.dry_run && w.len() == 1
        }),
{
    let steps = broken_steps(info, colors);
    lemma_broken_steps(info, colors);
    lemma_unfree_steps(steps, info, colors);
    if target_category(p, files, category) is Ok {
        let c = target_category(p, files, category)->Ok_0;
        let d = with_package(c, info.attribute);
        let told = said(steps, would_add(colors, info.attribute, d.path));
        lemma_said(steps, would_add(colors, info.attribute, d.path));
        if rendered(d) is Ok {
            let text = rendered(d)->Ok_0;
            lemma_previewed(told, lines(text));
            let line = ok_line(colors, "added '"@ + info.attribute + "' to "@ + d.path);
            lemma_stored(steps, d.path, text);
            lemma_said(stored(steps, d.path, text), line);
            lemma_said(said(stored(steps, d.path, text), line), rebuild_hint(colors));
        }
    }
}

/// Once a category has been written, its file declares what it declared, and the other categories
/// declare what they declared before.
proof fn lemma_written(
    p: PathsView,
    files: Seq<FileView>,
    d: CategoryView,
    n: Seq<char>,
    x: Seq<char>,
)
    requires
        category_of(category_file_name(d.name)) == Some(d.name),
        d.path == category_path(p, d.name),
        writable(d),
    ensures
        ({
            let text = rendered(d)->Ok_0;
            let then = put_file(files, category_file_name(d.name), text);
            &&& rendered(d) is Ok
            &&& load_named(p, then, d.name) == Ok::<CategoryView, ErrorView>(reread(d, text))
            &&& declaring(loaded(p, then), x).contains(n) <==> if n == d.name {
                declares(d, x)
            } else {
                declaring(loaded(p, files), x).contains(n)
            }
        }),
{
    written_category_reads_back(d);
    let text = rendered(d)->Ok_0;
    let f = category_file_name(d.name);
    let then = put_file(files, f, text);
    reveal_strlit(".nix");
    lemma_put_file(files, f, text, f);
    lemma_put_file(files, f, text, category_file_name(n));
    lemma_put_categories(files, f, text, n);
    lemma_sort_contains(categories_of(files), itself(), n);
    lemma_sort_contains(categories_of(then), itself(), n);
    if category_file_name(n) == f {
        assert(n =~= f.take(f.len() - 4));
        assert(d.name =~= f.take(f.len() - 4));
    }
    lemma_declared_in(p, files, x, n);
    lemma_declared_in(p, then, x, n);
    lemma_reread_declares(d, text, x);
}

/// The file of a category with a valid name lies in the managed directory under that name.
proof fn lemma_valid_file(p: PathsView, category: Seq<char>)
    requires
        is_name(category),
        category != "default"@,
    ensures
        category_of(category_file_name(category)) == Some(category),
        name_in(p, category_path(p, category)) == category_file_name(category),
{
    let f = category_file_name(category);
    reveal_strlit(".nix");
    assert(f[0] == category[0]);
    lemma_name_in(p, f);
    categories_and_files_match(category, f);
}

/// Carrying out one write gives one file its text.
proof fn lemma_one_write(p: PathsView, files: Seq<FileView>, path: Seq<char>, text: Seq<char>)
    ensures
        carried_out(p, files, seq![(path, text)]) == put_file(files, name_in(p, path), text),
{
    let ws = seq![(path, text)];
    assert(ws.drop_last() =~= Seq::<(Seq<char>, Seq<char>)>::empty());
    assert(carried_out(p, files, ws.drop_last()) == files);
}

/// After a package has been added, its category declares it and no other does, and every other
/// name is declared where it was.
pub proof fn added_names_are_in_the_category(
    p: PathsView,
    files: Seq<FileView>,
    info: InfoView,
    category: Seq<char>,
    options: AddOptions,
    colors: bool,
    n: Seq<char>,
    other: Seq<char>,
)
    requires
        is_name(category),
        category != "default"@,
        info.free || options.allow_unfree,
        !options.dry_run,
        declaring(loaded(p, files), info.attribute).len() == 0,
        target_category(p, files, category) is Ok,
        writable(with_package(target_category(p, files, category)->Ok_0, info.attribute)),
        other != info.attribute,
    ensures
        ({
            let id = info.attribute;
            let then = after(p, files, add_plan(p, files, info, category, options, colors));
            &&& declaring(loaded(p, then), id).contains(n) <==> n == category
            &&& declaring(loaded(p, then), other).contains(n) <==> declaring(
                loaded(p, files),
                other,
            ).contains(n)
        }),
{
    let id = info.attribute;
    let plan = add_plan(p, files, info, category, options, colors);
    let steps = broken_steps(info, colors);
    let c = target_category(p, files, category)->Ok_0;
    let d = with_package(c, id);
    lemma_valid_file(p, category);
    lemma_written(p, files, d, n, id);
    lemma_written(p, files, d, n, other);
    let text = rendered(d)->Ok_0;
    let line = ok_line(colors, "added '"@ + id + "' to "@ + d.path);
    lemma_broken_steps(info, colors);
    lemma_stored(steps, d.path, text);
    lemma_said(stored(steps, d.path, text), line);
    lemma_said(said(stored(steps, d.path, text), line), rebuild_hint(colors));
    assert(writes(plan.steps) =~= seq![(d.path, text)]);
    lemma_one_write(p, files, d.path, text);
    inserting_declares(c, EntryView::Plain(id), id);
    inserting_declares(c, EntryView::Plain(id), other);
    lemma_target_listed(p, files, category, other);
    lemma_declared_in(p, files, other, category);
    assert(!declaring(loaded(p, files), id).contains(n));
}

/// A source that is the only one of its name is found under that name after sorting.
proof fn lemma_sorted_source(v: Seq<SourceView>, s: SourceView)
    requires
        v.contains(s),
        forall|i: int| 0 <= i < v.len() && (#[trigger] v[i]).name == s.name ==> v[i] == s,
    ensures
        source_at(sorted_sources(v), s.name) < sorted_sources(v).len(),
        sorted_sources(v)[source_at(sorted_sources(v), s.name)] == s,
{
    let w = sorted_sources(v);
    lemma_sort_contains(v, by_name(), s);
    let i = choose|i: int| 0 <= i < w.len() && w[i] == s;
    assert(source_names(w)[i] == s.name);
    lemma_source_at(w, s.name);
    let k = source_at(w, s.name);
    assert(w.contains(w[k]));
    lemma_sort_contains(v, by_name(), w[k]);
}

/// The category declares a source under the given name, and each one under that name comes from
/// the owner and the repository that were resolved, at the commit and with the output that were
/// resolved, and remembers the reference that was asked for.
pub open spec fn pinned_in(c: CategoryView, name: Seq<char>, g: PinnedView) -> bool {
    &&& exists|i: int| 0 <= i < c.github.len() && (#[trigger] c.github[i]).name == name
    &&& forall|i: int|
        0 <= i < c.github.len() && (#[trigger] c.github[i]).name == name ==> {
            &&& c.github[i].owner == g.owner
            &&& c.github[i].repo == g.repo
            &&& c.github[i].rev == g.rev
            &&& c.github[i].git_ref == g.git_ref
            &&& c.github[i].attr == g.attr
        }
}

proof fn lemma_pinned_in(d: CategoryView, text: Seq<char>, name: Seq<char>, g: PinnedView)
    requires
        d.github.contains(source_of(name, g)),
        forall|i: int| 0 <= i < d.github.len() && (#[trigger] d.github[i]).name == name ==> d.github[i]
            == source_of(name, g),
    ensures
        pinned_in(reread(d, text), name, g),
{
    let s = source_of(name, g);
    let w = sorted_sources(d.github);
    lemma_sort_contains(d.github, by_name(), s);
    let k = choose|k: int| 0 <= k < w.len() && w[k] == s;
    assert(w[k].name == name);
    assert forall|i: int| 0 <= i < w.len() && (#[trigger] w[i]).name == name implies w[i] == s by {
        assert(w.contains(w[i]));
        lemma_sort_contains(d.github, by_name(), w[i]);
        let j = choose|j: int| 0 <= j < d.github.len() && d.github[j] == w[i];
        assert(d.github[j].name == name);
    }
}

/// The entry under the name of a source that is declared nowhere else in its category is read
/// back as that source.
proof fn lemma_source_read_back(d: CategoryView, text: Seq<char>, s: SourceView)
    requires
        d.github.contains(s),
        !d.packages.contains(s.name),
        forall|i: int| 0 <= i < d.github.len() && (#[trigger] d.github[i]).name == s.name ==> d.github[i]
            == s,
    ensures
        entry_of(reread(d, text), s.name) == Some(EntryView::Github(s)),
{
    lemma_unique(d.packages);
    assert(unique(d.packages).contains(s.name) <==> d.packages.contains(s.name));
    lemma_sorted_source(d.github, s);
}

/// After a GitHub source has been added, its category declares it, as it was resolved, and no
/// other does, and every other name is declared where it was.
pub proof fn added_sources_are_in_the_category(
    p: PathsView,
    files: Seq<FileView>,
    request: (Seq<char>, Seq<char>),
    name: Seq<char>,
    g: PinnedView,
    category: Seq<char>,
    colors: bool,
    n: Seq<char>,
    other: Seq<char>,
)
    requires
        is_name(category),
        category != "default"@,
        declaring(loaded(p, files), name).len() == 0,
        target_category(p, files, category) is Ok,
        writable(with_source(target_category(p, files, category)->Ok_0, source_of(name, g))),
        other != name,
    ensures
        ({
            let plan = add_source_plan(p, files, request, name, g, Some(category), false, colors);
            let then = after(p, files, plan);
            &&& plan.outcome == OutcomeView::Done
            &&& declaring(loaded(p, then), name).contains(n) <==> n == category
            &&& declaring(loaded(p, then), other).contains(n) <==> declaring(
                loaded(p, files),
                other,
            ).contains(n)
            &&& load_named(p, then, category) matches Ok(c) && entry_of(c, name) == Some(
                EntryView::Github(source_of(name, g)),
            ) && pinned_in(c, name, g)
        }),
{
    let plan = add_source_plan(p, files, request, name, g, Some(category), false, colors);
    let steps = pinned_lines(name, g, colors);
    let c = target_category(p, files, category)->Ok_0;
    let s = source_of(name, g);
    let d = with_source(c, s);
    lemma_valid_file(p, category);
    lemma_written(p, files, d, n, name);
    lemma_written(p, files, d, n, other);
    let text = rendered(d)->Ok_0;
    let line = ok_line(
        colors,
        "added '"@ + name + "' (from github:"@ + request.0 + "/"@ + request.1 + ") to "@ + d.path,
    );
    lemma_pinned_lines(name, g, colors);
    lemma_stored(steps, d.path, text);
    lemma_said(stored(steps, d.path, text), line);
    lemma_said(said(stored(steps, d.path, text), line), rebuild_hint(colors));
    assert(writes(plan.steps) =~= seq![(d.path, text)]);
    lemma_one_write(p, files, d.path, text);
    inserting_declares(c, EntryView::Github(s), name);
    inserting_declares(c, EntryView::Github(s), other);
    lemma_target_listed(p, files, category, other);
    lemma_declared_in(p, files, other, category);
    assert(!declaring(loaded(p, files), name).contains(n));
    lemma_target_listed(p, files, category, name);
    lemma_declared_in(p, files, name, category);
    assert(!declares(c, name));
    assert forall|i: int| 0 <= i < d.github.len() && (#[trigger] d.github[i]).name == name implies d.github[i]
        == s by {
        if i < c.github.len() {
            assert(source_names(c.github)[i] == name);
        }
    }
    assert(d.github[c.github.len() as int] == s);
    lemma_source_read_back(d, text, s);
    lemma_pinned_in(d, text, name, g);
}

/// Some entry is imported as `x`.
pub open spec fn imported(v: Seq<FateView>, x: Seq<char>) -> bool {
    exists|i: int| 0 <= i < v.len() && (#[trigger] v[i]) is Import && v[i]->Import_1 == x
}

proof fn lemma_with_imports(c: CategoryView, v: Seq<FateView>, x: Seq<char>)
    ensures
        declares(with_imports(c, v), x) <==> declares(c, x) || imported(v, x),
        with_imports(c, v).path == c.path,
        with_imports(c, v).name == c.name,
    decreases v.len(),
{
    if v.len() > 0 {
        let front = v.drop_last();
        lemma_with_imports(c, front, x);
        let last = v.len() - 1;
        if imported(front, x) {
            let i = choose|i: int| 0 <= i < front.len() && (#[trigger] front[i]) is Import && front[i]->Import_1 == x;
            assert(v[i] == front[i]);
        }
        if imported(v, x) {
            let i = choose|i: int| 0 <= i < v.len() && (#[trigger] v[i]) is Import && v[i]->Import_1 == x;
            if i < last {
                assert(front[i] == v[i]);
            }
        }
        if v.last() is Import {
            inserting_declares(with_imports(c, front), EntryView::Plain(v.last()->Import_1), x);
            assert(v[last] is Import);
        }
    }
}

/// After an import, the category declares every attribute that was imported, and every other name
/// is declared where it was.
pub proof fn imported_names_are_in_the_category(
    p: PathsView,
    files: Seq<FileView>,
    category: Seq<char>,
    v: Seq<FateView>,
    colors: bool,
    n: Seq<char>,
    x: Seq<char>,
)
    requires
        is_name(category),
        category != "default"@,
        imports(v) > 0,
        target_category(p, files, category) is Ok,
        writable(with_imports(target_category(p, files, category)->Ok_0, v)),
    ensures
        ({
            let plan = import_plan(p, files, category, v, false, colors);
            let then = after(p, files, plan);
            &&& plan.outcome == OutcomeView::Done
            &&& declaring(loaded(p, then), x).contains(n) <==> declaring(
                loaded(p, files),
                x,
            ).contains(n) || (n == category && imported(v, x))
        }),
{
    let plan = import_plan(p, files, category, v, false, colors);
    let c = target_category(p, files, category)->Ok_0;
    let d = with_imports(c, v);
    lemma_with_imports(c, v, x);
    lemma_valid_file(p, category);
    lemma_written(p, files, d, n, x);
    let text = rendered(d)->Ok_0;
    imports_write_one_file(p, files, category, v, false, colors);
    assert(writes(plan.steps) =~= seq![(d.path, text)]);
    lemma_one_write(p, files, d.path, text);
    lemma_target_listed(p, files, category, x);
    lemma_declared_in(p, files, x, category);
}

/// The category that a package is added to declares what the directory says that it declares.
proof fn lemma_target_listed(p: PathsView, files: Seq<FileView>, category: Seq<char>, other: Seq<char>)
    requires
        target_category(p, files, category) is Ok,
        category_of(category_file_name(category)) == Some(category),
    ensures
        declares(target_category(p, files, category)->Ok_0, other) <==> declared_in(
            p,
            files,
            other,
            category,
        ),
{
    let f = category_file_name(category);
    lemma_sort_contains(categories_of(files), itself(), category);
    lemma_categories(files, category);
    lemma_file_at(files, f);
    let k = file_at(files, f);
    if k < files.len() {
        assert(category_of(files[k].name) == Some(category));
    } else {
        if exists|i: int| 0 <= i < files.len() && category_of((#[trigger] files[i]).name) == Some(category) {
            let i = choose|i: int|
                0 <= i < files.len() && category_of((#[trigger] files[i]).name) == Some(category);
            categories_and_files_match(category, files[i].name);
        }
    }
}

// ---------------------------------------------------------------------------
// Dry runs
// ---------------------------------------------------------------------------

proof fn lemma_dry_removing(
    p: PathsView,
    files: Seq<FileView>,
    id: Seq<char>,
    names: Seq<Seq<char>>,
    colors: bool,
    steps: Seq<StepView>,
)
    ensures
        writes(removing(p, files, id, names, true, colors, steps).steps) == writes(steps),
    decreases names.len(),
{
    if names.len() > 0 && load_named(p, files, names[0]) is Ok {
        let c = load_named(p, files, names[0])->Ok_0;
        let d = without_entry(c, id);
        let line = would_remove(colors, id, d.path);
        lemma_said(steps, line);
        lemma_dry_removing(p, files, id, names.drop_first(), colors, steps);
        lemma_dry_removing(p, files, id, names.drop_first(), colors, said(steps, line));
    }
}

proof fn lemma_dry_sources(
    p: PathsView,
    files: Seq<FileView>,
    name: Seq<char>,
    names: Seq<Seq<char>>,
    colors: bool,
    steps: Seq<StepView>,
)
    ensures
        writes(removing_sources(p, files, name, names, true, colors, steps).steps) == writes(steps),
    decreases names.len(),
{
    if names.len() > 0 && load_named(p, files, names[0]) is Ok {
        let c = load_named(p, files, names[0])->Ok_0;
        let one = would_remove(colors, name, c.path);
        let two = not_a_source(colors, name, names[0]);
        lemma_said(steps, one);
        lemma_said(steps, two);
        lemma_dry_sources(p, files, name, names.drop_first(), colors, said(steps, one));
        lemma_dry_sources(p, files, name, names.drop_first(), colors, said(steps, two));
    }
}

proof fn lemma_would_take(p: PathsView, id: Seq<char>, names: Seq<Seq<char>>, colors: bool)
    ensures
        writes(would_take(p, id, names, colors)).len() == 0,
    decreases names.len(),
{
    if names.len() > 0 {
        lemma_would_take(p, id, names.drop_last(), colors);
        lemma_said(
            would_take(p, id, names.drop_last(), colors),
            would_remove(colors, id, category_path(p, names.last())),
        );
    }
}

/// A dry run of removing or moving writes nothing.
pub proof fn dry_runs_write_nothing(
    p: PathsView,
    found: Found,
    files: Seq<FileView>,
    id: Seq<char>,
    target: Seq<char>,
    colors: bool,
)
    ensures
        writes(remove_plan(p, found, files, id, true, colors).steps).len() == 0,
        writes(move_plan(p, found, files, id, target, true, colors).steps).len() == 0,
        writes(remove_source_plan(p, found, files, id, true, colors).steps).len() == 0,
{
    let names = declaring(loaded(p, files), id);
    assert(writes(no_steps()).len() == 0);
    lemma_dry_removing(p, files, id, names, colors, no_steps());
    lemma_dry_sources(p, files, id, names, colors, no_steps());
    lemma_would_take(p, id, names, colors);
    lemma_said(
        would_take(p, id, names, colors),
        would_add(colors, id, category_path(p, target)),
    );
    lemma_said(
        no_steps(),
        plain_line("'"@ + id + "' is already in '"@ + target + "' — nothing to do."@),
    );
}

/// A dry run of adding or updating a GitHub source writes nothing.
pub proof fn dry_runs_on_sources_write_nothing(
    p: PathsView,
    files: Seq<FileView>,
    request: (Seq<char>, Seq<char>),
    name: Seq<char>,
    g: PinnedView,
    category: Option<Seq<char>>,
    c: CategoryView,
    existing: SourceView,
    colors: bool,
)
    ensures
        writes(add_source_plan(p, files, request, name, g, category, true, colors).steps).len() == 0,
        writes(update_plan(c, existing, name, g, true, colors).steps).len() == 0,
{
    assert(writes(no_steps()).len() == 0);
    let steps = pinned_lines(name, g, colors);
    lemma_pinned_lines(name, g, colors);
    let target = crate::commands::or_default(category, crate::category::DEFAULT_CATEGORY@);
    if target_category(p, files, target) is Ok {
        let d = with_source(target_category(p, files, target)->Ok_0, source_of(name, g));
        let line = would_add(colors, name, d.path);
        lemma_said(steps, line);
        if rendered(d) is Ok {
            lemma_previewed(said(steps, line), lines(rendered(d)->Ok_0));
        }
    }
    let plan = update_plan(c, existing, name, g, true, colors);
    assert(plan.steps.drop_last() =~= no_steps());
}

proof fn lemma_pinned_lines(name: Seq<char>, g: PinnedView, colors: bool)
    ensures
        writes(pinned_lines(name, g, colors)).len() == 0,
{
    let a = ok_line(
        colors,
        "pinned to commit "@ + crate::nixfile::shorten(g.rev, 12) + " ("@ + crate::sources::flake_ref(
            source_of(name, g),
        ) + ")"@,
    );
    assert(writes(no_steps()).len() == 0);
    lemma_said(no_steps(), a);
    let one = said(no_steps(), a);
    let two = said_field(one, "  description: "@, g.description);
    if g.description is Some {
        lemma_said(one, plain_line("  description: "@ + g.description->0));
    }
    if g.homepage is Some {
        lemma_said(two, plain_line("  homepage: "@ + g.homepage->0));
    }
}

// ---------------------------------------------------------------------------
// Updating
// ---------------------------------------------------------------------------

proof fn lemma_without_source(s: Seq<SourceView>, x: Seq<char>, y: Seq<char>)
    ensures
        !source_names(without_source(s, x)).contains(x),
        y != x ==> (source_names(without_source(s, x)).contains(y) <==> source_names(s).contains(y)),
    decreases s.len(),
{
    let r = without_source(s, x);
    if s.len() > 0 {
        let t = s.drop_last();
        let q = without_source(t, x);
        lemma_without_source(t, x, y);
        lemma_without_source_len(s, x);
        if y != x {
            if source_names(s).contains(y) {
                let i = choose|i: int| 0 <= i < s.len() && source_names(s)[i] == y;
                if i < t.len() {
                    assert(source_names(t)[i] == y);
                    let k = choose|k: int| 0 <= k < q.len() && source_names(q)[k] == y;
                    assert(source_names(r)[k] == y);
                } else {
                    assert(source_names(r)[r.len() - 1] == y);
                }
            }
            if source_names(r).contains(y) {
                let i = choose|i: int| 0 <= i < r.len() && source_names(r)[i] == y;
                if i < q.len() {
                    assert(source_names(q)[i] == y);
                    let k = choose|k: int| 0 <= k < t.len() && source_names(t)[k] == y;
                    assert(source_names(s)[k] == y);
                } else {
                    assert(source_names(s)[s.len() - 1] == y);
                }
            }
        }
    }
}

/// The category `c` with its source called `name` as it was resolved.
pub open spec fn repinned(c: CategoryView, name: Seq<char>, g: PinnedView) -> CategoryView {
    with_source(CategoryView { github: without_source(c.github, name), ..c }, source_of(name, g))
}

/// An update keeps the name of the source and replaces its pin: the category that is written
/// declares the same names as before, and its entry under the name is the source as it was
/// resolved.
pub proof fn updates_keep_the_names(
    c: CategoryView,
    existing: SourceView,
    name: Seq<char>,
    g: PinnedView,
    colors: bool,
    id: Seq<char>,
)
    requires
        declares(c, name),
        !c.packages.contains(name),
        g.rev != existing.rev,
    ensures
        ({
            let d = repinned(c, name, g);
            let plan = update_plan(c, existing, name, g, false, colors);
            &&& declares(d, id) <==> declares(c, id)
            &&& entry_of(d, name) == Some(EntryView::Github(source_of(name, g)))
            &&& rendered(d) matches Ok(text) ==> writes(plan.steps) == seq![(d.path, text)]
                && plan.outcome == OutcomeView::Done
        }),
{
    let b = CategoryView { github: without_source(c.github, name), ..c };
    let s = source_of(name, g);
    let d = with_source(b, s);
    lemma_without_source(c.github, name, id);
    inserting_declares(b, EntryView::Github(s), id);
    lemma_source_at(d.github, name);
    let k = source_at(d.github, name);
    assert(d.github[d.github.len() - 1] == s);
    assert(source_names(d.github)[d.github.len() - 1] == name);
    if k < d.github.len() - 1 {
        assert(source_names(b.github)[k] == d.github[k].name);
    }
    if rendered(d) is Ok {
        let text = rendered(d)->Ok_0;
        let line = ok_line(
            colors,
            "updated '"@ + name + "': "@ + crate::nixfile::shorten(existing.rev, 12) + " -> "@
                + crate::nixfile::shorten(g.rev, 12),
        );
        assert(writes(no_steps()).len() == 0);
        lemma_stored(no_steps(), d.path, text);
        lemma_said(stored(no_steps(), d.path, text), line);
        lemma_said(said(stored(no_steps(), d.path, text), line), rebuild_hint(colors));
        assert(writes(update_plan(c, existing, name, g, false, colors).steps) =~= seq![(d.path, text)]);
    }
}

/// After a source has been updated, every name is declared where it was, and the source is the one
/// that it was resolved to.
pub proof fn updated_sources_stay_in_place(
    p: PathsView,
    found: Found,
    files: Seq<FileView>,
    name: Seq<char>,
    g: PinnedView,
    colors: bool,
    n: Seq<char>,
    x: Seq<char>,
)
    requires
        proper(files),
        outdated(p, found, files, name) is Ok,
        ({
            let (c, existing) = outdated(p, found, files, name)->Ok_0;
            &&& !c.packages.contains(name)
            &&& g.rev != existing.rev
            &&& writable(repinned(c, name, g))
        }),
    ensures
        ({
            let (c, existing) = outdated(p, found, files, name)->Ok_0;
            let plan = update_plan(c, existing, name, g, false, colors);
            let then = after(p, files, plan);
            &&& plan.outcome == OutcomeView::Done
            &&& declaring(loaded(p, then), x).contains(n) <==> declaring(
                loaded(p, files),
                x,
            ).contains(n)
            &&& load_named(p, then, c.name) matches Ok(d) && entry_of(d, name) == Some(
                EntryView::Github(source_of(name, g)),
            ) && pinned_in(d, name, g)
        }),
{
    let (c, existing) = outdated(p, found, files, name)->Ok_0;
    let plan = update_plan(c, existing, name, g, false, colors);
    let s = source_of(name, g);
    let b = CategoryView { github: without_source(c.github, name), ..c };
    let d = repinned(c, name, g);
    let cat = declaring(loaded(p, files), name)[0];
    lemma_declaring_has_file(p, files, name, 0);
    lemma_loaded_identity(p, files, cat);
    lemma_listed_file(p, files, cat);
    lemma_source_at(c.github, name);
    lemma_written(p, files, d, n, x);
    updates_keep_the_names(c, existing, name, g, colors, x);
    lemma_one_write(p, files, d.path, rendered(d)->Ok_0);
    lemma_declared_in(p, files, x, cat);
    lemma_without_source(c.github, name, name);
    assert(d.github[b.github.len() as int] == s);
    assert forall|i: int| 0 <= i < d.github.len() && (#[trigger] d.github[i]).name == name implies d.github[i]
        == s by {
        if i < b.github.len() {
            assert(source_names(b.github)[i] == name);
        }
    }
    lemma_source_read_back(d, rendered(d)->Ok_0, s);
    lemma_pinned_in(d, rendered(d)->Ok_0, name, g);
}

// ---------------------------------------------------------------------------
// Failures
// ---------------------------------------------------------------------------

/// What was read can be written with an entry, or with the sources of a name, left out.
proof fn lemma_renders_without(p: PathsView, files: Seq<FileView>, name: Seq<char>, id: Seq<char>)
    requires
        load_named(p, files, name) is Ok,
    ensures
        ({
            let c = load_named(p, files, name)->Ok_0;
            &&& rendered(without_entry(c, id)) is Ok
            &&& rendered(CategoryView { github: without_source(c.github, id), ..c }) is Ok
        }),
{
    let raw = text_at(files, category_file_name(name))->0->Ok_0;
    read_category_can_be_written(name, category_path(p, name), raw);
}

proof fn lemma_removing_ends_well(
    p: PathsView,
    files: Seq<FileView>,
    id: Seq<char>,
    names: Seq<Seq<char>>,
    dry_run: bool,
    colors: bool,
    steps: Seq<StepView>,
)
    requires
        forall|k: int| 0 <= k < names.len() ==> load_named(p, files, #[trigger] names[k]) is Ok,
    ensures
        removing(p, files, id, names, dry_run, colors, steps).outcome == OutcomeView::Done,
        removing_sources(p, files, id, names, dry_run, colors, steps).outcome == OutcomeView::Done,
    decreases names.len(),
{
    if names.len() > 0 {
        let c = load_named(p, files, names[0])->Ok_0;
        let rest = names.drop_first();
        assert forall|k: int| 0 <= k < rest.len() implies load_named(
            p,
            files,
            #[trigger] rest[k],
        ) is Ok by {
            assert(rest[k] == names[k + 1]);
        }
        lemma_renders_without(p, files, names[0], id);
        let d = without_entry(c, id);
        let e = CategoryView { github: without_source(c.github, id), ..c };
        let removed = ok_line(colors, "removed '"@ + id + "' from "@ + c.path);
        lemma_removing_ends_well(p, files, id, rest, dry_run, colors, steps);
        lemma_removing_ends_well(
            p,
            files,
            id,
            rest,
            dry_run,
            colors,
            said(steps, would_remove(colors, id, c.path)),
        );
        lemma_removing_ends_well(
            p,
            files,
            id,
            rest,
            dry_run,
            colors,
            said(steps, not_a_source(colors, id, names[0])),
        );
        lemma_removing_ends_well(
            p,
            files,
            id,
            rest,
            dry_run,
            colors,
            said(stored(steps, c.path, rendered(d)->Ok_0), removed),
        );
        lemma_removing_ends_well(
            p,
            files,
            id,
            rest,
            dry_run,
            colors,
            said(stored(steps, c.path, rendered(e)->Ok_0), removed),
        );
    }
}

/// A change that cannot be finished is not begun: where removing or moving fails, nothing is
/// written.
pub proof fn failed_removals_and_moves_write_nothing(
    p: PathsView,
    found: Found,
    files: Seq<FileView>,
    id: Seq<char>,
    target: Seq<char>,
    dry_run: bool,
    colors: bool,
)
    ensures
        ({
            let plan = remove_plan(p, found, files, id, dry_run, colors);
            plan.outcome is Fail ==> writes(plan.steps).len() == 0
        }),
        ({
            let plan = remove_source_plan(p, found, files, id, dry_run, colors);
            plan.outcome is Fail ==> writes(plan.steps).len() == 0
        }),
        ({
            let plan = move_plan(p, found, files, id, target, dry_run, colors);
            plan.outcome is Fail ==> writes(plan.steps).len() == 0
        }),
{
    let names = declaring(loaded(p, files), id);
    assert forall|k: int| 0 <= k < names.len() implies load_named(
        p,
        files,
        #[trigger] names[k],
    ) is Ok by {
        lemma_declaring_has_file(p, files, id, k);
    }
    assert(writes(no_steps()).len() == 0);
    lemma_removing_ends_well(p, files, id, names, dry_run, colors, no_steps());
}

/// A move to a category that cannot be read fails with what is wrong with that category, and
/// leaves the package where it is.
pub proof fn moves_to_unreadable_categories_are_refused(
    p: PathsView,
    found: Found,
    files: Seq<FileView>,
    id: Seq<char>,
    target: Seq<char>,
    colors: bool,
)
    requires
        found.dir && found.default_nix,
        is_name(target),
        declaring(loaded(p, files), id).len() > 0,
        target_category(p, files, target) is Err,
    ensures
        move_plan(p, found, files, id, target, false, colors) == failed(
            no_steps(),
            target_category(p, files, target)->Err_0,
        ),
{
    let names = declaring(loaded(p, files), id);
    assert forall|k: int| 0 <= k < names.len() implies load_named(
        p,
        files,
        #[trigger] names[k],
    ) is Ok && declares(load_named(p, files, names[k])->Ok_0, id) && names[k] != target by {
        lemma_declaring_has_file(p, files, id, k);
    }
    assert(!names.contains(target));
    assert(names == seq![target] ==> names[0] == target);
    lemma_taking_ends_well(p, files, id, names, no_steps(), None);
}

proof fn lemma_taking_ends_well(
    p: PathsView,
    files: Seq<FileView>,
    id: Seq<char>,
    names: Seq<Seq<char>>,
    steps: Seq<StepView>,
    taken: Option<EntryView>,
)
    requires
        forall|k: int|
            0 <= k < names.len() ==> load_named(p, files, #[trigger] names[k]) is Ok && declares(
                load_named(p, files, names[k])->Ok_0,
                id,
            ),
    ensures
        taking(p, files, id, names, steps, taken) is Ok,
        names.len() > 0 || taken is Some ==> (taking(p, files, id, names, steps, taken)->Ok_0).1 is Some,
    decreases names.len(),
{
    if names.len() > 0 {
        let c = load_named(p, files, names[0])->Ok_0;
        let rest = names.drop_first();
        assert forall|k: int| 0 <= k < rest.len() implies load_named(
            p,
            files,
            #[trigger] rest[k],
        ) is Ok && declares(load_named(p, files, rest[k])->Ok_0, id) by {
            assert(rest[k] == names[k + 1]);
        }
        lemma_renders_without(p, files, names[0], id);
        declared_names_have_entries(c, id);
        lemma_taking_ends_well(
            p,
            files,
            id,
            rest,
            stored(steps, c.path, rendered(without_entry(c, id))->Ok_0),
            entry_of(c, id),
        );
    }
}

/// Where adding a package fails, nothing is written.
pub proof fn lemma_failed_addition(
    p: PathsView,
    files: Seq<FileView>,
    info: InfoView,
    category: Seq<char>,
    options: AddOptions,
    colors: bool,
)
    ensures
        add_plan(p, files, info, category, options, colors).outcome is Fail ==> writes(
            add_plan(p, files, info, category, options, colors).steps,
        ).len() == 0,
{
    let steps = broken_steps(info, colors);
    lemma_broken_steps(info, colors);
    lemma_said(steps, would_add(colors, info.attribute, category_path(p, category)));
}

/// Where adding a package, adding or updating a GitHub source, or importing fails, nothing is
/// written.
pub proof fn failed_additions_write_nothing(
    p: PathsView,
    files: Seq<FileView>,
    info: InfoView,
    category: Seq<char>,
    options: AddOptions,
    request: (Seq<char>, Seq<char>),
    name: Seq<char>,
    g: PinnedView,
    asked: Option<Seq<char>>,
    c: CategoryView,
    existing: SourceView,
    fates: Seq<FateView>,
    dry_run: bool,
    colors: bool,
)
    ensures
        ({
            let plan = add_plan(p, files, info, category, options, colors);
            plan.outcome is Fail ==> writes(plan.steps).len() == 0
        }),
        ({
            let plan = add_source_plan(p, files, request, name, g, asked, dry_run, colors);
            plan.outcome is Fail ==> writes(plan.steps).len() == 0
        }),
        ({
            let plan = update_plan(c, existing, name, g, dry_run, colors);
            plan.outcome is Fail ==> writes(plan.steps).len() == 0
        }),
        ({
            let plan = import_plan(p, files, category, fates, dry_run, colors);
            plan.outcome is Fail ==> writes(plan.steps).len() == 0
        }),
{
    assert(writes(no_steps()).len() == 0);
    lemma_broken_steps(info, colors);
    lemma_pinned_lines(name, g, colors);
    let steps = broken_steps(info, colors);
    lemma_said(steps, would_add(colors, info.attribute, category_path(p, category)));
    let pinned = pinned_lines(name, g, colors);
    let target = or_default(asked, DEFAULT_CATEGORY@);
    lemma_said(pinned, would_add(colors, name, category_path(p, target)));
}

// ---------------------------------------------------------------------------
// The boundary
// ---------------------------------------------------------------------------

/// The file of a category in the managed directory that is understood: it could be read, or it is
/// not there yet.
pub open spec fn understood(p: PathsView, files: Seq<FileView>, path: Seq<char>) -> bool {
    exists|n: Seq<char>|
        path == #[trigger] category_path(p, n) && undivided(n) && target_category(p, files, n) is Ok
}

/// Everything that is written goes to files of categories that are understood.
pub open spec fn within_bounds(p: PathsView, files: Seq<FileView>, steps: Seq<StepView>) -> bool {
    forall|k: int|
        0 <= k < writes(steps).len() ==> understood(p, files, (#[trigger] writes(steps)[k]).0)
}

proof fn lemma_bounds_said(p: PathsView, files: Seq<FileView>, steps: Seq<StepView>, l: LineView)
    requires
        within_bounds(p, files, steps),
    ensures
        within_bounds(p, files, said(steps, l)),
{
    lemma_said(steps, l);
}

proof fn lemma_bounds_stored(
    p: PathsView,
    files: Seq<FileView>,
    steps: Seq<StepView>,
    n: Seq<char>,
    text: Seq<char>,
)
    requires
        within_bounds(p, files, steps),
        undivided(n),
        target_category(p, files, n) is Ok,
    ensures
        within_bounds(p, files, stored(steps, category_path(p, n), text)),
{
    let path = category_path(p, n);
    lemma_stored(steps, path, text);
    let ws = writes(stored(steps, path, text));
    assert forall|k: int| 0 <= k < ws.len() implies understood(p, files, (#[trigger] ws[k]).0) by {
        if k < writes(steps).len() {
            assert(ws[k] == writes(steps)[k]);
        } else {
            assert(ws[k].0 == path);
        }
    }
}

proof fn lemma_bounds_none(p: PathsView, files: Seq<FileView>, steps: Seq<StepView>)
    requires
        writes(steps).len() == 0,
    ensures
        within_bounds(p, files, steps),
{
}

proof fn lemma_listed_understood(p: PathsView, files: Seq<FileView>, n: Seq<char>)
    requires
        proper(files),
        category_names(files).contains(n),
        load_named(p, files, n) is Ok,
    ensures
        undivided(n),
        target_category(p, files, n) == load_named(p, files, n),
        load_named(p, files, n)->Ok_0.path == category_path(p, n),
{
    lemma_listed_has_file(files, n);
    lemma_sort_contains(categories_of(files), itself(), n);
    lemma_categories(files, n);
    let i = choose|i: int| 0 <= i < files.len() && category_of((#[trigger] files[i]).name) == Some(n);
    let f = files[i].name;
    assert(undivided(f));
    assert forall|k: int| 0 <= k < n.len() implies #[trigger] n[k] != '/' by {
        assert(n[k] == f[k]);
    }
}

proof fn lemma_bounds_removing(
    p: PathsView,
    files: Seq<FileView>,
    id: Seq<char>,
    names: Seq<Seq<char>>,
    dry_run: bool,
    colors: bool,
    steps: Seq<StepView>,
)
    requires
        proper(files),
        within_bounds(p, files, steps),
        forall|k: int| 0 <= k < names.len() ==> category_names(files).contains(#[trigger] names[k]),
    ensures
        within_bounds(p, files, removing(p, files, id, names, dry_run, colors, steps).steps),
    decreases names.len(),
{
    if names.len() == 0 {
        lemma_bounds_said(p, files, steps, rebuild_hint(colors));
    } else if load_named(p, files, names[0]) is Ok {
        let c = load_named(p, files, names[0])->Ok_0;
        let d = without_entry(c, id);
        let rest = names.drop_first();
        assert forall|k: int| 0 <= k < rest.len() implies category_names(files).contains(
            #[trigger] rest[k],
        ) by {
            assert(rest[k] == names[k + 1]);
        }
        lemma_listed_understood(p, files, names[0]);
        lemma_bounds_removing(p, files, id, rest, dry_run, colors, steps);
        let dry = would_remove(colors, id, d.path);
        lemma_bounds_said(p, files, steps, dry);
        lemma_bounds_removing(p, files, id, rest, dry_run, colors, said(steps, dry));
        if rendered(d) is Ok {
            let text = rendered(d)->Ok_0;
            let line = ok_line(colors, "removed '"@ + id + "' from "@ + d.path);
            lemma_bounds_stored(p, files, steps, names[0], text);
            lemma_bounds_said(p, files, stored(steps, d.path, text), line);
            lemma_bounds_removing(
                p,
                files,
                id,
                rest,
                dry_run,
                colors,
                said(stored(steps, d.path, text), line),
            );
        }
    }
}

proof fn lemma_bounds_sources(
    p: PathsView,
    files: Seq<FileView>,
    name: Seq<char>,
    names: Seq<Seq<char>>,
    dry_run: bool,
    colors: bool,
    steps: Seq<StepView>,
)
    requires
        proper(files),
        within_bounds(p, files, steps),
        forall|k: int| 0 <= k < names.len() ==> category_names(files).contains(#[trigger] names[k]),
    ensures
        within_bounds(p, files, removing_sources(p, files, name, names, dry_run, colors, steps).steps),
    decreases names.len(),
{
    if names.len() == 0 {
        lemma_bounds_said(p, files, steps, rebuild_hint(colors));
    } else if load_named(p, files, names[0]) is Ok {
        let c = load_named(p, files, names[0])->Ok_0;
        let d = CategoryView { github: without_source(c.github, name), ..c };
        let rest = names.drop_first();
        assert forall|k: int| 0 <= k < rest.len() implies category_names(files).contains(
            #[trigger] rest[k],
        ) by {
            assert(rest[k] == names[k + 1]);
        }
        lemma_listed_understood(p, files, names[0]);
        let skip = not_a_source(colors, name, names[0]);
        lemma_bounds_said(p, files, steps, skip);
        lemma_bounds_sources(p, files, name, rest, dry_run, colors, said(steps, skip));
        let dry = would_remove(colors, name, d.path);
        lemma_bounds_said(p, files, steps, dry);
        lemma_bounds_sources(p, files, name, rest, dry_run, colors, said(steps, dry));
        if rendered(d) is Ok {
            let text = rendered(d)->Ok_0;
            let line = ok_line(colors, "removed '"@ + name + "' from "@ + d.path);
            lemma_bounds_stored(p, files, steps, names[0], text);
            lemma_bounds_said(p, files, stored(steps, d.path, text), line);
            lemma_bounds_sources(
                p,
                files,
                name,
                rest,
                dry_run,
                colors,
                said(stored(steps, d.path, text), line),
            );
        }
    }
}

proof fn lemma_bounds_taking(
    p: PathsView,
    files: Seq<FileView>,
    id: Seq<char>,
    names: Seq<Seq<char>>,
    steps: Seq<StepView>,
    taken: Option<EntryView>,
)
    requires
        proper(files),
        within_bounds(p, files, steps),
        forall|k: int| 0 <= k < names.len() ==> category_names(files).contains(#[trigger] names[k]),
    ensures
        taking(p, files, id, names, steps, taken) matches Ok(t) ==> within_bounds(p, files, t.0),
    decreases names.len(),
{
    if names.len() > 0 && load_named(p, files, names[0]) is Ok {
        let c = load_named(p, files, names[0])->Ok_0;
        let d = without_entry(c, id);
        let rest = names.drop_first();
        assert forall|k: int| 0 <= k < rest.len() implies category_names(files).contains(
            #[trigger] rest[k],
        ) by {
            assert(rest[k] == names[k + 1]);
        }
        lemma_listed_understood(p, files, names[0]);
        if rendered(d) is Ok {
            let text = rendered(d)->Ok_0;
            lemma_bounds_stored(p, files, steps, names[0], text);
            lemma_bounds_taking(
                p,
                files,
                id,
                rest,
                stored(steps, c.path, text),
                if entry_of(c, id) is Some {
                    entry_of(c, id)
                } else {
                    taken
                },
            );
        }
    }
}

proof fn lemma_declaring_listed(p: PathsView, files: Seq<FileView>, id: Seq<char>)
    ensures
        forall|k: int|
            0 <= k < declaring(loaded(p, files), id).len() ==> category_names(files).contains(
                #[trigger] declaring(loaded(p, files), id)[k],
            ),
{
    let names = declaring(loaded(p, files), id);
    assert forall|k: int| 0 <= k < names.len() implies category_names(files).contains(
        #[trigger] names[k],
    ) by {
        lemma_declaring_has_file(p, files, id, k);
    }
}

/// Removing and moving write to files of categories that are understood, and to nothing else. A
/// file that could not be read is left alone.
pub proof fn removing_and_moving_stay_within_bounds(
    p: PathsView,
    found: Found,
    files: Seq<FileView>,
    id: Seq<char>,
    target: Seq<char>,
    dry_run: bool,
    colors: bool,
)
    requires
        proper(files),
    ensures
        within_bounds(p, files, remove_plan(p, found, files, id, dry_run, colors).steps),
        within_bounds(p, files, remove_source_plan(p, found, files, id, dry_run, colors).steps),
        within_bounds(p, files, move_plan(p, found, files, id, target, dry_run, colors).steps),
{
    let names = declaring(loaded(p, files), id);
    let none = no_steps();
    assert(writes(none).len() == 0);
    lemma_bounds_none(p, files, none);
    lemma_declaring_listed(p, files, id);
    lemma_bounds_removing(p, files, id, names, dry_run, colors, none);
    lemma_bounds_sources(p, files, id, names, dry_run, colors, none);
    lemma_bounds_said(
        p,
        files,
        none,
        plain_line("'"@ + id + "' is already in '"@ + target + "' — nothing to do."@),
    );
    lemma_would_take(p, id, names, colors);
    lemma_bounds_none(p, files, would_take(p, id, names, colors));
    lemma_bounds_said(
        p,
        files,
        would_take(p, id, names, colors),
        would_add(colors, id, category_path(p, target)),
    );
    lemma_bounds_taking(p, files, id, names, none, None);
    if taking(p, files, id, names, none, None) is Ok {
        let (steps, taken) = taking(p, files, id, names, none, None)->Ok_0;
        if is_name(target) && taken is Some && target_after(p, files, id, names, target) is Ok {
            let c = target_after(p, files, id, names, target)->Ok_0;
            let d = with_entry(c, taken->0);
            lemma_target_identity(p, files, id, names, target);
            if names.contains(target) {
                let k = choose|k: int| 0 <= k < names.len() && names[k] == target;
                lemma_declaring_has_file(p, files, id, k);
                lemma_listed_understood(p, files, target);
            }
            if rendered(d) is Ok {
                let text = rendered(d)->Ok_0;
                let line = ok_line(
                    colors,
                    "moved '"@ + id + "' from "@ + crate::text::join(names, ", "@) + " to "@ + target,
                );
                lemma_bounds_stored(p, files, steps, target, text);
                lemma_bounds_said(p, files, stored(steps, d.path, text), line);
                lemma_bounds_said(
                    p,
                    files,
                    said(stored(steps, d.path, text), line),
                    rebuild_hint(colors),
                );
            }
        }
    }
}

/// Adding a package, adding a GitHub source and importing write to the file of a category that is
/// understood, and to nothing else.
pub proof fn adding_and_importing_stay_within_bounds(
    p: PathsView,
    files: Seq<FileView>,
    info: InfoView,
    category: Seq<char>,
    options: AddOptions,
    request: (Seq<char>, Seq<char>),
    name: Seq<char>,
    g: PinnedView,
    fates: Seq<FateView>,
    dry_run: bool,
    colors: bool,
)
    requires
        is_name(category),
    ensures
        within_bounds(p, files, add_plan(p, files, info, category, options, colors).steps),
        within_bounds(
            p,
            files,
            add_source_plan(p, files, request, name, g, Some(category), dry_run, colors).steps,
        ),
        within_bounds(p, files, import_plan(p, files, category, fates, dry_run, colors).steps),
{
    let none = no_steps();
    assert(writes(none).len() == 0);
    adding_writes_one_file(p, files, info, category, options, colors);
    lemma_add_understood(p, files, info, category, options, colors);
    imports_write_one_file(p, files, category, fates, dry_run, colors);
    let w = writes(import_plan(p, files, category, fates, dry_run, colors).steps);
    if w.len() == 1 {
        let c = target_category(p, files, category)->Ok_0;
        lemma_with_imports(c, fates, category);
        assert(w[0].0 == category_path(p, category));
    }
    let steps = pinned_lines(name, g, colors);
    lemma_pinned_lines(name, g, colors);
    lemma_bounds_none(p, files, steps);
    if target_category(p, files, category) is Ok {
        let d = with_source(target_category(p, files, category)->Ok_0, source_of(name, g));
        let dry = would_add(colors, name, d.path);
        lemma_bounds_said(p, files, steps, dry);
        if rendered(d) is Ok {
            let text = rendered(d)->Ok_0;
            lemma_said(steps, dry);
            lemma_previewed(said(steps, dry), lines(text));
            lemma_bounds_none(p, files, previewed(said(steps, dry), lines(text)));
            let line = ok_line(
                colors,
                "added '"@ + name + "' (from github:"@ + request.0 + "/"@ + request.1 + ") to "@ + d.path,
            );
            lemma_bounds_stored(p, files, steps, category, text);
            lemma_bounds_said(p, files, stored(steps, d.path, text), line);
            lemma_bounds_said(
                p,
                files,
                said(stored(steps, d.path, text), line),
                rebuild_hint(colors),
            );
        }
    }
}

proof fn lemma_add_understood(
    p: PathsView,
    files: Seq<FileView>,
    info: InfoView,
    category: Seq<char>,
    options: AddOptions,
    colors: bool,
)
    ensures
        writes(add_plan(p, files, info, category, options, colors).steps).len() > 0 ==> target_category(
            p,
            files,
            category,
        ) is Ok,
{
    lemma_broken_steps(info, colors);
    lemma_unfree_steps(broken_steps(info, colors), info, colors);
}

/// Updating a GitHub source writes to the file of a category that is understood, and to nothing
/// else.
pub proof fn updating_stays_within_bounds(
    p: PathsView,
    found: Found,
    files: Seq<FileView>,
    name: Seq<char>,
    g: PinnedView,
    dry_run: bool,
    colors: bool,
)
    requires
        proper(files),
        outdated(p, found, files, name) is Ok,
    ensures
        ({
            let (c, existing) = outdated(p, found, files, name)->Ok_0;
            within_bounds(p, files, update_plan(c, existing, name, g, dry_run, colors).steps)
        }),
{
    let (c, existing) = outdated(p, found, files, name)->Ok_0;
    let plan = update_plan(c, existing, name, g, dry_run, colors);
    let cat = declaring(loaded(p, files), name)[0];
    let d = repinned(c, name, g);
    assert(writes(no_steps()).len() == 0);
    lemma_bounds_none(p, files, no_steps());
    lemma_declaring_has_file(p, files, name, 0);
    lemma_listed_understood(p, files, cat);
    if g.rev == existing.rev || dry_run {
        lemma_said(no_steps(), plan.steps.last()->Print_0);
        lemma_bounds_none(p, files, plan.steps);
    } else if rendered(d) is Ok {
        let text = rendered(d)->Ok_0;
        let one = stored(no_steps(), d.path, text);
        let line = plan.steps[1]->Print_0;
        lemma_bounds_stored(p, files, no_steps(), cat, text);
        lemma_bounds_said(p, files, one, line);
        lemma_bounds_said(p, files, said(one, line), rebuild_hint(colors));
    }
}

/// What stays within bounds leaves the module alone, and with it the setting for unfree packages.
pub proof fn the_module_is_left_alone(
    p: PathsView,
    files: Seq<FileView>,
    steps: Seq<StepView>,
    allow_unfree: bool,
    k: int,
)
    requires
        within_bounds(p, files, steps),
        text_at(files, "default.nix"@) == Some(
            Ok::<Seq<char>, Seq<char>>(module_text(allow_unfree)),
        ),
        0 <= k < writes(steps).len(),
    ensures
        writes(steps)[k].0 != managed(p, "default.nix"@),
{
    let path = writes(steps)[k].0;
    assert(understood(p, files, path));
    let n = choose|n: Seq<char>|
        path == #[trigger] category_path(p, n) && undivided(n) && target_category(p, files, n) is Ok;
    let f = category_file_name(n);
    reveal_strlit(".nix");
    reveal_strlit("default.nix");
    assert(f.len() > 0 && f[0] != '/');
    if path == managed(p, "default.nix"@) {
        lemma_name_in(p, f);
        lemma_name_in(p, "default.nix"@);
        assert(f == "default.nix"@);
        the_module_is_no_category(n, path, allow_unfree);
    }
}

/// Changing the setting for unfree packages writes the module and nothing else.
pub proof fn allowing_writes_the_module(p: PathsView, disable: bool, colors: bool)
    ensures
        writes(unfree_plan(p, disable, colors)) == seq![
            (managed(p, "default.nix"@), module_text(!disable)),
        ],
{
    let one = stored(no_steps(), managed(p, "default.nix"@), module_text(!disable));
    assert(writes(no_steps()).len() == 0);
    lemma_stored(no_steps(), managed(p, "default.nix"@), module_text(!disable));
    let line = unfree_plan(p, disable, colors)[1]->Print_0;
    lemma_said(one, line);
    lemma_said(said(one, line), rebuild_hint(colors));
    assert(writes(unfree_plan(p, disable, colors)) =~= seq![
        (managed(p, "default.nix"@), module_text(!disable)),
    ]);
}

} // verus!

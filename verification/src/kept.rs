//! Laws of what is kept: which categories a directory holds and what is read from them, what a
//! rebuild records, and what a row of steps writes.

use vstd::prelude::*;

use crate::category::{loaded, read_category, CategoryView};
use crate::error::ErrorView;
use crate::faithful::lemma_no_last;
use crate::json::{json_value, Json, JsonView};
use crate::order::{
    itself, le, lemma_sort_by_key, lemma_sort_contains, lemma_unique, sorted, strictly_ascending,
    unique,
};
use crate::outcomes::lemma_categories;
use crate::paths::{
    categories_and_files_match, categories_of, category_names, category_of, file_at, join,
    lemma_file_at, FileView, PathsView,
};
use crate::plan::{writes, StepView};
use crate::profile::{elements_of, folded, mentions_nixpkgs, scan_step, Listing, ScanView};
use crate::resolver::{channel_attribute, not_in_channel, not_in_registry, searched_attribute};
use crate::spelling::the_last_part_is_behind_the_last_separator;
use crate::state::{
    change, changes, changes_are_reported, current_packages, lemma_position_of, loaded_names,
    names_of, packages_in, position_of,
};
use crate::text::{contains, find_from, is_space, lemma_find_from, lemma_until, occurs_at, until};
use crate::ui::LineView;

verus! {

// ---------------------------------------------------------------------------
// Categories
// ---------------------------------------------------------------------------

/// A directory holds a category for each of its `.nix` files but the module, under the name of the
/// file, and no other; they are listed in ascending order.
pub proof fn every_nix_file_is_a_category(files: Seq<FileView>, name: Seq<char>)
    ensures
        category_names(files).contains(name) <==> name != "default"@ && exists|i: int|
            0 <= i < files.len() && (#[trigger] files[i]).name == name + ".nix"@,
        forall|i: int, j: int|
            0 <= i <= j < category_names(files).len() ==> le(
                #[trigger] category_names(files)[i],
                #[trigger] category_names(files)[j],
            ),
{
    let all = categories_of(files);
    lemma_sort_contains(all, itself(), name);
    lemma_sort_by_key(all, itself());
    lemma_categories(files, name);
    let v = category_names(files);
    assert forall|i: int, j: int| 0 <= i <= j < v.len() implies le(#[trigger] v[i], #[trigger] v[j]) by {
        assert(le(itself()(v[i]), itself()(v[j])));
    }
    if category_names(files).contains(name) {
        let i = choose|i: int|
            0 <= i < files.len() && category_of((#[trigger] files[i]).name) == Some(name);
        categories_and_files_match(name, files[i].name);
        assert(files[i].name == name + ".nix"@);
    }
    if name != "default"@ && exists|i: int|
        0 <= i < files.len() && (#[trigger] files[i]).name == name + ".nix"@ {
        let i = choose|i: int| 0 <= i < files.len() && (#[trigger] files[i]).name == name + ".nix"@;
        categories_and_files_match(name, files[i].name);
        assert(category_of(files[i].name) == Some(name));
    }
}

/// Every category is read from its own file: what stands there, under the name and the path of the
/// category, or why the file could not be read.
pub proof fn categories_are_read_from_their_files(
    p: PathsView,
    files: Seq<FileView>,
    k: int,
    i: int,
)
    requires
        0 <= k < category_names(files).len(),
        0 <= i < files.len(),
        files[i].name == category_names(files)[k] + ".nix"@,
        forall|j: int| 0 <= j < i ==> (#[trigger] files[j]).name != files[i].name,
    ensures
        loaded(p, files).len() == category_names(files).len(),
        loaded(p, files)[k].0 == category_names(files)[k],
        files[i].text matches Ok(raw) ==> loaded(p, files)[k].1 == read_category(
            category_names(files)[k],
            join(p.nixlayer_dir, category_names(files)[k] + ".nix"@),
            raw,
        ),
        files[i].text matches Err(m) ==> loaded(p, files)[k].1 == Err::<CategoryView, ErrorView>(
            ErrorView::Io(m),
        ),
{
    let name = files[i].name;
    lemma_file_at(files, name);
    let f = file_at(files, name);
    assert(f == i) by {
        if f < i {
            assert(files[f].name != files[i].name);
        }
        if i < f {
            assert(files[i].name != name);
        }
    }
}

/// What is read keeps the name, the path and the text that it was read with.
pub proof fn read_categories_know_their_file(name: Seq<char>, path: Seq<char>, raw: Seq<char>)
    ensures
        read_category(name, path, raw) matches Ok(c) ==> c.name == name && c.path == path && c.raw
            == raw,
{
}

/// A file names its packages behind `environment.systemPackages`, and its sources behind `ghPkgs`:
/// without the one it cannot be read, and without the other it has no sources.
pub proof fn markers_tell_what_a_file_holds(name: Seq<char>, path: Seq<char>, raw: Seq<char>)
    ensures
        !contains(raw, "environment.systemPackages"@) ==> read_category(name, path, raw) is Err,
        !contains(raw, "ghPkgs = "@) ==> (read_category(name, path, raw) matches Ok(c)
            ==> c.github.len() == 0),
        !contains(raw, "ghPkgs = "@) && !contains(raw, "environment.systemPackages"@)
            ==> read_category(name, path, raw) == Err::<CategoryView, ErrorView>(
            ErrorView::UnparseableCategoryFile(path, "no environment.systemPackages found"@),
        ),
{
    lemma_find_from(raw, "environment.systemPackages"@, 0);
    lemma_find_from(raw, "ghPkgs = "@, 0);
    if let Some(i) = find_from(raw, "environment.systemPackages"@, 0) {
        assert(occurs_at(raw, "environment.systemPackages"@, i));
    }
    if let Some(i) = find_from(raw, "ghPkgs = "@, 0) {
        assert(occurs_at(raw, "ghPkgs = "@, i));
    }
}

/// Texts are put in ascending order without losing or adding any, and made distinct by keeping
/// each of them once.
pub proof fn texts_are_put_in_order(v: Seq<Seq<char>>, x: Seq<char>)
    ensures
        sorted(v).to_multiset() == v.to_multiset(),
        forall|i: int, j: int|
            0 <= i <= j < sorted(v).len() ==> le(#[trigger] sorted(v)[i], #[trigger] sorted(v)[j]),
        unique(v).contains(x) <==> v.contains(x),
        forall|i: int, j: int|
            0 <= i < j < unique(v).len() ==> le(#[trigger] unique(v)[i], #[trigger] unique(v)[j])
                && unique(v)[i] != unique(v)[j],
{
    lemma_sort_by_key(v, itself());
    lemma_unique(v);
    let s = sorted(v);
    assert forall|i: int, j: int| 0 <= i <= j < s.len() implies le(#[trigger] s[i], #[trigger] s[j]) by {
        assert(le(itself()(s[i]), itself()(s[j])));
    }
}

// ---------------------------------------------------------------------------
// The recorded state
// ---------------------------------------------------------------------------

/// What is recorded is what the categories list: each one that could be read, with its packages in
/// order, and nothing of the others.
pub proof fn records_hold_what_is_listed(
    all: Seq<(Seq<char>, Result<CategoryView, ErrorView>)>,
    k: int,
    x: Seq<char>,
)
    requires
        forall|i: int, j: int| 0 <= i < j < all.len() ==> (#[trigger] all[i]).0 != (#[trigger] all[j]).0,
        0 <= k < all.len(),
    ensures
        all[k].1 matches Ok(c) ==> loaded_names(all).contains(all[k].0) && current_packages(
            all,
            all[k].0,
        ) == sorted(c.packages) && (current_packages(all, all[k].0).contains(x)
            <==> c.packages.contains(x)),
        all[k].1 is Err ==> !loaded_names(all).contains(all[k].0) && current_packages(
            all,
            all[k].0,
        ).len() == 0,
{
    lemma_loaded_names(all, all[k].0);
    lemma_current(all, k);
    if let Ok(c) = all[k].1 {
        assert(all[k].0 == all[k].0 && all[k].1 is Ok);
        lemma_sort_contains(c.packages, itself(), x);
    } else {
        if loaded_names(all).contains(all[k].0) {
            let i = choose|i: int|
                0 <= i < all.len() && (#[trigger] all[i]).0 == all[k].0 && all[i].1 is Ok;
            assert(i == k);
        }
    }
}

proof fn lemma_loaded_names(all: Seq<(Seq<char>, Result<CategoryView, ErrorView>)>, n: Seq<char>)
    ensures
        loaded_names(all).contains(n) <==> exists|i: int|
            0 <= i < all.len() && (#[trigger] all[i]).0 == n && all[i].1 is Ok,
    decreases all.len(),
{
    if all.len() > 0 {
        let t = all.drop_last();
        let before = loaded_names(t);
        let now = loaded_names(all);
        lemma_loaded_names(t, n);
        if now.contains(n) {
            let k = choose|k: int| 0 <= k < now.len() && now[k] == n;
            if k < before.len() {
                assert(before[k] == n);
                let i = choose|i: int|
                    0 <= i < t.len() && (#[trigger] t[i]).0 == n && t[i].1 is Ok;
                assert(all[i] == t[i]);
            } else {
                assert(all[all.len() - 1].0 == n);
            }
        }
        if exists|i: int| 0 <= i < all.len() && (#[trigger] all[i]).0 == n && all[i].1 is Ok {
            let i = choose|i: int|
                0 <= i < all.len() && (#[trigger] all[i]).0 == n && all[i].1 is Ok;
            if i < t.len() {
                assert(t[i].0 == n);
                let k = choose|k: int| 0 <= k < before.len() && before[k] == n;
                assert(now[k] == n);
            } else {
                assert(now[now.len() - 1] == n);
            }
        }
    }
}

proof fn lemma_current(all: Seq<(Seq<char>, Result<CategoryView, ErrorView>)>, k: int)
    requires
        forall|i: int, j: int| 0 <= i < j < all.len() ==> (#[trigger] all[i]).0 != (#[trigger] all[j]).0,
        0 <= k < all.len(),
    ensures
        all[k].1 matches Ok(c) ==> current_packages(all, all[k].0) == sorted(c.packages),
        all[k].1 is Err ==> current_packages(all, all[k].0).len() == 0,
    decreases all.len(),
{
    let t = all.drop_last();
    if k < t.len() {
        assert(t[k] == all[k]);
        assert(all[k].0 != all[all.len() - 1].0);
        lemma_current(t, k);
    } else if all[k].1 is Err {
        assert forall|i: int| 0 <= i < t.len() implies (#[trigger] t[i]).0 != all[k].0 by {
            assert(all[i].0 != all[k].0);
        }
        lemma_current_none(t, all[k].0);
    }
}

proof fn lemma_current_none(all: Seq<(Seq<char>, Result<CategoryView, ErrorView>)>, n: Seq<char>)
    requires
        forall|i: int| 0 <= i < all.len() ==> (#[trigger] all[i]).0 != n,
    ensures
        current_packages(all, n).len() == 0,
    decreases all.len(),
{
    if all.len() > 0 {
        assert(all[all.len() - 1].0 != n);
        lemma_current_none(all.drop_last(), n);
    }
}

/// A record is looked up by the name of the category, and a category that is not recorded has no
/// packages.
pub proof fn records_are_looked_up_by_name(s: Seq<(Seq<char>, Seq<Seq<char>>)>, k: int, n: Seq<char>)
    requires
        strictly_ascending(names_of(s)),
    ensures
        0 <= k < s.len() ==> packages_in(s, s[k].0) == s[k].1,
        (forall|i: int| 0 <= i < s.len() ==> (#[trigger] s[i]).0 != n) ==> packages_in(s, n).len() == 0,
{
    lemma_position_of(s, n);
    let p = position_of(s, n);
    if p < s.len() {
        assert(s[p].0 == n);
    }
    if 0 <= k < s.len() {
        lemma_position_of(s, s[k].0);
        let q = position_of(s, s[k].0);
        assert(names_of(s)[k] == s[k].0);
        assert(q < s.len());
        assert(names_of(s)[q] == s[q].0);
        if q < k {
            assert(names_of(s)[q] != names_of(s)[k]);
        }
        if k < q {
            assert(names_of(s)[k] != names_of(s)[q]);
        }
    }
}

/// Between two records, a category is reported with exactly the packages that the later one has
/// and the earlier one has not as gained, and with the converse as lost.
pub proof fn gains_and_losses_are_told_apart(
    before: Seq<(Seq<char>, Seq<Seq<char>>)>,
    after: Seq<(Seq<char>, Seq<Seq<char>>)>,
    k: int,
    x: Seq<char>,
)
    requires
        0 <= k < changes(before, after).len(),
    ensures
        ({
            let c = changes(before, after)[k];
            let was = packages_in(before, c.category);
            let now = packages_in(after, c.category);
            &&& c.added.contains(x) <==> now.contains(x) && !was.contains(x)
            &&& c.removed.contains(x) <==> was.contains(x) && !now.contains(x)
            &&& c.added.len() + c.removed.len() > 0
        }),
{
    let c = changes(before, after)[k];
    changes_are_reported(before, after, c.category, x);
    assert(c == change(before, after, c.category));
    assert(changes(before, after).contains(c));
}

// ---------------------------------------------------------------------------
// Steps
// ---------------------------------------------------------------------------

/// A row of steps writes what its parts write, in order: each write gives its file its text, and
/// showing something writes nothing.
pub proof fn writes_happen_in_order(
    a: Seq<StepView>,
    b: Seq<StepView>,
    path: Seq<char>,
    text: Seq<char>,
    l: LineView,
)
    ensures
        writes(a + b) == writes(a) + writes(b),
        writes(seq![StepView::Write(path, text)]) == seq![(path, text)],
        writes(seq![StepView::Print(l)]).len() == 0,
    decreases b.len(),
{
    let none: Seq<StepView> = Seq::empty();
    let w = seq![StepView::Write(path, text)];
    let s = seq![StepView::Print(l)];
    assert(w.drop_last() =~= none);
    assert(s.drop_last() =~= none);
    assert(w.last() == StepView::Write(path, text));
    assert(s.last() == StepView::Print(l));
    assert(writes(none) =~= Seq::empty());
    assert(writes(w) =~= seq![(path, text)]);
    if b.len() == 0 {
        assert(a + b =~= a);
        assert(writes(a) + writes(b) =~= writes(a));
    } else {
        writes_happen_in_order(a, b.drop_last(), path, text, l);
        assert((a + b).drop_last() =~= a + b.drop_last());
        assert((a + b).last() == b.last());
        assert(writes(a + b) =~= writes(a) + writes(b));
    }
}

// ---------------------------------------------------------------------------
// Names that Nix gives
// ---------------------------------------------------------------------------

/// A key of `nix-env` without a channel is the attribute itself, and a key of `nix search` that is
/// not among the legacy packages gives the last part of its path.
pub proof fn other_keys_give_their_last_part(front: Seq<char>, last: Seq<char>)
    requires
        forall|i: int| 0 <= i < last.len() ==> last[i] != '.',
        forall|i: int| 0 <= i < front.len() ==> front[i] != '.',
        front != "legacyPackages"@,
    ensures
        channel_attribute(last) == last,
        searched_attribute(last) == last,
        searched_attribute(front + seq!['.'] + last) == last,
{
    lemma_until(last, '.');
    assert(until(last, '.') == last.len());
    lemma_no_last(last, '.');
    let s = front + seq!['.'] + last;
    let n = front.len() as int;
    lemma_until(s, '.');
    assert(s[n] == '.');
    assert forall|i: int| 0 <= i < n implies s[i] != '.' by {
        assert(s[i] == front[i]);
    }
    assert(until(s, '.') == n);
    assert(s.take(n) =~= front);
    assert(s.skip(n + 1) =~= last);
    the_last_part_is_behind_the_last_separator(front, '.', last);
}

/// What is said where an attribute is not there names the attribute and where it was looked for.
pub proof fn missing_attributes_are_named(attr: Seq<char>)
    ensures
        not_in_registry(attr) == "attribute '"@ + attr
            + "' not found in nixpkgs (via flake registry).\n"@,
        not_in_channel(attr) == "attribute '"@ + attr
            + "' not found in nixpkgs (via nix-env, legacy mode).\n"@,
{
}

/// An address speaks of nixpkgs exactly where that word stands in it, in letters of either case.
/// The sign for the unit kelvin counts as a `k`.
pub proof fn nixpkgs_is_recognised_in_any_case(url: Seq<char>)
    ensures
        mentions_nixpkgs(url) <==> exists|k: int|
            {
                &&& 0 <= k && k + 7 <= url.len()
                &&& #[trigger] url[k] == 'n' || url[k] == 'N'
                &&& url[k + 1] == 'i' || url[k + 1] == 'I'
                &&& url[k + 2] == 'x' || url[k + 2] == 'X'
                &&& url[k + 3] == 'p' || url[k + 3] == 'P'
                &&& url[k + 4] == 'k' || url[k + 4] == 'K' || url[k + 4] == '\u{212a}'
                &&& url[k + 5] == 'g' || url[k + 5] == 'G'
                &&& url[k + 6] == 's' || url[k + 6] == 'S'
            },
{
    reveal_strlit("nixpkgs");
    let word = "nixpkgs"@;
    let f = Seq::new(url.len(), |i: int| folded(url[i]));
    if mentions_nixpkgs(url) {
        let k = choose|k: int| occurs_at(f, word, k);
        let g = f.subrange(k, k + 7);
        assert(g[0] == f[k] && g[1] == f[k + 1] && g[2] == f[k + 2] && g[3] == f[k + 3] && g[4] == f[k
            + 4] && g[5] == f[k + 5] && g[6] == f[k + 6]);
        assert(url[k] == 'n' || url[k] == 'N');
    }
    if exists|k: int|
        {
            &&& 0 <= k && k + 7 <= url.len()
            &&& #[trigger] url[k] == 'n' || url[k] == 'N'
            &&& url[k + 1] == 'i' || url[k + 1] == 'I'
            &&& url[k + 2] == 'x' || url[k + 2] == 'X'
            &&& url[k + 3] == 'p' || url[k + 3] == 'P'
            &&& url[k + 4] == 'k' || url[k + 4] == 'K' || url[k + 4] == '\u{212a}'
            &&& url[k + 5] == 'g' || url[k + 5] == 'G'
            &&& url[k + 6] == 's' || url[k + 6] == 'S'
        } {
        let k = choose|k: int|
            {
                &&& 0 <= k && k + 7 <= url.len()
                &&& #[trigger] url[k] == 'n' || url[k] == 'N'
                &&& url[k + 1] == 'i' || url[k + 1] == 'I'
                &&& url[k + 2] == 'x' || url[k + 2] == 'X'
                &&& url[k + 3] == 'p' || url[k + 3] == 'P'
                &&& url[k + 4] == 'k' || url[k + 4] == 'K' || url[k + 4] == '\u{212a}'
                &&& url[k + 5] == 'g' || url[k + 5] == 'G'
                &&& url[k + 6] == 's' || url[k + 6] == 'S'
            };
        assert(f.subrange(k, k + 7) =~= word);
        assert(occurs_at(f, word, k));
    }
}

/// What a listing holds is what is found.
pub proof fn listings_are_read(bytes: Vec<u8>, j: JsonView)
    requires
        json_value(bytes@) == Some(j),
        elements_of(j) is Some,
    ensures
        scan_step(true, Listing::Output(bytes)) == ScanView::Found(elements_of(j)->0),
{
}

/// A parsed value keeps its members and its items, in order.
pub proof fn parsed_values_are_themselves(v: Vec<Json>, m: Vec<(String, Json)>, s: String, b: bool, i: int)
    ensures
        Json::Null.shape() == JsonView::Null,
        Json::Flag(b).shape() == JsonView::Flag(b),
        Json::Text(s).shape() == JsonView::Text(s@),
        Json::List(v).shape() matches JsonView::List(w) && w.len() == v@.len() && (0 <= i < v@.len()
            ==> w[i] == v@[i].shape()),
        Json::Object(m).shape() matches JsonView::Object(w) && w.len() == m@.len() && (0 <= i
            < m@.len() ==> w[i] == (m@[i].0@, m@[i].1.shape())),
{
}

/// What counts as white space.
pub proof fn white_space_is_what_unicode_says(c: char)
    ensures
        is_space(c) <==> seq![
            0x9u32,
            0xau32,
            0xbu32,
            0xcu32,
            0xdu32,
            0x20u32,
            0x85u32,
            0xa0u32,
            0x1680u32,
            0x2000u32,
            0x2001u32,
            0x2002u32,
            0x2003u32,
            0x2004u32,
            0x2005u32,
            0x2006u32,
            0x2007u32,
            0x2008u32,
            0x2009u32,
            0x200au32,
            0x2028u32,
            0x2029u32,
            0x202fu32,
            0x205fu32,
            0x3000u32,
        ].contains(c as u32),
{
    let v = seq![
        0x9u32,
        0xau32,
        0xbu32,
        0xcu32,
        0xdu32,
        0x20u32,
        0x85u32,
        0xa0u32,
        0x1680u32,
        0x2000u32,
        0x2001u32,
        0x2002u32,
        0x2003u32,
        0x2004u32,
        0x2005u32,
        0x2006u32,
        0x2007u32,
        0x2008u32,
        0x2009u32,
        0x200au32,
        0x2028u32,
        0x2029u32,
        0x202fu32,
        0x205fu32,
        0x3000u32,
    ];
    let n = c as u32;
    if is_space(c) {
        if n <= 0xd {
            assert(v[n - 9] == n);
        } else if 0x2000 <= n <= 0x200a {
            assert(v[n - 0x2000 + 9] == n);
        } else {
            assert(v[5] == 0x20 && v[6] == 0x85 && v[7] == 0xa0 && v[8] == 0x1680 && v[20] == 0x2028
                && v[21] == 0x2029 && v[22] == 0x202f && v[23] == 0x205f && v[24] == 0x3000);
        }
    }
}

} // verus!

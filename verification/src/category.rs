//! Category files: the package lists that are managed, one Nix module each.
//!
//! A category file declares plain nixpkgs packages in its `environment.systemPackages` list and
//! packages from GitHub flakes in a `ghPkgs = { ... };` set. Only a file whose list and set are
//! fully understood is read; any other is refused.

use vstd::prelude::*;

use crate::error::{message_of, ErrorView, NixlayerError};
use crate::nixfile::{block, find_block, read_list, tokenize_package_list};
use crate::order::{
    itself, lemma_sort_contains, not_after, rank, sort, sort_by_key, sort_unique, sorted, unique,
};
use crate::paths::{
    categories_and_files_match, categories_of, category_file_name, category_names, category_of,
    category_path, file_at, file_views, find_file, lemma_file_at, text_at, text_view, FileView,
    Paths, PathsView, StoredFile,
};
pub use crate::sources::GithubSource;
use crate::sources::{
    flake_ref, lemma_source_views_push, read_source_lines, read_sources, source_views, SourceView,
};
use crate::text::{
    alnum, alpha, chars_of, concat2, concat3, contains, find, find_from, holds, includes, is_alnum,
    is_alpha, lemma_find_from, lemma_views_push, lines, same, slice, views,
};

verus! {

/// The category that is used where none is named.
pub const DEFAULT_CATEGORY: &'static str = "app";

/// What stands in front of the package list.
pub const MARKER: &'static str = "environment.systemPackages";

/// What stands in front of the set of GitHub sources.
pub const GH_MARKER: &'static str = "ghPkgs = ";

/// What makes the package list use the set of GitHub sources.
pub const GH_SUFFIX: &'static str = " ++ (builtins.attrValues ghPkgs)";

/// Either kind of thing that a category can hold.
#[derive(Debug, Clone)]
pub enum Entry {
    Plain(String),
    Github(GithubSource),
}

/// An [`Entry`] with its texts as character sequences.
pub enum EntryView {
    Plain(Seq<char>),
    Github(SourceView),
}

impl View for Entry {
    type V = EntryView;

    open spec fn view(&self) -> EntryView {
        match *self {
            Entry::Plain(p) => EntryView::Plain(p@),
            Entry::Github(g) => EntryView::Github(g@),
        }
    }
}

/// The name under which an entry is declared.
pub open spec fn entry_name(e: EntryView) -> Seq<char> {
    match e {
        EntryView::Plain(p) => p,
        EntryView::Github(g) => g.name,
    }
}

impl Entry {
    /// The name under which the entry is declared.
    pub fn identifier(&self) -> (r: &str)
        ensures
            r@ == entry_name(self@),
    {
        match self {
            Entry::Plain(s) => s.as_str(),
            Entry::Github(g) => g.name.as_str(),
        }
    }
}

/// One category file: its name, its path, what it declares, and its text as it was read.
#[derive(Debug, Clone)]
pub struct Category {
    pub name: String,
    pub path: String,
    pub packages: Vec<String>,
    pub github: Vec<GithubSource>,
    pub raw: String,
}

/// A [`Category`] with its texts as character sequences.
pub struct CategoryView {
    pub name: Seq<char>,
    pub path: Seq<char>,
    pub packages: Seq<Seq<char>>,
    pub github: Seq<SourceView>,
    pub raw: Seq<char>,
}

impl View for Category {
    type V = CategoryView;

    open spec fn view(&self) -> CategoryView {
        CategoryView {
            name: self.name@,
            path: self.path@,
            packages: views(self.packages@),
            github: source_views(self.github@),
            raw: self.raw@,
        }
    }
}

// ---------------------------------------------------------------------------
// The text of a category file
// ---------------------------------------------------------------------------

pub const HEAD: &'static str = "# This file is managed by nixlayer.\n# Category: ";

pub const PLAIN_NOTE: &'static str = "\n# Do not hand-edit the package list unless you know what you're doing —\n# nixlayer may reorder or rewrite it when you run `nixlayer add/remove/move`.\n# Anything other than the environment.systemPackages list below is left alone.\n\n{ pkgs, ... }:\n\n{\n  ";

pub const GH_NOTE: &'static str = "\n# This category includes GitHub-sourced packages, pinned to exact commits.\n# nixlayer manages this whole file once GitHub sources are present —\n# avoid hand-editing it; use `nixlayer github` / `nixlayer add|remove|move` instead.\n\n{ pkgs, ... }:\nlet\n  ";

/// The lines of a package list, one package each.
pub open spec fn package_lines(pkgs: Seq<Seq<char>>) -> Seq<char>
    decreases pkgs.len(),
{
    if pkgs.len() == 0 {
        Seq::empty()
    } else {
        package_lines(pkgs.drop_last()) + "    "@ + pkgs.last() + "\n"@
    }
}

/// What stands between the brackets of a package list: the packages in ascending order, each
/// once.
pub open spec fn list_inner(pkgs: Seq<Seq<char>>) -> Seq<char> {
    "\n"@ + package_lines(unique(pkgs)) + "  "@
}

/// The text of a file without GitHub sources, up to the marker of its list.
pub open spec fn plain_head(name: Seq<char>) -> Seq<char> {
    HEAD@ + name + PLAIN_NOTE@
}

/// The text of a file without GitHub sources, with `inner` between the brackets of its list.
pub open spec fn plain_text(name: Seq<char>, inner: Seq<char>) -> Seq<char> {
    plain_head(name) + MARKER@ + " = with pkgs; ["@ + inner + "];\n}\n"@
}

/// The lines that declare one GitHub source.
pub open spec fn source_lines(s: SourceView) -> Seq<char> {
    let remembered = match s.git_ref {
        Some(r) => "    # nixlayer-source-ref: "@ + r + "\n"@,
        None => Seq::empty(),
    };
    remembered + "    "@ + s.name + " = (builtins.getFlake \""@ + flake_ref(s)
        + "\").packages.${pkgs.system}."@ + s.attr + ";\n"@
}

/// The lines that declare some GitHub sources.
pub open spec fn all_source_lines(v: Seq<SourceView>) -> Seq<char>
    decreases v.len(),
{
    if v.len() == 0 {
        Seq::empty()
    } else {
        all_source_lines(v.drop_last()) + source_lines(v.last())
    }
}

pub open spec fn by_name() -> spec_fn(SourceView) -> Seq<char> {
    |s: SourceView| s.name
}

/// The sources in ascending order of their names.
pub open spec fn sorted_sources(v: Seq<SourceView>) -> Seq<SourceView> {
    sort_by_key(v, by_name())
}

/// The text of a file with GitHub sources, up to the marker of its list. The lines of the
/// sources are `gh`.
pub open spec fn github_head(name: Seq<char>, gh: Seq<char>) -> Seq<char> {
    HEAD@ + name + GH_NOTE@ + GH_MARKER@ + "{\n"@ + gh + "  };\nin\n{\n  "@
}

/// The text of a file with GitHub sources.
pub open spec fn github_text(name: Seq<char>, gh: Seq<char>, inner: Seq<char>) -> Seq<char> {
    github_head(name, gh) + MARKER@ + " = with pkgs; ["@ + inner + "]"@ + GH_SUFFIX@ + ";\n}\n"@
}

/// The text that is written for a category whose file is made anew.
pub open spec fn regenerated_text(c: CategoryView) -> Seq<char> {
    if c.github.len() == 0 {
        plain_text(c.name, list_inner(c.packages))
    } else {
        github_text(c.name, all_source_lines(sorted_sources(c.github)), list_inner(c.packages))
    }
}

/// The positions of the brackets of the package list of a file.
pub open spec fn list_span(raw: Seq<char>) -> Option<(int, int)> {
    match find_from(raw, MARKER@, 0) {
        Some(m) => block(raw, '[', ']', m),
        None => None,
    }
}

/// `raw` with `inner` between the brackets at `span`.
pub open spec fn with_inner(raw: Seq<char>, span: (int, int), inner: Seq<char>) -> Seq<char> {
    raw.take(span.0 + 1) + inner + raw.skip(span.1)
}

/// The text that is written for a category whose file keeps everything but its list.
pub open spec fn patched_text(c: CategoryView) -> Result<Seq<char>, ErrorView> {
    match find_from(c.raw, MARKER@, 0) {
        None => Err(ErrorView::UnparseableCategoryFile(c.path, "marker missing"@)),
        Some(m) => match block(c.raw, '[', ']', m) {
            None => Err(ErrorView::UnparseableCategoryFile(c.path, "list missing"@)),
            Some(span) => Ok(with_inner(c.raw, span, list_inner(c.packages))),
        },
    }
}

/// The text that is written for a category. A file that has no GitHub sources and never had any
/// keeps everything but its list.
pub open spec fn rendered(c: CategoryView) -> Result<Seq<char>, ErrorView> {
    if c.github.len() == 0 && !contains(c.raw, GH_MARKER@) {
        patched_text(c)
    } else {
        Ok(regenerated_text(c))
    }
}

// ---------------------------------------------------------------------------
// Reading a category file
// ---------------------------------------------------------------------------

/// The packages that a text declares.
pub open spec fn read_packages(path: Seq<char>, raw: Seq<char>) -> Result<Seq<Seq<char>>, ErrorView> {
    match find_from(raw, MARKER@, 0) {
        None => Err(
            ErrorView::UnparseableCategoryFile(path, "no environment.systemPackages found"@),
        ),
        Some(m) => match block(raw, '[', ']', m) {
            None => Err(ErrorView::UnparseableCategoryFile(path, "no [ ... ] list found"@)),
            Some(span) => match read_list(raw.subrange(span.0 + 1, span.1)) {
                Ok(toks) => Ok(toks),
                Err(e) => Err(ErrorView::UnparseableCategoryFile(path, message_of(e))),
            },
        },
    }
}

/// The GitHub sources that a text declares.
pub open spec fn read_github(path: Seq<char>, raw: Seq<char>) -> Result<Seq<SourceView>, ErrorView> {
    match find_from(raw, GH_MARKER@, 0) {
        None => Ok(Seq::empty()),
        Some(m) => match block(raw, '{', '}', m + GH_MARKER@.len() - 1) {
            None => Err(
                ErrorView::UnparseableCategoryFile(path, "ghPkgs = { ... } block is malformed"@),
            ),
            Some(span) => if !contains(raw, GH_SUFFIX@) {
                Err(
                    ErrorView::UnparseableCategoryFile(
                        path,
                        "found a ghPkgs block but no `"@ + GH_SUFFIX@ + "` in systemPackages"@,
                    ),
                )
            } else {
                match read_sources(lines(raw.subrange(span.0 + 1, span.1)), None) {
                    Ok(v) => Ok(v),
                    Err(m) => Err(ErrorView::UnparseableCategoryFile(path, m)),
                }
            },
        },
    }
}

/// The category that a text declares.
pub open spec fn read_category(name: Seq<char>, path: Seq<char>, raw: Seq<char>) -> Result<
    CategoryView,
    ErrorView,
> {
    match read_github(path, raw) {
        Err(e) => Err(e),
        Ok(github) => match read_packages(path, raw) {
            Err(e) => Err(e),
            Ok(packages) => Ok(CategoryView { name, path, packages, github, raw }),
        },
    }
}

/// An empty category with the text of a new file.
pub open spec fn empty_category(name: Seq<char>, path: Seq<char>) -> CategoryView {
    CategoryView {
        name,
        path,
        packages: Seq::empty(),
        github: Seq::empty(),
        raw: plain_text(name, "\n  "@),
    }
}

fn plain_file(name: &str, inner: &str) -> (r: String)
    ensures
        r@ == plain_text(name@, inner@),
{
    let mut s: String = concat3(HEAD, name, PLAIN_NOTE);
    s.append(MARKER);
    s.append(" = with pkgs; [");
    s.append(inner);
    s.append("];\n}\n");
    s
}

fn render_source(g: &GithubSource) -> (r: String)
    ensures
        r@ == source_lines(g@),
{
    let mut s: String = match &g.git_ref {
        Some(r) => concat3("    # nixlayer-source-ref: ", r, "\n"),
        None => String::new(),
    };
    s.append("    ");
    s.append(&g.name);
    s.append(" = (builtins.getFlake \"");
    s.append(&g.flake_ref());
    s.append("\").packages.${pkgs.system}.");
    s.append(&g.attr);
    s.append(";\n");
    s
}

/// The sources in ascending order of their names.
pub fn sort_sources(v: &Vec<GithubSource>) -> (r: Vec<GithubSource>)
    ensures
        source_views(r@) == sorted_sources(source_views(v@)),
{
    let mut out: Vec<GithubSource> = Vec::new();
    let ghost w = source_views(v@);
    assert(source_views(out@) =~= sorted_sources(w.take(0)));
    for i in 0..v.len()
        invariant
            w == source_views(v@),
            source_views(out@) == sorted_sources(w.take(i as int)),
    {
        let ghost o = source_views(out@);
        let mut p: usize = 0;
        assert(o.skip(0) =~= o);
        while p < out.len() && not_after(&out[p].name, &v[i].name)
            invariant
                p <= out@.len(),
                i < v@.len(),
                o == source_views(out@),
                rank(o, v@[i as int].name@, by_name()) == p + rank(
                    o.skip(p as int),
                    v@[i as int].name@,
                    by_name(),
                ),
            decreases out@.len() - p,
        {
            assert(o.skip(p as int).drop_first() =~= o.skip(p + 1));
            p = p + 1;
        }
        let ghost before = out@;
        let g: GithubSource = v[i].copy();
        out.insert(p, g);
        proof {
            assert(w.take(i + 1).drop_last() =~= w.take(i as int));
            assert(w.take(i + 1).last() == v@[i as int]@);
            assert(source_views(out@) =~= source_views(before).insert(p as int, g@));
        }
    }
    assert(w.take(w.len() as int) =~= w);
    out
}

/// What stands between the brackets of a package list.
pub fn render_package_list_inner(packages: &Vec<String>) -> (r: String)
    ensures
        r@ == list_inner(views(packages@)),
{
    let u: Vec<String> = sort_unique(packages);
    let ghost w = views(u@);
    let mut body: String = String::new();
    assert(body@ =~= package_lines(w.take(0)));
    for i in 0..u.len()
        invariant
            w == views(u@),
            body@ == package_lines(w.take(i as int)),
    {
        body.append("    ");
        body.append(&u[i]);
        body.append("\n");
        proof {
            assert(w.take(i + 1).drop_last() =~= w.take(i as int));
            assert(w.take(i + 1).last() == u@[i as int]@);
        }
    }
    assert(w.take(w.len() as int) =~= w);
    concat3("\n", &body, "  ")
}

// ---------------------------------------------------------------------------
// Editing
// ---------------------------------------------------------------------------

/// The texts other than `x`.
pub open spec fn without(s: Seq<Seq<char>>, x: Seq<char>) -> Seq<Seq<char>>
    decreases s.len(),
{
    if s.len() == 0 {
        s
    } else if s.last() == x {
        without(s.drop_last(), x)
    } else {
        without(s.drop_last(), x).push(s.last())
    }
}

/// The sources with another name than `x`.
pub open spec fn without_source(s: Seq<SourceView>, x: Seq<char>) -> Seq<SourceView>
    decreases s.len(),
{
    if s.len() == 0 {
        s
    } else if s.last().name == x {
        without_source(s.drop_last(), x)
    } else {
        without_source(s.drop_last(), x).push(s.last())
    }
}

/// The names of some sources.
pub open spec fn source_names(s: Seq<SourceView>) -> Seq<Seq<char>> {
    Seq::new(s.len(), |i: int| s[i].name)
}

/// The first source with the name `x`, counted from 0; the number of sources where none has it.
pub open spec fn source_at(s: Seq<SourceView>, x: Seq<char>) -> int
    decreases s.len(),
{
    if s.len() == 0 || s[0].name == x {
        0
    } else {
        1 + source_at(s.drop_first(), x)
    }
}

/// Every name that a category declares: its packages, then its GitHub sources.
pub open spec fn identifiers(c: CategoryView) -> Seq<Seq<char>> {
    c.packages + source_names(c.github)
}

/// The category declares the name `id`, as a package or as a GitHub source.
pub open spec fn declares(c: CategoryView, id: Seq<char>) -> bool {
    c.packages.contains(id) || source_names(c.github).contains(id)
}

/// The category with the package `p`, unless it declares that name already.
pub open spec fn with_package(c: CategoryView, p: Seq<char>) -> CategoryView {
    if declares(c, p) {
        c
    } else {
        CategoryView { packages: sorted(c.packages.push(p)), ..c }
    }
}

/// The category with the GitHub source `g`, unless it declares that name already.
pub open spec fn with_source(c: CategoryView, g: SourceView) -> CategoryView {
    if declares(c, g.name) {
        c
    } else {
        CategoryView { github: c.github.push(g), ..c }
    }
}

/// The category with an entry, unless it declares that name already.
pub open spec fn with_entry(c: CategoryView, e: EntryView) -> CategoryView {
    match e {
        EntryView::Plain(p) => with_package(c, p),
        EntryView::Github(g) => with_source(c, g),
    }
}

/// The entry of a category under the name `id`: a package before a GitHub source, and of several
/// sources the first.
pub open spec fn entry_of(c: CategoryView, id: Seq<char>) -> Option<EntryView> {
    if c.packages.contains(id) {
        Some(EntryView::Plain(id))
    } else if source_at(c.github, id) < c.github.len() {
        Some(EntryView::Github(c.github[source_at(c.github, id)]))
    } else {
        None
    }
}

/// The category without its entry under the name `id`.
pub open spec fn without_entry(c: CategoryView, id: Seq<char>) -> CategoryView {
    if c.packages.contains(id) {
        CategoryView { packages: without(c.packages, id), ..c }
    } else if source_at(c.github, id) < c.github.len() {
        CategoryView { github: c.github.remove(source_at(c.github, id)), ..c }
    } else {
        c
    }
}

pub proof fn lemma_source_at(s: Seq<SourceView>, x: Seq<char>)
    ensures
        0 <= source_at(s, x) <= s.len(),
        source_at(s, x) < s.len() <==> source_names(s).contains(x),
        source_at(s, x) < s.len() ==> s[source_at(s, x)].name == x,
        forall|j: int| 0 <= j < source_at(s, x) ==> (#[trigger] s[j]).name != x,
    decreases s.len(),
{
    if s.len() == 0 {
        assert(!source_names(s).contains(x));
    } else if s[0].name == x {
        assert(source_names(s)[0] == x);
    } else {
        let t = s.drop_first();
        lemma_source_at(t, x);
        assert forall|j: int| 0 <= j < source_at(s, x) implies (#[trigger] s[j]).name != x by {
            if j > 0 {
                assert(s[j] == t[j - 1]);
            }
        }
        if source_names(t).contains(x) {
            let j = choose|j: int| 0 <= j < t.len() && source_names(t)[j] == x;
            assert(source_names(s)[j + 1] == x);
        }
        if source_names(s).contains(x) {
            let j = choose|j: int| 0 <= j < s.len() && source_names(s)[j] == x;
            assert(source_names(t)[j - 1] == x);
        }
    }
}

pub proof fn lemma_without_len(s: Seq<Seq<char>>, x: Seq<char>)
    ensures
        without(s, x).len() <= s.len(),
        without(s, x).len() < s.len() <==> s.contains(x),
        !without(s, x).contains(x),
        forall|y: Seq<char>| y != x ==> (#[trigger] without(s, x).contains(y) <==> s.contains(y)),
    decreases s.len(),
{
    if s.len() > 0 {
        let t = s.drop_last();
        lemma_without_len(t, x);
        if s.contains(x) && s.last() != x {
            let i = choose|i: int| 0 <= i < s.len() && s[i] == x;
            assert(t[i] == x);
        }
        if t.contains(x) {
            let i = choose|i: int| 0 <= i < t.len() && t[i] == x;
            assert(s[i] == x);
        }
        if s.last() == x {
            assert(s[s.len() - 1] == x);
        }
        assert forall|y: Seq<char>| y != x implies (#[trigger] without(s, x).contains(y) <==> s.contains(
            y,
        )) by {
            let r = without(s, x);
            assert(without(t, x).contains(y) <==> t.contains(y));
            if s.contains(y) {
                let i = choose|i: int| 0 <= i < s.len() && s[i] == y;
                if i < t.len() {
                    assert(t[i] == y);
                    let j = choose|j: int| 0 <= j < without(t, x).len() && without(t, x)[j] == y;
                    assert(r[j] == y);
                } else {
                    assert(r[r.len() - 1] == y);
                }
            }
            if r.contains(y) {
                let j = choose|j: int| 0 <= j < r.len() && r[j] == y;
                if j < without(t, x).len() {
                    assert(without(t, x)[j] == y);
                    let i = choose|i: int| 0 <= i < t.len() && t[i] == y;
                    assert(s[i] == y);
                } else {
                    assert(s[s.len() - 1] == y);
                }
            }
        }
    }
}

pub proof fn lemma_without_source_len(s: Seq<SourceView>, x: Seq<char>)
    ensures
        without_source(s, x).len() <= s.len(),
        without_source(s, x).len() < s.len() <==> source_names(s).contains(x),
        !source_names(without_source(s, x)).contains(x),
    decreases s.len(),
{
    if s.len() > 0 {
        let t = s.drop_last();
        let r = without_source(s, x);
        lemma_without_source_len(t, x);
        if source_names(s).contains(x) && s.last().name != x {
            let i = choose|i: int| 0 <= i < s.len() && source_names(s)[i] == x;
            assert(source_names(t)[i] == x);
        }
        if source_names(t).contains(x) {
            let i = choose|i: int| 0 <= i < t.len() && source_names(t)[i] == x;
            assert(source_names(s)[i] == x);
        }
        if s.last().name == x {
            assert(source_names(s)[s.len() - 1] == x);
        } else if source_names(r).contains(x) {
            let i = choose|i: int| 0 <= i < r.len() && source_names(r)[i] == x;
            assert(i < without_source(t, x).len());
            assert(source_names(without_source(t, x))[i] == x);
        }
    }
}

impl Category {
    /// The text of a new, empty category file.
    pub fn template(name: &str) -> (r: String)
        ensures
            r@ == plain_text(name@, "\n  "@),
    {
        plain_file(name, "\n  ")
    }

    /// The category whose file at `path` holds `raw`. Where the list or the set of sources has
    /// a shape that is not recognized, the file is refused.
    pub fn load(name: &str, path: String, raw: String) -> (r: Result<Category, NixlayerError>)
        ensures
            match r {
                Ok(c) => read_category(name@, path@, raw@) == Ok::<CategoryView, ErrorView>(c@),
                Err(e) => read_category(name@, path@, raw@) == Err::<CategoryView, ErrorView>(e@),
            },
    {
        let github: Vec<GithubSource> = match Category::parse_github(&path, &raw) {
            Ok(v) => v,
            Err(e) => {
                return Err(e);
            },
        };
        let packages: Vec<String> = match Category::parse_packages(&path, &raw) {
            Ok(v) => v,
            Err(e) => {
                return Err(e);
            },
        };
        Ok(Category { name: name.to_string(), path, packages, github, raw })
    }

    /// An empty category whose file is not written yet.
    pub fn new_empty(name: &str, path: String) -> (r: Category)
        ensures
            r@ == empty_category(name@, path@),
    {
        let raw: String = Category::template(name);
        let c: Category = Category {
            name: name.to_string(),
            path,
            packages: Vec::new(),
            github: Vec::new(),
            raw,
        };
        assert(c@.packages =~= Seq::<Seq<char>>::empty());
        assert(c@.github =~= Seq::<SourceView>::empty());
        c
    }

    /// The packages that the text of a category file declares.
    pub fn parse_packages(path: &str, raw: &str) -> (r: Result<Vec<String>, NixlayerError>)
        ensures
            match r {
                Ok(v) => read_packages(path@, raw@) == Ok::<Seq<Seq<char>>, ErrorView>(views(v@)),
                Err(e) => read_packages(path@, raw@) == Err::<Seq<Seq<char>>, ErrorView>(e@),
            },
    {
        let cs: Vec<char> = chars_of(raw);
        let m: usize = match find(&cs, &chars_of(MARKER), 0) {
            Some(m) => m,
            None => {
                return Err(
                    NixlayerError::UnparseableCategoryFile(
                        path.to_string(),
                        "no environment.systemPackages found".to_string(),
                    ),
                );
            },
        };
        proof {
            lemma_find_from(raw@, MARKER@, 0);
        }
        match find_block(&cs, '[', ']', m) {
            None => Err(
                NixlayerError::UnparseableCategoryFile(
                    path.to_string(),
                    "no [ ... ] list found".to_string(),
                ),
            ),
            Some((p, q)) => match tokenize_package_list(&slice(&cs, p + 1, q)) {
                Ok(v) => Ok(v),
                Err(e) => Err(NixlayerError::UnparseableCategoryFile(path.to_string(), e.message())),
            },
        }
    }

    /// The GitHub sources that the text of a category file declares: none where it has no
    /// `ghPkgs` set.
    pub fn parse_github(path: &str, raw: &str) -> (r: Result<Vec<GithubSource>, NixlayerError>)
        ensures
            match r {
                Ok(v) => read_github(path@, raw@) == Ok::<Seq<SourceView>, ErrorView>(
                    source_views(v@),
                ),
                Err(e) => read_github(path@, raw@) == Err::<Seq<SourceView>, ErrorView>(e@),
            },
    {
        let cs: Vec<char> = chars_of(raw);
        let marker: Vec<char> = chars_of(GH_MARKER);
        let m: usize = match find(&cs, &marker, 0) {
            Some(m) => m,
            None => {
                let v: Vec<GithubSource> = Vec::new();
                assert(source_views(v@) =~= Seq::<SourceView>::empty());
                return Ok(v);
            },
        };
        proof {
            lemma_find_from(raw@, GH_MARKER@, 0);
            reveal_strlit("ghPkgs = ");
        }
        let n: usize = cs.len();
        let start: usize = m + marker.len() - 1;
        let (p, q): (usize, usize) = match find_block(&cs, '{', '}', start) {
            Some(b) => b,
            None => {
                return Err(
                    NixlayerError::UnparseableCategoryFile(
                        path.to_string(),
                        "ghPkgs = { ... } block is malformed".to_string(),
                    ),
                );
            },
        };
        if !includes(raw, GH_SUFFIX) {
            return Err(
                NixlayerError::UnparseableCategoryFile(
                    path.to_string(),
                    concat3("found a ghPkgs block but no `", GH_SUFFIX, "` in systemPackages"),
                ),
            );
        }
        match read_source_lines(&slice(&cs, p + 1, q)) {
            Ok(v) => Ok(v),
            Err(m) => Err(NixlayerError::UnparseableCategoryFile(path.to_string(), m)),
        }
    }

    /// The text of the category file. A file without GitHub sources keeps every character
    /// outside its package list. A file that has or had GitHub sources is made anew, so that no
    /// stale source stays behind.
    pub fn render(&self) -> (r: Result<String, NixlayerError>)
        ensures
            match r {
                Ok(s) => rendered(self@) == Ok::<Seq<char>, ErrorView>(s@),
                Err(e) => rendered(self@) == Err::<Seq<char>, ErrorView>(e@),
            },
    {
        if self.github.len() == 0 && !includes(&self.raw, GH_MARKER) {
            self.render_simple()
        } else {
            Ok(self.render_regenerated())
        }
    }

    fn render_simple(&self) -> (r: Result<String, NixlayerError>)
        ensures
            match r {
                Ok(s) => patched_text(self@) == Ok::<Seq<char>, ErrorView>(s@),
                Err(e) => patched_text(self@) == Err::<Seq<char>, ErrorView>(e@),
            },
    {
        let cs: Vec<char> = chars_of(&self.raw);
        let m: usize = match find(&cs, &chars_of(MARKER), 0) {
            Some(m) => m,
            None => {
                return Err(
                    NixlayerError::UnparseableCategoryFile(
                        self.path.clone(),
                        "marker missing".to_string(),
                    ),
                );
            },
        };
        proof {
            lemma_find_from(cs@, MARKER@, 0);
        }
        match find_block(&cs, '[', ']', m) {
            None => Err(
                NixlayerError::UnparseableCategoryFile(
                    self.path.clone(),
                    "list missing".to_string(),
                ),
            ),
            Some((p, q)) => {
                let inner: String = render_package_list_inner(&self.packages);
                let head: String = slice(&cs, 0, p + 1);
                let tail: String = slice(&cs, q, cs.len());
                assert(head@ =~= cs@.take(p + 1));
                assert(tail@ =~= cs@.skip(q as int));
                Ok(concat3(&head, &inner, &tail))
            },
        }
    }

    /// The text of a file that is made anew from what the category declares.
    pub fn render_regenerated(&self) -> (r: String)
        ensures
            r@ == regenerated_text(self@),
    {
        let inner: String = render_package_list_inner(&self.packages);
        if self.github.len() == 0 {
            return plain_file(&self.name, &inner);
        }
        let gh: Vec<GithubSource> = sort_sources(&self.github);
        let ghost w = source_views(gh@);
        let mut body: String = String::new();
        assert(body@ =~= all_source_lines(w.take(0)));
        for i in 0..gh.len()
            invariant
                w == source_views(gh@),
                body@ == all_source_lines(w.take(i as int)),
        {
            body.append(&render_source(&gh[i]));
            proof {
                assert(w.take(i + 1).drop_last() =~= w.take(i as int));
                assert(w.take(i + 1).last() == gh@[i as int]@);
            }
        }
        assert(w.take(w.len() as int) =~= w);
        let mut s: String = concat3(HEAD, &self.name, GH_NOTE);
        s.append(GH_MARKER);
        s.append("{\n");
        s.append(&body);
        s.append("  };\nin\n{\n  ");
        s.append(MARKER);
        s.append(" = with pkgs; [");
        s.append(&inner);
        s.append("]");
        s.append(GH_SUFFIX);
        s.append(";\n}\n");
        s
    }

    /// Whether the category declares `package` as a plain package.
    pub fn contains(&self, package: &str) -> (r: bool)
        ensures
            r == self@.packages.contains(package@),
    {
        holds(&self.packages, package)
    }

    /// The position of the first GitHub source called `name`.
    fn position(&self, name: &str) -> (r: usize)
        ensures
            r == source_at(self@.github, name@),
            r <= self.github@.len(),
    {
        let ghost w = self@.github;
        let mut i: usize = 0;
        assert(w.skip(0) =~= w);
        while i < self.github.len() && !same(&self.github[i].name, name)
            invariant
                i <= self.github@.len(),
                w == source_views(self.github@),
                source_at(w, name@) == i + source_at(w.skip(i as int), name@),
            decreases self.github@.len() - i,
        {
            assert(w.skip(i as int).drop_first() =~= w.skip(i + 1));
            i = i + 1;
        }
        i
    }

    /// Whether the category declares a GitHub source called `name`.
    pub fn contains_github(&self, name: &str) -> (r: bool)
        ensures
            r == source_names(self@.github).contains(name@),
    {
        proof {
            lemma_source_at(self@.github, name@);
        }
        self.position(name) < self.github.len()
    }

    /// Whether the category declares `id` as a package or as a GitHub source.
    pub fn contains_any(&self, id: &str) -> (r: bool)
        ensures
            r == declares(self@, id@),
    {
        self.contains(id) || self.contains_github(id)
    }

    /// Add a package. Nothing happens, and the result is false, where the name is taken.
    pub fn add(&mut self, package: &str) -> (r: bool)
        ensures
            final(self)@ == with_package(old(self)@, package@),
            r == !declares(old(self)@, package@),
    {
        if self.contains_any(package) {
            return false;
        }
        let ghost before = self.packages@;
        let s: String = package.to_string();
        proof {
            lemma_views_push(before, s);
        }
        self.packages.push(s);
        let v: Vec<String> = sort(&self.packages);
        self.packages = v;
        true
    }

    /// Remove a package; the result is false where it was not there.
    pub fn remove(&mut self, package: &str) -> (r: bool)
        ensures
            final(self)@ == (CategoryView {
                packages: without(old(self)@.packages, package@),
                ..old(self)@
            }),
            r == old(self)@.packages.contains(package@),
    {
        let before: usize = self.packages.len();
        let ghost w = views(self.packages@);
        let mut kept: Vec<String> = Vec::new();
        assert(views(kept@) =~= without(w.take(0), package@));
        for i in 0..self.packages.len()
            invariant
                w == views(self.packages@),
                views(kept@) == without(w.take(i as int), package@),
        {
            proof {
                assert(w.take(i + 1).drop_last() =~= w.take(i as int));
                assert(w.take(i + 1).last() == self.packages@[i as int]@);
            }
            if !same(&self.packages[i], package) {
                let s: String = self.packages[i].clone();
                proof {
                    lemma_views_push(kept@, s);
                }
                kept.push(s);
            }
        }
        proof {
            assert(w.take(w.len() as int) =~= w);
            lemma_without_len(w, package@);
        }
        self.packages = kept;
        self.packages.len() != before
    }

    /// Add a GitHub source. Nothing happens, and the result is false, where the name is taken.
    pub fn add_github(&mut self, source: GithubSource) -> (r: bool)
        ensures
            final(self)@ == with_source(old(self)@, source@),
            r == !declares(old(self)@, source@.name),
    {
        if self.contains_any(&source.name) {
            return false;
        }
        proof {
            lemma_source_views_push(self.github@, source);
        }
        self.github.push(source);
        true
    }

    /// Remove the GitHub sources called `name`; the result is false where there was none.
    pub fn remove_github(&mut self, name: &str) -> (r: bool)
        ensures
            final(self)@ == (CategoryView {
                github: without_source(old(self)@.github, name@),
                ..old(self)@
            }),
            r == source_names(old(self)@.github).contains(name@),
    {
        let before: usize = self.github.len();
        let ghost w = source_views(self.github@);
        let mut kept: Vec<GithubSource> = Vec::new();
        assert(source_views(kept@) =~= without_source(w.take(0), name@));
        for i in 0..self.github.len()
            invariant
                w == source_views(self.github@),
                source_views(kept@) == without_source(w.take(i as int), name@),
        {
            proof {
                assert(w.take(i + 1).drop_last() =~= w.take(i as int));
                assert(w.take(i + 1).last() == self.github@[i as int]@);
            }
            if !same(&self.github[i].name, name) {
                let g: GithubSource = self.github[i].copy();
                proof {
                    lemma_source_views_push(kept@, g);
                }
                kept.push(g);
            }
        }
        proof {
            assert(w.take(w.len() as int) =~= w);
            lemma_without_source_len(w, name@);
        }
        self.github = kept;
        self.github.len() != before
    }

    /// Remove and return the entry called `id`, of whichever kind it is.
    pub fn take_entry(&mut self, id: &str) -> (r: Option<Entry>)
        ensures
            final(self)@ == without_entry(old(self)@, id@),
            match r {
                Some(e) => entry_of(old(self)@, id@) == Some(e@),
                None => entry_of(old(self)@, id@) is None,
            },
    {
        if self.contains(id) {
            self.remove(id);
            return Some(Entry::Plain(id.to_string()));
        }
        let pos: usize = self.position(id);
        if pos < self.github.len() {
            let ghost before = self.github@;
            let g: GithubSource = self.github.remove(pos);
            proof {
                assert(source_views(self.github@) =~= source_views(before).remove(pos as int));
            }
            return Some(Entry::Github(g));
        }
        None
    }

    /// Insert an entry that was taken. Nothing happens, and the result is false, where the name
    /// is taken.
    pub fn insert_entry(&mut self, entry: Entry) -> (r: bool)
        ensures
            final(self)@ == with_entry(old(self)@, entry@),
            r == !declares(old(self)@, entry_name(entry@)),
    {
        match entry {
            Entry::Plain(p) => self.add(&p),
            Entry::Github(g) => self.add_github(g),
        }
    }

    /// Every name that the category declares.
    pub fn all_identifiers(&self) -> (r: Vec<String>)
        ensures
            views(r@) == identifiers(self@),
    {
        let mut v: Vec<String> = Vec::new();
        let ghost p = self@.packages;
        let ghost n = source_names(self@.github);
        assert(views(v@) =~= p.take(0));
        for i in 0..self.packages.len()
            invariant
                p == views(self.packages@),
                views(v@) == p.take(i as int),
        {
            let s: String = self.packages[i].clone();
            proof {
                lemma_views_push(v@, s);
                assert(p.take(i + 1) =~= p.take(i as int).push(s@));
            }
            v.push(s);
        }
        assert(p.take(p.len() as int) + n.take(0) =~= p);
        for i in 0..self.github.len()
            invariant
                n == source_names(source_views(self.github@)),
                views(v@) == p + n.take(i as int),
        {
            let s: String = self.github[i].name.clone();
            proof {
                lemma_views_push(v@, s);
                assert((p + n.take(i as int)).push(s@) =~= p + n.take(i + 1));
            }
            v.push(s);
        }
        assert(n.take(n.len() as int) =~= n);
        v
    }

    /// A category with the same contents.
    pub fn copy(&self) -> (r: Category)
        ensures
            r@ == self@,
    {
        let mut packages: Vec<String> = Vec::new();
        let ghost p = self@.packages;
        assert(views(packages@) =~= p.take(0));
        for i in 0..self.packages.len()
            invariant
                p == views(self.packages@),
                views(packages@) == p.take(i as int),
        {
            let s: String = self.packages[i].clone();
            proof {
                lemma_views_push(packages@, s);
                assert(p.take(i + 1) =~= p.take(i as int).push(s@));
            }
            packages.push(s);
        }
        let mut github: Vec<GithubSource> = Vec::new();
        let ghost g = self@.github;
        assert(source_views(github@) =~= g.take(0));
        for i in 0..self.github.len()
            invariant
                g == source_views(self.github@),
                source_views(github@) == g.take(i as int),
        {
            let s: GithubSource = self.github[i].copy();
            proof {
                lemma_source_views_push(github@, s);
                assert(g.take(i + 1) =~= g.take(i as int).push(s@));
            }
            github.push(s);
        }
        assert(p.take(p.len() as int) =~= p);
        assert(g.take(g.len() as int) =~= g);
        Category {
            name: self.name.clone(),
            path: self.path.clone(),
            packages,
            github,
            raw: self.raw.clone(),
        }
    }
}

// ---------------------------------------------------------------------------
// Names
// ---------------------------------------------------------------------------

/// A letter, then letters, digits, `-` and `_`.
pub open spec fn is_name(s: Seq<char>) -> bool {
    &&& s.len() > 0
    &&& is_alpha(s[0])
    &&& forall|i: int| 0 <= i < s.len() ==> is_alnum(#[trigger] s[i]) || s[i] == '-' || s[i] == '_'
}

pub open spec fn name_error(name: Seq<char>) -> ErrorView {
    ErrorView::Other(
        "'"@ + name
            + "' isn't a valid category name (use letters, digits, - or _, starting with a letter)"@,
    )
}

/// Refuse a name that is no valid category name.
pub fn ensure_valid_category_name(name: &str) -> (r: Result<(), NixlayerError>)
    ensures
        match r {
            Ok(_) => is_name(name@),
            Err(e) => !is_name(name@) && e@ == name_error(name@),
        },
{
    let cs: Vec<char> = chars_of(name);
    let mut ok: bool = cs.len() > 0 && alpha(cs[0]);
    let mut i: usize = 0;
    while ok && i < cs.len()
        invariant
            i <= cs@.len(),
            cs@ == name@,
            ok ==> cs@.len() > 0 && is_alpha(cs@[0]) && forall|j: int|
                0 <= j < i ==> is_alnum(#[trigger] cs@[j]) || cs@[j] == '-' || cs@[j] == '_',
            !ok ==> !is_name(name@),
        decreases cs@.len() - i + (if ok { 1int } else { 0int }),
    {
        let c: char = cs[i];
        if alnum(c) || c == '-' || c == '_' {
            i = i + 1;
        } else {
            assert(cs@[i as int] == c);
            ok = false;
        }
    }
    if ok {
        Ok(())
    } else {
        Err(
            NixlayerError::Other(
                concat3(
                    "'",
                    name,
                    "' isn't a valid category name (use letters, digits, - or _, starting with a letter)",
                ),
            ),
        )
    }
}

/// Refuse a name that no GitHub source can have: the rules are those for a category.
pub fn ensure_valid_source_name(name: &str) -> (r: Result<(), NixlayerError>)
    ensures
        match r {
            Ok(_) => is_name(name@),
            Err(e) => !is_name(name@) && e@ == name_error(name@),
        },
{
    ensure_valid_category_name(name)
}

// ---------------------------------------------------------------------------
// All categories
// ---------------------------------------------------------------------------

/// What loading a category gave, as views.
pub open spec fn result_view(r: Result<Category, NixlayerError>) -> Result<CategoryView, ErrorView> {
    match r {
        Ok(c) => Ok(c@),
        Err(e) => Err(e@),
    }
}

/// What loading some categories gave, as views.
pub open spec fn loaded_views(v: Seq<(String, Result<Category, NixlayerError>)>) -> Seq<
    (Seq<char>, Result<CategoryView, ErrorView>),
> {
    Seq::new(v.len(), |i: int| (v[i].0@, result_view(v[i].1)))
}

/// What loading the category gives whose file holds `text`.
pub open spec fn load_text(
    name: Seq<char>,
    path: Seq<char>,
    text: Result<Seq<char>, Seq<char>>,
) -> Result<CategoryView, ErrorView> {
    match text {
        Ok(raw) => read_category(name, path, raw),
        Err(m) => Err(ErrorView::Io(m)),
    }
}

/// What loading the category `name` of the managed directory gives.
pub open spec fn load_named(p: PathsView, files: Seq<FileView>, name: Seq<char>) -> Result<
    CategoryView,
    ErrorView,
> {
    load_text(name, category_path(p, name), text_at(files, category_file_name(name))->0)
}

/// Every category of the managed directory, in ascending order of the names.
pub open spec fn loaded(p: PathsView, files: Seq<FileView>) -> Seq<
    (Seq<char>, Result<CategoryView, ErrorView>),
> {
    let names = category_names(files);
    Seq::new(names.len(), |i: int| (names[i], load_named(p, files, names[i])))
}

/// The categories that declare the name `id`, in order. A category that could not be loaded
/// declares nothing.
pub open spec fn declaring(
    all: Seq<(Seq<char>, Result<CategoryView, ErrorView>)>,
    id: Seq<char>,
) -> Seq<Seq<char>>
    decreases all.len(),
{
    if all.len() == 0 {
        Seq::empty()
    } else {
        let before = declaring(all.drop_last(), id);
        match all.last().1 {
            Ok(c) => if declares(c, id) {
                before.push(all.last().0)
            } else {
                before
            },
            Err(_) => before,
        }
    }
}

/// Every name that some category declares, category by category.
pub open spec fn all_declared(all: Seq<(Seq<char>, Result<CategoryView, ErrorView>)>) -> Seq<Seq<char>>
    decreases all.len(),
{
    if all.len() == 0 {
        Seq::empty()
    } else {
        match all.last().1 {
            Ok(c) => all_declared(all.drop_last()) + identifiers(c),
            Err(_) => all_declared(all.drop_last()),
        }
    }
}

/// The names among `ids` that more than one category declares, each with those categories.
pub open spec fn conflicts(
    all: Seq<(Seq<char>, Result<CategoryView, ErrorView>)>,
    ids: Seq<Seq<char>>,
) -> Seq<(Seq<char>, Seq<Seq<char>>)>
    decreases ids.len(),
{
    if ids.len() == 0 {
        Seq::empty()
    } else {
        let before = conflicts(all, ids.drop_last());
        if declaring(all, ids.last()).len() > 1 {
            before.push((ids.last(), declaring(all, ids.last())))
        } else {
            before
        }
    }
}

/// The names that more than one category declares, in ascending order, each with those
/// categories.
pub open spec fn duplicates(all: Seq<(Seq<char>, Result<CategoryView, ErrorView>)>) -> Seq<
    (Seq<char>, Seq<Seq<char>>),
> {
    conflicts(all, unique(all_declared(all)))
}

/// Names with categories, as views.
pub open spec fn conflict_views(v: Seq<(String, Vec<String>)>) -> Seq<(Seq<char>, Seq<Seq<char>>)> {
    Seq::new(v.len(), |i: int| (v[i].0@, views(v[i].1@)))
}

/// Load a category from what its file holds.
pub fn load_stored(name: &str, path: String, text: &Result<String, String>) -> (r: Result<
    Category,
    NixlayerError,
>)
    ensures
        result_view(r) == load_text(name@, path@, text_view(*text)),
{
    match text {
        Ok(raw) => Category::load(name, path, raw.clone()),
        Err(m) => Err(NixlayerError::Io(m.clone())),
    }
}

proof fn lemma_category_has_file(files: Seq<FileView>, name: Seq<char>)
    requires
        categories_of(files).contains(name),
    ensures
        text_at(files, category_file_name(name)) is Some,
    decreases files.len(),
{
    let k = choose|k: int| 0 <= k < categories_of(files).len() && categories_of(files)[k] == name;
    let f = category_file_name(name);
    lemma_file_at(files, f);
    if file_at(files, f) >= files.len() {
        let t = files.drop_last();
        match category_of(files.last().name) {
            Some(c) => {
                categories_and_files_match(name, files.last().name);
                assert(files[files.len() - 1].name != f);
                assert(c != name);
                assert(k < categories_of(t).len());
            },
            None => {},
        }
        assert(categories_of(t)[k] == name);
        assert(categories_of(t).contains(name));
        lemma_category_has_file(t, name);
        lemma_file_at(t, f);
        let j = file_at(t, f);
        assert(t[j] == files[j]);
    }
}

/// A listed category has a file.
pub proof fn lemma_listed_has_file(files: Seq<FileView>, name: Seq<char>)
    requires
        category_names(files).contains(name),
    ensures
        text_at(files, category_file_name(name)) is Some,
{
    lemma_sort_contains(categories_of(files), itself(), name);
    lemma_category_has_file(files, name);
}

/// Load every category. One that cannot be loaded is handed out with the reason, so that a
/// caller can report it.
pub fn load_all(paths: &Paths, files: &Vec<StoredFile>) -> (r: Vec<
    (String, Result<Category, NixlayerError>),
>)
    ensures
        loaded_views(r@) == loaded(paths@, file_views(files@)),
{
    let names: Vec<String> = paths.list_categories(files);
    let ghost w = file_views(files@);
    let mut out: Vec<(String, Result<Category, NixlayerError>)> = Vec::new();
    assert(loaded_views(out@) =~= loaded(paths@, w).take(0));
    for i in 0..names.len()
        invariant
            w == file_views(files@),
            views(names@) == category_names(w),
            loaded_views(out@) == loaded(paths@, w).take(i as int),
    {
        let ghost n = names@[i as int]@;
        proof {
            assert(views(names@)[i as int] == n);
            assert(category_names(w).contains(n));
            lemma_listed_has_file(w, n);
        }
        match find_file(files, &concat2(&names[i], ".nix")) {
            Some(f) => {
                let path: String = paths.category_file(&names[i]);
                let c: Result<Category, NixlayerError> = load_stored(&names[i], path, &f.text);
                let ghost before = out@;
                out.push((names[i].clone(), c));
                proof {
                    let all = loaded(paths@, w);
                    assert(all.take(i + 1) =~= all.take(i as int).push(all[i as int]));
                    assert(loaded_views(out@) =~= loaded_views(before).push((n, result_view(c))));
                }
            },
            None => {},
        }
    }
    assert(loaded(paths@, w).take(category_names(w).len() as int) =~= loaded(paths@, w));
    out
}

/// The categories that declare `identifier`, as a package or as a GitHub source. In a healthy
/// setup there is at most one.
pub fn find_package(all: &Vec<(String, Result<Category, NixlayerError>)>, identifier: &str) -> (r: Vec<
    String,
>)
    ensures
        views(r@) == declaring(loaded_views(all@), identifier@),
{
    let mut found: Vec<String> = Vec::new();
    let ghost w = loaded_views(all@);
    assert(views(found@) =~= declaring(w.take(0), identifier@));
    for i in 0..all.len()
        invariant
            w == loaded_views(all@),
            views(found@) == declaring(w.take(i as int), identifier@),
    {
        proof {
            assert(w.take(i + 1).drop_last() =~= w.take(i as int));
            assert(w.take(i + 1).last() == (all@[i as int].0@, result_view(all@[i as int].1)));
        }
        match &all[i].1 {
            Ok(c) => {
                if c.contains_any(identifier) {
                    let s: String = all[i].0.clone();
                    proof {
                        lemma_views_push(found@, s);
                    }
                    found.push(s);
                }
            },
            Err(_) => {},
        }
    }
    assert(w.take(w.len() as int) =~= w);
    found
}

fn declared(all: &Vec<(String, Result<Category, NixlayerError>)>) -> (r: Vec<String>)
    ensures
        views(r@) == all_declared(loaded_views(all@)),
{
    let mut out: Vec<String> = Vec::new();
    let ghost w = loaded_views(all@);
    assert(views(out@) =~= all_declared(w.take(0)));
    for i in 0..all.len()
        invariant
            w == loaded_views(all@),
            views(out@) == all_declared(w.take(i as int)),
    {
        proof {
            assert(w.take(i + 1).drop_last() =~= w.take(i as int));
            assert(w.take(i + 1).last() == (all@[i as int].0@, result_view(all@[i as int].1)));
        }
        match &all[i].1 {
            Ok(c) => {
                let ids: Vec<String> = c.all_identifiers();
                let ghost before = views(out@);
                let ghost v = views(ids@);
                assert(before + v.take(0) =~= before);
                for j in 0..ids.len()
                    invariant
                        v == views(ids@),
                        views(out@) == before + v.take(j as int),
                {
                    let s: String = ids[j].clone();
                    proof {
                        lemma_views_push(out@, s);
                        assert((before + v.take(j as int)).push(s@) =~= before + v.take(j + 1));
                    }
                    out.push(s);
                }
                assert(v.take(v.len() as int) =~= v);
            },
            Err(_) => {},
        }
    }
    assert(w.take(w.len() as int) =~= w);
    out
}

/// The names that are declared in two or more categories, in ascending order, each with the
/// categories that declare it. An empty result means that there are no duplicates.
pub fn find_duplicates(all: &Vec<(String, Result<Category, NixlayerError>)>) -> (r: Vec<
    (String, Vec<String>),
>)
    ensures
        conflict_views(r@) == duplicates(loaded_views(all@)),
{
    let ids: Vec<String> = sort_unique(&declared(all));
    let ghost w = loaded_views(all@);
    let ghost v = views(ids@);
    let mut out: Vec<(String, Vec<String>)> = Vec::new();
    assert(conflict_views(out@) =~= conflicts(w, v.take(0)));
    for i in 0..ids.len()
        invariant
            w == loaded_views(all@),
            v == views(ids@),
            conflict_views(out@) == conflicts(w, v.take(i as int)),
    {
        proof {
            assert(v.take(i + 1).drop_last() =~= v.take(i as int));
            assert(v.take(i + 1).last() == ids@[i as int]@);
        }
        let cats: Vec<String> = find_package(all, &ids[i]);
        if cats.len() > 1 {
            let ghost before = out@;
            let ghost c = views(cats@);
            assert(c.len() == cats@.len());
            out.push((ids[i].clone(), cats));
            assert(conflict_views(out@) =~= conflict_views(before).push((ids@[i as int]@, c)));
        } else {
            assert(views(cats@).len() == cats@.len());
        }
    }
    assert(v.take(v.len() as int) =~= v);
    out
}

} // verus!

//! Where things are: the NixOS configuration, and the one directory in it that is managed.
//!
//! Paths are text. Every path that is written to is made here.

use vstd::prelude::*;

use crate::error::{ErrorView, NixlayerError};
use crate::order::{sort, sorted};
use crate::sources::opt_view;
use crate::text::{
    chars_of, concat2, concat3, decimal, decimal_of, last_at, lemma_views_push, same, slice, views,
};

verus! {

/// The environment variable that names another root of the configuration.
pub const CONFIG_DIR_ENV: &'static str = "NIXLAYER_CONFIG_DIR";

/// The root of the configuration where nothing else is said.
pub const DEFAULT_CONFIG_ROOT: &'static str = "/etc/nixos";

/// Where the configuration of the user lives, and where the managed directory sits inside it.
#[derive(Debug, Clone)]
pub struct Paths {
    /// The root of the NixOS configuration, such as `/etc/nixos`.
    pub config_root: String,
    /// `modules/nixlayer` inside the root: the only directory that package data goes to.
    pub nixlayer_dir: String,
    /// `configuration.nix`, where there is one at the root.
    pub configuration_nix: Option<String>,
    /// `flake.nix`, where there is one at the root.
    pub flake_nix: Option<String>,
}

/// A [`Paths`] with its texts as character sequences.
pub struct PathsView {
    pub config_root: Seq<char>,
    pub nixlayer_dir: Seq<char>,
    pub configuration_nix: Option<Seq<char>>,
    pub flake_nix: Option<Seq<char>>,
}

impl View for Paths {
    type V = PathsView;

    open spec fn view(&self) -> PathsView {
        PathsView {
            config_root: self.config_root@,
            nixlayer_dir: self.nixlayer_dir@,
            configuration_nix: opt_view(self.configuration_nix),
            flake_nix: opt_view(self.flake_nix),
        }
    }
}

/// What was found on disk of the managed directory.
#[derive(Debug, Clone, Copy)]
pub struct Found {
    /// The managed directory is there.
    pub dir: bool,
    /// `default.nix` is there, as a file.
    pub default_nix: bool,
}

/// A file of the managed directory: its name, and its text or what went wrong in reading it.
#[derive(Debug)]
pub struct StoredFile {
    pub name: String,
    pub text: Result<String, String>,
}

/// A [`StoredFile`] with its texts as character sequences.
pub struct FileView {
    pub name: Seq<char>,
    pub text: Result<Seq<char>, Seq<char>>,
}

impl View for StoredFile {
    type V = FileView;

    open spec fn view(&self) -> FileView {
        FileView { name: self.name@, text: text_view(self.text) }
    }
}

pub open spec fn text_view(t: Result<String, String>) -> Result<Seq<char>, Seq<char>> {
    match t {
        Ok(s) => Ok(s@),
        Err(e) => Err(e@),
    }
}

/// The views of some files.
pub open spec fn file_views(v: Seq<StoredFile>) -> Seq<FileView> {
    Seq::new(v.len(), |i: int| v[i]@)
}

// ---------------------------------------------------------------------------
// Paths
// ---------------------------------------------------------------------------

/// The path `part` as seen from `base`: an absolute path stays what it is, and a separator goes
/// between the two only where it is missing.
pub open spec fn join(base: Seq<char>, part: Seq<char>) -> Seq<char> {
    if part.len() > 0 && part[0] == '/' {
        part
    } else if base.len() == 0 || base.last() == '/' {
        base + part
    } else {
        base + "/"@ + part
    }
}

fn joined(base: &str, part: &str) -> (r: String)
    ensures
        r@ == join(base@, part@),
{
    let b: Vec<char> = chars_of(base);
    let p: Vec<char> = chars_of(part);
    if p.len() > 0 && p[0] == '/' {
        part.to_string()
    } else if b.len() == 0 || b[b.len() - 1] == '/' {
        concat2(base, part)
    } else {
        concat3(base, "/", part)
    }
}

/// The paths of the configuration at `root`.
pub open spec fn paths_at(root: Seq<char>, has_configuration: bool, has_flake: bool) -> PathsView {
    PathsView {
        config_root: root,
        nixlayer_dir: join(join(root, "modules"@), "nixlayer"@),
        configuration_nix: if has_configuration {
            Some(join(root, "configuration.nix"@))
        } else {
            None
        },
        flake_nix: if has_flake {
            Some(join(root, "flake.nix"@))
        } else {
            None
        },
    }
}

/// The path of a file of the managed directory.
pub open spec fn managed(p: PathsView, file: Seq<char>) -> Seq<char> {
    join(p.nixlayer_dir, file)
}

/// The name of the file of a category.
pub open spec fn category_file_name(category: Seq<char>) -> Seq<char> {
    category + ".nix"@
}

/// The path of the file of a category.
pub open spec fn category_path(p: PathsView, category: Seq<char>) -> Seq<char> {
    managed(p, category_file_name(category))
}

/// The category that a file of the managed directory holds: every `.nix` file other than
/// `default.nix` holds the one that it is named after.
pub open spec fn category_of(file: Seq<char>) -> Option<Seq<char>> {
    if file == "default.nix"@ || file.len() < 4 || file.skip(file.len() - 4) != ".nix"@ {
        None
    } else {
        Some(file.take(file.len() - 4))
    }
}

/// The categories that some files hold, file by file.
pub open spec fn categories_of(files: Seq<FileView>) -> Seq<Seq<char>>
    decreases files.len(),
{
    if files.len() == 0 {
        Seq::empty()
    } else {
        match category_of(files.last().name) {
            Some(c) => categories_of(files.drop_last()).push(c),
            None => categories_of(files.drop_last()),
        }
    }
}

/// The categories of the managed directory, in ascending order.
pub open spec fn category_names(files: Seq<FileView>) -> Seq<Seq<char>> {
    sorted(categories_of(files))
}

/// The file with the given name, counted from 0; the number of files where there is none.
pub open spec fn file_at(files: Seq<FileView>, name: Seq<char>) -> int
    decreases files.len(),
{
    if files.len() == 0 || files[0].name == name {
        0
    } else {
        1 + file_at(files.drop_first(), name)
    }
}

/// The text of the file with the given name, where there is such a file.
pub open spec fn text_at(files: Seq<FileView>, name: Seq<char>) -> Option<Result<Seq<char>, Seq<char>>> {
    if file_at(files, name) < files.len() {
        Some(files[file_at(files, name)].text)
    } else {
        None
    }
}

pub proof fn lemma_file_at(files: Seq<FileView>, name: Seq<char>)
    ensures
        0 <= file_at(files, name) <= files.len(),
        file_at(files, name) < files.len() ==> files[file_at(files, name)].name == name,
        forall|j: int| 0 <= j < file_at(files, name) ==> (#[trigger] files[j]).name != name,
    decreases files.len(),
{
    if files.len() > 0 && files[0].name != name {
        let t = files.drop_first();
        lemma_file_at(t, name);
        assert forall|j: int| 0 <= j < file_at(files, name) implies (#[trigger] files[j]).name
            != name by {
            if j > 0 {
                assert(files[j] == t[j - 1]);
            }
        }
    }
}

/// The text of the file with the given name, where there is such a file.
pub fn find_file<'a>(files: &'a Vec<StoredFile>, name: &str) -> (r: Option<&'a StoredFile>)
    ensures
        match r {
            Some(f) => text_at(file_views(files@), name@) == Some(text_view(f.text)) && f.name@ == name@,
            None => text_at(file_views(files@), name@) is None,
        },
{
    let ghost w = file_views(files@);
    let mut i: usize = 0;
    assert(w.skip(0) =~= w);
    while i < files.len() && !same(&files[i].name, name)
        invariant
            i <= files@.len(),
            w == file_views(files@),
            file_at(w, name@) == i + file_at(w.skip(i as int), name@),
        decreases files@.len() - i,
    {
        assert(w.skip(i as int).drop_first() =~= w.skip(i + 1));
        i = i + 1;
    }
    if i < files.len() {
        Some(&files[i])
    } else {
        None
    }
}

impl Paths {
    /// The root of the configuration: what the environment names, or the conventional place.
    pub fn root(dir: Option<String>) -> (r: String)
        ensures
            r@ == match opt_view(dir) {
                Some(d) => d,
                None => "/etc/nixos"@,
            },
    {
        match dir {
            Some(d) => d,
            None => DEFAULT_CONFIG_ROOT.to_string(),
        }
    }

    /// The paths of the configuration at `root`. `is_dir` tells whether there is such a
    /// directory, the other two which of the files are there.
    pub fn discover(root: String, is_dir: bool, has_configuration: bool, has_flake: bool) -> (r: Result<
        Paths,
        NixlayerError,
    >)
        ensures
            match r {
                Ok(p) => is_dir && p@ == paths_at(root@, has_configuration, has_flake),
                Err(e) => !is_dir && e@ == ErrorView::ConfigNotFound(root@),
            },
    {
        if !is_dir {
            return Err(NixlayerError::ConfigNotFound(root));
        }
        Ok(Paths::at(root, has_configuration, has_flake))
    }

    /// The paths of the configuration at `root`.
    pub fn at(root: String, has_configuration: bool, has_flake: bool) -> (r: Paths)
        ensures
            r@ == paths_at(root@, has_configuration, has_flake),
    {
        let nixlayer_dir: String = joined(&joined(&root, "modules"), "nixlayer");
        let configuration_nix: Option<String> = if has_configuration {
            Some(joined(&root, "configuration.nix"))
        } else {
            None
        };
        let flake_nix: Option<String> = if has_flake {
            Some(joined(&root, "flake.nix"))
        } else {
            None
        };
        Paths { config_root: root, nixlayer_dir, configuration_nix, flake_nix }
    }

    /// The module that imports every category file.
    pub fn default_nix(&self) -> (r: String)
        ensures
            r@ == managed(self@, "default.nix"@),
    {
        joined(&self.nixlayer_dir, "default.nix")
    }

    /// The snapshot of the last rebuild.
    pub fn state_file(&self) -> (r: String)
        ensures
            r@ == managed(self@, ".nixlayer-state.json"@),
    {
        joined(&self.nixlayer_dir, ".nixlayer-state.json")
    }

    /// The settings.
    pub fn settings_file(&self) -> (r: String)
        ensures
            r@ == managed(self@, ".nixlayer-settings.json"@),
    {
        joined(&self.nixlayer_dir, ".nixlayer-settings.json")
    }

    /// The file of a category.
    pub fn category_file(&self, category: &str) -> (r: String)
        ensures
            r@ == category_path(self@, category@),
    {
        joined(&self.nixlayer_dir, &concat2(category, ".nix"))
    }

    /// Whether the managed directory is set up.
    pub fn is_initialized(&self, found: &Found) -> (r: bool)
        ensures
            r == (found.dir && found.default_nix),
    {
        found.dir && found.default_nix
    }

    /// Refuse to go on where the managed directory is not set up.
    pub fn require_initialized(&self, found: &Found) -> (r: Result<(), NixlayerError>)
        ensures
            match r {
                Ok(_) => found.dir && found.default_nix,
                Err(e) => !(found.dir && found.default_nix) && e@ == ErrorView::NotInitialized(
                    self@.nixlayer_dir,
                ),
            },
    {
        if !self.is_initialized(found) {
            return Err(NixlayerError::NotInitialized(self.nixlayer_dir.clone()));
        }
        Ok(())
    }

    /// The names of the categories, in ascending order: the stem of every `.nix` file other
    /// than `default.nix`.
    pub fn list_categories(&self, files: &Vec<StoredFile>) -> (r: Vec<String>)
        ensures
            views(r@) == category_names(file_views(files@)),
    {
        let mut cats: Vec<String> = Vec::new();
        let ghost w = file_views(files@);
        assert(views(cats@) =~= categories_of(w.take(0)));
        for i in 0..files.len()
            invariant
                w == file_views(files@),
                views(cats@) == categories_of(w.take(i as int)),
        {
            proof {
                assert(w.take(i + 1).drop_last() =~= w.take(i as int));
                assert(w.take(i + 1).last() == files@[i as int]@);
            }
            match category_stem(&files[i].name) {
                Some(c) => {
                    proof {
                        lemma_views_push(cats@, c);
                    }
                    cats.push(c);
                },
                None => {},
            }
        }
        assert(w.take(w.len() as int) =~= w);
        sort(&cats)
    }
}

fn category_stem(file: &str) -> (r: Option<String>)
    ensures
        match r {
            Some(c) => category_of(file@) == Some(c@),
            None => category_of(file@) is None,
        },
{
    let cs: Vec<char> = chars_of(file);
    let n: usize = cs.len();
    if same(file, "default.nix") || n < 4 {
        return None;
    }
    let end: String = slice(&cs, n - 4, n);
    assert(end@ =~= file@.skip(file@.len() - 4));
    if !same(&end, ".nix") {
        return None;
    }
    let stem: String = slice(&cs, 0, n - 4);
    assert(stem@ =~= file@.take(file@.len() - 4));
    Some(stem)
}

// ---------------------------------------------------------------------------
// Backups
// ---------------------------------------------------------------------------

/// A path without the separators and the components `.` at its end. The root stays.
pub open spec fn trim_path(s: Seq<char>) -> Seq<char>
    decreases s.len(),
{
    let n = s.len() as int;
    if n > 1 && (s[n - 1] == '/' || (s[n - 1] == '.' && s[n - 2] == '/')) {
        trim_path(s.drop_last())
    } else {
        s
    }
}

/// The last component of a path, where it is a name: not for the root, and not for `.` and `..`.
pub open spec fn path_file_name(path: Seq<char>) -> Option<Seq<char>> {
    let t = trim_path(path);
    let c = t.skip(last_at(t, '/') + 1);
    if c.len() == 0 || c == "."@ || c == ".."@ {
        None
    } else {
        Some(c)
    }
}

/// A path without its last component.
pub open spec fn path_parent(path: Seq<char>) -> Seq<char> {
    let t = trim_path(path);
    trim_path(t.take(last_at(t, '/') + 1))
}

/// A path with `name` in place of its last component, or behind it where that is no name.
pub open spec fn path_with_file_name(path: Seq<char>, name: Seq<char>) -> Seq<char> {
    if path_file_name(path) is Some {
        join(path_parent(path), name)
    } else {
        join(path, name)
    }
}

/// How many characters of `cs`, up to `n`, are left of a path that ends at `n`.
fn trimmed_len(cs: &Vec<char>, n: usize) -> (r: usize)
    requires
        n <= cs@.len(),
    ensures
        r <= n,
        trim_path(cs@.take(n as int)) == cs@.take(r as int),
{
    let mut k: usize = n;
    while k > 1 && (cs[k - 1] == '/' || (cs[k - 1] == '.' && cs[k - 2] == '/'))
        invariant
            k <= n <= cs@.len(),
            trim_path(cs@.take(n as int)) == trim_path(cs@.take(k as int)),
        decreases k,
    {
        assert(cs@.take(k as int).drop_last() =~= cs@.take(k - 1));
        k = k - 1;
    }
    k
}

/// Where the last component of a path that ends at `n` starts.
fn component_start(cs: &Vec<char>, n: usize) -> (r: usize)
    requires
        n <= cs@.len(),
    ensures
        r <= n,
        r == last_at(cs@.take(n as int), '/') + 1,
{
    let mut k: usize = n;
    while k > 0 && cs[k - 1] != '/'
        invariant
            k <= n <= cs@.len(),
            last_at(cs@.take(n as int), '/') == last_at(cs@.take(k as int), '/'),
        decreases k,
    {
        assert(cs@.take(k as int).drop_last() =~= cs@.take(k - 1));
        k = k - 1;
    }
    k
}

/// The last component of a path, where it is a name.
fn file_name(path: &str) -> (r: Option<String>)
    ensures
        opt_view(r) == path_file_name(path@),
{
    let cs: Vec<char> = chars_of(path);
    let n: usize = trimmed_len(&cs, cs.len());
    assert(cs@.take(cs@.len() as int) =~= cs@);
    let k: usize = component_start(&cs, n);
    let c: String = slice(&cs, k, n);
    assert(c@ =~= cs@.take(n as int).skip(k as int));
    if k == n || same(&c, ".") || same(&c, "..") {
        None
    } else {
        Some(c)
    }
}

/// A path with `name` in place of its last component, or behind it where that is no name.
fn with_file_name(path: &str, name: &str) -> (r: String)
    ensures
        r@ == path_with_file_name(path@, name@),
{
    if file_name(path).is_none() {
        return joined(path, name);
    }
    let cs: Vec<char> = chars_of(path);
    let n: usize = trimmed_len(&cs, cs.len());
    assert(cs@.take(cs@.len() as int) =~= cs@);
    let k: usize = component_start(&cs, n);
    let m: usize = trimmed_len(&cs, k);
    assert(cs@.take(n as int).take(k as int) =~= cs@.take(k as int));
    let parent: String = slice(&cs, 0, m);
    assert(parent@ =~= cs@.take(m as int));
    joined(&parent, name)
}

/// The name of a backup that is made `secs` seconds after the epoch of a file called `name`.
pub open spec fn backup_of(name: Option<Seq<char>>, secs: nat) -> Seq<char> {
    (match name {
        Some(n) => n,
        None => "file"@,
    }) + ".bak-"@ + decimal(secs)
}

/// The name of a backup that is made `secs` seconds after the epoch of a file called `name`.
pub fn backup_name(name: Option<String>, secs: u64) -> (r: String)
    ensures
        r@ == backup_of(opt_view(name), secs as nat),
{
    let base: String = match name {
        Some(n) => n,
        None => "file".to_string(),
    };
    concat3(&base, ".bak-", &decimal_of(secs as u128))
}

/// The path of a backup next to `original`, made `secs` seconds after the epoch, such as
/// `configuration.nix.bak-1755958501`.
pub fn backup_path(original: &str, secs: u64) -> (r: String)
    ensures
        r@ == path_with_file_name(original@, backup_of(path_file_name(original@), secs as nat)),
{
    with_file_name(original, &backup_name(file_name(original), secs))
}

// ---------------------------------------------------------------------------
// Laws
// ---------------------------------------------------------------------------

/// A file is named after its category, and a category after its file: the two go back and forth,
/// except that no file holds a category `default`.
pub proof fn categories_and_files_match(category: Seq<char>, file: Seq<char>)
    ensures
        category != "default"@ ==> category_of(category_file_name(category)) == Some(category),
        category == "default"@ ==> category_of(category_file_name(category)) is None,
        category_of(file) == Some(category) ==> category_file_name(category) == file && category
            != "default"@,
{
    reveal_strlit(".nix");
    reveal_strlit("default.nix");
    reveal_strlit("default");
    let f = category_file_name(category);
    assert(f.skip(f.len() - 4) =~= ".nix"@);
    assert(f.take(f.len() - 4) =~= category);
    assert("default"@ + ".nix"@ =~= "default.nix"@);
    if f == "default.nix"@ {
        assert(category =~= "default.nix"@.take(7));
        assert("default"@ =~= "default.nix"@.take(7));
    }
    if category_of(file) == Some(category) {
        assert(file =~= category + ".nix"@);
    }
}

/// The file of a category whose name has no `/` lies in the managed directory itself.
pub proof fn category_files_stay_inside(p: PathsView, category: Seq<char>)
    requires
        forall|i: int| 0 <= i < category.len() ==> #[trigger] category[i] != '/',
    ensures
        category_path(p, category) == p.nixlayer_dir + category_file_name(category)
            || category_path(p, category) == p.nixlayer_dir + "/"@ + category_file_name(category),
        p.nixlayer_dir.len() > 0 && p.nixlayer_dir.last() != '/' ==> category_path(p, category)
            == p.nixlayer_dir + "/"@ + category_file_name(category),
        forall|i: int|
            0 <= i < category_file_name(category).len() ==> #[trigger] category_file_name(
                category,
            )[i] != '/',
{
    reveal_strlit(".nix");
    let f = category_file_name(category);
    assert forall|i: int| 0 <= i < f.len() implies #[trigger] f[i] != '/' by {
        if i < category.len() {
            assert(f[i] == category[i]);
        } else {
            assert(f[i] == ".nix"@[i - category.len()]);
        }
    }
}

/// The module, the snapshot and the settings lie in the managed directory itself.
pub proof fn owned_files_stay_inside(root: Seq<char>, has_configuration: bool, has_flake: bool)
    ensures
        ({
            let p = paths_at(root, has_configuration, has_flake);
            &&& managed(p, "default.nix"@) == p.nixlayer_dir + "/default.nix"@
            &&& managed(p, ".nixlayer-state.json"@) == p.nixlayer_dir + "/.nixlayer-state.json"@
            &&& managed(p, ".nixlayer-settings.json"@) == p.nixlayer_dir
                + "/.nixlayer-settings.json"@
        }),
{
    reveal_strlit("/");
    reveal_strlit("modules");
    reveal_strlit("nixlayer");
    reveal_strlit("default.nix");
    reveal_strlit(".nixlayer-state.json");
    reveal_strlit(".nixlayer-settings.json");
    reveal_strlit("/default.nix");
    reveal_strlit("/.nixlayer-state.json");
    reveal_strlit("/.nixlayer-settings.json");
    let p = paths_at(root, has_configuration, has_flake);
    let d = p.nixlayer_dir;
    assert(d.last() == 'r');
    assert(d + "/"@ + "default.nix"@ =~= d + "/default.nix"@);
    assert(d + "/"@ + ".nixlayer-state.json"@ =~= d + "/.nixlayer-state.json"@);
    assert(d + "/"@ + ".nixlayer-settings.json"@ =~= d + "/.nixlayer-settings.json"@);
}

proof fn lemma_last_at_is(s: Seq<char>, c: char, k: int)
    requires
        0 <= k < s.len(),
        s[k] == c,
        forall|j: int| k < j < s.len() ==> s[j] != c,
    ensures
        last_at(s, c) == k,
    decreases s.len(),
{
    if k < s.len() - 1 {
        lemma_last_at_is(s.drop_last(), c, k);
    }
}

/// A backup stands next to the file that it is made of: in the same directory, under the name of
/// the file with the time behind it.
pub proof fn backups_stand_next_to_the_original(dir: Seq<char>, name: Seq<char>, secs: nat)
    requires
        dir.len() > 0,
        dir.last() != '/',
        trim_path(dir) == dir,
        name.len() > 0,
        forall|i: int| 0 <= i < name.len() ==> #[trigger] name[i] != '/',
        name != "."@,
        name != ".."@,
    ensures
        ({
            let path = dir + "/"@ + name;
            &&& path_file_name(path) == Some(name)
            &&& path_with_file_name(path, backup_of(path_file_name(path), secs)) == dir + "/"@ + name
                + ".bak-"@ + decimal(secs)
        }),
{
    let path = dir + "/"@ + name;
    let b = backup_of(Some(name), secs);
    reveal_strlit("/");
    reveal_strlit(".");
    let n = path.len() as int;
    let d = dir.len() as int;
    assert(path[n - 1] == name.last());
    if path[n - 1] == '.' && path[n - 2] == '/' {
        assert(name.len() == 1);
        assert(name =~= "."@);
    }
    lemma_last_at_is(path, '/', d);
    assert(path.skip(d + 1) =~= name);
    assert(path.take(d + 1) =~= dir + "/"@);
    assert((dir + "/"@).drop_last() =~= dir);
    assert(b[0] == name[0]);
    assert(dir + "/"@ + b =~= dir + "/"@ + name + ".bak-"@ + decimal(secs));
}

} // verus!

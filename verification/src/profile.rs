//! What was installed imperatively, with `nix profile` or `nix-env`.

use vstd::prelude::*;

use crate::error::{ErrorView, NixlayerError};
use crate::json::{json_value, member, parse, text_member, Json, JsonView};
use crate::resolver::{as_told, nix_args, nix_cmd, reply_error, LegacyEntry};
use crate::text::{
    after_last, behind_last, chars_of, concat3, contains, find, lemma_find_from, trim, trimmed,
};
use crate::tools::{call, CallView, Reply, ToolCall};
use crate::ui::lower;

verus! {

/// Which tool installed something.
#[derive(Debug, Clone, Copy, PartialEq, Eq, Structural)]
pub enum ProfileBackend {
    NixProfile,
    NixEnv,
}

/// Something that is installed imperatively.
#[derive(Debug, Clone)]
pub struct ProfileEntry {
    /// What is shown, such as `firefox-121.0`.
    pub display_name: String,
    /// The attribute that it probably is.
    pub guessed_attr: String,
    /// Whether it seems to come from nixpkgs at all.
    pub likely_nixpkgs: bool,
    pub backend: ProfileBackend,
    /// What the tool that installed it calls it.
    pub removal_key: String,
}

/// A [`ProfileEntry`] with its texts as character sequences.
pub struct InstalledView {
    pub display_name: Seq<char>,
    pub guessed_attr: Seq<char>,
    pub likely_nixpkgs: bool,
    pub backend: ProfileBackend,
    pub removal_key: Seq<char>,
}

impl View for ProfileEntry {
    type V = InstalledView;

    open spec fn view(&self) -> InstalledView {
        InstalledView {
            display_name: self.display_name@,
            guessed_attr: self.guessed_attr@,
            likely_nixpkgs: self.likely_nixpkgs,
            backend: self.backend,
            removal_key: self.removal_key@,
        }
    }
}

/// The views of some entries.
pub open spec fn installed_views(v: Seq<ProfileEntry>) -> Seq<InstalledView> {
    Seq::new(v.len(), |i: int| v[i]@)
}

impl ProfileEntry {
    /// The same entry once more.
    pub fn copy(&self) -> (r: ProfileEntry)
        ensures
            r@ == self@,
    {
        ProfileEntry {
            display_name: self.display_name.clone(),
            guessed_attr: self.guessed_attr.clone(),
            likely_nixpkgs: self.likely_nixpkgs,
            backend: self.backend,
            removal_key: self.removal_key.clone(),
        }
    }
}

// ---------------------------------------------------------------------------
// The list of `nix profile`
// ---------------------------------------------------------------------------

/// A character in lower case, as far as it can become one of the letters of `nixpkgs`. Besides
/// the capital letters there is one such character: the sign for kelvin.
pub open spec fn folded(c: char) -> char {
    if c == '\u{212a}' {
        'k'
    } else {
        lower(c)
    }
}

/// A URL that speaks of nixpkgs, in either case.
pub open spec fn mentions_nixpkgs(url: Seq<char>) -> bool {
    contains(Seq::new(url.len(), |i: int| folded(url[i])), "nixpkgs"@)
}

/// Where an element says that it comes from.
pub open spec fn element_url(el: JsonView) -> Seq<char> {
    match text_member(el, "originalUrl"@) {
        Some(u) => u,
        None => match text_member(el, "url"@) {
            Some(u) => u,
            None => Seq::empty(),
        },
    }
}

/// The last part of the attribute path of an element, where it has one.
pub open spec fn element_attr(el: JsonView) -> Option<Seq<char>> {
    match text_member(el, "attrPath"@) {
        Some(p) => after_last(p, '.'),
        None => None,
    }
}

/// An element of the list, under the given name.
pub open spec fn element_entry(name: Seq<char>, el: JsonView) -> InstalledView {
    InstalledView {
        display_name: name,
        guessed_attr: match element_attr(el) {
            Some(a) => if a.len() > 0 {
                a
            } else {
                name
            },
            None => name,
        },
        likely_nixpkgs: mentions_nixpkgs(element_url(el)),
        backend: ProfileBackend::NixProfile,
        removal_key: name,
    }
}

/// The name of an element that the list does not name.
pub open spec fn unnamed(el: JsonView) -> Seq<char> {
    match element_attr(el) {
        Some(a) => a,
        None => "unknown"@,
    }
}

/// The entries of a list. Its elements are members of an object, under their names, or items of
/// an array, without names; a list with neither is not understood.
pub open spec fn elements_of(j: JsonView) -> Option<Seq<InstalledView>> {
    match member(j, "elements"@) {
        Some(JsonView::Object(m)) => Some(
            Seq::new(m.len(), |i: int| element_entry(m[i].0, m[i].1)),
        ),
        Some(JsonView::List(l)) => Some(
            Seq::new(l.len(), |i: int| element_entry(unnamed(l[i]), l[i])),
        ),
        _ => None,
    }
}

fn speaks_of_nixpkgs(url: &str) -> (r: bool)
    ensures
        r == mentions_nixpkgs(url@),
{
    let cs: Vec<char> = chars_of(url);
    let ghost all = Seq::new(url@.len(), |i: int| folded(url@[i]));
    let mut out: Vec<char> = Vec::new();
    for i in 0..cs.len()
        invariant
            cs@ == url@,
            all == Seq::new(url@.len(), |i: int| folded(url@[i])),
            out@ == all.take(i as int),
    {
        let c: char = cs[i];
        let d: char = if c == '\u{212a}' {
            'k'
        } else if 'A' <= c && c <= 'Z' {
            (c as u8 + 32u8) as char
        } else {
            c
        };
        assert(d == folded(c));
        out.push(d);
        assert(all.take(i + 1) =~= all.take(i as int).push(all[i as int]));
    }
    assert(all.take(all.len() as int) =~= all);
    proof {
        lemma_find_from(all, "nixpkgs"@, 0);
    }
    find(&out, &chars_of("nixpkgs"), 0).is_some()
}

fn attr_of(el: &Json) -> (r: Option<String>)
    ensures
        match r {
            Some(a) => element_attr(el.shape()) == Some(a@),
            None => element_attr(el.shape()) is None,
        },
{
    match el.get_text("attrPath") {
        Some(p) => behind_last(p, '.'),
        None => None,
    }
}

fn entry_of_element(name: &str, el: &Json) -> (r: ProfileEntry)
    ensures
        r@ == element_entry(name@, el.shape()),
{
    let guessed_attr: String = match attr_of(el) {
        Some(a) => if a.as_str().is_empty() {
            name.to_string()
        } else {
            a
        },
        None => name.to_string(),
    };
    let likely_nixpkgs: bool = match el.get_text("originalUrl") {
        Some(u) => speaks_of_nixpkgs(u),
        None => match el.get_text("url") {
            Some(u) => speaks_of_nixpkgs(u),
            None => {
                proof {
                    reveal_strlit("");
                    assert(""@ =~= Seq::<char>::empty());
                }
                speaks_of_nixpkgs("")
            },
        },
    };
    ProfileEntry {
        display_name: name.to_string(),
        guessed_attr,
        likely_nixpkgs,
        backend: ProfileBackend::NixProfile,
        removal_key: name.to_string(),
    }
}

/// The entries of a list as `nix profile` gives it.
pub fn read_elements(j: &Json) -> (r: Option<Vec<ProfileEntry>>)
    ensures
        match r {
            Some(v) => elements_of(j.shape()) == Some(installed_views(v@)),
            None => elements_of(j.shape()) is None,
        },
{
    let elements: &Json = match j.get("elements") {
        Some(e) => e,
        None => {
            return None;
        },
    };
    let mut out: Vec<ProfileEntry> = Vec::new();
    match elements {
        Json::Object(v) => {
            let ghost m = elements.shape()->Object_0;
            let ghost all = Seq::new(m.len(), |i: int| element_entry(m[i].0, m[i].1));
            assert(installed_views(out@) =~= all.take(0));
            for i in 0..v.len()
                invariant
                    m.len() == v@.len(),
                    forall|k: int|
                        0 <= k < v@.len() ==> #[trigger] m[k] == (v@[k].0@, v@[k].1.shape()),
                    all == Seq::new(m.len(), |i: int| element_entry(m[i].0, m[i].1)),
                    installed_views(out@) == all.take(i as int),
            {
                let e: ProfileEntry = entry_of_element(&v[i].0, &v[i].1);
                let ghost before = out@;
                let ghost ev = e@;
                out.push(e);
                proof {
                    assert(m[i as int] == (v@[i as int].0@, v@[i as int].1.shape()));
                    assert(all.take(i + 1) =~= all.take(i as int).push(all[i as int]));
                    assert(installed_views(out@) =~= installed_views(before).push(ev));
                }
            }
            assert(all.take(all.len() as int) =~= all);
            Some(out)
        },
        Json::List(v) => {
            let ghost l = elements.shape()->List_0;
            let ghost all = Seq::new(l.len(), |i: int| element_entry(unnamed(l[i]), l[i]));
            assert(installed_views(out@) =~= all.take(0));
            for i in 0..v.len()
                invariant
                    l.len() == v@.len(),
                    forall|k: int| 0 <= k < v@.len() ==> #[trigger] l[k] == v@[k].shape(),
                    all == Seq::new(l.len(), |i: int| element_entry(unnamed(l[i]), l[i])),
                    installed_views(out@) == all.take(i as int),
            {
                let name: String = match attr_of(&v[i]) {
                    Some(a) => a,
                    None => "unknown".to_string(),
                };
                let e: ProfileEntry = entry_of_element(&name, &v[i]);
                let ghost before = out@;
                let ghost ev = e@;
                out.push(e);
                proof {
                    assert(l[i as int] == v@[i as int].shape());
                    assert(all.take(i + 1) =~= all.take(i as int).push(all[i as int]));
                    assert(installed_views(out@) =~= installed_views(before).push(ev));
                }
            }
            assert(all.take(all.len() as int) =~= all);
            Some(out)
        },
        _ => None,
    }
}

/// The entries that `nix profile` wrote out, where they are understood.
pub open spec fn listed(bytes: Seq<u8>) -> Option<Seq<InstalledView>> {
    match json_value(bytes) {
        Some(j) => elements_of(j),
        None => None,
    }
}

/// The entries that `nix profile` wrote out, where they are understood.
pub fn try_scan_nix_profile(stdout: &Vec<u8>) -> (r: Option<Vec<ProfileEntry>>)
    ensures
        match r {
            Some(v) => listed(stdout@) == Some(installed_views(v@)),
            None => listed(stdout@) is None,
        },
{
    match parse(stdout) {
        Some(j) => read_elements(&j),
        None => None,
    }
}

// ---------------------------------------------------------------------------
// Scanning
// ---------------------------------------------------------------------------

/// What came of asking `nix profile`.
#[derive(Debug)]
pub enum Listing {
    NotTried,
    /// It could not be run, or it failed.
    Failed,
    /// It succeeded and wrote this.
    Output(Vec<u8>),
}

/// The next thing to do in scanning.
#[derive(Debug)]
pub enum ScanStep {
    /// Ask `nix profile`.
    List(ToolCall),
    /// Ask `nix-env`.
    Query(ToolCall),
    Found(Vec<ProfileEntry>),
}

/// A [`ScanStep`] with its texts as character sequences.
pub enum ScanView {
    List(CallView),
    Query(CallView),
    Found(Seq<InstalledView>),
}

impl View for ScanStep {
    type V = ScanView;

    open spec fn view(&self) -> ScanView {
        match *self {
            ScanStep::List(c) => ScanView::List(c@),
            ScanStep::Query(c) => ScanView::Query(c@),
            ScanStep::Found(v) => ScanView::Found(installed_views(v@)),
        }
    }
}

pub open spec fn list_call() -> CallView {
    CallView { program: "nix"@, args: nix_args().push("profile"@).push("list"@).push("--json"@) }
}

pub open spec fn query_call() -> CallView {
    CallView { program: "nix-env"@, args: Seq::empty().push("-q"@).push("--json"@) }
}

/// `nix profile` is asked first, where there is a `nix`; `nix-env` is asked where that gave
/// nothing that is understood.
pub open spec fn scan_step(has_nix: bool, listing: Listing) -> ScanView {
    if !has_nix {
        ScanView::Query(query_call())
    } else {
        match listing {
            Listing::NotTried => ScanView::List(list_call()),
            Listing::Failed => ScanView::Query(query_call()),
            Listing::Output(b) => match listed(b@) {
                Some(v) => ScanView::Found(v),
                None => ScanView::Query(query_call()),
            },
        }
    }
}

/// Decide the next step in scanning what is installed imperatively.
pub fn scan_profile(has_nix: bool, listing: &Listing) -> (r: ScanStep)
    ensures
        r@ == scan_step(has_nix, *listing),
{
    if has_nix {
        match listing {
            Listing::NotTried => {
                return ScanStep::List(nix_cmd().arg("profile").arg("list").arg("--json"));
            },
            Listing::Failed => {},
            Listing::Output(b) => match try_scan_nix_profile(b) {
                Some(v) => {
                    return ScanStep::Found(v);
                },
                None => {},
            },
        }
    }
    ScanStep::Query(call("nix-env").arg("-q").arg("--json"))
}

/// What `nix-env` has installed. It knows no other source than nixpkgs.
pub open spec fn env_entry(e: (String, LegacyEntry)) -> InstalledView {
    InstalledView {
        display_name: e.0@,
        guessed_attr: e.1.pname@,
        likely_nixpkgs: true,
        backend: ProfileBackend::NixEnv,
        removal_key: e.1.pname@,
    }
}

/// What `nix-env` answered.
pub fn scan_nix_env(reply: Reply<Vec<(String, LegacyEntry)>>) -> (r: Result<
    Vec<ProfileEntry>,
    NixlayerError,
>)
    ensures
        match r {
            Ok(v) => reply matches Reply::Data(d) && installed_views(v@) == Seq::new(
                d@.len(),
                |i: int| env_entry(d@[i]),
            ),
            Err(e) => reply_error(reply, as_told()) == Some(e@),
        },
{
    let d: Vec<(String, LegacyEntry)> = match reply {
        Reply::NotRun(m) => {
            return Err(NixlayerError::ResolverFailed(m));
        },
        Reply::Failed(m) => {
            return Err(NixlayerError::ResolverFailed(trimmed(&m)));
        },
        Reply::Malformed(m) => {
            return Err(NixlayerError::Json(m));
        },
        Reply::Data(d) => d,
    };
    let ghost all = Seq::new(d@.len(), |i: int| env_entry(d@[i]));
    let mut out: Vec<ProfileEntry> = Vec::new();
    assert(installed_views(out@) =~= all.take(0));
    for i in 0..d.len()
        invariant
            all == Seq::new(d@.len(), |i: int| env_entry(d@[i])),
            installed_views(out@) == all.take(i as int),
    {
        let e: ProfileEntry = ProfileEntry {
            display_name: d[i].0.clone(),
            guessed_attr: d[i].1.pname.clone(),
            likely_nixpkgs: true,
            backend: ProfileBackend::NixEnv,
            removal_key: d[i].1.pname.clone(),
        };
        let ghost before = out@;
        let ghost ev = e@;
        out.push(e);
        proof {
            assert(all.take(i + 1) =~= all.take(i as int).push(all[i as int]));
            assert(installed_views(out@) =~= installed_views(before).push(ev));
        }
    }
    assert(all.take(d@.len() as int) =~= all);
    Ok(out)
}

// ---------------------------------------------------------------------------
// Removing
// ---------------------------------------------------------------------------

/// The call that removes an entry with the tool that installed it.
pub open spec fn removal_call(e: InstalledView) -> CallView {
    match e.backend {
        ProfileBackend::NixEnv => CallView {
            program: "nix-env"@,
            args: Seq::empty().push("-e"@).push(e.removal_key),
        },
        ProfileBackend::NixProfile => CallView {
            program: "nix"@,
            args: nix_args().push("profile"@).push("remove"@).push(e.removal_key),
        },
    }
}

/// Remove an entry with the tool that installed it.
pub fn remove_from_profile(entry: &ProfileEntry) -> (r: ToolCall)
    ensures
        r@ == removal_call(entry@),
{
    match entry.backend {
        ProfileBackend::NixEnv => call("nix-env").arg("-e").arg(&entry.removal_key),
        ProfileBackend::NixProfile => nix_cmd().arg("profile").arg("remove").arg(&entry.removal_key),
    }
}

/// What came of removing an entry.
pub fn read_removal(entry: &ProfileEntry, reply: &Reply<()>) -> (r: Result<(), NixlayerError>)
    ensures
        match *reply {
            Reply::Data(_) => r is Ok,
            Reply::NotRun(m) => r matches Err(e) && e@ == ErrorView::Other(m@),
            Reply::Malformed(m) => r matches Err(e) && e@ == ErrorView::Other(m@),
            Reply::Failed(m) => r matches Err(e) && e@ == ErrorView::Other(
                removal_call(entry@).program + " failed: "@ + trim(m@),
            ),
        },
{
    match reply {
        Reply::Data(_) => Ok(()),
        Reply::NotRun(m) => Err(NixlayerError::Other(m.clone())),
        Reply::Malformed(m) => Err(NixlayerError::Other(m.clone())),
        Reply::Failed(m) => {
            let call: ToolCall = remove_from_profile(entry);
            Err(NixlayerError::Other(concat3(&call.program, " failed: ", &trimmed(m))))
        },
    }
}

} // verus!

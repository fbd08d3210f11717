//! Laws of what is known of packages, installed entries and errors: nothing that a program
//! reported gets lost or changed on the way.

use vstd::prelude::*;

use crate::category::{Category, Entry, EntryView};
use crate::doctor::Finding;
use crate::error::{message_of, signed, ErrorView};
use crate::github::GithubPackageInfo;
use crate::json::{member, member_at, text_member, JsonView};
use crate::paths::{Paths, StoredFile};
use crate::plan::{Outcome, OutcomeView, Step, StepView};
use crate::profile::{
    element_attr, element_entry, elements_of, env_entry, mentions_nixpkgs, InstalledView,
    ProfileBackend, ProfileEntry,
};
use crate::resolver::{
    as_told, channel_attribute, channel_info, evaluated, found_in_channel, found_info, reply_error,
    searched_attribute, told_behind, Backend, LegacyEntry, PackageInfo, RawMeta, SearchEntry,
};
use crate::sources::{opt_view, GithubSource};
use crate::spelling::the_last_part_is_behind_the_last_separator;
use crate::state::CategoryDiff;
use crate::text::{after_last, contains, decimal, last_at, occurs_at, trim, views};
use crate::tools::{Reply, ToolCall};
use crate::ui::Line;

verus! {

// ---------------------------------------------------------------------------
// Values and what is said of them
// ---------------------------------------------------------------------------

/// Texts keep their characters, their number and their order.
pub proof fn texts_are_themselves(v: Seq<String>, t: String, i: int)
    ensures
        opt_view(Some(t)) == Some(t@),
        opt_view(None) == None::<Seq<char>>,
        views(v).len() == v.len(),
        0 <= i < v.len() ==> views(v)[i] == v[i]@,
{
}

/// What is said of a package is what its fields hold.
pub proof fn packages_are_themselves(p: PackageInfo, g: GithubPackageInfo, s: GithubSource)
    ensures
        p@.attribute == p.attribute@,
        p@.pname == opt_view(p.pname),
        p@.version == opt_view(p.version),
        p@.description == opt_view(p.description),
        p@.homepage == opt_view(p.homepage),
        p@.license == views(p.license@),
        p@.free == p.free,
        p@.broken == p.broken,
        p@.source == p.source,
        g@.owner == g.owner@,
        g@.repo == g.repo@,
        g@.git_ref == opt_view(g.git_ref),
        g@.rev == g.rev@,
        g@.attr == g.attr@,
        g@.description == opt_view(g.description),
        g@.homepage == opt_view(g.homepage),
        s@.name == s.name@,
        s@.owner == s.owner@,
        s@.repo == s.repo@,
        s@.rev == s.rev@,
        s@.git_ref == opt_view(s.git_ref),
        s@.attr == s.attr@,
{
}

/// What is said of a category, of its entries, of a change and of an installed entry is what their
/// fields hold.
pub proof fn categories_are_themselves(
    c: Category,
    p: String,
    g: GithubSource,
    d: CategoryDiff,
    e: ProfileEntry,
    i: int,
)
    ensures
        c@.name == c.name@,
        c@.path == c.path@,
        c@.packages == views(c.packages@),
        c@.github.len() == c.github@.len(),
        0 <= i < c.github@.len() ==> c@.github[i] == c.github@[i]@,
        Entry::Plain(p)@ == EntryView::Plain(p@),
        Entry::Github(g)@ == EntryView::Github(g@),
        d@.category == d.category@,
        d@.added == views(d.added@),
        d@.removed == views(d.removed@),
        e@.display_name == e.display_name@,
        e@.guessed_attr == e.guessed_attr@,
        e@.likely_nixpkgs == e.likely_nixpkgs,
        e@.backend == e.backend,
        e@.removal_key == e.removal_key@,
{
}

/// What is said of a step, of its line and of an outcome is what they hold; what is said of a
/// finding, of a call, of a file and of the paths is, too.
pub proof fn steps_are_themselves(
    l: Line,
    path: String,
    text: String,
    o: Outcome,
    f: Finding,
    t: ToolCall,
    s: StoredFile,
    p: Paths,
)
    ensures
        l@.text == l.text@,
        l@.to_stderr == l.to_stderr,
        Step::Print(l)@ == StepView::Print(l@),
        Step::Write(path, text)@ == StepView::Write(path@, text@),
        o@ is Done <==> o is Done,
        o@ is Exit <==> o is Exit,
        o matches Outcome::Rebuild(m) ==> o@ == OutcomeView::Rebuild(m),
        o matches Outcome::Fail(e) ==> o@ == OutcomeView::Fail(e@),
        f@.level == f.level,
        f@.message == f.message@,
        t@.program == t.program@,
        t@.args == views(t.args@),
        s@.name == s.name@,
        s.text matches Ok(x) ==> s@.text == Ok::<Seq<char>, Seq<char>>(x@),
        s.text matches Err(x) ==> s@.text == Err::<Seq<char>, Seq<char>>(x@),
        p@.config_root == p.config_root@,
        p@.nixlayer_dir == p.nixlayer_dir@,
        p@.configuration_nix == opt_view(p.configuration_nix),
        p@.flake_nix == opt_view(p.flake_nix),
{
}

// ---------------------------------------------------------------------------
// What Nix reports of a package
// ---------------------------------------------------------------------------

/// What the flake registry reports of an attribute is kept, field by field.
pub proof fn evaluated_metadata_is_kept(attr: Seq<char>, raw: RawMeta)
    ensures
        evaluated(attr, raw).attribute == attr,
        evaluated(attr, raw).pname == opt_view(raw.pname),
        evaluated(attr, raw).version == opt_view(raw.version),
        evaluated(attr, raw).description == opt_view(raw.description),
        evaluated(attr, raw).homepage == opt_view(raw.homepage),
        evaluated(attr, raw).license == views(raw.license@),
        evaluated(attr, raw).free == raw.free,
        evaluated(attr, raw).broken == raw.broken,
        evaluated(attr, raw).source == Backend::Flakes,
{
}

/// A channel reports the name and the version of a package, and no more; such a package is taken
/// to be free and unbroken.
pub proof fn channel_entries_are_kept(attr: Seq<char>, e: LegacyEntry, key: String)
    ensures
        channel_info(attr, e).attribute == attr,
        channel_info(attr, e).pname == Some(e.pname@),
        e.version matches Some(v) ==> channel_info(attr, e).version == Some(v@),
        e.version is None ==> channel_info(attr, e).version == Some(Seq::<char>::empty()),
        channel_info(attr, e).description is None,
        channel_info(attr, e).homepage is None,
        channel_info(attr, e).license.len() == 0,
        channel_info(attr, e).free && !channel_info(attr, e).broken,
        channel_info(attr, e).source == Backend::Legacy,
        found_in_channel((key, e)).attribute == channel_attribute(key@),
        found_in_channel((key, e)).pname == Some(e.pname@),
        found_in_channel((key, e)).version == opt_view(e.version),
        found_in_channel((key, e)).description is None,
        found_in_channel((key, e)).homepage is None,
        found_in_channel((key, e)).license.len() == 0,
        found_in_channel((key, e)).free && !found_in_channel((key, e)).broken,
        found_in_channel((key, e)).source == Backend::Legacy,
{
}

/// A search reports the name, the version and the description of a package, and no more; an empty
/// description is none.
pub proof fn search_entries_are_kept(key: String, e: SearchEntry)
    ensures
        found_info((key, e)).attribute == searched_attribute(key@),
        found_info((key, e)).pname == Some(e.pname@),
        found_info((key, e)).version == Some(e.version@),
        e.description@.len() > 0 ==> found_info((key, e)).description == Some(e.description@),
        e.description@.len() == 0 ==> found_info((key, e)).description is None,
        found_info((key, e)).homepage is None,
        found_info((key, e)).license.len() == 0,
        found_info((key, e)).free && !found_info((key, e)).broken,
        found_info((key, e)).source == Backend::Flakes,
{
}

/// What a program that gave no data said is kept: why it could not be run, what it complained
/// about, without white space around it, or what was wrong with its output.
pub proof fn failures_are_kept(
    reply: Reply<RawMeta>,
    told: spec_fn(Seq<char>) -> Seq<char>,
    front: Seq<char>,
    m: Seq<char>,
)
    ensures
        reply matches Reply::NotRun(t) ==> reply_error(reply, told) == Some(
            ErrorView::ResolverFailed(t@),
        ),
        reply matches Reply::Failed(t) ==> reply_error(reply, told) == Some(
            ErrorView::ResolverFailed(told(trim(t@))),
        ),
        reply matches Reply::Malformed(t) ==> reply_error(reply, told) == Some(ErrorView::Json(t@)),
        reply is Data ==> reply_error(reply, told) is None,
        as_told()(m) == m,
        told_behind(front)(m) == front + m,
{
}

// ---------------------------------------------------------------------------
// What is installed
// ---------------------------------------------------------------------------

/// The first member of that name is the one that is read, whatever stands around it.
pub proof fn members_are_found_by_name(
    a: Seq<(Seq<char>, JsonView)>,
    key: Seq<char>,
    j: JsonView,
    b: Seq<(Seq<char>, JsonView)>,
)
    requires
        forall|i: int| 0 <= i < a.len() ==> (#[trigger] a[i]).0 != key,
    ensures
        member(JsonView::Object(a + seq![(key, j)] + b), key) == Some(j),
        member(JsonView::Object(a), key) is None,
{
    lemma_member_at(a, key);
    let s = a + seq![(key, j)] + b;
    lemma_member_at(s, key);
    assert(s[a.len() as int].0 == key);
    let k = member_at(s, key);
    if k < a.len() {
        assert(s[k] == a[k]);
    }
}

proof fn lemma_member_at(m: Seq<(Seq<char>, JsonView)>, key: Seq<char>)
    ensures
        0 <= member_at(m, key) <= m.len(),
        member_at(m, key) < m.len() ==> m[member_at(m, key)].0 == key,
        forall|i: int| 0 <= i < member_at(m, key) ==> (#[trigger] m[i]).0 != key,
    decreases m.len(),
{
    if m.len() > 0 && m[0].0 != key {
        let t = m.drop_first();
        lemma_member_at(t, key);
        assert forall|i: int| 0 <= i < member_at(m, key) implies (#[trigger] m[i]).0
            != key by {
            if i > 0 {
                assert(m[i] == t[i - 1]);
            }
        }
    }
}

/// Each element of a profile gives one entry, in order: under its own name where the elements are
/// named, and otherwise under the last part of its attribute path, or as unknown. It is removed
/// under the name that it is shown by.
pub proof fn every_element_is_listed(j: JsonView, i: int)
    ensures
        member(j, "elements"@) matches Some(JsonView::Object(m)) ==> elements_of(j) matches Some(v)
            && v.len() == m.len() && (0 <= i < m.len() ==> v[i] == element_entry(m[i].0, m[i].1)
            && v[i].display_name == m[i].0 && v[i].removal_key == m[i].0),
        member(j, "elements"@) matches Some(JsonView::List(l)) ==> elements_of(j) matches Some(v)
            && v.len() == l.len() && (0 <= i < l.len() ==> {
            let name = match element_attr(l[i]) {
                Some(a) => a,
                None => "unknown"@,
            };
            &&& v[i] == element_entry(name, l[i])
            &&& v[i].display_name == name
            &&& v[i].removal_key == name
        }),
        elements_of(j) is Some <==> member(j, "elements"@) is Some && (member(j, "elements"@)->0 is Object
            || member(j, "elements"@)->0 is List),
{
}

/// An element is taken for the last part of its attribute path, where that is not empty, and for
/// its name otherwise; and it seems to come from nixpkgs exactly where the address that it was
/// asked for, or else its own, speaks of nixpkgs.
pub proof fn elements_are_guessed(name: Seq<char>, el: JsonView)
    ensures
        ({
            let e = element_entry(name, el);
            let address = match text_member(el, "originalUrl"@) {
                Some(u) => u,
                None => match text_member(el, "url"@) {
                    Some(u) => u,
                    None => ""@,
                },
            };
            let path = text_member(el, "attrPath"@);
            &&& e.backend == ProfileBackend::NixProfile
            &&& e.likely_nixpkgs <==> mentions_nixpkgs(address)
            &&& path is None ==> e.guessed_attr == name
            &&& path matches Some(t) ==> {
                &&& (forall|i: int| 0 <= i < t.len() ==> t[i] != '.') ==> e.guessed_attr == name
                &&& forall|a: Seq<char>, b: Seq<char>|
                    #![trigger a + seq!['.'] + b]
                    t == a + seq!['.'] + b && (forall|i: int| 0 <= i < b.len() ==> b[i] != '.')
                        ==> e.guessed_attr == if b.len() > 0 {
                        b
                    } else {
                        name
                    }
            }
        }),
{
    let none: Seq<char> = Seq::empty();
    reveal_strlit("");
    assert(""@ =~= none);
    let path = text_member(el, "attrPath"@);
    if let Some(t) = path {
        if forall|i: int| 0 <= i < t.len() ==> t[i] != '.' {
            lemma_no_last(t, '.');
        }
        assert forall|a: Seq<char>, b: Seq<char>|
            #![trigger a + seq!['.'] + b]
            t == a + seq!['.'] + b && (forall|i: int| 0 <= i < b.len() ==> b[i] != '.') implies
            after_last(t, '.') == Some(b) by {
            the_last_part_is_behind_the_last_separator(a, '.', b);
        }
    }
}

pub proof fn lemma_no_last(s: Seq<char>, c: char)
    requires
        forall|i: int| 0 <= i < s.len() ==> s[i] != c,
    ensures
        last_at(s, c) == -1,
    decreases s.len(),
{
    if s.len() > 0 {
        assert(s.last() == s[s.len() - 1]);
        assert forall|i: int| 0 <= i < s.drop_last().len() implies s.drop_last()[i] != c by {
            assert(s.drop_last()[i] == s[i]);
        }
        lemma_no_last(s.drop_last(), c);
    }
}

/// What `nix-env` installed is shown under its full name, looked up and removed by its package
/// name, and comes from nixpkgs.
pub proof fn env_entries_are_kept(name: String, e: LegacyEntry)
    ensures
        env_entry((name, e)) == (InstalledView {
            display_name: name@,
            guessed_attr: e.pname@,
            likely_nixpkgs: true,
            backend: ProfileBackend::NixEnv,
            removal_key: e.pname@,
        }),
{
}

// ---------------------------------------------------------------------------
// Errors
// ---------------------------------------------------------------------------

/// Every error names what it is about.
pub proof fn errors_name_what_they_are_about(
    a: Seq<char>,
    b: Seq<char>,
    code: i32,
)
    ensures
        contains(message_of(ErrorView::ConfigNotFound(a)), a),
        contains(message_of(ErrorView::NotInitialized(a)), a),
        contains(message_of(ErrorView::AlreadyInitialized(a)), a),
        contains(message_of(ErrorView::UnknownCategory(a, b)), a),
        contains(message_of(ErrorView::UnknownCategory(a, b)), b),
        contains(message_of(ErrorView::PackageNotManaged(a)), a),
        contains(message_of(ErrorView::PackageAlreadyExists(a, b)), a),
        contains(message_of(ErrorView::PackageAlreadyExists(a, b)), b),
        contains(message_of(ErrorView::UnparseableCategoryFile(a, b)), a),
        contains(message_of(ErrorView::UnparseableCategoryFile(a, b)), b),
        contains(message_of(ErrorView::DuplicatePackage(a, b)), a),
        contains(message_of(ErrorView::DuplicatePackage(a, b)), b),
        contains(message_of(ErrorView::UnsafeConfigEdit(a)), a),
        contains(message_of(ErrorView::InvalidAttributeName(a)), a),
        contains(message_of(ErrorView::ResolverFailed(a)), a),
        contains(message_of(ErrorView::UnsafeToRebuild(a)), a),
        contains(message_of(ErrorView::RebuildFailed(code)), signed(code as int)),
        message_of(ErrorView::Io(a)) == a,
        message_of(ErrorView::Json(a)) == a,
        message_of(ErrorView::Other(a)) == a,
        signed(code as int) == if code >= 0 {
            decimal(code as nat)
        } else {
            "-"@ + decimal((-(code as int)) as nat)
        },
{
    let m = message_of(ErrorView::ConfigNotFound(a));
    let x = "could not find a NixOS configuration.\n  Looked in: "@;
    lemma_part(m, x, a);
    lemma_part(
        message_of(ErrorView::NotInitialized(a)),
        "nixlayer has not been initialized here yet.\n  Expected: "@,
        a,
    );
    lemma_part(
        message_of(ErrorView::AlreadyInitialized(a)),
        "nixlayer is already initialized at "@,
        a,
    );
    let c1 = "category '"@;
    let c2 = c1 + a + "' does not exist.\n  Known categories: "@;
    lemma_part(message_of(ErrorView::UnknownCategory(a, b)), c1, a);
    lemma_part(message_of(ErrorView::UnknownCategory(a, b)), c2, b);
    let q = "package '"@;
    lemma_part(message_of(ErrorView::PackageNotManaged(a)), q, a);
    lemma_part(message_of(ErrorView::PackageAlreadyExists(a, b)), q, a);
    lemma_part(
        message_of(ErrorView::PackageAlreadyExists(a, b)),
        q + a + "' is already declared in category '"@,
        b,
    );
    let r = "refusing to auto-manage "@;
    lemma_part(message_of(ErrorView::UnparseableCategoryFile(a, b)), r, a);
    lemma_part(
        message_of(ErrorView::UnparseableCategoryFile(a, b)),
        r + a
            + ": it contains entries nixlayer doesn't recognize as plain package names ("@,
        b,
    );
    let d = "duplicate package declaration:\n  '"@;
    lemma_part(message_of(ErrorView::DuplicatePackage(a, b)), d, a);
    lemma_part(
        message_of(ErrorView::DuplicatePackage(a, b)),
        d + a + "' appears in more than one category: "@,
        b,
    );
    lemma_part(
        message_of(ErrorView::UnsafeConfigEdit(a)),
        "could not safely locate an `imports = [ ... ];` block in "@,
        a,
    );
    lemma_part(message_of(ErrorView::InvalidAttributeName(a)), "'"@, a);
    lemma_part(message_of(ErrorView::ResolverFailed(a)), "nix package search/eval failed: "@, a);
    lemma_part(message_of(ErrorView::UnsafeToRebuild(a)), "refusing to rebuild: "@, a);
    lemma_part(
        message_of(ErrorView::RebuildFailed(code)),
        "nixos-rebuild failed (exit code "@,
        signed(code as int),
    );
}

proof fn lemma_part(m: Seq<char>, front: Seq<char>, part: Seq<char>)
    requires
        m.len() >= front.len() + part.len(),
        m.subrange(front.len() as int, (front.len() + part.len()) as int) =~= part,
    ensures
        contains(m, part),
{
    assert(occurs_at(m, part, front.len() as int));
}

} // verus!

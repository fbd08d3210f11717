//! Package queries and what Nix answers.
//!
//! Every name comes from Nix itself: from `nix search` and `nix eval` where there is a `nix`, and
//! otherwise from `nix-env`, which knows less about a package. This module says what to ask and
//! what an answer means; it asks nothing itself.

use vstd::prelude::*;

use crate::error::{ErrorView, NixlayerError};
use crate::nixfile::{is_simple_attr_path, simple_attr_path};
use crate::sources::{clone_opt, opt_view};
use crate::text::{
    after_last, behind_last, chars_of, concat2, concat3, cut_first, lemma_until_is, same,
    split_once, string_of, trim, trimmed, views,
};
use crate::tools::{call, CallView, Reply, ToolCall};

verus! {

/// Where package data comes from.
#[derive(Debug, Clone, Copy, PartialEq, Eq, Structural)]
pub enum Backend {
    Flakes,
    Legacy,
}

/// What is known of a package.
#[derive(Debug, Clone)]
pub struct PackageInfo {
    pub attribute: String,
    pub pname: Option<String>,
    pub version: Option<String>,
    pub description: Option<String>,
    pub homepage: Option<String>,
    pub license: Vec<String>,
    pub free: bool,
    pub broken: bool,
    pub source: Backend,
}

/// A [`PackageInfo`] with its texts as character sequences.
pub struct InfoView {
    pub attribute: Seq<char>,
    pub pname: Option<Seq<char>>,
    pub version: Option<Seq<char>>,
    pub description: Option<Seq<char>>,
    pub homepage: Option<Seq<char>>,
    pub license: Seq<Seq<char>>,
    pub free: bool,
    pub broken: bool,
    pub source: Backend,
}

impl View for PackageInfo {
    type V = InfoView;

    open spec fn view(&self) -> InfoView {
        InfoView {
            attribute: self.attribute@,
            pname: opt_view(self.pname),
            version: opt_view(self.version),
            description: opt_view(self.description),
            homepage: opt_view(self.homepage),
            license: views(self.license@),
            free: self.free,
            broken: self.broken,
            source: self.source,
        }
    }
}

/// The views of some packages.
pub open spec fn info_views(v: Seq<PackageInfo>) -> Seq<InfoView> {
    Seq::new(v.len(), |i: int| v[i]@)
}

pub const EXPERIMENTAL: &'static str = "nix-command flakes";

/// The backend in use: `nix` where there is one, else `nix-env`.
pub fn detect_backend(has_nix: bool, has_nix_env: bool) -> (r: Result<Backend, NixlayerError>)
    ensures
        match r {
            Ok(Backend::Flakes) => has_nix,
            Ok(Backend::Legacy) => !has_nix && has_nix_env,
            Err(e) => !has_nix && !has_nix_env && e@ == ErrorView::NoNixFound,
        },
{
    if has_nix {
        Ok(Backend::Flakes)
    } else if has_nix_env {
        Ok(Backend::Legacy)
    } else {
        Err(NixlayerError::NoNixFound)
    }
}

/// The arguments that enable flakes.
pub open spec fn nix_args() -> Seq<Seq<char>> {
    Seq::empty().push("--extra-experimental-features"@).push(EXPERIMENTAL@)
}

/// `nix` with flakes enabled.
pub(crate) fn nix_cmd() -> (r: ToolCall)
    ensures
        r@ == (CallView { program: "nix"@, args: nix_args() }),
{
    call("nix").arg("--extra-experimental-features").arg(EXPERIMENTAL)
}

/// What is said where a program could not be launched or failed, or where its output has not the
/// expected shape. A failure is told in the words that `told` makes of what the program wrote to
/// standard error.
pub open spec fn reply_error<T>(
    reply: Reply<T>,
    told: spec_fn(Seq<char>) -> Seq<char>,
) -> Option<ErrorView> {
    match reply {
        Reply::NotRun(m) => Some(ErrorView::ResolverFailed(m@)),
        Reply::Failed(m) => Some(ErrorView::ResolverFailed(told(trim(m@)))),
        Reply::Malformed(m) => Some(ErrorView::Json(m@)),
        Reply::Data(_) => None,
    }
}

/// A failure told in the program's own words.
pub open spec fn as_told() -> spec_fn(Seq<char>) -> Seq<char> {
    |m: Seq<char>| m
}

/// A failure told with a text in front.
pub open spec fn told_behind(front: Seq<char>) -> spec_fn(Seq<char>) -> Seq<char> {
    |m: Seq<char>| front + m
}

// ---------------------------------------------------------------------------
// One attribute
// ---------------------------------------------------------------------------

/// An expression that reduces a derivation to a small record. Every field has a default, so that
/// a package without it is no error.
pub const EVAL_EXPR: &'static str = "p: {\n      pname = p.pname or (p.name or null);\n      version = p.version or null;\n      description = p.meta.description or null;\n      homepage = p.meta.homepage or null;\n      broken = p.meta.broken or false;\n      license =\n        let l = p.meta.license or null; in\n        if l == null then []\n        else if builtins.isList l then\n          map (x: if builtins.isString x then x else (x.spdxId or x.shortName or x.fullName or \"unknown\")) l\n        else if builtins.isString l then [ l ]\n        else [ (l.spdxId or l.shortName or l.fullName or \"unknown\") ];\n      free =\n        let l = p.meta.license or null; in\n        if l == null then true\n        else if builtins.isList l then builtins.all (x: if builtins.isString x then true else (x.free or true)) l\n        else if builtins.isString l then true\n        else l.free or true;\n    }";

/// An expression that reduces a derivation to a small record.
pub fn eval_apply_expr() -> (r: String)
    ensures
        r@ == EVAL_EXPR@,
{
    EVAL_EXPR.to_string()
}

/// What `nix eval` says of a package.
#[derive(Debug)]
pub struct RawMeta {
    pub pname: Option<String>,
    pub version: Option<String>,
    pub description: Option<String>,
    pub homepage: Option<String>,
    pub broken: bool,
    pub license: Vec<String>,
    pub free: bool,
}

/// What `nix-env` says of a package.
#[derive(Debug)]
pub struct LegacyEntry {
    pub pname: String,
    pub version: Option<String>,
}

/// What is asked for the data of one attribute.
pub open spec fn attribute_call(backend: Backend, attr: Seq<char>) -> CallView {
    match backend {
        Backend::Flakes => CallView {
            program: "nix"@,
            args: nix_args().push("eval"@).push("--json"@).push("nixpkgs#"@ + attr).push(
                "--apply"@,
            ).push(EVAL_EXPR@),
        },
        Backend::Legacy => CallView {
            program: "nix-env"@,
            args: Seq::empty().push("-qa"@).push("--json"@).push("-A"@).push("nixpkgs."@ + attr),
        },
    }
}

/// Ask for the data of one attribute. A name that is no plain attribute path is refused before
/// anything is asked.
pub fn resolve_attribute(attr: &str, has_nix: bool, has_nix_env: bool) -> (r: Result<
    (Backend, ToolCall),
    NixlayerError,
>)
    ensures
        match r {
            Ok((b, c)) => {
                &&& simple_attr_path(attr@)
                &&& has_nix || has_nix_env
                &&& b == if has_nix {
                    Backend::Flakes
                } else {
                    Backend::Legacy
                }
                &&& c@ == attribute_call(b, attr@)
            },
            Err(e) => if !simple_attr_path(attr@) {
                e@ == ErrorView::InvalidAttributeName(attr@)
            } else {
                !has_nix && !has_nix_env && e@ == ErrorView::NoNixFound
            },
        },
{
    if !is_simple_attr_path(attr) {
        return Err(NixlayerError::InvalidAttributeName(attr.to_string()));
    }
    match detect_backend(has_nix, has_nix_env) {
        Ok(Backend::Flakes) => Ok(
            (
                Backend::Flakes,
                nix_cmd().arg("eval").arg("--json").arg(&concat2("nixpkgs#", attr)).arg(
                    "--apply",
                ).arg(&eval_apply_expr()),
            ),
        ),
        Ok(Backend::Legacy) => Ok(
            (
                Backend::Legacy,
                call("nix-env").arg("-qa").arg("--json").arg("-A").arg(
                    &concat2("nixpkgs.", attr),
                ),
            ),
        ),
        Err(e) => Err(e),
    }
}

pub open spec fn not_in_registry(attr: Seq<char>) -> Seq<char> {
    "attribute '"@ + attr + "' not found in nixpkgs (via flake registry).\n"@
}

pub open spec fn not_in_channel(attr: Seq<char>) -> Seq<char> {
    "attribute '"@ + attr + "' not found in nixpkgs (via nix-env, legacy mode).\n"@
}

/// The package that `nix eval` described.
pub open spec fn evaluated(attr: Seq<char>, raw: RawMeta) -> InfoView {
    InfoView {
        attribute: attr,
        pname: opt_view(raw.pname),
        version: opt_view(raw.version),
        description: opt_view(raw.description),
        homepage: opt_view(raw.homepage),
        license: views(raw.license@),
        free: raw.free,
        broken: raw.broken,
        source: Backend::Flakes,
    }
}

/// A package of which only its name and its version are known. Whether it is free is not known,
/// and it is taken to be.
pub open spec fn scarce(
    attribute: Seq<char>,
    pname: Seq<char>,
    version: Option<Seq<char>>,
    description: Option<Seq<char>>,
    source: Backend,
) -> InfoView {
    InfoView {
        attribute,
        pname: Some(pname),
        version,
        description,
        homepage: None,
        license: Seq::empty(),
        free: true,
        broken: false,
        source,
    }
}

impl RawMeta {
    /// The package that was described, under the attribute that was asked for.
    pub fn into_info(self, attr: &str) -> (r: PackageInfo)
        ensures
            r@ == evaluated(attr@, self),
    {
        PackageInfo {
            attribute: attr.to_string(),
            pname: self.pname,
            version: self.version,
            description: self.description,
            homepage: self.homepage,
            license: self.license,
            free: self.free,
            broken: self.broken,
            source: Backend::Flakes,
        }
    }
}

fn scarce_info(
    attribute: String,
    pname: String,
    version: Option<String>,
    description: Option<String>,
    source: Backend,
) -> (r: PackageInfo)
    ensures
        r@ == scarce(attribute@, pname@, opt_view(version), opt_view(description), source),
{
    let license: Vec<String> = Vec::new();
    assert(views(license@) =~= Seq::<Seq<char>>::empty());
    PackageInfo {
        attribute,
        pname: Some(pname),
        version,
        description,
        homepage: None,
        license,
        free: true,
        broken: false,
        source,
    }
}

/// What `nix eval` answered on one attribute.
pub fn read_evaluated(attr: &str, reply: Reply<RawMeta>) -> (r: Result<PackageInfo, NixlayerError>)
    ensures
        match r {
            Ok(p) => reply matches Reply::Data(raw) && p@ == evaluated(attr@, raw),
            Err(e) => reply_error(reply, told_behind(not_in_registry(attr@))) == Some(e@),
        },
{
    match reply {
        Reply::NotRun(m) => Err(NixlayerError::ResolverFailed(m)),
        Reply::Failed(m) => {
            let mut s: String = concat3(
                "attribute '",
                attr,
                "' not found in nixpkgs (via flake registry).\n",
            );
            s.append(&trimmed(&m));
            Err(NixlayerError::ResolverFailed(s))
        },
        Reply::Malformed(m) => Err(NixlayerError::Json(m)),
        Reply::Data(raw) => Ok(raw.into_info(attr)),
    }
}

/// What the first entry of `nix-env` says of the attribute that was asked for.
pub open spec fn channel_info(attr: Seq<char>, e: LegacyEntry) -> InfoView {
    scarce(
        attr,
        e.pname@,
        Some(
            match opt_view(e.version) {
                Some(v) => v,
                None => Seq::empty(),
            },
        ),
        None,
        Backend::Legacy,
    )
}

/// What `nix-env` answered on one attribute: its first entry counts.
pub fn read_channel_entry(attr: &str, reply: Reply<Vec<(String, LegacyEntry)>>) -> (r: Result<
    PackageInfo,
    NixlayerError,
>)
    ensures
        match r {
            Ok(p) => reply matches Reply::Data(v) && v@.len() > 0 && p@ == channel_info(
                attr@,
                v@[0].1,
            ),
            Err(e) => match reply {
                Reply::Data(v) => v@.len() == 0 && e@ == ErrorView::ResolverFailed(
                    "no match for '"@ + attr@ + "'"@,
                ),
                _ => reply_error(reply, told_behind(not_in_channel(attr@))) == Some(e@),
            },
        },
{
    match reply {
        Reply::NotRun(m) => Err(NixlayerError::ResolverFailed(m)),
        Reply::Failed(m) => {
            let mut s: String = concat3(
                "attribute '",
                attr,
                "' not found in nixpkgs (via nix-env, legacy mode).\n",
            );
            s.append(&trimmed(&m));
            Err(NixlayerError::ResolverFailed(s))
        },
        Reply::Malformed(m) => Err(NixlayerError::Json(m)),
        Reply::Data(v) => {
            if v.len() == 0 {
                return Err(NixlayerError::ResolverFailed(concat3("no match for '", attr, "'")));
            }
            let e: &LegacyEntry = &v[0].1;
            let version: String = match &e.version {
                Some(s) => s.clone(),
                None => String::new(),
            };
            Ok(
                scarce_info(
                    attr.to_string(),
                    e.pname.clone(),
                    Some(version),
                    None,
                    Backend::Legacy,
                ),
            )
        },
    }
}

// ---------------------------------------------------------------------------
// Searching
// ---------------------------------------------------------------------------

/// What `nix search` says of a package.
#[derive(Debug)]
pub struct SearchEntry {
    pub pname: String,
    pub version: String,
    pub description: String,
}

/// A character with a meaning of its own in a regular expression.
pub open spec fn is_special(c: char) -> bool {
    c == '\\' || c == '.' || c == '+' || c == '*' || c == '?' || c == '(' || c == ')' || c == '|' || c
        == '[' || c == ']' || c == '{' || c == '}' || c == '^' || c == '$'
}

/// `s` with a backslash in front of every special character.
pub open spec fn escaped(s: Seq<char>) -> Seq<char>
    decreases s.len(),
{
    if s.len() == 0 {
        s
    } else if is_special(s[0]) {
        seq!['\\', s[0]] + escaped(s.drop_first())
    } else {
        seq![s[0]] + escaped(s.drop_first())
    }
}

/// `s` with a backslash in front of every special character: a regular expression that matches
/// `s` itself.
pub fn regex_escape(s: &str) -> (r: String)
    ensures
        r@ == escaped(s@),
{
    let cs: Vec<char> = chars_of(s);
    let mut out: Vec<char> = Vec::new();
    assert(cs@.skip(0) =~= cs@);
    assert(out@ + escaped(cs@.skip(0)) =~= escaped(cs@));
    for i in 0..cs.len()
        invariant
            cs@ == s@,
            escaped(cs@) == out@ + escaped(cs@.skip(i as int)),
    {
        let c: char = cs[i];
        let ghost before = out@;
        let ghost t = cs@.skip(i as int);
        assert(t[0] == c);
        assert(t.drop_first() =~= cs@.skip(i + 1));
        if c == '\\' || c == '.' || c == '+' || c == '*' || c == '?' || c == '(' || c == ')' || c == '|'
            || c == '[' || c == ']' || c == '{' || c == '}' || c == '^' || c == '$' {
            out.push('\\');
            out.push(c);
            assert(before + (seq!['\\', c] + escaped(cs@.skip(i + 1))) =~= out@ + escaped(
                cs@.skip(i + 1),
            ));
        } else {
            out.push(c);
            assert(before + (seq![c] + escaped(cs@.skip(i + 1))) =~= out@ + escaped(cs@.skip(i + 1)));
        }
    }
    assert(cs@.skip(cs@.len() as int) =~= Seq::<char>::empty());
    assert(out@ + escaped(cs@.skip(cs@.len() as int)) =~= out@);
    string_of(&out)
}

/// What is asked in searching for a query.
pub open spec fn search_call(backend: Backend, query: Seq<char>) -> CallView {
    match backend {
        Backend::Flakes => CallView {
            program: "nix"@,
            args: nix_args().push("search"@).push("nixpkgs"@).push(query).push("--json"@),
        },
        Backend::Legacy => CallView {
            program: "nix-env"@,
            args: Seq::empty().push("-qaP"@).push("--json"@).push(".*"@ + escaped(query) + ".*"@),
        },
    }
}

/// Ask for the packages that match a query.
pub fn search(query: &str, has_nix: bool, has_nix_env: bool) -> (r: Result<
    (Backend, ToolCall),
    NixlayerError,
>)
    ensures
        match r {
            Ok((b, c)) => {
                &&& has_nix || has_nix_env
                &&& b == if has_nix {
                    Backend::Flakes
                } else {
                    Backend::Legacy
                }
                &&& c@ == search_call(b, query@)
            },
            Err(e) => !has_nix && !has_nix_env && e@ == ErrorView::NoNixFound,
        },
{
    match detect_backend(has_nix, has_nix_env) {
        Ok(Backend::Flakes) => Ok(
            (Backend::Flakes, nix_cmd().arg("search").arg("nixpkgs").arg(query).arg("--json")),
        ),
        Ok(Backend::Legacy) => Ok(
            (
                Backend::Legacy,
                call("nix-env").arg("-qaP").arg("--json").arg(
                    &concat3(".*", &regex_escape(query), ".*"),
                ),
            ),
        ),
        Err(e) => Err(e),
    }
}

/// The output of a flake that `nix search` looks through.
pub const LEGACY_PACKAGES: &'static str = "legacyPackages";

/// The last part of an attribute path.
pub open spec fn last_part(path: Seq<char>) -> Seq<char> {
    match after_last(path, '.') {
        Some(a) => a,
        None => path,
    }
}

fn final_part(path: &String) -> (r: String)
    ensures
        r@ == last_part(path@),
{
    match behind_last(path, '.') {
        Some(a) => a,
        None => path.clone(),
    }
}

/// What follows the system in `legacyPackages.<system>.<attribute>`.
pub open spec fn legacy_attribute(key: Seq<char>) -> Option<Seq<char>> {
    match split_once(key, '.') {
        Some((output, rest)) => match split_once(rest, '.') {
            Some((_, attr)) => if output == LEGACY_PACKAGES@ {
                Some(attr)
            } else {
                None
            },
            None => None,
        },
        None => None,
    }
}

/// The attribute that a key of `nix search` stands for. Such a key is
/// `legacyPackages.<system>.<attribute>`, and an attribute may have dots of its own. Of a key of
/// any other form, the last part is taken.
pub open spec fn searched_attribute(key: Seq<char>) -> Seq<char> {
    match legacy_attribute(key) {
        Some(attr) => attr,
        None => last_part(key),
    }
}

/// The attribute that a key of `nix-env` stands for: what follows the name of the channel.
pub open spec fn channel_attribute(key: Seq<char>) -> Seq<char> {
    match split_once(key, '.') {
        Some((_, attr)) => attr,
        None => key,
    }
}

fn read_searched(key: &String) -> (r: String)
    ensures
        r@ == searched_attribute(key@),
{
    match cut_first(key, '.') {
        Some((output, rest)) => match cut_first(&rest, '.') {
            Some((_, attr)) => if same(&output, LEGACY_PACKAGES) {
                attr
            } else {
                final_part(key)
            },
            None => final_part(key),
        },
        None => final_part(key),
    }
}

fn read_channel_key(key: &String) -> (r: String)
    ensures
        r@ == channel_attribute(key@),
{
    match cut_first(key, '.') {
        Some((_, attr)) => attr,
        None => key.clone(),
    }
}

/// The whole attribute is read from a key of `nix search`, with all of its parts, and from a key
/// of `nix-env`.
pub proof fn keys_give_whole_attributes(system: Seq<char>, channel: Seq<char>, attr: Seq<char>)
    requires
        !system.contains('.'),
        !channel.contains('.'),
    ensures
        searched_attribute("legacyPackages."@ + system + "."@ + attr) == attr,
        channel_attribute(channel + "."@ + attr) == attr,
{
    reveal_strlit("legacyPackages.");
    reveal_strlit("legacyPackages");
    reveal_strlit(".");
    let key = "legacyPackages."@ + system + "."@ + attr;
    let rest = system + "."@ + attr;
    let other = channel + "."@ + attr;
    lemma_until_is(key, '.', 14);
    assert(key.take(14) =~= LEGACY_PACKAGES@);
    assert(key.skip(15) =~= rest);
    assert forall|j: int| 0 <= j < system.len() implies rest[j] != '.' by {
        assert(system.contains(system[j]));
    }
    lemma_until_is(rest, '.', system.len() as int);
    assert(rest.skip(system.len() as int + 1) =~= attr);
    assert forall|j: int| 0 <= j < channel.len() implies other[j] != '.' by {
        assert(channel.contains(channel[j]));
    }
    lemma_until_is(other, '.', channel.len() as int);
    assert(other.skip(channel.len() as int + 1) =~= attr);
}

/// The package that an entry of `nix search` describes.
pub open spec fn found_info(e: (String, SearchEntry)) -> InfoView {
    scarce(
        searched_attribute(e.0@),
        e.1.pname@,
        Some(e.1.version@),
        if e.1.description@.len() == 0 {
            None
        } else {
            Some(e.1.description@)
        },
        Backend::Flakes,
    )
}

/// The package that an entry of `nix-env` describes.
pub open spec fn found_in_channel(e: (String, LegacyEntry)) -> InfoView {
    scarce(channel_attribute(e.0@), e.1.pname@, opt_view(e.1.version), None, Backend::Legacy)
}

/// What `nix search` answered: its entries, in their order.
pub fn read_found(reply: Reply<Vec<(String, SearchEntry)>>) -> (r: Result<
    Vec<PackageInfo>,
    NixlayerError,
>)
    ensures
        match r {
            Ok(v) => reply matches Reply::Data(d) && info_views(v@) == Seq::new(
                d@.len(),
                |i: int| found_info(d@[i]),
            ),
            Err(e) => reply_error(reply, as_told()) == Some(e@),
        },
{
    let d: Vec<(String, SearchEntry)> = match reply {
        Reply::NotRun(m) => {
            return Err(NixlayerError::ResolverFailed(m));
        },
        Reply::Failed(m) => {
            return Err(NixlayerError::ResolverFailed(trimmed(&m)));
        },
        Reply::Malformed(m) => {
            return Err(NixlayerError::Json(m));
        },
        Reply::Data(d) => d,
    };
    let ghost all = Seq::new(d@.len(), |i: int| found_info(d@[i]));
    let mut out: Vec<PackageInfo> = Vec::new();
    assert(info_views(out@) =~= all.take(0));
    for i in 0..d.len()
        invariant
            all == Seq::new(d@.len(), |i: int| found_info(d@[i])),
            info_views(out@) == all.take(i as int),
    {
        let e: &SearchEntry = &d[i].1;
        let description: Option<String> = if e.description.as_str().is_empty() {
            None
        } else {
            Some(e.description.clone())
        };
        let p: PackageInfo = scarce_info(
            read_searched(&d[i].0),
            e.pname.clone(),
            Some(e.version.clone()),
            description,
            Backend::Flakes,
        );
        let ghost before = out@;
        let ghost pv = p@;
        out.push(p);
        proof {
            assert(all.take(i + 1) =~= all.take(i as int).push(all[i as int]));
            assert(info_views(out@) =~= info_views(before).push(pv));
        }
    }
    assert(all.take(d@.len() as int) =~= all);
    Ok(out)
}

/// What `nix-env` answered to a search: its entries, in their order.
pub fn read_found_in_channel(reply: Reply<Vec<(String, LegacyEntry)>>) -> (r: Result<
    Vec<PackageInfo>,
    NixlayerError,
>)
    ensures
        match r {
            Ok(v) => reply matches Reply::Data(d) && info_views(v@) == Seq::new(
                d@.len(),
                |i: int| found_in_channel(d@[i]),
            ),
            Err(e) => reply_error(reply, as_told()) == Some(e@),
        },
{
    let d: Vec<(String, LegacyEntry)> = match reply {
        Reply::NotRun(m) => {
            return Err(NixlayerError::ResolverFailed(m));
        },
        Reply::Failed(m) => {
            return Err(NixlayerError::ResolverFailed(trimmed(&m)));
        },
        Reply::Malformed(m) => {
            return Err(NixlayerError::Json(m));
        },
        Reply::Data(d) => d,
    };
    let ghost all = Seq::new(d@.len(), |i: int| found_in_channel(d@[i]));
    let mut out: Vec<PackageInfo> = Vec::new();
    assert(info_views(out@) =~= all.take(0));
    for i in 0..d.len()
        invariant
            all == Seq::new(d@.len(), |i: int| found_in_channel(d@[i])),
            info_views(out@) == all.take(i as int),
    {
        let e: &LegacyEntry = &d[i].1;
        let p: PackageInfo = scarce_info(
            read_channel_key(&d[i].0),
            e.pname.clone(),
            clone_opt(&e.version),
            None,
            Backend::Legacy,
        );
        let ghost before = out@;
        let ghost pv = p@;
        out.push(p);
        proof {
            assert(all.take(i + 1) =~= all.take(i as int).push(all[i as int]));
            assert(info_views(out@) =~= info_views(before).push(pv));
        }
    }
    assert(all.take(d@.len() as int) =~= all);
    Ok(out)
}

/// `s` with the backslashes of an escaped text taken out.
pub open spec fn unescaped(s: Seq<char>) -> Seq<char>
    decreases s.len(),
{
    if s.len() == 0 {
        s
    } else if s[0] == '\\' && s.len() > 1 {
        seq![s[1]] + unescaped(s.skip(2))
    } else {
        seq![s[0]] + unescaped(s.drop_first())
    }
}

/// Escaping loses nothing: what was escaped can be read back.
pub proof fn escaping_loses_nothing(s: Seq<char>)
    ensures
        unescaped(escaped(s)) == s,
    decreases s.len(),
{
    if s.len() > 0 {
        let t = s.drop_first();
        escaping_loses_nothing(t);
        let e = escaped(s);
        if is_special(s[0]) {
            assert(e[0] == '\\' && e[1] == s[0]);
            assert(e.skip(2) =~= escaped(t));
        } else {
            assert(e[0] == s[0]);
            assert(e.drop_first() =~= escaped(t));
        }
        assert(seq![s[0]] + t =~= s);
    }
}

/// A text without special characters is its own escape.
pub proof fn plain_text_needs_no_escape(s: Seq<char>)
    requires
        forall|i: int| 0 <= i < s.len() ==> !is_special(#[trigger] s[i]),
    ensures
        escaped(s) == s,
    decreases s.len(),
{
    if s.len() > 0 {
        let t = s.drop_first();
        assert forall|i: int| 0 <= i < t.len() implies !is_special(#[trigger] t[i]) by {
            assert(t[i] == s[i + 1]);
        }
        plain_text_needs_no_escape(t);
        assert(seq![s[0]] + t =~= s);
    }
}

} // verus!

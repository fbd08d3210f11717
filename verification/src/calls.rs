//! Laws of the calls of outside programs: each program and each of its arguments, in order.

use vstd::prelude::*;

use crate::github::{meta_call, metadata_call, repo_url};
use crate::nixfile::{syntax_step, CheckView, SyntaxStepView};
use crate::profile::{
    list_call, query_call, removal_call, scan_step, InstalledView, Listing, ScanView,
};
use crate::resolver::{attribute_call, escaped, is_special, search_call, Backend};
use crate::text::trim;
use crate::tools::{CallView, ToolOutput};

verus! {

/// A call of a program with the given arguments.
pub open spec fn runs(program: Seq<char>, args: Seq<Seq<char>>) -> CallView {
    CallView { program, args }
}

/// What is asked about a package of nixpkgs: of the flake registry the attribute itself, together
/// with the expression that picks its metadata; of a channel the attribute under `nixpkgs`.
pub proof fn attributes_are_looked_up_by_name(attr: Seq<char>)
    ensures
        attribute_call(Backend::Flakes, attr) == runs(
            "nix"@,
            seq![
                "--extra-experimental-features"@,
                "nix-command flakes"@,
                "eval"@,
                "--json"@,
                "nixpkgs#"@ + attr,
                "--apply"@,
                "p: {\n      pname = p.pname or (p.name or null);\n      version = p.version or null;\n      description = p.meta.description or null;\n      homepage = p.meta.homepage or null;\n      broken = p.meta.broken or false;\n      license =\n        let l = p.meta.license or null; in\n        if l == null then []\n        else if builtins.isList l then\n          map (x: if builtins.isString x then x else (x.spdxId or x.shortName or x.fullName or \"unknown\")) l\n        else if builtins.isString l then [ l ]\n        else [ (l.spdxId or l.shortName or l.fullName or \"unknown\") ];\n      free =\n        let l = p.meta.license or null; in\n        if l == null then true\n        else if builtins.isList l then builtins.all (x: if builtins.isString x then true else (x.free or true)) l\n        else if builtins.isString l then true\n        else l.free or true;\n    }"@,
            ],
        ),
        attribute_call(Backend::Legacy, attr) == runs(
            "nix-env"@,
            seq!["-qa"@, "--json"@, "-A"@, "nixpkgs."@ + attr],
        ),
{
    let f = attribute_call(Backend::Flakes, attr).args;
    let l = attribute_call(Backend::Legacy, attr).args;
    assert(f =~= seq![f[0], f[1], f[2], f[3], f[4], f[5], f[6]]);
    assert(l =~= seq![l[0], l[1], l[2], l[3]]);
}

/// A search hands the query on: to the flake registry as it is, to a channel as a pattern in which
/// it may stand anywhere and means nothing but itself.
pub proof fn searches_hand_the_query_on(query: Seq<char>)
    ensures
        search_call(Backend::Flakes, query) == runs(
            "nix"@,
            seq![
                "--extra-experimental-features"@,
                "nix-command flakes"@,
                "search"@,
                "nixpkgs"@,
                query,
                "--json"@,
            ],
        ),
        search_call(Backend::Legacy, query) == runs(
            "nix-env"@,
            seq!["-qaP"@, "--json"@, ".*"@ + escaped(query) + ".*"@],
        ),
{
    let f = search_call(Backend::Flakes, query).args;
    let l = search_call(Backend::Legacy, query).args;
    assert(f =~= seq![f[0], f[1], f[2], f[3], f[4], f[5]]);
    assert(l =~= seq![l[0], l[1], l[2]]);
}

/// Each special character of a query is escaped by one backslash, and no other character is.
pub proof fn special_characters_are_escaped(a: Seq<char>, c: char, b: Seq<char>)
    ensures
        escaped(a + b) == escaped(a) + escaped(b),
        escaped(seq![c]) == if seq![
            '\\',
            '.',
            '+',
            '*',
            '?',
            '(',
            ')',
            '|',
            '[',
            ']',
            '{',
            '}',
            '^',
            '$',
        ].contains(c) {
            seq!['\\', c]
        } else {
            seq![c]
        },
    decreases a.len(),
{
    let none: Seq<char> = Seq::empty();
    assert(seq![c].drop_first() =~= none);
    assert(escaped(none) =~= none);
    let marks = seq!['\\', '.', '+', '*', '?', '(', ')', '|', '[', ']', '{', '}', '^', '$'];
    if is_special(c) {
        assert(marks[0] == '\\' && marks[1] == '.' && marks[2] == '+' && marks[3] == '*' && marks[4]
            == '?' && marks[5] == '(' && marks[6] == ')' && marks[7] == '|' && marks[8] == '['
            && marks[9] == ']' && marks[10] == '{' && marks[11] == '}' && marks[12] == '^'
            && marks[13] == '$');
        assert(marks.contains(c));
        assert(seq!['\\', c] + none =~= seq!['\\', c]);
    } else {
        assert(!marks.contains(c));
        assert(seq![c] + none =~= seq![c]);
    }
    if a.len() == 0 {
        assert(a + b =~= b);
        assert(escaped(a) + escaped(b) =~= escaped(b));
    } else {
        special_characters_are_escaped(a.drop_first(), c, b);
        assert((a + b).drop_first() =~= a.drop_first() + b);
        assert(escaped(a + b) =~= escaped(a) + escaped(b));
    }
}

/// A repository is asked for by its owner and its name, at the reference that was given, if any;
/// its commit and the metadata of its output are asked for with `nix`.
pub proof fn repositories_are_asked_for_by_name(
    owner: Seq<char>,
    repo: Seq<char>,
    git_ref: Seq<char>,
    url: Seq<char>,
    attr: Seq<char>,
)
    ensures
        repo_url(owner, repo, None) == "github:"@ + owner + "/"@ + repo,
        repo_url(owner, repo, Some(git_ref)) == "github:"@ + owner + "/"@ + repo + "/"@ + git_ref,
        metadata_call(url) == runs(
            "nix"@,
            seq![
                "--extra-experimental-features"@,
                "nix-command flakes"@,
                "flake"@,
                "metadata"@,
                url,
                "--json"@,
            ],
        ),
        meta_call(url, attr) == runs(
            "nix"@,
            seq![
                "--extra-experimental-features"@,
                "nix-command flakes"@,
                "eval"@,
                "--impure"@,
                "--json"@,
                "--expr"@,
                "let f = builtins.getFlake \""@ + url
                    + "\"; system = builtins.currentSystem; p = f.packages.${system}."@ + attr
                    + "; in { description = p.meta.description or null; homepage = p.meta.homepage or null; }"@,
            ],
        ),
{
    let m = metadata_call(url).args;
    let e = meta_call(url, attr).args;
    assert(m =~= seq![m[0], m[1], m[2], m[3], m[4], m[5]]);
    assert(e =~= seq![e[0], e[1], e[2], e[3], e[4], e[5], e[6]]);
}

/// What is installed is listed by `nix` where there is one, unless that fails or its output holds
/// no list, and by `nix-env` otherwise.
pub proof fn installed_packages_are_listed(listing: Listing)
    ensures
        scan_step(false, listing) == ScanView::Query(
            runs("nix-env"@, seq!["-q"@, "--json"@]),
        ),
        scan_step(true, Listing::NotTried) == ScanView::List(
            runs(
                "nix"@,
                seq![
                    "--extra-experimental-features"@,
                    "nix-command flakes"@,
                    "profile"@,
                    "list"@,
                    "--json"@,
                ],
            ),
        ),
        scan_step(true, Listing::Failed) == ScanView::Query(
            runs("nix-env"@, seq!["-q"@, "--json"@]),
        ),
        listing is Output && !(scan_step(true, listing) is Found) ==> scan_step(true, listing)
            == ScanView::Query(runs("nix-env"@, seq!["-q"@, "--json"@])),
{
    let l = list_call().args;
    let q = query_call().args;
    assert(l =~= seq![l[0], l[1], l[2], l[3], l[4]]);
    assert(q =~= seq![q[0], q[1]]);
}

/// An installed package is removed with the program that installed it, under the key that this
/// program knows it by.
pub proof fn packages_are_removed_by_their_key(e: InstalledView)
    ensures
        e.backend is NixEnv ==> removal_call(e) == runs("nix-env"@, seq!["-e"@, e.removal_key]),
        e.backend is NixProfile ==> removal_call(e) == runs(
            "nix"@,
            seq![
                "--extra-experimental-features"@,
                "nix-command flakes"@,
                "profile"@,
                "remove"@,
                e.removal_key,
            ],
        ),
{
    let r = removal_call(e).args;
    if e.backend is NixEnv {
        assert(r =~= seq![r[0], r[1]]);
    } else {
        assert(r =~= seq![r[0], r[1], r[2], r[3], r[4]]);
    }
}

/// A file is checked by the first of `nix-instantiate` and `nix` that can be run, and by that one
/// alone: it is valid exactly where that program succeeds, and what is wrong with it is what that
/// program says. Where neither can be run the check is skipped.
pub proof fn the_first_tool_that_runs_decides(
    path: Seq<char>,
    tried: Seq<Option<ToolOutput>>,
    out: ToolOutput,
)
    ensures
        tried.len() == 0 ==> syntax_step(path, tried) == SyntaxStepView::Run(
            runs("nix-instantiate"@, seq!["--parse"@, path]),
        ),
        tried.len() == 1 && tried[0] is None ==> syntax_step(path, tried) == SyntaxStepView::Run(
            runs(
                "nix"@,
                seq![
                    "--extra-experimental-features"@,
                    "nix-command"@,
                    "eval"@,
                    "--file"@,
                    path,
                    "--apply"@,
                    "x: null"@,
                    "--json"@,
                ],
            ),
        ),
        (tried.len() >= 1 && tried[0] == Some(out)) || (tried.len() >= 2 && tried[0] is None
            && tried[1] == Some(out)) ==> {
            &&& out.success ==> syntax_step(path, tried) == SyntaxStepView::Finished(CheckView::Valid)
            &&& !out.success ==> syntax_step(path, tried) == SyntaxStepView::Finished(
                CheckView::Invalid(trim(out.stderr@)),
            )
        },
        tried.len() >= 2 && tried[0] is None && tried[1] is None ==> syntax_step(path, tried)
            == SyntaxStepView::Finished(CheckView::Skipped),
{
    if tried.len() == 0 {
        let a = syntax_step(path, tried)->Run_0.args;
        assert(a =~= seq![a[0], a[1]]);
    } else if tried.len() == 1 && tried[0] is None {
        let a = syntax_step(path, tried)->Run_0.args;
        assert(a =~= seq![a[0], a[1], a[2], a[3], a[4], a[5], a[6], a[7]]);
    }
}

} // verus!

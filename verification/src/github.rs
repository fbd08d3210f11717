//! Packages from the flakes of GitHub repositories, pinned to a commit.
//!
//! Nix itself turns a branch or tag into a commit; this module says what to ask and what an
//! answer means.

use vstd::prelude::*;

use crate::error::{ErrorView, NixlayerError};
use crate::resolver::{nix_args, nix_cmd, reply_error, told_behind};
use crate::sources::{clone_opt, opt_view};
use crate::text::{concat2, concat3, trimmed};
use crate::tools::{CallView, Reply, ToolCall};

verus! {

/// A package of a GitHub flake, pinned to a commit.
#[derive(Debug, Clone)]
pub struct GithubPackageInfo {
    pub owner: String,
    pub repo: String,
    pub git_ref: Option<String>,
    pub rev: String,
    pub attr: String,
    pub description: Option<String>,
    pub homepage: Option<String>,
}

/// A [`GithubPackageInfo`] with its texts as character sequences.
pub struct PinnedView {
    pub owner: Seq<char>,
    pub repo: Seq<char>,
    pub git_ref: Option<Seq<char>>,
    pub rev: Seq<char>,
    pub attr: Seq<char>,
    pub description: Option<Seq<char>>,
    pub homepage: Option<Seq<char>>,
}

impl View for GithubPackageInfo {
    type V = PinnedView;

    open spec fn view(&self) -> PinnedView {
        PinnedView {
            owner: self.owner@,
            repo: self.repo@,
            git_ref: opt_view(self.git_ref),
            rev: self.rev@,
            attr: self.attr@,
            description: opt_view(self.description),
            homepage: opt_view(self.homepage),
        }
    }
}

/// A repository, at a branch, a tag or a commit where one is given.
pub open spec fn repo_url(owner: Seq<char>, repo: Seq<char>, git_ref: Option<Seq<char>>) -> Seq<char> {
    match git_ref {
        Some(r) => "github:"@ + owner + "/"@ + repo + "/"@ + r,
        None => "github:"@ + owner + "/"@ + repo,
    }
}

fn url_of(owner: &str, repo: &str, git_ref: &Option<String>) -> (r: String)
    ensures
        r@ == repo_url(owner@, repo@, opt_view(*git_ref)),
{
    let mut s: String = concat3("github:", owner, "/");
    s.append(repo);
    match git_ref {
        Some(g) => {
            s.append("/");
            s.append(g);
        },
        None => {},
    }
    s
}

pub open spec fn metadata_call(url: Seq<char>) -> CallView {
    CallView {
        program: "nix"@,
        args: nix_args().push("flake"@).push("metadata"@).push(url).push("--json"@),
    }
}

/// An expression for what the flake at `url` says of its output `attr`.
pub open spec fn meta_expr(url: Seq<char>, attr: Seq<char>) -> Seq<char> {
    "let f = builtins.getFlake \""@ + url
        + "\"; system = builtins.currentSystem; p = f.packages.${system}."@ + attr
        + "; in { description = p.meta.description or null; homepage = p.meta.homepage or null; }"@
}

pub open spec fn meta_call(url: Seq<char>, attr: Seq<char>) -> CallView {
    CallView {
        program: "nix"@,
        args: nix_args().push("eval"@).push("--impure"@).push("--json"@).push("--expr"@).push(
            meta_expr(url, attr),
        ),
    }
}

/// Ask which commit a repository is at. Only `nix` can tell.
pub fn resolve_github(owner: &str, repo: &str, git_ref: &Option<String>, has_nix: bool) -> (r: Result<
    ToolCall,
    NixlayerError,
>)
    ensures
        match r {
            Ok(c) => has_nix && c@ == metadata_call(repo_url(owner@, repo@, opt_view(*git_ref))),
            Err(e) => !has_nix && e@ == ErrorView::Other(
                "GitHub-sourced packages require the modern `nix` CLI (flakes) — the legacy nix-env fallback doesn't support this."@,
            ),
        },
{
    if !has_nix {
        return Err(
            NixlayerError::Other(
                "GitHub-sourced packages require the modern `nix` CLI (flakes) — the legacy nix-env fallback doesn't support this.".to_string(),
            ),
        );
    }
    Ok(nix_cmd().arg("flake").arg("metadata").arg(&url_of(owner, repo, git_ref)).arg("--json"))
}

/// The commit that Nix named for a repository.
pub fn read_commit(
    owner: &str,
    repo: &str,
    git_ref: &Option<String>,
    reply: Reply<Option<String>>,
) -> (r: Result<String, NixlayerError>)
    ensures
        ({
            let url = repo_url(owner@, repo@, opt_view(*git_ref));
            match r {
                Ok(rev) => reply matches Reply::Data(d) && opt_view(d) == Some(rev@),
                Err(e) => match reply {
                    Reply::Data(d) => d is None && e@ == ErrorView::ResolverFailed(
                        url
                            + " resolved, but Nix didn't report a pinned commit — unexpected flake ref shape"@,
                    ),
                    _ => reply_error(
                        reply,
                        told_behind(
                            "could not resolve "@ + url
                                + " — is the repo public and does it have a flake.nix?\n"@,
                        ),
                    ) == Some(e@),
                },
            }
        }),
{
    let url: String = url_of(owner, repo, git_ref);
    match reply {
        Reply::NotRun(m) => Err(NixlayerError::ResolverFailed(m)),
        Reply::Failed(m) => {
            let mut s: String = concat3(
                "could not resolve ",
                &url,
                " — is the repo public and does it have a flake.nix?\n",
            );
            s.append(&trimmed(&m));
            Err(NixlayerError::ResolverFailed(s))
        },
        Reply::Malformed(m) => Err(NixlayerError::Json(m)),
        Reply::Data(Some(rev)) => Ok(rev),
        Reply::Data(None) => Err(
            NixlayerError::ResolverFailed(
                concat2(
                    &url,
                    " resolved, but Nix didn't report a pinned commit — unexpected flake ref shape",
                ),
            ),
        ),
    }
}

/// The output that is meant where none is named.
pub fn output_attr(attr: Option<String>) -> (r: String)
    ensures
        r@ == match opt_view(attr) {
            Some(a) => a,
            None => "default"@,
        },
{
    match attr {
        Some(a) => a,
        None => "default".to_string(),
    }
}

/// An expression for what the flake at `url` says of its output `attr`.
pub fn eval_meta_expr(url: &str, attr: &str) -> (r: String)
    ensures
        r@ == meta_expr(url@, attr@),
{
    let mut s: String = concat3(
        "let f = builtins.getFlake \"",
        url,
        "\"; system = builtins.currentSystem; p = f.packages.${system}.",
    );
    s.append(attr);
    s.append(
        "; in { description = p.meta.description or null; homepage = p.meta.homepage or null; }",
    );
    s
}

/// Ask what a flake, at a commit, says of one of its outputs.
pub fn meta_request(owner: &str, repo: &str, rev: &String, attr: &str) -> (r: ToolCall)
    ensures
        r@ == meta_call(repo_url(owner@, repo@, Some(rev@)), attr@),
{
    let url: String = url_of(owner, repo, &Some(rev.clone()));
    nix_cmd().arg("eval").arg("--impure").arg("--json").arg("--expr").arg(&eval_meta_expr(&url, attr))
}

/// The pinned package. What the flake says of itself is a bonus: without an answer it stays
/// unknown.
pub fn pinned_info(
    owner: &str,
    repo: &str,
    git_ref: &Option<String>,
    rev: String,
    attr: String,
    meta: Reply<(Option<String>, Option<String>)>,
) -> (r: GithubPackageInfo)
    ensures
        r@ == (PinnedView {
            owner: owner@,
            repo: repo@,
            git_ref: opt_view(*git_ref),
            rev: rev@,
            attr: attr@,
            description: match meta {
                Reply::Data(d) => opt_view(d.0),
                _ => None,
            },
            homepage: match meta {
                Reply::Data(d) => opt_view(d.1),
                _ => None,
            },
        }),
{
    let (description, homepage): (Option<String>, Option<String>) = match meta {
        Reply::Data(d) => d,
        _ => (None, None),
    };
    GithubPackageInfo {
        owner: owner.to_string(),
        repo: repo.to_string(),
        git_ref: clone_opt(git_ref),
        rev,
        attr,
        description,
        homepage,
    }
}

} // verus!

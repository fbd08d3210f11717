//! What can go wrong, and how it is told.

use vstd::prelude::*;

use crate::text::{concat3, decimal, decimal_of};

verus! {

/// Every failure that a command reports. Paths are held as text; `Io` and `Json` hold the
/// description that the failing operation gave of itself.
#[derive(Debug)]
pub enum NixlayerError {
    ConfigNotFound(String),
    NotInitialized(String),
    AlreadyInitialized(String),
    UnknownCategory(String, String),
    PackageNotManaged(String),
    PackageAlreadyExists(String, String),
    UnparseableCategoryFile(String, String),
    DuplicatePackage(String, String),
    UnsafeConfigEdit(String),
    InvalidAttributeName(String),
    ResolverFailed(String),
    NoNixFound,
    RebuildFailed(i32),
    UnsafeToRebuild(String),
    Io(String),
    Json(String),
    Other(String),
}

/// A [`NixlayerError`] with its texts as character sequences.
pub enum ErrorView {
    ConfigNotFound(Seq<char>),
    NotInitialized(Seq<char>),
    AlreadyInitialized(Seq<char>),
    UnknownCategory(Seq<char>, Seq<char>),
    PackageNotManaged(Seq<char>),
    PackageAlreadyExists(Seq<char>, Seq<char>),
    UnparseableCategoryFile(Seq<char>, Seq<char>),
    DuplicatePackage(Seq<char>, Seq<char>),
    UnsafeConfigEdit(Seq<char>),
    InvalidAttributeName(Seq<char>),
    ResolverFailed(Seq<char>),
    NoNixFound,
    RebuildFailed(i32),
    UnsafeToRebuild(Seq<char>),
    Io(Seq<char>),
    Json(Seq<char>),
    Other(Seq<char>),
}

impl View for NixlayerError {
    type V = ErrorView;

    open spec fn view(&self) -> ErrorView {
        match *self {
            NixlayerError::ConfigNotFound(p) => ErrorView::ConfigNotFound(p@),
            NixlayerError::NotInitialized(p) => ErrorView::NotInitialized(p@),
            NixlayerError::AlreadyInitialized(p) => ErrorView::AlreadyInitialized(p@),
            NixlayerError::UnknownCategory(c, k) => ErrorView::UnknownCategory(c@, k@),
            NixlayerError::PackageNotManaged(p) => ErrorView::PackageNotManaged(p@),
            NixlayerError::PackageAlreadyExists(p, c) => ErrorView::PackageAlreadyExists(p@, c@),
            NixlayerError::UnparseableCategoryFile(p, m) => ErrorView::UnparseableCategoryFile(
                p@,
                m@,
            ),
            NixlayerError::DuplicatePackage(p, c) => ErrorView::DuplicatePackage(p@, c@),
            NixlayerError::UnsafeConfigEdit(p) => ErrorView::UnsafeConfigEdit(p@),
            NixlayerError::InvalidAttributeName(a) => ErrorView::InvalidAttributeName(a@),
            NixlayerError::ResolverFailed(m) => ErrorView::ResolverFailed(m@),
            NixlayerError::NoNixFound => ErrorView::NoNixFound,
            NixlayerError::RebuildFailed(c) => ErrorView::RebuildFailed(c),
            NixlayerError::UnsafeToRebuild(m) => ErrorView::UnsafeToRebuild(m@),
            NixlayerError::Io(m) => ErrorView::Io(m@),
            NixlayerError::Json(m) => ErrorView::Json(m@),
            NixlayerError::Other(m) => ErrorView::Other(m@),
        }
    }
}

/// A whole number in decimal, with a minus sign where it is negative.
pub open spec fn signed(n: int) -> Seq<char> {
    if n < 0 {
        "-"@ + decimal((-n) as nat)
    } else {
        decimal(n as nat)
    }
}

pub fn signed_text(n: i32) -> (r: String)
    ensures
        r@ == signed(n as int),
{
    if n < 0 {
        let mut s: String = "-".to_string();
        s.append(&decimal_of((-(n as i64)) as u128));
        s
    } else {
        decimal_of(n as u128)
    }
}

/// The message that tells the user of an error.
pub open spec fn message_of(e: ErrorView) -> Seq<char> {
    match e {
        ErrorView::ConfigNotFound(p) => "could not find a NixOS configuration.\n  Looked in: "@ + p
            + "\n  Set NIXLAYER_CONFIG_DIR to point at your NixOS config directory if it lives elsewhere."@,
        ErrorView::NotInitialized(p) => "nixlayer has not been initialized here yet.\n  Expected: "@ + p
            + "\n  Run `nixlayer init` first."@,
        ErrorView::AlreadyInitialized(p) => "nixlayer is already initialized at "@ + p,
        ErrorView::UnknownCategory(c, known) => "category '"@ + c
            + "' does not exist.\n  Known categories: "@ + known
            + "\n  Create it with `nixlayer add <package> --category "@ + c + "`."@,
        ErrorView::PackageNotManaged(p) => "package '"@ + p
            + "' not found in any nixlayer category.\n  Run `nixlayer list` to see what's managed, or `nixlayer search "@
            + p + "` to look it up in nixpkgs."@,
        ErrorView::PackageAlreadyExists(p, c) => "package '"@ + p
            + "' is already declared in category '"@ + c + "'.\n  Use `nixlayer move "@ + p
            + " <category>` to relocate it instead."@,
        ErrorView::UnparseableCategoryFile(p, m) => "refusing to auto-manage "@ + p
            + ": it contains entries nixlayer doesn't recognize as plain package names ("@ + m
            + ").\n  Edit this file by hand, or move the custom entries elsewhere."@,
        ErrorView::DuplicatePackage(p, c) => "duplicate package declaration:\n  '"@ + p
            + "' appears in more than one category: "@ + c
            + "\n  Resolve this before rebuilding, e.g. `nixlayer move "@ + p + " <category>`."@,
        ErrorView::UnsafeConfigEdit(p) => "could not safely locate an `imports = [ ... ];` block in "@
            + p
            + ".\n  nixlayer only edits files it fully understands, and won't guess here.\n  Add this line yourself inside your imports list:\n\n      ./modules/nixlayer/default.nix\n"@,
        ErrorView::InvalidAttributeName(a) => "'"@ + a
            + "' does not look like a plain nixpkgs attribute name or path (e.g. 'firefox', 'nodePackages.typescript')."@,
        ErrorView::ResolverFailed(m) => "nix package search/eval failed: "@ + m
            + "\n  This usually means either:\n    - `nix` isn't installed or isn't on PATH, or\n    - the `nixpkgs` flake registry entry can't be fetched (no network / no registry), or\n    - the package name genuinely doesn't exist in nixpkgs.\n  Run `nixlayer doctor` for a full diagnosis."@,
        ErrorView::NoNixFound => "no nix package manager found on this system (checked for `nix`, `nix-env`, `nix-instantiate`).\n  nixlayer needs Nix to search and validate packages. Are you running this inside a NixOS/Nix environment?"@,
        ErrorView::RebuildFailed(c) => "nixos-rebuild failed (exit code "@ + signed(c as int)
            + "). See output above.\n  The previous generation is still active; nothing was left half-broken."@,
        ErrorView::UnsafeToRebuild(m) => "refusing to rebuild: "@ + m
            + "\n  Run `nixlayer doctor` for details, or `nixlayer diff` to see what would change."@,
        ErrorView::Io(m) => m,
        ErrorView::Json(m) => m,
        ErrorView::Other(m) => m,
    }
}

impl NixlayerError {
    /// The message that tells the user of this error.
    pub fn message(&self) -> (r: String)
        ensures
            r@ == message_of(self@),
    {
        match self {
            NixlayerError::ConfigNotFound(p) => concat3(
                "could not find a NixOS configuration.\n  Looked in: ",
                p,
                "\n  Set NIXLAYER_CONFIG_DIR to point at your NixOS config directory if it lives elsewhere.",
            ),
            NixlayerError::NotInitialized(p) => concat3(
                "nixlayer has not been initialized here yet.\n  Expected: ",
                p,
                "\n  Run `nixlayer init` first.",
            ),
            NixlayerError::AlreadyInitialized(p) => {
                let mut s: String = "nixlayer is already initialized at ".to_string();
                s.append(p);
                s
            },
            NixlayerError::UnknownCategory(c, known) => {
                let mut s: String = concat3("category '", c, "' does not exist.\n  Known categories: ");
                s.append(known);
                s.append("\n  Create it with `nixlayer add <package> --category ");
                s.append(c);
                s.append("`.");
                s
            },
            NixlayerError::PackageNotManaged(p) => {
                let mut s: String = concat3(
                    "package '",
                    p,
                    "' not found in any nixlayer category.\n  Run `nixlayer list` to see what's managed, or `nixlayer search ",
                );
                s.append(p);
                s.append("` to look it up in nixpkgs.");
                s
            },
            NixlayerError::PackageAlreadyExists(p, c) => {
                let mut s: String = concat3("package '", p, "' is already declared in category '");
                s.append(c);
                s.append("'.\n  Use `nixlayer move ");
                s.append(p);
                s.append(" <category>` to relocate it instead.");
                s
            },
            NixlayerError::UnparseableCategoryFile(p, m) => {
                let mut s: String = concat3(
                    "refusing to auto-manage ",
                    p,
                    ": it contains entries nixlayer doesn't recognize as plain package names (",
                );
                s.append(m);
                s.append(").\n  Edit this file by hand, or move the custom entries elsewhere.");
                s
            },
            NixlayerError::DuplicatePackage(p, c) => {
                let mut s: String = concat3(
                    "duplicate package declaration:\n  '",
                    p,
                    "' appears in more than one category: ",
                );
                s.append(c);
                s.append("\n  Resolve this before rebuilding, e.g. `nixlayer move ");
                s.append(p);
                s.append(" <category>`.");
                s
            },
            NixlayerError::UnsafeConfigEdit(p) => concat3(
                "could not safely locate an `imports = [ ... ];` block in ",
                p,
                ".\n  nixlayer only edits files it fully understands, and won't guess here.\n  Add this line yourself inside your imports list:\n\n      ./modules/nixlayer/default.nix\n",
            ),
            NixlayerError::InvalidAttributeName(a) => concat3(
                "'",
                a,
                "' does not look like a plain nixpkgs attribute name or path (e.g. 'firefox', 'nodePackages.typescript').",
            ),
            NixlayerError::ResolverFailed(m) => concat3(
                "nix package search/eval failed: ",
                m,
                "\n  This usually means either:\n    - `nix` isn't installed or isn't on PATH, or\n    - the `nixpkgs` flake registry entry can't be fetched (no network / no registry), or\n    - the package name genuinely doesn't exist in nixpkgs.\n  Run `nixlayer doctor` for a full diagnosis.",
            ),
            NixlayerError::NoNixFound => {
                "no nix package manager found on this system (checked for `nix`, `nix-env`, `nix-instantiate`).\n  nixlayer needs Nix to search and validate packages. Are you running this inside a NixOS/Nix environment?".to_string()
            },
            NixlayerError::RebuildFailed(c) => concat3(
                "nixos-rebuild failed (exit code ",
                &signed_text(*c),
                "). See output above.\n  The previous generation is still active; nothing was left half-broken.",
            ),
            NixlayerError::UnsafeToRebuild(m) => concat3(
                "refusing to rebuild: ",
                m,
                "\n  Run `nixlayer doctor` for details, or `nixlayer diff` to see what would change.",
            ),
            NixlayerError::Io(m) => m.clone(),
            NixlayerError::Json(m) => m.clone(),
            NixlayerError::Other(m) => m.clone(),
        }
    }
}

} // verus!

use nixlayer::error::{signed_text, NixlayerError};
use nixlayer::order::{not_after, sort, sort_unique};
use nixlayer::text::{
    behind_last, count_text, cut_first, decimal_of, find_str, includes, joined, lines_of, padded,
    parse_number, trimmed, words_of,
};

fn texts(v: &[&str]) -> Vec<String> {
    v.iter().map(|s| s.to_string()).collect()
}

#[test]
fn lines_are_those_of_the_standard_library() {
    for s in ["", "a", "a\n", "a\nb", "\n\n", "a\r\nb\r", "\r\n", "é\nü\n\n"] {
        let want: Vec<String> = s.lines().map(|l| l.to_string()).collect();
        assert_eq!(lines_of(s), want, "{s:?}");
    }
}

#[test]
fn words_and_trimming_follow_white_space() {
    for s in ["", " a  b ", "\u{a0}x\u{3000}y\t", "\u{85}\u{2028}", "a\u{200b}b"] {
        let want: Vec<String> = s.split_whitespace().map(|l| l.to_string()).collect();
        assert_eq!(words_of(s), want, "{s:?}");
        assert_eq!(trimmed(s), s.trim(), "{s:?}");
    }
}

#[test]
fn searching_counts_characters() {
    assert_eq!(find_str("éab", "ab"), Some(1));
    assert_eq!(find_str("aab", "ab"), Some(1));
    assert_eq!(find_str("a", "ab"), None);
    assert_eq!(find_str("x", ""), Some(0));
    assert!(includes("abc", "bc") && !includes("abc", "cb"));
}

#[test]
fn splitting_and_joining() {
    assert_eq!(cut_first("a/b/c", '/'), Some(("a".to_string(), "b/c".to_string())));
    assert_eq!(cut_first("abc", '/'), None);
    assert_eq!(behind_last("a.b.c", '.'), Some("c".to_string()));
    assert_eq!(behind_last("a.", '.'), Some("".to_string()));
    assert_eq!(behind_last("a", '.'), None);
    assert_eq!(joined(&texts(&["a", "b"]), ", "), "a, b");
    assert_eq!(joined(&Vec::new(), ", "), "");
}

#[test]
fn padding_counts_characters() {
    assert_eq!(padded("é", 3), format!("{:<3}", "é"));
    assert_eq!(padded("abcd", 3), "abcd");
}

#[test]
fn numbers() {
    assert_eq!(decimal_of(0), "0");
    assert_eq!(decimal_of(u128::from(u64::MAX) + 5), "18446744073709551620");
    assert_eq!(count_text(1024), "1024");
    assert_eq!(signed_text(-1), "-1");
    assert_eq!(signed_text(i32::MIN), i32::MIN.to_string());
    assert_eq!(signed_text(7), "7");
    for s in ["7", "+7", "007", "", "+", "-1", "1a", "99999999999999999999999", " 1"] {
        assert_eq!(parse_number(s), s.parse::<usize>().ok(), "{s:?}");
    }
}

#[test]
fn order_is_that_of_the_standard_library() {
    let v = texts(&["b", "a", "B", "é", "a", "ab", ""]);
    let mut want = v.clone();
    want.sort();
    assert_eq!(sort(&v), want);
    want.dedup();
    assert_eq!(sort_unique(&v), want);
    assert!(not_after("a", "a") && not_after("a", "ab") && !not_after("b", "a"));
}

#[test]
fn every_error_is_told_in_words() {
    let p = || "/p".to_string();
    let cases: Vec<(NixlayerError, &str)> = vec![
        (NixlayerError::ConfigNotFound(p()), "could not find a NixOS configuration.\n  Looked in: /p\n  Set NIXLAYER_CONFIG_DIR to point at your NixOS config directory if it lives elsewhere."),
        (NixlayerError::NotInitialized(p()), "nixlayer has not been initialized here yet.\n  Expected: /p\n  Run `nixlayer init` first."),
        (NixlayerError::AlreadyInitialized(p()), "nixlayer is already initialized at /p"),
        (NixlayerError::UnknownCategory("x".to_string(), "a, b".to_string()), "category 'x' does not exist.\n  Known categories: a, b\n  Create it with `nixlayer add <package> --category x`."),
        (NixlayerError::PackageNotManaged("x".to_string()), "package 'x' not found in any nixlayer category.\n  Run `nixlayer list` to see what's managed, or `nixlayer search x` to look it up in nixpkgs."),
        (NixlayerError::PackageAlreadyExists("x".to_string(), "a".to_string()), "package 'x' is already declared in category 'a'.\n  Use `nixlayer move x <category>` to relocate it instead."),
        (NixlayerError::UnparseableCategoryFile(p(), "m".to_string()), "refusing to auto-manage /p: it contains entries nixlayer doesn't recognize as plain package names (m).\n  Edit this file by hand, or move the custom entries elsewhere."),
        (NixlayerError::DuplicatePackage("x".to_string(), "a, b".to_string()), "duplicate package declaration:\n  'x' appears in more than one category: a, b\n  Resolve this before rebuilding, e.g. `nixlayer move x <category>`."),
        (NixlayerError::UnsafeConfigEdit(p()), "could not safely locate an `imports = [ ... ];` block in /p.\n  nixlayer only edits files it fully understands, and won't guess here.\n  Add this line yourself inside your imports list:\n\n      ./modules/nixlayer/default.nix\n"),
        (NixlayerError::InvalidAttributeName("x y".to_string()), "'x y' does not look like a plain nixpkgs attribute name or path (e.g. 'firefox', 'nodePackages.typescript')."),
        (NixlayerError::ResolverFailed("m".to_string()), "nix package search/eval failed: m\n  This usually means either:\n    - `nix` isn't installed or isn't on PATH, or\n    - the `nixpkgs` flake registry entry can't be fetched (no network / no registry), or\n    - the package name genuinely doesn't exist in nixpkgs.\n  Run `nixlayer doctor` for a full diagnosis."),
        (NixlayerError::NoNixFound, "no nix package manager found on this system (checked for `nix`, `nix-env`, `nix-instantiate`).\n  nixlayer needs Nix to search and validate packages. Are you running this inside a NixOS/Nix environment?"),
        (NixlayerError::RebuildFailed(-1), "nixos-rebuild failed (exit code -1). See output above.\n  The previous generation is still active; nothing was left half-broken."),
        (NixlayerError::UnsafeToRebuild("m".to_string()), "refusing to rebuild: m\n  Run `nixlayer doctor` for details, or `nixlayer diff` to see what would change."),
        (NixlayerError::Io("io".to_string()), "io"),
        (NixlayerError::Json("json".to_string()), "json"),
        (NixlayerError::Other("other".to_string()), "other"),
    ];
    for (e, want) in cases {
        assert_eq!(e.message(), want);
    }
}

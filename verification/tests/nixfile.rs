use nixlayer::error::NixlayerError;
use nixlayer::nixfile::{
    find_brace_block, find_bracket_block, is_simple_attr_path, replace_bracket_inner, shortened,
    tokenize_package_list, validate_syntax, SyntaxCheck, SyntaxStep,
};
use nixlayer::tools::ToolOutput;

#[test]
fn finds_simple_bracket_block() {
    let text = "foo = with pkgs; [\n  a\n  b\n];";
    let block = find_bracket_block(text, 0).unwrap();
    assert_eq!(block.inner.trim(), "a\n  b");
}

#[test]
fn handles_nested_brackets() {
    let text = "x = [ [ a b ] c ];";
    let block = find_bracket_block(text, 0).unwrap();
    assert_eq!(block.inner.trim(), "[ a b ] c");
}

#[test]
fn tokenizes_and_strips_comments() {
    let inner = "  firefox\n  # a comment\n  vlc\n  nodePackages.typescript\n";
    let toks = tokenize_package_list(inner).unwrap();
    assert_eq!(toks, vec!["firefox", "vlc", "nodePackages.typescript"]);
}

#[test]
fn rejects_complex_entries() {
    let inner = "  firefox\n  (python3.withPackages (p: [ p.numpy ]))\n";
    let err = tokenize_package_list(inner).unwrap_err();
    match err {
        NixlayerError::Other(s) => assert!(s.contains("withPackages") || s.contains("(")),
        _ => panic!("wrong error type"),
    }
}

#[test]
fn replace_preserves_surrounding_text() {
    let text = "before [ a b ] after";
    let block = find_bracket_block(text, 0).unwrap();
    let replaced = replace_bracket_inner(text, &block, " c d ");
    assert_eq!(replaced, "before [ c d ] after");
}

#[test]
fn offsets_are_bytes() {
    let text = "é [ ü ] {x{y}}";
    let block = find_bracket_block(text, 2).unwrap();
    assert_eq!((block.open_idx, block.close_idx), (3, 8));
    assert_eq!(block.inner, " ü ");
    let braces = find_brace_block(text, 0).unwrap();
    assert_eq!(braces.inner, "x{y}");
    assert_eq!(&text[braces.open_idx..=braces.close_idx], "{x{y}}");
    assert!(find_bracket_block("[ [ ]", 0).is_none());
    assert!(find_bracket_block("] x", 0).is_none());
}

#[test]
fn attribute_paths() {
    for good in ["a", "_a", "a.b-c'd_9", "A1.B2"] {
        assert!(is_simple_attr_path(good), "{good}");
    }
    for bad in ["", "1a", "a..b", ".a", "a.", "a b", "a+", "é", "-a", "a.1"] {
        assert!(!is_simple_attr_path(bad), "{bad}");
    }
}

#[test]
fn commas_and_comments_are_dropped() {
    assert_eq!(tokenize_package_list("a,, b,\r\n, # c\n d#e").unwrap(), vec!["a", "b", "d"]);
    assert!(tokenize_package_list(" \n").unwrap().is_empty());
}

#[test]
fn all_bad_tokens_are_named() {
    match tokenize_package_list("a 1, (x) b") {
        Err(NixlayerError::Other(m)) => assert_eq!(m, "1, (x)"),
        _ => panic!("expected an error"),
    }
}

#[test]
fn the_first_tool_that_runs_decides() {
    let call = match validate_syntax("/x.nix", &vec![]) {
        SyntaxStep::Run(c) => c,
        _ => panic!("expected a call"),
    };
    assert_eq!(call.program, "nix-instantiate");
    assert_eq!(call.args, vec!["--parse", "/x.nix"]);
    let call = match validate_syntax("/x.nix", &vec![None]) {
        SyntaxStep::Run(c) => c,
        _ => panic!("expected a call"),
    };
    assert_eq!(call.program, "nix");
    assert_eq!(
        call.args,
        vec![
            "--extra-experimental-features",
            "nix-command",
            "eval",
            "--file",
            "/x.nix",
            "--apply",
            "x: null",
            "--json"
        ]
    );
    let bad = Some(ToolOutput { success: false, stderr: " no \n".to_string() });
    let good = Some(ToolOutput { success: true, stderr: "warning".to_string() });
    assert!(matches!(
        validate_syntax("/x.nix", &vec![bad.clone()]),
        SyntaxStep::Finished(SyntaxCheck::Invalid(m)) if m == "no"
    ));
    assert!(matches!(
        validate_syntax("/x.nix", &vec![None, good.clone()]),
        SyntaxStep::Finished(SyntaxCheck::Valid)
    ));
    assert!(matches!(
        validate_syntax("/x.nix", &vec![good, bad]),
        SyntaxStep::Finished(SyntaxCheck::Valid)
    ));
    assert!(matches!(
        validate_syntax("/x.nix", &vec![None, None]),
        SyntaxStep::Finished(SyntaxCheck::Skipped)
    ));
}

#[test]
fn commits_are_shortened() {
    assert_eq!(shortened("8f3a91c2b1d4e5f6", 10), "8f3a91c2b1");
    assert_eq!(shortened("8f3", 10), "8f3");
    assert_eq!(shortened("éé", 3), "é");
}

#[test]
fn balanced_replacements_can_be_undone() {
    let text = "é = [ a [ b ] ]; x = [ c ];";
    let block = find_bracket_block(text, 0).unwrap();
    let replaced = replace_bracket_inner(text, &block, "[ü][[]]");
    assert_eq!(replaced, "é = [[ü][[]]]; x = [ c ];");
    let again = find_bracket_block(&replaced, 0).unwrap();
    assert_eq!((again.open_idx, again.inner.as_str()), (block.open_idx, "[ü][[]]"));
    assert_eq!(replace_bracket_inner(&replaced, &again, &block.inner), text);
}

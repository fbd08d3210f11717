use nixlayer::error::NixlayerError;
use nixlayer::github::{
    eval_meta_expr, meta_request, output_attr, pinned_info, read_commit, resolve_github,
};
use nixlayer::profile::{
    read_elements, read_removal, remove_from_profile, scan_nix_env, scan_profile, try_scan_nix_profile,
    Listing, ProfileBackend, ProfileEntry, ScanStep,
};
use nixlayer::json::{parse, Json};
use nixlayer::resolver::{
    detect_backend, eval_apply_expr, read_channel_entry, read_evaluated, read_found,
    read_found_in_channel, regex_escape, resolve_attribute, search, Backend, LegacyEntry, RawMeta,
    SearchEntry,
};
use nixlayer::tools::Reply;

#[test]
fn eval_expr_has_balanced_braces() {
    let expr = eval_meta_expr("github:a/b/1234567", "default");
    assert_eq!(
        expr,
        r#"let f = builtins.getFlake "github:a/b/1234567"; system = builtins.currentSystem; p = f.packages.${system}.default; in { description = p.meta.description or null; homepage = p.meta.homepage or null; }"#
    );
    assert_eq!(expr.matches('{').count(), expr.matches('}').count());
}

#[test]
fn eval_expr_is_well_formed_nix_ish() {
    let expr = eval_apply_expr();
    let opens = expr.matches('{').count();
    let closes = expr.matches('}').count();
    assert_eq!(opens, closes);
    assert!(expr.starts_with("p: {\n      pname = p.pname or (p.name or null);\n"));
    assert!(expr.ends_with("        else l.free or true;\n    }"));
}

#[test]
fn regex_escape_handles_specials() {
    assert_eq!(regex_escape("c++"), "c\\+\\+");
    assert_eq!(regex_escape("steam"), "steam");
}

#[test]
fn every_special_character_is_escaped() {
    assert_eq!(regex_escape("\\.+*?()|[]{}^$"), "\\\\\\.\\+\\*\\?\\(\\)\\|\\[\\]\\{\\}\\^\\$");
}

#[test]
fn the_modern_tool_is_preferred() {
    assert!(matches!(detect_backend(true, true), Ok(Backend::Flakes)));
    assert!(matches!(detect_backend(false, true), Ok(Backend::Legacy)));
    assert!(matches!(detect_backend(false, false), Err(NixlayerError::NoNixFound)));
}

#[test]
fn attributes_are_asked_for() {
    let (b, call) = resolve_attribute("firefox", true, false).unwrap();
    assert_eq!(b, Backend::Flakes);
    assert_eq!(call.program, "nix");
    assert_eq!(
        call.args,
        vec![
            "--extra-experimental-features".to_string(),
            "nix-command flakes".to_string(),
            "eval".to_string(),
            "--json".to_string(),
            "nixpkgs#firefox".to_string(),
            "--apply".to_string(),
            eval_apply_expr()
        ]
    );
    let (b, call) = resolve_attribute("firefox", false, true).unwrap();
    assert_eq!(b, Backend::Legacy);
    assert_eq!(call.args, vec!["-qa", "--json", "-A", "nixpkgs.firefox"]);
    assert!(matches!(resolve_attribute("a b", true, true), Err(NixlayerError::InvalidAttributeName(a)) if a == "a b"));
    assert!(matches!(resolve_attribute("a", false, false), Err(NixlayerError::NoNixFound)));
}

#[test]
fn searches_are_asked_for() {
    let (_, call) = search("c++", true, true).unwrap();
    assert_eq!(call.args[2..], ["search", "nixpkgs", "c++", "--json"].map(String::from));
    let (_, call) = search("c++", false, true).unwrap();
    assert_eq!(call.args, vec!["-qaP", "--json", ".*c\\+\\+.*"]);
    assert!(matches!(search("x", false, false), Err(NixlayerError::NoNixFound)));
}

fn raw() -> RawMeta {
    RawMeta {
        pname: Some("steam".to_string()),
        version: None,
        description: Some("d".to_string()),
        homepage: None,
        broken: true,
        license: vec!["unfree".to_string()],
        free: false,
    }
}

#[test]
fn evaluations_are_read() {
    let p = read_evaluated("steam", Reply::Data(raw())).unwrap();
    assert_eq!(p.attribute, "steam");
    assert_eq!(p.pname.as_deref(), Some("steam"));
    assert_eq!(p.license, vec!["unfree"]);
    assert!(!p.free && p.broken && p.source == Backend::Flakes);
    assert!(matches!(read_evaluated("x", Reply::NotRun("n".to_string())), Err(NixlayerError::ResolverFailed(m)) if m == "n"));
    assert!(matches!(read_evaluated("x", Reply::Failed(" f\n".to_string())), Err(NixlayerError::ResolverFailed(m))
        if m == "attribute 'x' not found in nixpkgs (via flake registry).\nf"));
    assert!(matches!(read_evaluated("x", Reply::Malformed("j".to_string())), Err(NixlayerError::Json(m)) if m == "j"));
}

fn legacy(pname: &str, version: Option<&str>) -> LegacyEntry {
    LegacyEntry { pname: pname.to_string(), version: version.map(String::from) }
}

#[test]
fn channel_entries_are_read() {
    let p = read_channel_entry(
        "steam",
        Reply::Data(vec![("a".to_string(), legacy("s", None)), ("b".to_string(), legacy("t", Some("1")))]),
    )
    .unwrap();
    assert_eq!((p.attribute.as_str(), p.pname.as_deref(), p.version.as_deref()), ("steam", Some("s"), Some("")));
    assert!(p.free && p.source == Backend::Legacy);
    assert!(matches!(read_channel_entry("x", Reply::Data(vec![])), Err(NixlayerError::ResolverFailed(m)) if m == "no match for 'x'"));
    assert!(matches!(read_channel_entry("x", Reply::Failed("f".to_string())), Err(NixlayerError::ResolverFailed(m))
        if m == "attribute 'x' not found in nixpkgs (via nix-env, legacy mode).\nf"));
}

#[test]
fn search_results_are_read() {
    let entry = |d: &str| SearchEntry {
        pname: "p".to_string(),
        version: "1".to_string(),
        description: d.to_string(),
    };
    let v = read_found(Reply::Data(vec![
        ("legacyPackages.x86_64-linux.firefox".to_string(), entry("")),
        ("plain".to_string(), entry("d")),
        ("legacyPackages.x86_64-linux.nodePackages.typescript".to_string(), entry("")),
        ("packages.x86_64-linux.hello".to_string(), entry("")),
        ("legacyPackages.hello".to_string(), entry("")),
    ]))
    .unwrap();
    assert_eq!(v[2].attribute, "nodePackages.typescript");
    assert_eq!(v[3].attribute, "hello");
    assert_eq!(v[4].attribute, "hello");
    assert_eq!(v[0].attribute, "firefox");
    assert_eq!(v[0].description, None);
    assert_eq!(v[1].attribute, "plain");
    assert_eq!(v[1].description.as_deref(), Some("d"));
    assert!(matches!(read_found(Reply::Failed(" f ".to_string())), Err(NixlayerError::ResolverFailed(m)) if m == "f"));
    let v = read_found_in_channel(Reply::Data(vec![
        ("nixos.steam".to_string(), legacy("s", None)),
        ("nixpkgs.nodePackages.typescript".to_string(), legacy("t", None)),
        ("bare".to_string(), legacy("b", None)),
    ]))
    .unwrap();
    assert_eq!(v[1].attribute, "nodePackages.typescript");
    assert_eq!(v[2].attribute, "bare");
    assert_eq!((v[0].attribute.as_str(), v[0].version.as_deref()), ("steam", None));
    assert!(matches!(read_found_in_channel(Reply::Malformed("j".to_string())), Err(NixlayerError::Json(_))));
}

#[test]
fn commits_are_asked_for_and_read() {
    let main = Some("main".to_string());
    let call = resolve_github("o", "r", &main, true).unwrap();
    assert_eq!(call.args[2..], ["flake", "metadata", "github:o/r/main", "--json"].map(String::from));
    assert_eq!(resolve_github("o", "r", &None, true).unwrap().args[4], "github:o/r");
    assert!(matches!(resolve_github("o", "r", &None, false), Err(NixlayerError::Other(m)) if m.starts_with("GitHub-sourced packages require")));
    assert_eq!(read_commit("o", "r", &None, Reply::Data(Some("abc".to_string()))).unwrap(), "abc");
    assert!(matches!(read_commit("o", "r", &main, Reply::Data(None)), Err(NixlayerError::ResolverFailed(m))
        if m == "github:o/r/main resolved, but Nix didn't report a pinned commit — unexpected flake ref shape"));
    assert!(matches!(read_commit("o", "r", &None, Reply::Failed("f".to_string())), Err(NixlayerError::ResolverFailed(m))
        if m == "could not resolve github:o/r — is the repo public and does it have a flake.nix?\nf"));
    let call = meta_request("o", "r", &"abc".to_string(), "x");
    assert_eq!(call.args[2..6], ["eval", "--impure", "--json", "--expr"].map(String::from));
    assert_eq!(call.args[6], eval_meta_expr("github:o/r/abc", "x"));
    assert_eq!(output_attr(None), "default");
    assert_eq!(output_attr(Some("x".to_string())), "x");
}

#[test]
fn a_flake_without_meta_is_fine() {
    let p = pinned_info("o", "r", &None, "abc".to_string(), "x".to_string(), Reply::Failed("f".to_string()));
    assert_eq!((p.description, p.homepage), (None, None));
    let p = pinned_info(
        "o",
        "r",
        &Some("main".to_string()),
        "abc".to_string(),
        "x".to_string(),
        Reply::Data((Some("d".to_string()), None)),
    );
    assert_eq!(p.description.as_deref(), Some("d"));
    assert_eq!((p.owner.as_str(), p.repo.as_str(), p.rev.as_str(), p.git_ref.as_deref()), ("o", "r", "abc", Some("main")));
}

#[test]
fn profiles_are_read_in_either_shape() {
    let named = br#"{"elements":{"firefox":{"attrPath":"legacyPackages.x86_64-linux.firefox","originalUrl":"flake:NixPKGS"},"bare":{"attrPath":"","url":"github:x/y","n":1,"t":[true,null]}},"version":3}"#;
    let v = try_scan_nix_profile(&named.to_vec()).unwrap();
    assert_eq!(v.len(), 2);
    // Members come in the order of their names.
    assert_eq!(v[0].display_name, "bare");
    assert_eq!(v[0].guessed_attr, "bare");
    assert!(!v[0].likely_nixpkgs);
    assert_eq!(v[1].display_name, "firefox");
    assert_eq!(v[1].guessed_attr, "firefox");
    assert!(v[1].likely_nixpkgs);
    assert_eq!(v[1].backend, ProfileBackend::NixProfile);

    let listed = r#"{"elements":[{"attrPath":"packages.vlc","url":"github:NixOS/nixpKgs"},{"x":0}]}"#;
    let v = try_scan_nix_profile(&listed.as_bytes().to_vec()).unwrap();
    assert_eq!((v[0].display_name.as_str(), v[0].removal_key.as_str()), ("vlc", "vlc"));
    assert!(v[0].likely_nixpkgs);
    assert_eq!(v[1].display_name, "unknown");

    for bad in [&b"not json"[..], b"{}", b"{\"elements\":1}", b"[]"] {
        assert!(try_scan_nix_profile(&bad.to_vec()).is_none());
    }
    assert!(read_elements(&Json::Null).is_none());
    let text = |s: &str| Json::Text(s.to_string());
    let j = Json::Object(vec![(
        "elements".to_string(),
        Json::Object(vec![("n".to_string(), Json::Object(vec![("attrPath".to_string(), text("a."))]))]),
    )]);
    assert_eq!(read_elements(&j).unwrap()[0].guessed_attr, "n");
}

#[test]
fn scanning_falls_back() {
    let call = match scan_profile(true, &Listing::NotTried) {
        ScanStep::List(c) => c,
        _ => panic!("expected a listing"),
    };
    assert_eq!(call.args[2..], ["profile", "list", "--json"].map(String::from));
    for (nix, listing) in [
        (false, Listing::NotTried),
        (true, Listing::Failed),
        (true, Listing::Output(b"oops".to_vec())),
    ] {
        match scan_profile(nix, &listing) {
            ScanStep::Query(c) => assert_eq!((c.program.as_str(), c.args), ("nix-env", vec!["-q".to_string(), "--json".to_string()])),
            _ => panic!("expected a query"),
        }
    }
    assert!(matches!(
        scan_profile(true, &Listing::Output(b"{\"elements\":[]}".to_vec())),
        ScanStep::Found(v) if v.is_empty()
    ));
    let v = scan_nix_env(Reply::Data(vec![("firefox-121".to_string(), legacy("firefox", None))])).unwrap();
    assert_eq!((v[0].display_name.as_str(), v[0].guessed_attr.as_str(), v[0].removal_key.as_str()), ("firefox-121", "firefox", "firefox"));
    assert!(v[0].likely_nixpkgs && v[0].backend == ProfileBackend::NixEnv);
    assert!(matches!(scan_nix_env(Reply::NotRun("n".to_string())), Err(NixlayerError::ResolverFailed(_))));
}

#[test]
fn entries_are_removed_with_their_own_tool() {
    let mut e = ProfileEntry {
        display_name: "d".to_string(),
        guessed_attr: "g".to_string(),
        likely_nixpkgs: true,
        backend: ProfileBackend::NixEnv,
        removal_key: "k".to_string(),
    };
    let call = remove_from_profile(&e);
    assert_eq!((call.program.as_str(), call.args), ("nix-env", vec!["-e".to_string(), "k".to_string()]));
    assert!(matches!(read_removal(&e, &Reply::Failed(" f".to_string())), Err(NixlayerError::Other(m)) if m == "nix-env failed: f"));
    e.backend = ProfileBackend::NixProfile;
    assert_eq!(remove_from_profile(&e).args[2..], ["profile", "remove", "k"].map(String::from));
    assert!(read_removal(&e, &Reply::Data(())).is_ok());
    assert!(matches!(read_removal(&e, &Reply::NotRun("n".to_string())), Err(NixlayerError::Other(m)) if m == "n"));
}

#[test]
fn json_is_read_as_plain_data() {
    let bytes = br#"{"b":[null,true,1.5,"x"],"a":{"k":{}}}"#.to_vec();
    match parse(&bytes).unwrap() {
        Json::Object(members) => {
            assert_eq!(members.len(), 2);
            assert_eq!(members[0].0, "a");
            assert_eq!(members[1].0, "b");
            match &members[1].1 {
                Json::List(items) => {
                    assert_eq!(items.len(), 4);
                    assert!(matches!(items[0], Json::Null));
                    assert!(matches!(items[1], Json::Flag(true)));
                    assert!(matches!(items[2], Json::Number));
                    assert!(matches!(&items[3], Json::Text(s) if s == "x"));
                }
                _ => panic!("expected a list"),
            }
            let inner = members[0].1.get("k").unwrap();
            assert!(matches!(inner, Json::Object(m) if m.is_empty()));
            assert!(members[0].1.get("b").is_none());
        }
        _ => panic!("expected an object"),
    }
    assert!(parse(&b"{".to_vec()).is_none());
    assert!(parse(&b"1 2".to_vec()).is_none());
    assert!(parse(&vec![]).is_none());
}

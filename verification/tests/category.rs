use nixlayer::category::{
    ensure_valid_category_name, ensure_valid_source_name, find_duplicates, find_package, load_all,
    render_package_list_inner, sort_sources, Category, Entry, GithubSource, GH_SUFFIX,
};
use nixlayer::error::NixlayerError;
use nixlayer::paths::{Paths, StoredFile};

fn sample_source(name: &str) -> GithubSource {
    GithubSource {
        name: name.to_string(),
        owner: "hyprwm".to_string(),
        repo: "Hyprland".to_string(),
        rev: "8f3a91c2b1d4e5f6a7b8c9d0e1f2a3b4c5d6e7f8".to_string(),
        git_ref: Some("main".to_string()),
        attr: "default".to_string(),
    }
}

fn stored(category: &Category) -> StoredFile {
    StoredFile {
        name: format!("{}.nix", category.name),
        text: Ok(category.render().unwrap()),
    }
}

#[test]
fn empty_template_roundtrips() {
    let cat = Category::new_empty("app", "/tmp/app.nix".to_string());
    let rendered = cat.render().unwrap();
    let reparsed = Category::parse_packages("x", &rendered).unwrap();
    assert!(reparsed.is_empty());
}

#[test]
fn add_and_render_sorted() {
    let mut cat = Category::new_empty("app", "/tmp/app.nix".to_string());
    assert!(cat.add("vlc"));
    assert!(cat.add("firefox"));
    assert!(!cat.add("firefox")); // dup add is a no-op
    let rendered = cat.render().unwrap();
    assert!(rendered.contains("firefox"));
    assert!(rendered.contains("vlc"));
    let fx = rendered.find("firefox").unwrap();
    let vlc = rendered.find("vlc").unwrap();
    assert!(fx < vlc, "expected alphabetical order in output");
}

#[test]
fn remove_package() {
    let mut cat = Category::new_empty("app", "/tmp/app.nix".to_string());
    cat.add("firefox");
    assert!(cat.remove("firefox"));
    assert!(!cat.remove("firefox"));
    assert!(cat.packages.is_empty());
}

#[test]
fn preserves_header_comments_on_render() {
    let cat = Category::new_empty("gaming", "/tmp/gaming.nix".to_string());
    let rendered = cat.render().unwrap();
    assert!(rendered.starts_with("# This file is managed by nixlayer."));
    assert!(rendered.contains("Category: gaming"));
}

#[test]
fn load_from_real_file_roundtrip() {
    let path = "gaming.nix".to_string();
    let mut cat = Category::load("gaming", path.clone(), Category::template("gaming")).unwrap();
    cat.add("steam");
    let cat2 = Category::load("gaming", path, cat.render().unwrap()).unwrap();
    assert_eq!(cat2.packages, vec!["steam".to_string()]);
}

#[test]
fn unparseable_file_is_reported_not_panicked() {
    let err = Category::load(
        "weird",
        "weird.nix".to_string(),
        "{ pkgs, ... }:\n{\n  environment.systemPackages = with pkgs; [\n    firefox\n    (python3.withPackages (p: [ p.numpy ]))\n  ];\n}\n".to_string(),
    )
    .unwrap_err();
    assert!(matches!(err, NixlayerError::UnparseableCategoryFile(_, _)));
}

#[test]
fn category_name_validation() {
    assert!(ensure_valid_category_name("gaming").is_ok());
    assert!(ensure_valid_category_name("dev-tools").is_ok());
    assert!(ensure_valid_category_name("2fast").is_err());
    assert!(ensure_valid_category_name("").is_err());
    assert!(ensure_valid_category_name("has space").is_err());
}

#[test]
fn github_source_roundtrips_through_render_and_parse() {
    let mut cat = Category::new_empty("gaming", "/tmp/gaming.nix".to_string());
    cat.add("steam");
    assert!(cat.add_github(sample_source("hyprland-git")));
    let rendered = cat.render().unwrap();

    assert!(rendered.contains("ghPkgs = {"));
    assert!(rendered.contains("hyprland-git ="));
    assert!(rendered.contains("github:hyprwm/Hyprland/8f3a91c2b1d4e5f6a7b8c9d0e1f2a3b4c5d6e7f8"));
    assert!(rendered.contains("nixlayer-source-ref: main"));
    assert!(rendered.contains(GH_SUFFIX));
    assert!(rendered.contains("steam"));

    let reparsed = Category::load("gaming", "gaming.nix".to_string(), rendered).unwrap();
    assert_eq!(reparsed.packages, vec!["steam".to_string()]);
    assert_eq!(reparsed.github.len(), 1);
    assert_eq!(reparsed.github[0].name, "hyprland-git");
    assert_eq!(reparsed.github[0].owner, "hyprwm");
    assert_eq!(reparsed.github[0].rev, "8f3a91c2b1d4e5f6a7b8c9d0e1f2a3b4c5d6e7f8");
    assert_eq!(reparsed.github[0].git_ref.as_deref(), Some("main"));
}

#[test]
fn category_without_github_stays_in_simple_format() {
    let mut cat = Category::new_empty("app", "/tmp/app.nix".to_string());
    cat.add("firefox");
    let rendered = cat.render().unwrap();
    assert!(!rendered.contains("ghPkgs"));
    assert!(!rendered.contains(GH_SUFFIX));
}

#[test]
fn removing_last_github_source_falls_back_to_simple_format() {
    let mut cat = Category::new_empty("gaming", "/tmp/gaming.nix".to_string());
    cat.add("steam");
    cat.add_github(sample_source("hyprland-git"));
    assert!(cat.remove_github("hyprland-git"));
    let rendered = cat.render().unwrap();
    assert!(!rendered.contains("ghPkgs"), "should drop back to simple format once no github sources remain");
    assert!(rendered.contains("steam"));
}

#[test]
fn removing_last_github_source_survives_a_real_disk_roundtrip() {
    let path = "gaming.nix".to_string();
    let mut cat = Category::new_empty("gaming", path.clone());
    cat.add("steam");
    cat.add_github(sample_source("hyprland-git"));
    let first = cat.render().unwrap();

    let mut reloaded = Category::load("gaming", path.clone(), first).unwrap();
    assert_eq!(reloaded.github.len(), 1);
    assert!(reloaded.remove_github("hyprland-git"));
    let second = reloaded.render().unwrap();
    assert!(!second.contains("ghPkgs"), "stale github block must not survive a real write");
    assert!(!second.contains("hyprland-git"));

    let final_load = Category::load("gaming", path, second).unwrap();
    assert!(final_load.github.is_empty(), "removed entry must not reappear after reload");
    assert_eq!(final_load.packages, vec!["steam".to_string()]);
}

#[test]
fn take_entry_and_insert_entry_move_a_github_source() {
    let mut src_cat = Category::new_empty("app", "/tmp/app.nix".to_string());
    src_cat.add_github(sample_source("hyprland-git"));
    let entry = src_cat.take_entry("hyprland-git").unwrap();
    assert!(src_cat.github.is_empty());

    let mut dst_cat = Category::new_empty("gaming", "/tmp/gaming.nix".to_string());
    assert!(dst_cat.insert_entry(entry));
    assert_eq!(dst_cat.github.len(), 1);
    assert_eq!(dst_cat.github[0].name, "hyprland-git");
}

#[test]
fn take_entry_handles_plain_packages_too() {
    let mut cat = Category::new_empty("app", "/tmp/app.nix".to_string());
    cat.add("firefox");
    let entry = cat.take_entry("firefox").unwrap();
    assert!(matches!(entry, Entry::Plain(s) if s == "firefox"));
    assert!(cat.packages.is_empty());
}

#[test]
fn rejects_hand_edited_github_block_without_suffix() {
    let err = Category::load(
        "weird",
        "weird.nix".to_string(),
        "{ pkgs, ... }:\nlet\n  ghPkgs = {\n    foo = (builtins.getFlake \"github:a/b/1234567\").packages.${pkgs.system}.default;\n  };\nin\n{\n  environment.systemPackages = with pkgs; [\n    firefox\n  ];\n}\n".to_string(),
    )
    .unwrap_err();
    assert!(matches!(err, NixlayerError::UnparseableCategoryFile(_, _)));
}

#[test]
fn duplicate_detection_spans_plain_and_github_identifiers() {
    let paths = Paths::at("/etc/nixos".to_string(), true, false);
    let mut a = Category::new_empty("app", paths.category_file("app"));
    a.add_github(sample_source("hyprland-git"));
    let mut b = Category::new_empty("gaming", paths.category_file("gaming"));
    b.add("hyprland-git"); // same identifier, but as a plain "package" — should still count as a dup
    let files = vec![stored(&a), stored(&b)];

    let dups = find_duplicates(&load_all(&paths, &files));
    assert_eq!(dups.len(), 1);
    assert_eq!(dups[0].0, "hyprland-git");
    assert_eq!(dups[0].1, vec!["app".to_string(), "gaming".to_string()]);
}

#[test]
fn template_is_exact() {
    assert_eq!(
        Category::template("gaming"),
        "# This file is managed by nixlayer.\n\
         # Category: gaming\n\
         # Do not hand-edit the package list unless you know what you're doing —\n\
         # nixlayer may reorder or rewrite it when you run `nixlayer add/remove/move`.\n\
         # Anything other than the environment.systemPackages list below is left alone.\n\
         \n\
         { pkgs, ... }:\n\
         \n\
         {\n\
         \x20 environment.systemPackages = with pkgs; [\n\
         \x20 ];\n\
         }\n"
    );
}

#[test]
fn github_file_is_exact() {
    let mut cat = Category::new_empty("gaming", "/tmp/gaming.nix".to_string());
    cat.add("steam");
    let mut second = sample_source("alpha");
    second.git_ref = None;
    cat.add_github(sample_source("hyprland-git"));
    cat.add_github(second);
    assert_eq!(
        cat.render().unwrap(),
        "# This file is managed by nixlayer.\n\
         # Category: gaming\n\
         # This category includes GitHub-sourced packages, pinned to exact commits.\n\
         # nixlayer manages this whole file once GitHub sources are present —\n\
         # avoid hand-editing it; use `nixlayer github` / `nixlayer add|remove|move` instead.\n\
         \n\
         { pkgs, ... }:\n\
         let\n\
         \x20 ghPkgs = {\n\
         \x20   alpha = (builtins.getFlake \"github:hyprwm/Hyprland/8f3a91c2b1d4e5f6a7b8c9d0e1f2a3b4c5d6e7f8\").packages.${pkgs.system}.default;\n\
         \x20   # nixlayer-source-ref: main\n\
         \x20   hyprland-git = (builtins.getFlake \"github:hyprwm/Hyprland/8f3a91c2b1d4e5f6a7b8c9d0e1f2a3b4c5d6e7f8\").packages.${pkgs.system}.default;\n\
         \x20 };\n\
         in\n\
         {\n\
         \x20 environment.systemPackages = with pkgs; [\n\
         \x20   steam\n\
         \x20 ] ++ (builtins.attrValues ghPkgs);\n\
         }\n"
    );
}

#[test]
fn rendering_keeps_everything_outside_the_list() {
    let raw = "# mine\n{ pkgs, ... }: { # é\n environment.systemPackages = [ b a ];\n services.x = [ 1 ];\n}\n";
    let mut cat = Category::load("app", "app.nix".to_string(), raw.to_string()).unwrap();
    assert_eq!(cat.packages, vec!["b".to_string(), "a".to_string()]);
    cat.add("c");
    assert_eq!(
        cat.render().unwrap(),
        "# mine\n{ pkgs, ... }: { # é\n environment.systemPackages = [\n    a\n    b\n    c\n  ];\n services.x = [ 1 ];\n}\n"
    );
}

#[test]
fn every_unreadable_shape_has_its_reason() {
    let reason = |raw: &str| match Category::load("x", "x.nix".to_string(), raw.to_string()) {
        Err(NixlayerError::UnparseableCategoryFile(p, m)) => {
            assert_eq!(p, "x.nix");
            m
        }
        _ => panic!("expected a refusal"),
    };
    assert_eq!(reason("{ }"), "no environment.systemPackages found");
    assert_eq!(reason("environment.systemPackages = 1;"), "no [ ... ] list found");
    assert_eq!(reason("environment.systemPackages = [ a (b) c.d 1x ];"), "(b), 1x");
    assert_eq!(reason("ghPkgs = { "), "ghPkgs = { ... } block is malformed");
    assert_eq!(
        reason("ghPkgs = { };"),
        "found a ghPkgs block but no ` ++ (builtins.attrValues ghPkgs)` in systemPackages"
    );
    assert_eq!(
        reason("ghPkgs = {\n  what is this\n};\n ++ (builtins.attrValues ghPkgs)"),
        "unrecognized line in ghPkgs block: 'what is this'"
    );
    assert_eq!(
        reason("ghPkgs = {\n  a = (builtins.getFlake \"github:a/b/main\").packages.${pkgs.system}.default;\n};\n ++ (builtins.attrValues ghPkgs)"),
        "'github:a/b/main' isn't a pinned github:owner/repo/<commit> reference"
    );
}

#[test]
fn rendering_without_a_list_is_refused() {
    let mut cat = Category::new_empty("x", "x.nix".to_string());
    cat.raw = "nothing here".to_string();
    assert!(matches!(cat.render(), Err(NixlayerError::UnparseableCategoryFile(_, m)) if m == "marker missing"));
    cat.raw = "environment.systemPackages = 1".to_string();
    assert!(matches!(cat.render(), Err(NixlayerError::UnparseableCategoryFile(_, m)) if m == "list missing"));
}

#[test]
fn lists_are_sorted_and_unique() {
    let v = vec!["b".to_string(), "a".to_string(), "b".to_string()];
    assert_eq!(render_package_list_inner(&v), "\n    a\n    b\n  ");
    assert_eq!(render_package_list_inner(&Vec::new()), "\n  ");
}

#[test]
fn sources_are_sorted_by_name() {
    let v = vec![sample_source("b"), sample_source("a")];
    let s = sort_sources(&v);
    assert_eq!(s[0].name, "a");
    assert_eq!(s[1].name, "b");
    assert_eq!(s[0].flake_ref(), "github:hyprwm/Hyprland/8f3a91c2b1d4e5f6a7b8c9d0e1f2a3b4c5d6e7f8");
}

#[test]
fn names_are_shared_by_packages_and_sources() {
    let mut cat = Category::new_empty("app", "/tmp/app.nix".to_string());
    assert!(cat.add_github(sample_source("x")));
    assert!(!cat.add("x"));
    assert!(!cat.add_github(sample_source("x")));
    assert!(cat.contains_any("x") && cat.contains_github("x") && !cat.contains("x"));
    cat.add("y");
    assert_eq!(cat.all_identifiers(), vec!["y".to_string(), "x".to_string()]);
    assert!(cat.take_entry("z").is_none());
    assert!(!cat.remove_github("z"));
}

#[test]
fn taking_an_added_package_undoes_the_edit() {
    let mut cat = Category::new_empty("app", "/tmp/app.nix".to_string());
    cat.add("b");
    let before = cat.render().unwrap();
    cat.add("a");
    assert_ne!(cat.render().unwrap(), before);
    cat.take_entry("a");
    assert_eq!(cat.render().unwrap(), before);
}

#[test]
fn entries_know_their_names() {
    assert_eq!(Entry::Plain("a".to_string()).identifier(), "a");
    assert_eq!(Entry::Github(sample_source("b")).identifier(), "b");
}

#[test]
fn invalid_names_are_told() {
    match ensure_valid_source_name("2fast") {
        Err(NixlayerError::Other(m)) => assert_eq!(
            m,
            "'2fast' isn't a valid category name (use letters, digits, - or _, starting with a letter)"
        ),
        _ => panic!("expected an error"),
    }
    assert!(ensure_valid_source_name("a_b-C9").is_ok());
    assert!(ensure_valid_category_name("_a").is_err());
    assert!(ensure_valid_category_name("é").is_err());
}

#[test]
fn a_name_twice_in_one_category_is_no_duplicate() {
    let paths = Paths::at("/etc/nixos".to_string(), true, false);
    let files = vec![
        StoredFile {
            name: "app.nix".to_string(),
            text: Ok("environment.systemPackages = [ a a ];".to_string()),
        },
        StoredFile { name: "broken.nix".to_string(), text: Err("denied".to_string()) },
        StoredFile {
            name: "b.nix".to_string(),
            text: Ok("environment.systemPackages = [ c ];".to_string()),
        },
    ];
    let all = load_all(&paths, &files);
    assert_eq!(all.len(), 3);
    assert_eq!(all[0].0, "app");
    assert_eq!(all[1].0, "b");
    assert!(matches!(&all[2].1, Err(NixlayerError::Io(m)) if m == "denied"));
    assert!(find_duplicates(&all).is_empty());
    assert_eq!(find_package(&all, "a"), vec!["app".to_string()]);
    assert!(find_package(&all, "z").is_empty());
}

#[test]
fn white_space_and_abbreviated_commits_are_read() {
    let raw = "ghPkgs = {\n\n\t#nixlayer-source-ref:v1.2\n  a'b\t=(builtins.getFlake  \"github:o/r/ABCDEF0\").packages.${pkgs.system}.x.y ;\r\n  c = (builtins.getFlake \"github:o/r/0123456789\").packages.${pkgs.system}.d;\n};\n[ environment.systemPackages = [ ] ++ (builtins.attrValues ghPkgs);";
    let cat = Category::load("x", "x.nix".to_string(), raw.to_string()).unwrap();
    assert_eq!(cat.github.len(), 2);
    assert_eq!(cat.github[0].name, "a'b");
    assert_eq!(cat.github[0].rev, "ABCDEF0");
    assert_eq!(cat.github[0].attr, "x.y");
    assert_eq!(cat.github[0].git_ref.as_deref(), Some("v1.2"));
    assert_eq!(cat.github[1].git_ref, None);
}

#[test]
fn rewriting_changes_nothing() {
    let raw = "# mine\n{ pkgs, ... }:\n{\n  environment.systemPackages = with pkgs; [ vlc b vlc a ];\n  x = 1;\n}\n";
    let mut with_source = Category::load("app", "/a.nix".to_string(), raw.to_string()).unwrap();
    with_source.add_github(sample_source("z"));
    with_source.add_github(sample_source("y"));
    let plain = Category::load("app", "/a.nix".to_string(), raw.to_string()).unwrap();
    for category in [plain, with_source] {
        let once = category.render().unwrap();
        let read = Category::load("app", "/a.nix".to_string(), once.clone()).unwrap();
        assert_eq!(read.packages, vec!["a".to_string(), "b".to_string(), "vlc".to_string()]);
        assert_eq!(read.render().unwrap(), once);
    }
}

#[test]
fn files_are_made_anew_from_what_is_declared() {
    let raw = "{ environment.systemPackages = with pkgs; [ b a b ]; }";
    let mut one = Category::load("app", "/a.nix".to_string(), raw.to_string()).unwrap();
    let mut two = Category::new_empty("app", "/b.nix".to_string());
    two.add("a");
    two.add("b");
    for name in ["y", "z"] {
        one.add_github(sample_source(name));
    }
    for name in ["z", "y"] {
        two.add_github(sample_source(name));
    }
    let text = one.render().unwrap();
    assert_eq!(text, two.render().unwrap());
    assert_eq!(text, one.render_regenerated());
    assert!(text.contains("ghPkgs") && text.contains(GH_SUFFIX));
    assert!(text.contains("github:hyprwm/Hyprland/8f3a91c2b1d4e5f6a7b8c9d0e1f2a3b4c5d6e7f8"));
    let mut read = Category::load("app", "/a.nix".to_string(), text).unwrap();
    assert!(read.remove_github("y") && read.remove_github("z"));
    assert!(!read.render().unwrap().contains("ghPkgs"));
    let fresh = Category::load("app", "/c.nix".to_string(), raw.to_string()).unwrap();
    assert_eq!(read.render_regenerated(), fresh.render_regenerated());
}

#[test]
fn categories_stay_orderly() {
    let mut c = Category::new_empty("app", "/a.nix".to_string());
    for p in ["m", "z", "a", "m", "k"] {
        c.add(p);
    }
    assert_eq!(c.packages, vec!["a", "k", "m", "z"]);
    assert!(c.take_entry("k").is_some());
    assert_eq!(c.packages, vec!["a", "m", "z"]);
    c.insert_entry(Entry::Plain("b".to_string()));
    assert_eq!(c.packages, vec!["a", "b", "m", "z"]);
}

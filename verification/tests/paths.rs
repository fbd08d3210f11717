use nixlayer::error::NixlayerError;
use nixlayer::paths::{backup_name, backup_path, find_file, Found, Paths, StoredFile};

fn file(name: &str) -> StoredFile {
    StoredFile { name: name.to_string(), text: Ok(String::new()) }
}

#[test]
fn paths_lie_under_the_root() {
    let p = Paths::at("/etc/nixos".to_string(), true, false);
    assert_eq!(p.config_root, "/etc/nixos");
    assert_eq!(p.nixlayer_dir, "/etc/nixos/modules/nixlayer");
    assert_eq!(p.configuration_nix.as_deref(), Some("/etc/nixos/configuration.nix"));
    assert_eq!(p.flake_nix, None);
    assert_eq!(p.default_nix(), "/etc/nixos/modules/nixlayer/default.nix");
    assert_eq!(p.state_file(), "/etc/nixos/modules/nixlayer/.nixlayer-state.json");
    assert_eq!(p.settings_file(), "/etc/nixos/modules/nixlayer/.nixlayer-settings.json");
    assert_eq!(p.category_file("app"), "/etc/nixos/modules/nixlayer/app.nix");
    let q = Paths::at("rel/".to_string(), false, true);
    assert_eq!(q.nixlayer_dir, "rel/modules/nixlayer");
    assert_eq!(q.flake_nix.as_deref(), Some("rel/flake.nix"));
    assert_eq!(q.configuration_nix, None);
    assert_eq!(Paths::at(String::new(), false, false).nixlayer_dir, "modules/nixlayer");
}

#[test]
fn the_root_is_found_or_told() {
    assert_eq!(Paths::root(None), "/etc/nixos");
    assert_eq!(Paths::root(Some("/x".to_string())), "/x");
    assert!(matches!(
        Paths::discover("/x".to_string(), false, true, true),
        Err(NixlayerError::ConfigNotFound(p)) if p == "/x"
    ));
    assert_eq!(
        Paths::discover("/x".to_string(), true, false, false).unwrap().config_root,
        "/x"
    );
}

#[test]
fn initialized_means_directory_and_module() {
    let p = Paths::at("/x".to_string(), false, false);
    assert!(p.is_initialized(&Found { dir: true, default_nix: true }));
    assert!(!p.is_initialized(&Found { dir: true, default_nix: false }));
    assert!(p.require_initialized(&Found { dir: true, default_nix: true }).is_ok());
    assert!(matches!(
        p.require_initialized(&Found { dir: false, default_nix: false }),
        Err(NixlayerError::NotInitialized(d)) if d == "/x/modules/nixlayer"
    ));
}

#[test]
fn categories_are_the_stems_of_nix_files() {
    let p = Paths::at("/x".to_string(), false, false);
    let files = vec![
        file("gaming.nix"),
        file("default.nix"),
        file(".nixlayer-state.json"),
        file("app.nix"),
        file("a.nix.nix"),
        file("nix"),
    ];
    assert_eq!(p.list_categories(&files), vec!["a.nix", "app", "gaming"]);
    assert_eq!(p.list_categories(&vec![file("b.nix"), file(".nix")]), vec!["", "b"]);
    assert_eq!(find_file(&files, "app.nix").unwrap().name, "app.nix");
    assert!(find_file(&files, "b.nix").is_none());
}

#[test]
fn backups_stand_next_to_the_original() {
    assert_eq!(
        backup_path("/etc/nixos/configuration.nix", 1755958501),
        "/etc/nixos/configuration.nix.bak-1755958501"
    );
    assert_eq!(backup_path("configuration.nix", 5), "configuration.nix.bak-5");
    assert_eq!(backup_path("/", 5), "/file.bak-5");
    assert_eq!(backup_name(None, 7), "file.bak-7");
    assert_eq!(backup_name(Some("x".to_string()), 0), "x.bak-0");
}

#[test]
fn backups_stand_where_the_standard_library_puts_them() {
    for path in [
        "/etc/nixos/configuration.nix",
        "/a//b",
        "a/./b",
        "a/.",
        "a/b/",
        "a/b/./",
        "..",
        "a/..",
        ".",
        "",
        "x",
        "./a",
        "././a",
        "/",
        "//",
        "/.",
        "/..",
        "/./a",
        "a/.b",
        "a/b.",
        "/a/ü.nix",
    ] {
        let p = std::path::Path::new(path);
        let name = match p.file_name() {
            Some(n) => n.to_string_lossy().to_string(),
            None => "file".to_string(),
        };
        let expected = p.with_file_name(format!("{name}.bak-9"));
        assert_eq!(backup_path(path, 9), expected.to_string_lossy(), "{path}");
    }
}

use nixlayer::default_nix::{render, render_with};
use nixlayer::error::NixlayerError;
use nixlayer::paths::{Found, Paths};
use nixlayer::plan::{Outcome, Step};
use nixlayer::settings::{sync_default_nix, Settings, StoredSettings};
use nixlayer::show::allow_unfree;

#[test]
fn mentions_read_dir_and_no_hardcoded_categories() {
    let s = render();
    assert!(s.contains("readDir"));
    assert!(!s.contains("app.nix"));
    assert!(!s.contains("gaming.nix"));
}

#[test]
fn defaults_to_unfree_disabled() {
    let settings = Settings::load(&StoredSettings::Missing).unwrap();
    assert!(!settings.allow_unfree);
}

#[test]
fn settings_follow_the_file() {
    assert!(!Settings::load(&StoredSettings::Malformed).unwrap().allow_unfree);
    let on = Settings { allow_unfree: true };
    assert_eq!(Settings::load(&StoredSettings::Parsed(on)).unwrap(), on);
    assert!(matches!(
        Settings::load(&StoredSettings::Unreadable("io".to_string())),
        Err(NixlayerError::Io(m)) if m == "io"
    ));
    assert!(!Settings::default().allow_unfree);
}

#[test]
fn allow_unfree_command_toggles_default_nix() {
    let paths = Paths::at("/etc/nixos".to_string(), true, false);
    let found = Found { dir: true, default_nix: true };
    let written = |disable: bool| {
        let (settings, plan) = allow_unfree(&paths, &found, &StoredSettings::Missing, disable, false);
        assert_eq!(settings, Some(Settings { allow_unfree: !disable }));
        assert!(matches!(plan.outcome, Outcome::Done));
        match &plan.steps[0] {
            Step::Write(path, text) => {
                assert_eq!(path, "/etc/nixos/modules/nixlayer/default.nix");
                text.clone()
            }
            _ => panic!("expected a write"),
        }
    };
    let rendered = written(false);
    assert!(rendered.contains("allowUnfree = true;"));
    let rendered = written(true);
    assert!(!rendered.contains("allowUnfree"));
}

#[test]
fn the_setting_is_one_line() {
    let on = render_with(true);
    assert_eq!(render_with(false), render());
    assert_eq!(on.replace("  nixpkgs.config.allowUnfree = true;\n", ""), render());
    assert!(render().ends_with("categoryFiles;\n}\n"));
    let paths = Paths::at("/x".to_string(), false, false);
    assert_eq!(
        sync_default_nix(&paths, &Settings { allow_unfree: true }),
        ("/x/modules/nixlayer/default.nix".to_string(), on)
    );
}

#[test]
fn allowing_needs_a_setup_and_readable_settings() {
    let paths = Paths::at("/x".to_string(), false, false);
    let none = Found { dir: false, default_nix: false };
    let (s, plan) = allow_unfree(&paths, &none, &StoredSettings::Missing, false, false);
    assert!(s.is_none() && plan.steps.is_empty());
    assert!(matches!(plan.outcome, Outcome::Fail(NixlayerError::NotInitialized(_))));
    let found = Found { dir: true, default_nix: true };
    let (s, plan) =
        allow_unfree(&paths, &found, &StoredSettings::Unreadable("io".to_string()), false, false);
    assert!(s.is_none() && plan.steps.is_empty());
    assert!(matches!(plan.outcome, Outcome::Fail(NixlayerError::Io(_))));
}

use nixlayer::category::{load_all, Category, GithubSource};
use nixlayer::commands::{add, begin, begin_add, move_pkg, remove, AddOptions};
use nixlayer::default_nix::render_with;
use nixlayer::error::NixlayerError;
use nixlayer::github::GithubPackageInfo;
use nixlayer::import::{
    ask_removal, begin_import, import_profile, imported, left_installed, needs_answer, removals,
    removed_line, scanning, sort_entries, Answer, Fate,
};
use nixlayer::paths::{Found, Paths, StoredFile};
use nixlayer::plan::{Outcome, Plan, Step};
use nixlayer::profile::{ProfileBackend, ProfileEntry};
use nixlayer::rebuild::Mode;
use nixlayer::resolver::{Backend, PackageInfo};
use nixlayer::sourcing::{
    begin_source, begin_update, github_add, github_remove, github_update, re_resolving, resolving,
};

const READY: Found = Found { dir: true, default_nix: true };

fn paths() -> Paths {
    Paths::at("/etc/nixos".to_string(), true, false)
}

fn sample_source(name: &str) -> GithubSource {
    GithubSource {
        name: name.to_string(),
        owner: "hyprwm".to_string(),
        repo: "Hyprland".to_string(),
        rev: "8f3a91c2b1d4e5f6a7b8c9d0e1f2a3b4c5d6e7f8".to_string(),
        git_ref: Some("main".to_string()),
        attr: "default".to_string(),
    }
}

fn stored(c: &Category) -> StoredFile {
    StoredFile { name: format!("{}.nix", c.name), text: Ok(c.render().unwrap()) }
}

fn plain(name: &str, pkgs: &[&str]) -> StoredFile {
    let mut c = Category::new_empty(name, paths().category_file(name));
    for p in pkgs {
        c.add(p);
    }
    stored(&c)
}

/// The directory once the plan has been carried out.
fn carry_out(mut files: Vec<StoredFile>, plan: &Plan) -> Vec<StoredFile> {
    for step in &plan.steps {
        if let Step::Write(path, text) = step {
            let name = path.strip_prefix("/etc/nixos/modules/nixlayer/").unwrap().to_string();
            files.retain(|f| f.name != name);
            files.push(StoredFile { name, text: Ok(text.clone()) });
        }
    }
    files
}

fn loaded(files: &Vec<StoredFile>, name: &str) -> Category {
    let text = files.iter().find(|f| f.name == format!("{name}.nix")).unwrap().text.clone().unwrap();
    Category::load(name, paths().category_file(name), text).unwrap()
}

fn lines(plan: &Plan) -> Vec<String> {
    plan.steps
        .iter()
        .filter_map(|s| match s {
            Step::Print(l) => Some(l.text.clone()),
            Step::Write(_, _) => None,
        })
        .collect()
}

fn writes(plan: &Plan) -> usize {
    plan.steps.iter().filter(|s| matches!(s, Step::Write(_, _))).count()
}

fn package(attribute: &str) -> PackageInfo {
    PackageInfo {
        attribute: attribute.to_string(),
        pname: None,
        version: None,
        description: None,
        homepage: None,
        license: vec![],
        free: true,
        broken: false,
        source: Backend::Flakes,
    }
}

const PLAIN_ADD: AddOptions = AddOptions { dry_run: false, allow_unfree: false, rebuild: false };

fn gaming() -> StoredFile {
    let mut gaming = Category::new_empty("gaming", paths().category_file("gaming"));
    gaming.add("steam");
    gaming.add_github(sample_source("hyprland-git"));
    stored(&gaming)
}

#[test]
fn move_pkg_relocates_a_github_source_without_corrupting_it() {
    let files = vec![gaming()];
    let plan = move_pkg(&paths(), &READY, &files, "hyprland-git", "app", false, false);
    assert!(matches!(plan.outcome, Outcome::Done));
    let files = carry_out(files, &plan);

    let gaming_after = loaded(&files, "gaming");
    assert!(gaming_after.github.is_empty(), "should be removed from the source category");
    assert_eq!(gaming_after.packages, vec!["steam".to_string()]);

    let app_after = loaded(&files, "app");
    assert_eq!(app_after.github.len(), 1, "must still be a GitHub source, not a corrupted plain entry");
    assert_eq!(app_after.github[0].name, "hyprland-git");
    assert_eq!(app_after.github[0].rev, sample_source("hyprland-git").rev);
    assert!(app_after.packages.is_empty(), "must NOT have been added as a bare plain package");
}

#[test]
fn remove_deletes_a_github_source_cleanly() {
    let files = vec![gaming()];
    let plan = remove(&paths(), &READY, &files, "hyprland-git", false, false);
    let files = carry_out(files, &plan);
    let gaming_after = loaded(&files, "gaming");
    assert!(gaming_after.github.is_empty());
    assert_eq!(gaming_after.packages, vec!["steam".to_string()]);
}

#[test]
fn move_pkg_still_works_for_plain_packages() {
    let files = vec![plain("app", &["firefox"])];
    let plan = move_pkg(&paths(), &READY, &files, "firefox", "browsers", false, false);
    assert_eq!(
        lines(&plan),
        vec!["[ok] moved 'firefox' from app to browsers", "Run `nixlayer rebuild` to apply."]
    );
    let files = carry_out(files, &plan);
    assert!(loaded(&files, "app").packages.is_empty());
    assert_eq!(loaded(&files, "browsers").packages, vec!["firefox".to_string()]);
}

#[test]
fn moving_a_duplicate_heals_it() {
    let files = vec![plain("a", &["x", "y"]), plain("b", &["x"]), plain("c", &["z"])];
    let plan = move_pkg(&paths(), &READY, &files, "x", "b", false, false);
    assert_eq!(lines(&plan)[0], "[ok] moved 'x' from a, b to b");
    let files = carry_out(files, &plan);
    assert_eq!(loaded(&files, "a").packages, vec!["y".to_string()]);
    assert_eq!(loaded(&files, "b").packages, vec!["x".to_string()]);
    assert_eq!(loaded(&files, "c").packages, vec!["z".to_string()]);
}

#[test]
fn moves_that_cannot_be_made() {
    let files = vec![plain("app", &["x"])];
    let outcome = |id: &str, target: &str, found: &Found| {
        let plan = move_pkg(&paths(), found, &files, id, target, false, false);
        assert_eq!(writes(&plan), 0);
        plan.outcome
    };
    assert!(matches!(outcome("x", "1bad", &READY), Outcome::Fail(NixlayerError::Other(_))));
    assert!(matches!(outcome("y", "b", &READY), Outcome::Fail(NixlayerError::PackageNotManaged(p)) if p == "y"));
    assert!(matches!(outcome("x", "b", &Found { dir: false, default_nix: true }), Outcome::Fail(NixlayerError::NotInitialized(_))));
    let plan = move_pkg(&paths(), &READY, &files, "x", "app", false, false);
    assert_eq!(lines(&plan), vec!["'x' is already in 'app' — nothing to do."]);
    assert!(matches!(plan.outcome, Outcome::Done));
    // A target that cannot be read stops the move before anything is written.
    let broken = vec![plain("app", &["x"]), StoredFile { name: "b.nix".to_string(), text: Ok("{ }".to_string()) }];
    let plan = move_pkg(&paths(), &READY, &broken, "x", "b", false, false);
    assert!(plan.steps.is_empty());
    assert!(matches!(plan.outcome, Outcome::Fail(NixlayerError::UnparseableCategoryFile(_, _))));
    assert_eq!(loaded(&carry_out(broken, &plan), "app").packages, vec!["x".to_string()]);
}

#[test]
fn dry_runs_only_tell() {
    let files = vec![plain("app", &["x"]), gaming()];
    let plan = move_pkg(&paths(), &READY, &files, "x", "b", true, false);
    assert_eq!(
        lines(&plan),
        vec![
            "[dry-run] would remove 'x' from /etc/nixos/modules/nixlayer/app.nix",
            "[dry-run] would add 'x' to /etc/nixos/modules/nixlayer/b.nix",
        ]
    );
    assert_eq!(writes(&plan), 0);
    let plan = remove(&paths(), &READY, &files, "x", true, true);
    assert_eq!(
        lines(&plan),
        vec!["\u{1b}[2m[dry-run]\u{1b}[0m would remove 'x' from /etc/nixos/modules/nixlayer/app.nix"]
    );
    assert_eq!(writes(&plan), 0);
    let plan = github_remove(&paths(), &READY, &files, "hyprland-git", true, false);
    assert_eq!(writes(&plan), 0);
    let dry = AddOptions { dry_run: true, allow_unfree: false, rebuild: true };
    let plan = add(&paths(), &files, &package("vlc"), "app", &dry, false);
    assert_eq!(writes(&plan), 0);
    assert!(matches!(plan.outcome, Outcome::Done));
    assert_eq!(lines(&plan)[0], "[dry-run] would add 'vlc' to /etc/nixos/modules/nixlayer/app.nix");
    assert!(lines(&plan).contains(&"        vlc".to_string()));
}

#[test]
fn removing_takes_the_name_out_everywhere() {
    let files = vec![plain("a", &["x", "y"]), plain("b", &["x"])];
    let plan = remove(&paths(), &READY, &files, "x", false, false);
    assert_eq!(
        lines(&plan),
        vec![
            "[ok] removed 'x' from /etc/nixos/modules/nixlayer/a.nix",
            "[ok] removed 'x' from /etc/nixos/modules/nixlayer/b.nix",
            "Run `nixlayer rebuild` to apply.",
        ]
    );
    let files = carry_out(files, &plan);
    assert!(nixlayer::category::find_package(&load_all(&paths(), &files), "x").is_empty());
    assert!(matches!(
        remove(&paths(), &READY, &files, "x", false, false).outcome,
        Outcome::Fail(NixlayerError::PackageNotManaged(_))
    ));
}

#[test]
fn adding_writes_the_category() {
    let files = vec![plain("app", &["b"])];
    let plan = add(&paths(), &files, &package("a"), "app", &PLAIN_ADD, false);
    assert!(matches!(plan.outcome, Outcome::Done));
    assert_eq!(
        lines(&plan),
        vec!["[ok] added 'a' to /etc/nixos/modules/nixlayer/app.nix", "Run `nixlayer rebuild` to apply."]
    );
    let files = carry_out(files, &plan);
    assert_eq!(loaded(&files, "app").packages, vec!["a".to_string(), "b".to_string()]);
    let again = add(&paths(), &files, &package("a"), "other", &PLAIN_ADD, false);
    assert!(matches!(again.outcome, Outcome::Fail(NixlayerError::PackageAlreadyExists(p, c)) if p == "a" && c == "app"));
    let rebuild = AddOptions { rebuild: true, ..PLAIN_ADD };
    assert!(matches!(
        add(&paths(), &files, &package("c"), "fresh", &rebuild, false).outcome,
        Outcome::Rebuild(Mode::Switch)
    ));
}

#[test]
fn unfree_packages_need_to_be_allowed() {
    let mut steam = package("steam");
    steam.free = false;
    steam.broken = true;
    let plan = add(&paths(), &vec![], &steam, "app", &PLAIN_ADD, false);
    assert!(matches!(plan.outcome, Outcome::Done));
    assert_eq!(writes(&plan), 0);
    assert_eq!(
        lines(&plan),
        vec![
            "[warn] 'steam' is currently marked BROKEN in nixpkgs — it may fail to build.",
            "[error] 'steam' is unfree (license: proprietary).",
            "NixOS will refuse to build unfree packages until allowUnfree is turned on.",
            "Add `nixpkgs.config.allowUnfree = true;` to your own configuration (or run `nixlayer allow-unfree`), then re-run with --allow-unfree.",
        ]
    );
    steam.license = vec!["a".to_string(), "b".to_string()];
    let plan = add(&paths(), &vec![], &steam, "app", &PLAIN_ADD, false);
    assert_eq!(lines(&plan)[1], "[error] 'steam' is unfree (license: a, b).");
    let allowed = AddOptions { allow_unfree: true, ..PLAIN_ADD };
    let plan = add(&paths(), &vec![], &steam, "app", &allowed, false);
    match &plan.steps[1] {
        Step::Write(path, text) => {
            assert_eq!(path, "/etc/nixos/modules/nixlayer/app.nix");
            assert!(text.contains("    steam\n"));
        }
        _ => panic!("expected a write"),
    }
    assert_eq!(writes(&plan), 1);
}

#[test]
fn the_category_is_checked_first() {
    assert_eq!(begin(&paths(), &READY, &None, "app").unwrap(), "app");
    assert_eq!(begin(&paths(), &READY, &Some("x".to_string()), "app").unwrap(), "x");
    assert_eq!(begin_add(&paths(), &READY, &None).unwrap(), "app");
    assert_eq!(begin_add(&paths(), &READY, &Some("x".to_string())).unwrap(), "x");
    assert_eq!(begin_import(&paths(), &READY, &None).unwrap(), "import");
    assert_eq!(begin_import(&paths(), &READY, &Some("x".to_string())).unwrap(), "x");
    assert!(matches!(begin_import(&paths(), &READY, &Some("1".to_string())), Err(NixlayerError::Other(_))));
    assert!(matches!(begin(&paths(), &READY, &Some("1".to_string()), "app"), Err(NixlayerError::Other(_))));
    assert!(matches!(
        begin(&paths(), &Found { dir: true, default_nix: false }, &None, "app"),
        Err(NixlayerError::NotInitialized(_))
    ));
    // The module is no category.
    for allow_unfree in [false, true] {
        let files = vec![
            StoredFile { name: "default.nix".to_string(), text: Ok(render_with(allow_unfree)) },
            plain("app", &["x"]),
        ];
        for plan in [
            add(&paths(), &files, &package("a"), "default", &PLAIN_ADD, false),
            move_pkg(&paths(), &READY, &files, "x", "default", false, false),
        ] {
            assert!(matches!(
                plan.outcome,
                Outcome::Fail(NixlayerError::UnparseableCategoryFile(_, _))
            ));
            assert!(plan.steps.iter().all(|s| match s {
                Step::Write(path, _) => path == "/etc/nixos/modules/nixlayer/app.nix",
                _ => true,
            }));
        }
    }
}

fn pinned() -> GithubPackageInfo {
    GithubPackageInfo {
        owner: "hyprwm".to_string(),
        repo: "Hyprland".to_string(),
        git_ref: None,
        rev: "0123456789abcdef".to_string(),
        attr: "default".to_string(),
        description: Some("d".to_string()),
        homepage: Some("h".to_string()),
    }
}

#[test]
fn sources_are_requested() {
    let files = vec![gaming()];
    let ask = |owner_repo: &str, name: Option<&str>| {
        begin_source(&paths(), &READY, &files, owner_repo, &name.map(String::from))
    };
    assert_eq!(
        ask("hyprwm/Hyprland", None).unwrap(),
        ("hyprwm".to_string(), "Hyprland".to_string(), "Hyprland".to_string())
    );
    assert_eq!(ask("a/b/c", Some("n")).unwrap().1, "b/c");
    assert!(matches!(ask("nope", None), Err(NixlayerError::Other(m)) if m == "'nope' should look like owner/repo, e.g. hyprwm/Hyprland"));
    assert!(matches!(ask("a/b.c", None), Err(NixlayerError::Other(_))));
    assert!(matches!(ask("a/b", Some("steam")), Err(NixlayerError::PackageAlreadyExists(n, c)) if n == "steam" && c == "gaming"));
    assert_eq!(resolving("o", "r", false).text, "resolving o/r via nix flake metadata...");
}

#[test]
fn sources_are_added() {
    let request = ("hyprwm".to_string(), "Hyprland".to_string());
    let plan = github_add(&paths(), &vec![], &request, "hypr", &pinned(), &None, false, false);
    assert_eq!(
        lines(&plan),
        vec![
            "[ok] pinned to commit 0123456789ab (github:hyprwm/Hyprland/0123456789abcdef)",
            "  description: d",
            "  homepage: h",
            "[ok] added 'hypr' (from github:hyprwm/Hyprland) to /etc/nixos/modules/nixlayer/app.nix",
            "Run `nixlayer rebuild` to apply.",
        ]
    );
    let files = carry_out(vec![], &plan);
    assert_eq!(loaded(&files, "app").github[0].rev, "0123456789abcdef");
    let plan = github_add(&paths(), &files, &request, "h2", &pinned(), &Some("1".to_string()), false, false);
    assert!(matches!(plan.outcome, Outcome::Fail(NixlayerError::Other(_))));
    assert_eq!(writes(&plan), 0);
    let plan = github_add(&paths(), &files, &request, "h2", &pinned(), &None, true, false);
    assert_eq!(writes(&plan), 0);
    assert!(matches!(plan.outcome, Outcome::Done));
}

#[test]
fn only_sources_are_removed_as_sources() {
    let files = vec![gaming()];
    let plan = github_remove(&paths(), &READY, &files, "steam", false, false);
    assert_eq!(writes(&plan), 0);
    assert_eq!(
        lines(&plan)[0],
        "[warn] 'steam' is declared in gaming but not as a GitHub source — skipping (use `nixlayer remove` for plain packages)."
    );
    let plan = github_remove(&paths(), &READY, &files, "hyprland-git", false, false);
    let files = carry_out(files, &plan);
    assert!(loaded(&files, "gaming").github.is_empty());
    assert!(matches!(
        github_remove(&paths(), &READY, &files, "nope", false, false).outcome,
        Outcome::Fail(NixlayerError::PackageNotManaged(_))
    ));
}

#[test]
fn sources_are_updated() {
    let files = vec![gaming()];
    let (c, existing) = begin_update(&paths(), &READY, &files, "hyprland-git").unwrap();
    assert_eq!(re_resolving(&existing, false).text, "re-resolving hyprwm/Hyprland@main...");
    let plan = github_update(c, &existing, "hyprland-git", &pinned(), false, false);
    assert_eq!(lines(&plan)[0], "[ok] updated 'hyprland-git': 8f3a91c2b1d4 -> 0123456789ab");
    let after = carry_out(files, &plan);
    let sources = loaded(&after, "gaming").github;
    assert_eq!(sources.len(), 1);
    assert_eq!((sources[0].name.as_str(), sources[0].rev.as_str()), ("hyprland-git", "0123456789abcdef"));

    let (c, existing) = begin_update(&paths(), &READY, &after, "hyprland-git").unwrap();
    let plan = github_update(c, &existing, "hyprland-git", &pinned(), false, false);
    assert_eq!(lines(&plan), vec!["'hyprland-git' is already pinned to the latest commit (0123456789ab)."]);
    let mut newer = pinned();
    newer.rev = "fedcba9876543210".to_string();
    let (c, existing) = begin_update(&paths(), &READY, &after, "hyprland-git").unwrap();
    let plan = github_update(c, &existing, "hyprland-git", &newer, true, false);
    assert_eq!(lines(&plan), vec!["[dry-run] would move 'hyprland-git' from 0123456789ab to fedcba987654"]);
    assert!(matches!(begin_update(&paths(), &READY, &after, "steam"), Err(NixlayerError::Other(m)) if m == "'steam' is in gaming but isn't a GitHub source."));
    assert!(matches!(begin_update(&paths(), &READY, &after, "nope"), Err(NixlayerError::PackageNotManaged(_))));
}

fn installed(name: &str, likely: bool, backend: ProfileBackend) -> ProfileEntry {
    ProfileEntry {
        display_name: format!("{name}-1.0"),
        guessed_attr: name.to_string(),
        likely_nixpkgs: likely,
        backend,
        removal_key: name.to_string(),
    }
}

fn fates() -> (Vec<StoredFile>, Vec<Fate>) {
    let files = vec![plain("app", &["vlc"])];
    let all = load_all(&paths(), &files);
    let entries = vec![
        (installed("firefox", true, ProfileBackend::NixEnv), Answer::Found(package("firefox"))),
        (installed("vlc", true, ProfileBackend::NixEnv), Answer::NotAsked),
        (installed("odd", false, ProfileBackend::NixProfile), Answer::NotAsked),
        (installed("gone", true, ProfileBackend::NixProfile), Answer::Failed(NixlayerError::Other("no".to_string()))),
        (installed("mpv", true, ProfileBackend::NixProfile), Answer::Found(package("mpv"))),
    ];
    let asked: Vec<bool> = entries.iter().map(|e| needs_answer(&all, &e.0)).collect();
    assert_eq!(asked, vec![true, false, false, true, true]);
    let fates = sort_entries(&all, &entries);
    (files, fates)
}

#[test]
fn imports_are_sorted_and_written() {
    let (files, fates) = fates();
    let plan = import_profile(&paths(), &files, "import", &fates, false, false);
    assert_eq!(
        lines(&plan),
        vec![
            "[ok] imported 2 package(s) into /etc/nixos/modules/nixlayer/import.nix",
            "    firefox (from firefox-1.0)",
            "    mpv (from mpv-1.0)",
            "[warn] 1 already managed elsewhere, skipped:",
            "    vlc-1.0 (already in 'app')",
            "[warn] 2 couldn't be confidently matched, not imported:",
            "    odd-1.0 — not clearly from nixpkgs — see `nixlayer github add` for non-nixpkgs sources",
            "    gone-1.0 — no",
            "Run `nixlayer rebuild` once you're happy with import.nix.",
        ]
    );
    assert_eq!(writes(&plan), 1);
    let after = carry_out(files, &plan);
    assert_eq!(loaded(&after, "import").packages, vec!["firefox".to_string(), "mpv".to_string()]);
    assert_eq!(
        ask_removal(&fates, false).unwrap(),
        "\nRemove these 2 package(s) from your nix-env/profile now? (only do this after you've confirmed the rebuild works)"
    );
    assert_eq!(
        lines(&left_installed(&fates)),
        vec![
            "Left your profile untouched. Remove them yourself later if you'd like:",
            "    nix-env -e firefox",
            "    nix profile remove mpv",
        ]
    );
}

#[test]
fn dry_and_empty_imports_write_nothing() {
    let (files, fates) = fates();
    let plan = import_profile(&paths(), &files, "import", &fates, true, false);
    assert_eq!(writes(&plan), 0);
    assert_eq!(
        lines(&plan)[0],
        "[dry-run] would add 2 package(s) to /etc/nixos/modules/nixlayer/import.nix:"
    );
    assert!(ask_removal(&fates, true).is_none());
    let plan = import_profile(&paths(), &files, "import", &vec![], false, false);
    assert_eq!(lines(&plan), vec!["Nothing found installed imperatively — nothing to import."]);
    let managed = vec![Fate::Managed(installed("vlc", true, ProfileBackend::NixEnv), "app".to_string())];
    let plan = import_profile(&paths(), &files, "import", &managed, false, false);
    assert_eq!(lines(&plan)[0], "No new packages to import.");
    assert_eq!(writes(&plan), 0);
    assert_eq!(
        scanning(false).text,
        "scanning nix-env / nix profile for imperatively-installed packages..."
    );
}

#[test]
fn removals_are_told() {
    let e = installed("x", true, ProfileBackend::NixEnv);
    let l = removed_line(&e, &Ok(()), false);
    assert_eq!((l.text.as_str(), l.to_stderr), ("[ok] removed 'x-1.0' from your profile", false));
    let l = removed_line(&e, &Err(NixlayerError::Other("m".to_string())), false);
    assert_eq!(
        l.text,
        "[error] couldn't remove 'x-1.0' automatically: m\n  Check `nix profile list` / `nix-env -q` and remove it yourself if needed."
    );
    assert!(l.to_stderr);
}

#[test]
fn a_yes_removes_what_was_imported() {
    let (_, fates) = fates();
    let names: Vec<String> = imported(&fates).iter().map(|e| e.display_name.clone()).collect();
    assert_eq!(names, vec!["firefox-1.0", "mpv-1.0"]);
    let calls: Vec<Vec<String>> = removals(&fates, &Some("y\n".to_string()))
        .into_iter()
        .map(|c| [vec![c.program], c.args].concat())
        .collect();
    assert_eq!(
        calls,
        vec![
            vec!["nix-env", "-e", "firefox"],
            vec!["nix", "--extra-experimental-features", "nix-command flakes", "profile", "remove", "mpv"],
        ]
    );
    for answer in [None, Some(String::new()), Some("n\n".to_string()), Some("sure\n".to_string())] {
        assert!(removals(&fates, &answer).is_empty());
    }
}

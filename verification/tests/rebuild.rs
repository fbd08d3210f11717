use nixlayer::category::{load_all, Category};
use nixlayer::cli::RebuildMode;
use nixlayer::doctor::{self, Level, Observed};
use nixlayer::error::NixlayerError;
use nixlayer::nixfile::SyntaxCheck;
use nixlayer::paths::{Found, Paths, StoredFile};
use nixlayer::plan::Outcome;
use nixlayer::rebuild::{record, run, step, validate, Mode, RebuildResult, RebuildStep, Validation};
use nixlayer::show;

fn paths() -> Paths {
    Paths::at("/etc/nixos".to_string(), true, false)
}

fn category(name: &str, pkgs: &[&str]) -> StoredFile {
    let mut c = Category::new_empty(name, format!("{name}.nix"));
    for p in pkgs {
        c.add(p);
    }
    StoredFile { name: format!("{name}.nix"), text: Ok(c.render().unwrap()) }
}

const READY: Found = Found { dir: true, default_nix: true };

#[test]
fn validate_fails_on_duplicates() {
    let all = load_all(&paths(), &vec![category("app", &["steam"]), category("gaming", &["steam"])]);
    match validate(&paths(), &READY, &all, &vec![]) {
        Validation::Refused(err) => {
            assert!(matches!(&err, NixlayerError::UnsafeToRebuild(m)
                if m == "duplicate package declaration: 'steam' appears in 2 category files (app, gaming)."));
        }
        other => panic!("expected a refusal, got {other:?}"),
    }
}

#[test]
fn validate_passes_clean_setup() {
    let all = load_all(&paths(), &vec![category("app", &["firefox"])]);
    let mut checks = Vec::new();
    let mut asked = Vec::new();
    loop {
        match validate(&paths(), &READY, &all, &checks) {
            Validation::Check(path) => {
                asked.push(path);
                checks.push(SyntaxCheck::Skipped);
            }
            Validation::Passed => break,
            Validation::Refused(e) => panic!("refused: {e:?}"),
        }
    }
    assert_eq!(
        asked,
        vec!["/etc/nixos/modules/nixlayer/default.nix", "/etc/nixos/modules/nixlayer/app.nix"]
    );
}

#[test]
fn validate_refuses_broken_and_invalid_files() {
    let broken = StoredFile { name: "b.nix".to_string(), text: Ok("{ }".to_string()) };
    let all = load_all(&paths(), &vec![category("app", &["firefox"]), broken]);
    assert!(matches!(validate(&paths(), &READY, &all, &vec![]),
        Validation::Refused(NixlayerError::UnsafeToRebuild(m)) if m.starts_with("category 'b' failed to parse: refusing to auto-manage")));
    let all = load_all(&paths(), &vec![category("app", &["firefox"])]);
    let checks = vec![SyntaxCheck::Valid, SyntaxCheck::Invalid("oops".to_string())];
    assert!(matches!(validate(&paths(), &READY, &all, &checks),
        Validation::Refused(NixlayerError::UnsafeToRebuild(m)) if m == "/etc/nixos/modules/nixlayer/app.nix has invalid Nix syntax:\noops"));
    let none = Found { dir: true, default_nix: false };
    assert!(matches!(
        validate(&paths(), &none, &all, &vec![]),
        Validation::Refused(NixlayerError::NotInitialized(_))
    ));
}

#[test]
fn the_tool_of_the_system_is_run() {
    match step(Validation::Passed, Mode::Boot, false, true) {
        RebuildStep::Launch(call) => {
            assert_eq!((call.program.as_str(), call.args), ("nixos-rebuild", vec!["boot".to_string()]))
        }
        _ => panic!("expected a launch"),
    }
    assert!(matches!(step(Validation::Passed, Mode::Switch, false, false),
        RebuildStep::Refused(NixlayerError::Other(m)) if m.starts_with("`nixos-rebuild` not found on PATH.")));
    assert!(matches!(step(Validation::Passed, Mode::Switch, true, true), RebuildStep::Done));
    assert!(matches!(step(Validation::Passed, Mode::Switch, true, false), RebuildStep::Done));
    assert_eq!(Mode::Test.as_arg(), "test");
    assert_eq!(Mode::from(RebuildMode::Switch), Mode::Switch);
    assert_eq!(Mode::from(RebuildMode::Boot), Mode::Boot);
    assert_eq!(Mode::from(RebuildMode::Test), Mode::Test);
}

#[test]
fn nothing_is_launched_before_everything_has_passed() {
    let sound = load_all(&paths(), &vec![category("app", &["firefox"])]);
    let next = |checks: Vec<SyntaxCheck>, dry_run: bool| {
        run(&paths(), &READY, &sound, &checks, Mode::Switch, dry_run, true)
    };
    assert!(matches!(next(vec![], false), RebuildStep::Check(p) if p == "/etc/nixos/modules/nixlayer/default.nix"));
    assert!(matches!(next(vec![SyntaxCheck::Valid], false), RebuildStep::Check(p) if p == "/etc/nixos/modules/nixlayer/app.nix"));
    assert!(matches!(next(vec![SyntaxCheck::Valid, SyntaxCheck::Skipped], false), RebuildStep::Launch(_)));
    assert!(matches!(next(vec![SyntaxCheck::Valid, SyntaxCheck::Skipped], true), RebuildStep::Done));
    assert!(matches!(
        next(vec![SyntaxCheck::Invalid("oops".to_string())], false),
        RebuildStep::Refused(NixlayerError::UnsafeToRebuild(_))
    ));
    let twice = load_all(&paths(), &vec![category("a", &["x"]), category("b", &["x"])]);
    let checks = vec![SyntaxCheck::Valid, SyntaxCheck::Valid, SyntaxCheck::Valid];
    assert!(matches!(
        run(&paths(), &READY, &twice, &checks, Mode::Switch, false, true),
        RebuildStep::Refused(NixlayerError::UnsafeToRebuild(_))
    ));
}

#[test]
fn only_success_is_recorded() {
    let all = || Ok(load_all(&paths(), &vec![category("app", &["vlc", "firefox"])]));
    let unlisted = || Err(NixlayerError::Io("denied".to_string()));
    let s = record(&RebuildResult::Ended(true, Some(0)), all()).unwrap();
    assert_eq!(s.packages("app"), vec!["firefox".to_string(), "vlc".to_string()]);
    assert!(matches!(record(&RebuildResult::Ended(false, Some(3)), all()), Err(NixlayerError::RebuildFailed(3))));
    assert!(matches!(record(&RebuildResult::Ended(false, None), all()), Err(NixlayerError::RebuildFailed(-1))));
    assert!(matches!(record(&RebuildResult::NotLaunched("x".to_string()), all()),
        Err(NixlayerError::Other(m)) if m == "failed to launch nixos-rebuild: x"));
    // A failed rebuild is told, whatever came of listing the files after it.
    assert!(matches!(record(&RebuildResult::Ended(false, Some(3)), unlisted()), Err(NixlayerError::RebuildFailed(3))));
    assert!(matches!(record(&RebuildResult::Ended(true, Some(0)), unlisted()), Err(NixlayerError::Io(m)) if m == "denied"));
}

#[test]
fn a_dry_rebuild_stops_after_validation() {
    let shown = |v: Validation, dry_run: bool| show::rebuild(v, Mode::Test, dry_run, false);
    assert!(matches!(shown(Validation::Passed, true).unwrap().outcome, Outcome::Done));
    assert!(matches!(shown(Validation::Passed, false).unwrap().outcome, Outcome::Rebuild(Mode::Test)));
    assert!(shown(Validation::Check("f".to_string()), false).is_none());
    let refused = shown(Validation::Refused(NixlayerError::NoNixFound), false).unwrap();
    assert!(refused.steps.is_empty());
    assert!(matches!(refused.outcome, Outcome::Fail(NixlayerError::NoNixFound)));
}

fn healthy() -> Observed {
    Observed {
        has_nix: true,
        has_nix_env: false,
        has_nix_instantiate: true,
        paths: Ok(paths()),
        found: READY,
        default_nix: Some(SyntaxCheck::Valid),
        configuration: "imports = [ ./modules/nixlayer/default.nix ];".to_string(),
        categories: Ok(load_all(&paths(), &vec![category("app", &["firefox"])])),
        checks: vec![SyntaxCheck::Valid],
    }
}

#[test]
fn a_healthy_setup_has_no_errors() {
    let report = doctor::run(&healthy());
    assert!(!report.has_errors());
    let messages: Vec<&str> = report.findings.iter().map(|f| f.message.as_str()).collect();
    assert_eq!(
        messages,
        vec![
            "`nix` found — using flake-based search/eval.",
            "NixOS configuration found at /etc/nixos",
            "nixlayer module present at /etc/nixos/modules/nixlayer",
            "configuration.nix imports the nixlayer module.",
            "no duplicate package declarations across categories.",
            "Tip: `nixlayer info <package>` shows whether a specific package is unfree before you add it.",
        ]
    );
    assert!(matches!(show::doctor(&report, false).outcome, Outcome::Done));
}

#[test]
fn what_is_wrong_is_an_error() {
    let errors = |o: Observed| -> Vec<String> {
        let report = doctor::run(&o);
        let v: Vec<String> = report
            .findings
            .iter()
            .filter(|f| f.level == Level::Error)
            .map(|f| f.message.clone())
            .collect();
        assert_eq!(report.has_errors(), !v.is_empty());
        assert_eq!(matches!(show::doctor(&report, true).outcome, Outcome::Exit), !v.is_empty());
        v
    };
    let mut o = healthy();
    o.has_nix = false;
    assert_eq!(errors(o), vec!["no Nix package manager found at all (checked `nix`, `nix-env`). nixlayer needs Nix to search/validate packages."]);
    let mut o = healthy();
    o.paths = Err(NixlayerError::ConfigNotFound("/x".to_string()));
    assert_eq!(errors(o).len(), 1);
    let mut o = healthy();
    o.default_nix = None;
    assert_eq!(errors(o), vec!["modules/nixlayer/default.nix is missing."]);
    let mut o = healthy();
    o.default_nix = Some(SyntaxCheck::Invalid("m".to_string()));
    assert_eq!(errors(o), vec!["default.nix has invalid Nix syntax: m"]);
    let mut o = healthy();
    o.checks = vec![SyntaxCheck::Invalid("m".to_string())];
    assert_eq!(errors(o), vec!["/etc/nixos/modules/nixlayer/app.nix: invalid Nix syntax: m"]);
    let mut o = healthy();
    o.categories = Ok(load_all(&paths(), &vec![category("a", &["x"]), category("b", &["x"])]));
    assert_eq!(errors(o), vec!["duplicate package declaration: 'x' appears in: a, b"]);
    let mut o = healthy();
    o.categories = Err(NixlayerError::Io("io".to_string()));
    assert_eq!(errors(o), vec!["could not check for duplicates: io"]);
    let mut o = healthy();
    o.categories = Ok(vec![("b".to_string(), Err(NixlayerError::Other("m".to_string())))]);
    assert_eq!(errors(o), vec!["category 'b' could not be parsed: m"]);
}

#[test]
fn doubts_are_warnings() {
    let mut o = healthy();
    o.has_nix = false;
    o.has_nix_env = true;
    o.has_nix_instantiate = false;
    o.configuration = String::new();
    o.categories = Ok(load_all(&paths(), &vec![category("app", &[])]));
    let report = doctor::run(&o);
    assert!(!report.has_errors());
    assert_eq!(report.findings.iter().filter(|f| f.level == Level::Warn).count(), 4);
    let mut o = healthy();
    o.found = Found { dir: false, default_nix: false };
    let report = doctor::run(&o);
    assert_eq!(
        report.findings.last().unwrap().message,
        "nixlayer is not initialized yet (/etc/nixos/modules/nixlayer missing). Run `nixlayer init`."
    );
    let mut o = healthy();
    o.paths = Ok(Paths::at("/x".to_string(), false, false));
    o.categories = Ok(vec![]);
    assert!(!doctor::run(&o).has_errors());
}

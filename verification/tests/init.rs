use nixlayer::category::Category;
use nixlayer::default_nix::render;
use nixlayer::error::NixlayerError;
use nixlayer::init::{
    find_imports_marker, judge_edit, patch_configuration, run, BeforeInit, Patch, IMPORT_LINE,
};
use nixlayer::nixfile::SyntaxCheck;
use nixlayer::paths::{Found, Paths};
use nixlayer::plan::{Outcome, Step};
use nixlayer::show;

fn before(text: &str) -> BeforeInit {
    BeforeInit {
        found: Found { dir: false, default_nix: false },
        default_category: false,
        configuration: Ok(text.to_string()),
        secs: 42,
    }
}

fn edited(text: &str) -> String {
    match patch_configuration("configuration.nix", text) {
        Patch::Edit(t) => t,
        other => panic!("expected an edit, got {other:?}"),
    }
}

#[test]
fn patches_simple_imports_list() {
    let out = edited(
        "{ config, pkgs, ... }:\n{\n  imports = [\n    ./hardware-configuration.nix\n  ];\n\n  networking.hostName = \"box\";\n}\n",
    );
    assert!(out.contains("./hardware-configuration.nix"));
    assert!(out.contains(IMPORT_LINE));
    assert!(out.contains("networking.hostName"));
    assert_eq!(
        out,
        "{ config, pkgs, ... }:\n{\n  imports = [\n    ./hardware-configuration.nix\n    ./modules/nixlayer/default.nix\n  ];\n\n  networking.hostName = \"box\";\n}\n"
    );
}

#[test]
fn idempotent_if_already_present() {
    let text = format!("{{ ... }}:\n{{\n  imports = [\n    {}\n  ];\n}}\n", IMPORT_LINE);
    assert!(matches!(patch_configuration("c", &text), Patch::AlreadyImported));
    let once = edited("{ ... }:\n{\n  imports = [ ./a.nix ];\n}\n");
    assert!(matches!(patch_configuration("c", &once), Patch::AlreadyImported));
}

#[test]
fn refuses_ambiguous_double_imports() {
    let p = patch_configuration(
        "/c.nix",
        "{ ... }:\n{\n  imports = [ ./a.nix ];\n}\n# oops two files concatenated\n{ ... }:\n{\n  imports = [ ./b.nix ];\n}\n",
    );
    match p {
        Patch::ByHand(m) => {
            assert!(m.starts_with("/c.nix contains more than one `imports = [ ... ];` block"));
            assert!(m.ends_with("\n\n    ./modules/nixlayer/default.nix\n"));
        }
        _ => panic!("ambiguous file must be left untouched"),
    }
}

#[test]
fn dry_run_does_not_write() {
    let paths = Paths::at("/x".to_string(), true, false);
    let plan = run(&paths, &before("{ ... }:\n{\n  imports = [\n  ];\n}\n"), true);
    assert!(plan.report.unwrap().configuration_nix_patched);
    assert!(plan.steps.is_empty() && plan.create_dir.is_none() && plan.original.is_none());
}

#[test]
fn creates_backup_on_write() {
    let text = "{ ... }:\n{\n  imports = [\n  ];\n}\n";
    let paths = Paths::at("/x".to_string(), true, false);
    let plan = run(&paths, &before(text), false);
    assert_eq!(plan.create_dir.as_deref(), Some("/x/modules/nixlayer"));
    assert_eq!(plan.original.as_deref(), Some(text));
    let writes: Vec<(String, String)> = plan
        .steps
        .into_iter()
        .map(|s| match s {
            Step::Write(p, t) => (p, t),
            _ => panic!("expected writes only"),
        })
        .collect();
    assert_eq!(
        writes,
        vec![
            ("/x/modules/nixlayer/default.nix".to_string(), render().to_string()),
            ("/x/modules/nixlayer/app.nix".to_string(), Category::template("app")),
            ("/x/configuration.nix.bak-42".to_string(), text.to_string()),
            ("/x/configuration.nix".to_string(), edited(text)),
        ]
    );
    assert_eq!(edited(text), "{ ... }:\n{\n  imports = [    ./modules/nixlayer/default.nix\n  ];\n}\n");
}

#[test]
fn a_list_on_one_line_gets_a_line_of_its_own() {
    assert_eq!(
        edited("imports=[./a.nix];"),
        "imports=[./a.nix\n    ./modules/nixlayer/default.nix\n];"
    );
    assert_eq!(edited("imports = [ ./a.nix ]"), "imports = [ ./a.nix\n    ./modules/nixlayer/default.nix ]");
}

#[test]
fn only_definitions_count() {
    assert_eq!(find_imports_marker("# imports = [\n\t imports\n  = [ ]"), Some(16));
    assert_eq!(find_imports_marker("importsimports = [ ]"), None);
    assert_eq!(find_imports_marker("é\nimports=["), Some(2));
    assert_eq!(find_imports_marker("é\nimports=1"), None);
    assert_eq!(find_imports_marker("imports == [ ]"), None);
    assert_eq!(find_imports_marker("imports =\n    [ # Include the results"), Some(0));
    assert_eq!(find_imports_marker("imports [ ]"), None);
    assert!(matches!(patch_configuration("c", "x.imports = [ ];"), Patch::ByHand(_)));
    match patch_configuration("/c.nix", "imports = 1;") {
        Patch::ByHand(m) => assert_eq!(
            m,
            "Could not confidently find an `imports = [ ... ];` list in /c.nix.\nAdd this line to your imports list by hand:\n\n    ./modules/nixlayer/default.nix\n"
        ),
        _ => panic!("expected instructions"),
    }
}

#[test]
fn no_other_list_is_touched() {
    let text = "{ ... }:\n{\n  imports = import ./m.nix;\n  boot.kernelParams = [ \"quiet\" ];\n}\n";
    assert!(matches!(patch_configuration("/c.nix", text), Patch::ByHand(m)
        if m.starts_with("Could not confidently find an `imports = [ ... ];` list in /c.nix.")));
    let both = "imports = import ./m.nix;\nx = [ 1 ];\nimports = [ ./a.nix ];";
    assert_eq!(
        edited(both),
        "imports = import ./m.nix;\nx = [ 1 ];\nimports = [ ./a.nix\n    ./modules/nixlayer/default.nix ];"
    );
}

#[test]
fn edited_lists_gain_one_word() {
    let out = edited("{\n  imports = [ ./a.nix\n\t./b.nix ];\n}\n");
    let inner = &out[out.find('[').unwrap() + 1..out.find(']').unwrap()];
    assert_eq!(
        inner.split_whitespace().collect::<Vec<&str>>(),
        vec!["./a.nix", "./b.nix", "./modules/nixlayer/default.nix"]
    );
}

#[test]
fn without_configuration_the_user_is_told() {
    let paths = Paths::at("/x".to_string(), false, false);
    let plan = run(&paths, &before(""), false);
    let report = plan.report.unwrap();
    assert_eq!(
        report.manual_step_needed.as_deref(),
        Some("No configuration.nix found at /x. Add this import to whichever module makes up your system config:\n\n    ./modules/nixlayer/default.nix\n")
    );
    assert!(report.created_dir && report.created_default_nix && report.created_default_category);
    assert_eq!(plan.steps.len(), 2);
}

#[test]
fn setting_up_twice_is_refused() {
    let paths = Paths::at("/x".to_string(), true, false);
    let mut b = before("");
    b.found = Found { dir: true, default_nix: true };
    let plan = run(&paths, &b, false);
    assert!(plan.steps.is_empty() && plan.create_dir.is_none());
    assert!(matches!(plan.report, Err(NixlayerError::AlreadyInitialized(d)) if d == "/x/modules/nixlayer"));
}

#[test]
fn an_unreadable_configuration_is_an_error_after_the_module() {
    let paths = Paths::at("/x".to_string(), true, false);
    let mut b = before("");
    b.configuration = Err("denied".to_string());
    b.default_category = true;
    let plan = run(&paths, &b, false);
    assert_eq!(plan.steps.len(), 1);
    assert!(matches!(plan.report, Err(NixlayerError::Io(m)) if m == "denied"));
}

#[test]
fn invalid_edits_are_reverted() {
    for check in [SyntaxCheck::Valid, SyntaxCheck::Skipped] {
        let plan = judge_edit("/c", "old", &check);
        assert!(plan.steps.is_empty() && matches!(plan.outcome, Outcome::Done));
    }
    let plan = judge_edit("/c", "old", &SyntaxCheck::Invalid("line 1".to_string()));
    assert_eq!(plan.steps.len(), 1);
    assert!(matches!(&plan.steps[0], Step::Write(path, text) if path == "/c" && text == "old"));
    match plan.outcome {
        Outcome::Fail(NixlayerError::Other(m)) => assert_eq!(
            m,
            "patching /c would have produced invalid Nix syntax, so nixlayer reverted it:\nline 1\n\nPlease add this line to your imports list by hand:\n\n    ./modules/nixlayer/default.nix\n"
        ),
        _ => panic!("expected an error"),
    }
}

#[test]
fn the_report_is_shown() {
    let paths = Paths::at("/x".to_string(), true, false);
    let report = run(&paths, &before("imports = [ ];"), true).report.unwrap();
    let lines = |dry: bool| -> Vec<String> {
        let plan = show::init(&report, dry, false);
        assert!(matches!(plan.outcome, Outcome::Done));
        plan.steps
            .into_iter()
            .map(|s| match s {
                Step::Print(l) => l.text,
                _ => panic!("expected lines only"),
            })
            .collect()
    };
    assert_eq!(
        lines(true),
        vec![
            "[ok] [dry-run] create modules/nixlayer/",
            "[ok] [dry-run] write modules/nixlayer/default.nix",
            "[ok] [dry-run] write modules/nixlayer/app.nix (empty default category)",
            "[ok] [dry-run] add `./modules/nixlayer/default.nix` to configuration.nix's imports",
            "\nDry run — nothing was written. Re-run without --dry-run to apply.",
        ]
    );
    assert_eq!(
        lines(false).last().unwrap(),
        "\nDone — nixlayer is ready. Try `nixlayer add firefox`, then `nixlayer rebuild`."
    );
}
